//! The state of the interface and every decision it makes: what each row says, in what
//! order the rows come, where the cursor is, and what to ask the cluster and `git` next.
//!
//! Asking is left to the caller. The state records what it wants done as actions; the
//! caller performs them and hands the answers back, with the time they arrived.
use crate::browser::{commit_url, commit_url_spec};
use crate::chars::{
    concat, contains_chars, contains_seq, lowercase, push_char, same_str, string_of, to_chars,
    to_lower,
};
use crate::context::Cluster;
use crate::errors::MsgError;
use crate::pods::{elapsed, readiness_text, tag_of, MyContainer, MyPod};
use crate::remote::{
    mode_label,
    prefix_upto, opt_remote_view, ref_label, SHORT_HASH_LEN,
    opt_str_view,
    image_ref_of, judge, judge_spec, lookup_view, mode_toggled, of_parts_spec, opt_ref_view,
    state_after, Failure, ImageRef, LookupError, Mode, RefView, RemoteState, RemoteView, Target,
    Unresolved, Verdict,
};
use crate::drawer::order::{
    lemma_key_lt_append, lemma_key_lt_asymmetric, lemma_key_lt_irreflexive, ints_of, key_lt, key_of, keys_distinct, lemma_sortable, lemma_sorted_unique, sort_by_keys,
    sorted_with,
};
use crate::storage::common::Repo;
use crate::storage::json_storage::{first_named, JsonStorage};
use crate::text::{
    decimal, decimal_string, duration_text, short_duration, family_of, family_prefix, pod_parts, push_decimal,
    shared_of, shared_prefix, split_pod_name,
};
use vstd::prelude::*;

verus! {

/// How long a reported action stays in the footer before the summary comes back, in
/// milliseconds.
pub const NOTE_TTL_MS: u64 = 6000;

/// Deployed commits shown per namespace before the rest is counted as `+N`.
pub const DEPLOYED_GROUPS: usize = 2;

/// Frames one spinner step lasts, at roughly ten frames per second.
pub const SPINNER_STEP: usize = 2;

/// What the upper footer line shows.
#[derive(Clone, Copy, PartialEq, Eq, Structural, Debug)]
pub enum StatusContent {
    /// The note of what just happened, or of what holds the selection back.
    Note,
    /// What is selected on the detail screen.
    Selection,
    /// The note of the selected row, which the narrow overview has no column for.
    RowNote,
    /// The tally, or the progress of the lookups.
    Summary,
}

#[derive(Clone, Copy, PartialEq, Eq, Structural, Debug)]
pub enum Screen {
    Overview,
    Detail,
}

#[derive(Clone, Copy, PartialEq, Eq, Structural, Debug)]
pub enum Input {
    Normal,
    Search,
    Help,
}

#[derive(Clone, Copy, PartialEq, Eq, Structural, Debug)]
pub enum Pane {
    Namespaces,
    Pods,
    Containers,
}

#[derive(Clone, Copy, PartialEq, Eq, Structural, Debug)]
pub enum Filter {
    All,
    Problems,
    Unknown,
}

pub open spec fn filter_label(f: Filter) -> Seq<char> {
    match f {
        Filter::All => "all"@,
        Filter::Problems => "problems"@,
        Filter::Unknown => "unknown"@,
    }
}

pub open spec fn filter_next(f: Filter) -> Filter {
    match f {
        Filter::All => Filter::Problems,
        Filter::Problems => Filter::Unknown,
        Filter::Unknown => Filter::All,
    }
}

/// Which verdicts a filter keeps: everything, what needs acting on, or what cannot be told.
pub open spec fn filter_accepts(f: Filter, v: Verdict) -> bool {
    match f {
        Filter::All => true,
        Filter::Problems => v is Behind || v is Failed,
        Filter::Unknown => v is Resolving || v is Unknown,
    }
}

impl Filter {
    pub fn label(self) -> (r: &'static str)
        ensures
            r@ == filter_label(self),
    {
        match self {
            Filter::All => "all",
            Filter::Problems => "problems",
            Filter::Unknown => "unknown",
        }
    }

    pub fn next(self) -> (r: Filter)
        ensures
            r == filter_next(self),
    {
        match self {
            Filter::All => Filter::Problems,
            Filter::Problems => Filter::Unknown,
            Filter::Unknown => Filter::All,
        }
    }

    pub fn accepts(self, verdict: Verdict) -> (r: bool)
        ensures
            r == filter_accepts(self, verdict),
    {
        match self {
            Filter::All => true,
            Filter::Problems => matches!(verdict, Verdict::Behind | Verdict::Failed(_)),
            Filter::Unknown => matches!(verdict, Verdict::Resolving | Verdict::Unknown(_)),
        }
    }
}

#[derive(Clone, Copy, PartialEq, Eq, Structural, Debug)]
pub enum Sort {
    Status,
    Name,
    Pods,
}

pub open spec fn sort_label(s: Sort) -> Seq<char> {
    match s {
        Sort::Status => "status"@,
        Sort::Name => "name"@,
        Sort::Pods => "pods"@,
    }
}

pub open spec fn sort_next(s: Sort) -> Sort {
    match s {
        Sort::Status => Sort::Name,
        Sort::Name => Sort::Pods,
        Sort::Pods => Sort::Status,
    }
}

impl Sort {
    pub fn label(self) -> (r: &'static str)
        ensures
            r@ == sort_label(self),
    {
        match self {
            Sort::Status => "status",
            Sort::Name => "name",
            Sort::Pods => "pods",
        }
    }

    pub fn next(self) -> (r: Sort)
        ensures
            r == sort_next(self),
    {
        match self {
            Sort::Status => Sort::Name,
            Sort::Name => Sort::Pods,
            Sort::Pods => Sort::Status,
        }
    }
}

/// Cycling the filter or the sort comes back to where it started after three steps.
pub proof fn cycling_comes_back_round(f: Filter, s: Sort)
    ensures
        filter_next(filter_next(filter_next(f))) == f,
        sort_next(sort_next(sort_next(s))) == s,
        filter_next(f) != f,
        sort_next(s) != s,
{
}

/// What is known about the pods of one namespace.
pub enum PodsState {
    Listing,
    Ready(Vec<MyPod>),
    Failed(String),
}

pub struct Entry {
    pub name: String,
    pub pods: PodsState,
}

/// The pods of an entry, none while they are being listed or could not be.
pub open spec fn pods_of(e: Entry) -> Seq<MyPod> {
    match e.pods {
        PodsState::Ready(pods) => pods@,
        _ => Seq::empty(),
    }
}

impl Entry {
    pub fn pod_list(&self) -> (r: &[MyPod])
        ensures
            r@ == pods_of(*self),
    {
        match &self.pods {
            PodsState::Ready(pods) => pods.as_slice(),
            _ => &[],
        }
    }
}

#[derive(Clone, Copy, PartialEq, Eq, Structural, Debug)]
pub enum NoteKind {
    /// An action that went through.
    Done,
    Warn,
    Error,
}

/// One line about what just happened, or about why the selected namespace cannot be judged.
pub struct Note {
    pub kind: NoteKind,
    pub text: String,
    pub retry: bool,
    /// A standing problem, read off the state rather than reported once. Esc cannot make it
    /// go away, so the footer must not offer to.
    pub standing: bool,
}

pub struct Counts {
    pub in_sync: usize,
    pub behind: usize,
    pub failed: usize,
    pub unknown: usize,
}

impl Default for Counts {
    fn default() -> (r: Counts)
        ensures
            r.in_sync == 0 && r.behind == 0 && r.failed == 0 && r.unknown == 0,
    {
        Counts { in_sync: 0, behind: 0, failed: 0, unknown: 0 }
    }
}

/// What the references on screen are. The mode says what pods are compared *against*, not
/// what they carry: a cluster built from branches runs commits even in tag mode, and one
/// built from releases runs tags even in commit mode.
#[derive(Debug, Clone, Copy, PartialEq, Eq, Structural)]
pub enum RefKind {
    Commits,
    Tags,
    Mixed,
}

/// One deployed reference and how many pods run it.
pub struct Deployed {
    pub label: String,
    pub count: usize,
    pub verdict: Verdict,
}

/// A namespace as the tables show it.
pub struct NsRow {
    pub name: String,
    /// Characters of the shared prefix, dimmed instead of cut.
    pub prefix: usize,
    pub verdict: Verdict,
    pub pods: Option<usize>,
    pub deployed: Vec<Deployed>,
    pub hidden_deployed: usize,
    pub reference: String,
    pub note: String,
}

/// The namespace list of the detail screen, where families get a heading.
pub enum MiniRow {
    Family(String),
    Namespace(NsRow),
}

pub struct PodRow {
    pub prefix: String,
    pub replicaset: String,
    pub suffix: String,
    pub verdict: Verdict,
    pub reference: String,
    pub status: String,
    pub restarts: i32,
    pub age: String,
    pub readiness: String,
}

pub struct ContainerRow {
    pub name: String,
    pub tag: String,
    pub verdict: Verdict,
    /// Plain words for the verdict, so a grey row never stays unexplained.
    pub why: String,
}

/// Work the state wants done outside: listing pods, asking `git`, opening a browser.
pub enum Action {
    /// List the pods of `namespace`; the answer belongs to listing round `round`.
    ListPods { round: u64, namespace: String },
    /// Resolve the repository at `url` for `namespace` in `mode`.
    Resolve { mode: Mode, namespace: String, url: String },
    /// Open `url` in a browser.
    OpenBrowser { url: String },
}

/// An action as text.
pub enum ActionView {
    ListPods { round: u64, namespace: Seq<char> },
    Resolve { mode: Mode, namespace: Seq<char>, url: Seq<char> },
    OpenBrowser { url: Seq<char> },
}

impl View for Action {
    type V = ActionView;

    open spec fn view(&self) -> ActionView {
        match self {
            Action::ListPods { round, namespace } => ActionView::ListPods {
                round: *round,
                namespace: namespace@,
            },
            Action::Resolve { mode, namespace, url } => ActionView::Resolve {
                mode: *mode,
                namespace: namespace@,
                url: url@,
            },
            Action::OpenBrowser { url } => ActionView::OpenBrowser { url: url@ },
        }
    }
}

/// A list of actions as text.
pub open spec fn actions_of(s: Seq<Action>) -> Seq<ActionView> {
    s.map_values(|a: Action| a@)
}

/// The project page of the repository configured for namespace `name`.
pub open spec fn repo_url_of(repos: Seq<Repo>, name: Seq<char>) -> Option<Seq<char>> {
    if first_named(repos, name) >= 0 {
        Some(repos[first_named(repos, name)].url@)
    } else {
        None
    }
}

/// What listing a namespace's pods came to.
pub open spec fn pods_state_of(result: Result<Vec<MyPod>, MsgError>) -> PodsState {
    match result {
        Ok(pods) => PodsState::Ready(pods),
        Err(e) => PodsState::Failed(e.details),
    }
}

/// A note as its parts: kind, text, whether `r` retries, whether it stands.
pub open spec fn note_view(n: Note) -> (NoteKind, Seq<char>, bool, bool) {
    (n.kind, n.text@, n.retry, n.standing)
}

/// The next frame, counting round past the largest.
pub open spec fn next_frame(frame: usize) -> usize {
    if frame == usize::MAX {
        0
    } else {
        (frame + 1) as usize
    }
}

/// `after` is `before` with every cursor on a row that exists: a cursor that has to move
/// goes to the first row, and the cursors below it start over.
pub open spec fn settled(before: App, after: App) -> bool {
    let ns_kept = picks_one_of(before.row_names(), before.picks().0);
    let pod_in = if ns_kept {
        before.picks().1
    } else {
        None
    };
    let pod_kept = picks_one_of(pod_names(after.selected_pods()), pod_in);
    &&& after.picks().0 == keep_or_first(before.row_names(), before.picks().0)
    &&& after.picks().1 == keep_or_first(pod_names(after.selected_pods()), pod_in)
    &&& after.picks().2 == keep_or_first(
        container_names(after.selected_containers()),
        if pod_kept {
            before.picks().2
        } else {
            None
        },
    )
    &&& after == before.with_picks(after.ns_pick, after.pod_pick, after.cont_pick)
}

/// What is known about a repository per mode and namespace: the first entry for that pair.
pub open spec fn remote_in(s: Seq<(Mode, String, RemoteState)>, mode: Mode, name: Seq<char>) -> Option<
    RemoteView,
>
    decreases s.len(),
{
    if s.len() == 0 {
        None
    } else {
        match remote_in(s.drop_last(), mode, name) {
            Some(r) => Some(r),
            None => if s.last().0 == mode && s.last().1@ == name {
                Some(s.last().2@)
            } else {
                None
            },
        }
    }
}

proof fn lemma_remote_at(s: Seq<(Mode, String, RemoteState)>, mode: Mode, name: Seq<char>, j: int)
    requires
        0 <= j < s.len(),
        s[j].0 == mode && s[j].1@ == name,
        forall|i: int| 0 <= i < j ==> !(s[i].0 == mode && s[i].1@ == name),
    ensures
        remote_in(s, mode, name) == Some(s[j].2@),
    decreases s.len(),
{
    if j < s.len() - 1 {
        lemma_remote_at(s.drop_last(), mode, name, j);
    } else {
        lemma_remote_none(s.drop_last(), mode, name);
    }
}

proof fn lemma_remote_none(s: Seq<(Mode, String, RemoteState)>, mode: Mode, name: Seq<char>)
    requires
        forall|i: int| 0 <= i < s.len() ==> !(s[i].0 == mode && s[i].1@ == name),
    ensures
        remote_in(s, mode, name) is None,
    decreases s.len(),
{
    if s.len() > 0 {
        lemma_remote_none(s.drop_last(), mode, name);
    }
}

proof fn lemma_remote_found(s: Seq<(Mode, String, RemoteState)>, mode: Mode, name: Seq<char>)
    ensures
        remote_in(s, mode, name) is None ==> forall|i: int|
            0 <= i < s.len() ==> !(s[i].0 == mode && s[i].1@ == name),
        remote_in(s, mode, name) is Some ==> exists|j: int|
            0 <= j < s.len() && s[j].0 == mode && s[j].1@ == name && s[j].2@ == remote_in(
                s,
                mode,
                name,
            )->0 && forall|i: int| 0 <= i < j ==> !(s[i].0 == mode && s[i].1@ == name),
    decreases s.len(),
{
    if s.len() > 0 {
        let prev = s.drop_last();
        lemma_remote_found(prev, mode, name);
        if remote_in(prev, mode, name) is Some {
            let j = choose|j: int|
                0 <= j < prev.len() && prev[j].0 == mode && prev[j].1@ == name && prev[j].2@
                    == remote_in(prev, mode, name)->0 && forall|i: int|
                    0 <= i < j ==> !(prev[i].0 == mode && prev[i].1@ == name);
            assert(s[j] == prev[j]);
            assert forall|i: int| 0 <= i < j implies !(s[i].0 == mode && s[i].1@ == name) by {
                assert(s[i] == prev[i]);
            }
        } else {
            assert forall|i: int| 0 <= i < s.len() - 1 implies !(s[i].0 == mode && s[i].1@
                == name) by {
                assert(s[i] == prev[i]);
            }
            if s.last().0 == mode && s.last().1@ == name {
                let j = s.len() - 1;
                assert(s[j] == s.last());
            }
        }
    }
}

/// Recording a state for one mode and namespace changes what that pair looks up to and
/// nothing else.
proof fn lemma_remote_after_set(
    s: Seq<(Mode, String, RemoteState)>,
    t: Seq<(Mode, String, RemoteState)>,
    mode: Mode,
    name: Seq<char>,
    state: RemoteView,
)
    requires
        (exists|j: int|
            0 <= j < s.len() && s[j].0 == mode && s[j].1@ == name && (forall|i: int|
                0 <= i < j ==> !(s[i].0 == mode && s[i].1@ == name)) && t.len() == s.len() && t[j].0
                == mode && t[j].1@ == name && t[j].2@ == state && forall|i: int|
                0 <= i < s.len() && i != j ==> t[i] == s[i]) || ((forall|i: int|
            0 <= i < s.len() ==> !(s[i].0 == mode && s[i].1@ == name)) && t.len() == s.len() + 1
            && t.drop_last() == s && t.last().0 == mode && t.last().1@ == name && t.last().2@
            == state),
    ensures
        forall|m: Mode, k: Seq<char>|
            remote_in(t, m, k) == if m == mode && k == name {
                Some(state)
            } else {
                remote_in(s, m, k)
            },
{
    assert forall|m: Mode, k: Seq<char>|
        remote_in(t, m, k) == if m == mode && k == name {
            Some(state)
        } else {
            remote_in(s, m, k)
        } by {
        if exists|j: int|
            0 <= j < s.len() && s[j].0 == mode && s[j].1@ == name && (forall|i: int|
                0 <= i < j ==> !(s[i].0 == mode && s[i].1@ == name)) && t.len() == s.len() && t[j].0
                == mode && t[j].1@ == name && t[j].2@ == state && forall|i: int|
                0 <= i < s.len() && i != j ==> t[i] == s[i] {
            let j = choose|j: int|
                0 <= j < s.len() && s[j].0 == mode && s[j].1@ == name && (forall|i: int|
                    0 <= i < j ==> !(s[i].0 == mode && s[i].1@ == name)) && t.len() == s.len()
                    && t[j].0 == mode && t[j].1@ == name && t[j].2@ == state && forall|i: int|
                    0 <= i < s.len() && i != j ==> t[i] == s[i];
            if m == mode && k == name {
                assert forall|i: int| 0 <= i < j implies !(t[i].0 == m && t[i].1@ == k) by {
                    assert(t[i] == s[i]);
                }
                lemma_remote_at(t, m, k, j);
            } else {
                lemma_remote_found(s, m, k);
                if remote_in(s, m, k) is Some {
                    let j2 = choose|j2: int|
                        0 <= j2 < s.len() && s[j2].0 == m && s[j2].1@ == k && s[j2].2@ == remote_in(
                            s,
                            m,
                            k,
                        )->0 && forall|i: int| 0 <= i < j2 ==> !(s[i].0 == m && s[i].1@ == k);
                    assert(j2 != j);
                    assert(t[j2] == s[j2]);
                    assert forall|i: int| 0 <= i < j2 implies !(t[i].0 == m && t[i].1@ == k) by {
                        if i != j {
                            assert(t[i] == s[i]);
                        }
                    }
                    lemma_remote_at(t, m, k, j2);
                } else {
                    assert forall|i: int| 0 <= i < t.len() implies !(t[i].0 == m && t[i].1@
                        == k) by {
                        if i != j {
                            assert(t[i] == s[i]);
                        }
                    }
                    lemma_remote_none(t, m, k);
                }
            }
        } else {
            lemma_remote_none(s, mode, name);
        }
    }
}

/// What a request for namespace `ns` in `mode` asks `git` to do, with the repositories
/// `repos` configured: nothing when none is configured for it.
pub open spec fn resolve_in(repos: Seq<Repo>, mode: Mode, ns: Seq<char>) -> Seq<ActionView> {
    match repo_url_of(repos, ns) {
        Some(url) => seq![ActionView::Resolve { mode, namespace: ns, url }],
        None => seq![],
    }
}

/// What requests for each of `names` ask `git` to do, in order.
pub open spec fn resolves_in(repos: Seq<Repo>, mode: Mode, names: Seq<Seq<char>>) -> Seq<
    ActionView,
>
    decreases names.len(),
{
    if names.len() == 0 {
        seq![]
    } else {
        resolves_in(repos, mode, names.drop_last()) + resolve_in(repos, mode, names.last())
    }
}

/// How much a container's reference is worth as the pod's: one that could be compared
/// beats one still being looked up, which beats one this mode cannot resolve at all. None
/// for a container that says nothing about this repository.
pub open spec fn reference_rank_spec(v: Verdict) -> Option<int> {
    match v {
        Verdict::InSync | Verdict::Behind => Some(0),
        Verdict::Resolving | Verdict::Failed(_) => Some(1),
        Verdict::Unknown(Unresolved::WrongMode) => Some(2),
        Verdict::Unknown(_) => None,
    }
}

/// How much a container's reference is worth as the pod's; none for a container that says
/// nothing about this repository.
pub fn reference_rank(verdict: Verdict) -> (r: Option<u8>)
    ensures
        match r {
            Some(k) => reference_rank_spec(verdict) == Some(k as int),
            None => reference_rank_spec(verdict) is None,
        },
{
    match verdict {
        Verdict::InSync | Verdict::Behind => Some(0),
        Verdict::Resolving | Verdict::Failed(_) => Some(1),
        Verdict::Unknown(Unresolved::WrongMode) => Some(2),
        Verdict::Unknown(_) => None,
    }
}

/// The better of two ranked references: the lower rank, the earlier one on a tie.
pub open spec fn better_ref(a: Option<(int, RefView)>, b: Option<(int, RefView)>) -> Option<
    (int, RefView),
> {
    match (a, b) {
        (Some(x), Some(y)) => if y.0 < x.0 {
            b
        } else {
            a
        },
        (None, _) => b,
        (_, None) => a,
    }
}

/// A deployed reference as its parts: label, how many pods run it, their verdict.
pub type GroupView = (Seq<char>, nat, Verdict);

/// Deployed references as their parts.
pub open spec fn groups_view(s: Seq<Deployed>) -> Seq<GroupView> {
    s.map_values(|d: Deployed| (d.label@, d.count as nat, d.verdict))
}

/// Index of the first group labelled `label`, or -1.
pub open spec fn group_index(groups: Seq<GroupView>, label: Seq<char>) -> int
    decreases groups.len(),
{
    if groups.len() == 0 {
        -1
    } else if groups.last().0 == label && group_index(groups.drop_last(), label) < 0 {
        groups.len() - 1
    } else {
        group_index(groups.drop_last(), label)
    }
}

/// Where group `x` goes: most pods first, then by label, then in order of appearance.
pub open spec fn group_key(groups: Seq<GroupView>, x: usize) -> Seq<int> {
    seq![-(groups[x as int].1 as int)] + name_key(groups[x as int].0) + seq![x as int]
}

pub open spec fn group_keys(groups: Seq<GroupView>) -> spec_fn(usize) -> Seq<int> {
    |x: usize| group_key(groups, x)
}

/// `s` lists every group once, in the order the column shows them.
pub open spec fn is_group_order(groups: Seq<GroupView>, s: Seq<usize>) -> bool {
    &&& s.no_duplicates()
    &&& forall|k: int| 0 <= k < s.len() ==> s[k] < groups.len()
    &&& forall|x: usize| x < groups.len() ==> s.contains(x)
    &&& sorted_with(group_keys(groups), s)
}

/// The order the column shows the groups in.
pub open spec fn group_order(groups: Seq<GroupView>) -> Seq<usize> {
    choose|s: Seq<usize>| is_group_order(groups, s)
}

proof fn lemma_group_order(groups: Seq<GroupView>, s: Seq<usize>)
    requires
        is_group_order(groups, s),
    ensures
        group_order(groups) == s,
{
    let c = group_order(groups);
    assert(is_group_order(groups, c));
    assert(c.to_set() =~= s.to_set()) by {
        assert forall|y: usize| c.to_set().contains(y) implies s.to_set().contains(y) by {
            let k = choose|k: int| 0 <= k < c.len() && c[k] == y;
            assert(s.contains(y));
        }
        assert forall|y: usize| s.to_set().contains(y) implies c.to_set().contains(y) by {
            let k = choose|k: int| 0 <= k < s.len() && s[k] == y;
            assert(c.contains(y));
        }
    }
    lemma_sorted_unique(group_keys(groups), c, s);
}

/// Plain words for why a row cannot be judged.
pub open spec fn reason_text_spec(reason: Unresolved) -> Seq<char> {
    match reason {
        Unresolved::Sidecar => "not built from this repository"@,
        Unresolved::Digest => "image carries no commit"@,
        Unresolved::NoConfig => "missing in repos.json"@,
        Unresolved::NoTags => "repository has no tags"@,
        Unresolved::WrongMode => "commit mode cannot resolve a version \u{2014} try tag mode"@,
        Unresolved::Finished => "the pod has already run its course"@,
        Unresolved::Empty => "no pods to compare"@,
    }
}

/// Plain words for why a row cannot be judged.
pub fn reason_text(reason: Unresolved) -> (r: &'static str)
    ensures
        r@ == reason_text_spec(reason),
{
    match reason {
        Unresolved::Sidecar => "not built from this repository",
        Unresolved::Digest => "image carries no commit",
        Unresolved::NoConfig => "missing in repos.json",
        Unresolved::NoTags => "repository has no tags",
        Unresolved::WrongMode => "commit mode cannot resolve a version \u{2014} try tag mode",
        Unresolved::Finished => "the pod has already run its course",
        Unresolved::Empty => "no pods to compare",
    }
}

/// `s` without its trailing dashes.
pub open spec fn trim_dashes(s: Seq<char>) -> Seq<char>
    decreases s.len(),
{
    if s.len() > 0 && s.last() == '-' {
        trim_dashes(s.drop_last())
    } else {
        s
    }
}

/// The heading of a family on the detail screen: the prefix its members share, without
/// the trailing dash, or `other` for the names that share none.
pub open spec fn family_label_spec(prefix: Seq<char>) -> Seq<char> {
    let t = trim_dashes(prefix);
    if t.len() == 0 {
        "other"@
    } else {
        t
    }
}

/// The heading of a family on the detail screen.
pub fn family_label(prefix: &str) -> (r: String)
    ensures
        r@ == family_label_spec(prefix@),
{
    let v = to_chars(prefix);
    let mut n: usize = v.len();
    assert(v@.take(n as int) =~= v@);
    while n > 0 && v[n - 1] == '-'
        invariant
            n <= v@.len(),
            v@ == prefix@,
            trim_dashes(v@.take(n as int)) == trim_dashes(prefix@),
        decreases n,
    {
        assert(v@.take(n as int).drop_last() =~= v@.take(n - 1));
        n -= 1;
    }
    assert(trim_dashes(v@.take(n as int)) == v@.take(n as int));
    if n == 0 {
        String::from_str("other")
    } else {
        string_of(v.as_slice(), 0, n)
    }
}

/// How many of `verdicts` are `Behind`.
pub open spec fn count_behind(verdicts: Seq<Verdict>) -> nat
    decreases verdicts.len(),
{
    if verdicts.len() == 0 {
        0
    } else {
        count_behind(verdicts.drop_last()) + if verdicts.last() == Verdict::Behind {
            1nat
        } else {
            0nat
        }
    }
}

/// A row of the detail screen's namespace list: a family heading, or namespace `i`.
pub enum MiniView {
    Family(Seq<char>),
    Namespace(int),
}

/// Index of the first of `names` that is `Some(name)`, or -1.
pub open spec fn first_some(names: Seq<Option<Seq<char>>>, name: Seq<char>) -> int
    decreases names.len(),
{
    if names.len() == 0 {
        -1
    } else if names[0] == Some(name) {
        0
    } else {
        let r = first_some(names.drop_first(), name);
        if r < 0 {
            -1
        } else {
            r + 1
        }
    }
}

/// What the age column says of a pod at `now`, seconds since the epoch.
pub open spec fn age_text(p: MyPod, now: i64) -> Seq<char> {
    match p.created {
        Some(c) => duration_text(elapsed(now, c)),
        None => "\u{2014}"@,
    }
}

proof fn lemma_pod_count_grows(entries: Seq<Entry>, n: int)
    requires
        0 <= n <= entries.len(),
    ensures
        App::pod_count(entries.take(n)) <= App::pod_count(entries),
    decreases entries.len() - n,
{
    if n < entries.len() {
        lemma_pod_count_grows(entries, n + 1);
        assert(entries.take(n + 1).drop_last() =~= entries.take(n));
    } else {
        assert(entries.take(n) =~= entries);
    }
}

proof fn lemma_containers_in_grows(entries: Seq<Entry>, n: int)
    requires
        0 <= n <= entries.len(),
    ensures
        App::containers_in(entries.take(n)) <= App::containers_in(entries),
    decreases entries.len() - n,
{
    if n < entries.len() {
        lemma_containers_in_grows(entries, n + 1);
        assert(entries.take(n + 1).drop_last() =~= entries.take(n));
    } else {
        assert(entries.take(n) =~= entries);
    }
}

proof fn lemma_container_count_grows(pods: Seq<MyPod>, n: int)
    requires
        0 <= n <= pods.len(),
    ensures
        App::container_count(pods.take(n)) <= App::container_count(pods),
    decreases pods.len() - n,
{
    if n < pods.len() {
        lemma_container_count_grows(pods, n + 1);
        assert(pods.take(n + 1).drop_last() =~= pods.take(n));
    } else {
        assert(pods.take(n) =~= pods);
    }
}

/// Where nothing has been asked yet, every namespace is missing an answer.
proof fn lemma_all_missing(app: App, n: int)
    requires
        0 <= n <= app.entries@.len(),
        forall|k: Seq<char>| app.remote_spec(k) is None,
    ensures
        app.missing_upto(n) == app.names_view().take(n),
    decreases n,
{
    if n > 0 {
        lemma_all_missing(app, n - 1);
        assert(app.names_view().take(n) =~= app.names_view().take(n - 1).push(
            app.entries@[n - 1].name@,
        ));
    }
}

/// Rows arriving, filling in and reordering never move the namespace cursor off a
/// namespace the filter and search still leave.
pub proof fn cursor_stays_on_a_shown_namespace(before: App, after: App, i: int)
    requires
        before.entries@.len() <= usize::MAX,
        settled(before, after),
        before.visible(i),
        before.picks().0 == Some(before.entries@[i].name@),
    ensures
        after.picks().0 == before.picks().0,
{
    before.shown_namespace_is_a_row(i);
}

/// A namespace the filter or the search hides does not keep the cursor: it goes to the
/// first row, or nowhere when there is none.
pub proof fn cursor_leaves_a_hidden_namespace(before: App, after: App, name: Seq<char>)
    requires
        before.entries@.len() <= usize::MAX,
        settled(before, after),
        before.picks().0 == Some(name),
        forall|i: int|
            0 <= i < before.entries@.len() && before.entries@[i].name@ == name ==> !before.visible(
                i,
            ),
    ensures
        after.picks().0 == if before.row_names().len() > 0 {
            Some(before.row_names()[0])
        } else {
            None
        },
{
    if before.row_names().contains(name) {
        before.row_is_a_shown_namespace(name);
    }
}

/// The cursors always rest on rows that exist: after settling, each names a row of its
/// pane, or its pane has no rows.
pub proof fn settled_cursors_name_rows(before: App, after: App)
    requires
        settled(before, after),
    ensures
        picks_one_of(before.row_names(), after.picks().0) || before.row_names().len() == 0,
        picks_one_of(pod_names(after.selected_pods()), after.picks().1) || pod_names(
            after.selected_pods(),
        ).len() == 0,
        picks_one_of(container_names(after.selected_containers()), after.picks().2)
            || container_names(after.selected_containers()).len() == 0,
{
    let rows = before.row_names();
    if rows.len() > 0 {
        assert(rows.contains(rows[0]));
    }
    let pods = pod_names(after.selected_pods());
    if pods.len() > 0 {
        assert(pods.contains(pods[0]));
    }
    let cs = container_names(after.selected_containers());
    if cs.len() > 0 {
        assert(cs.contains(cs[0]));
    }
}

/// The first of `names`, or nothing when there is none.
pub open spec fn first_or_none(names: Seq<Seq<char>>) -> Option<Seq<char>> {
    if names.len() > 0 {
        Some(names[0])
    } else {
        None
    }
}

/// Settling keeps each cursor that still names a row: the namespace cursor while its
/// namespace is shown, the pod cursor while, besides, its pod is still listed, the
/// container cursor while, besides, its container is still there. Any other cursor goes to
/// the first row of its pane, or nowhere when the pane is empty.
pub proof fn settling_keeps_what_still_exists(before: App, after: App)
    requires
        settled(before, after),
    ensures
        picks_one_of(before.row_names(), before.picks().0) ==> after.picks().0
            == before.picks().0,
        !picks_one_of(before.row_names(), before.picks().0) ==> after.picks().0 == first_or_none(
            before.row_names(),
        ),
        picks_one_of(before.row_names(), before.picks().0) && picks_one_of(
            pod_names(after.selected_pods()),
            before.picks().1,
        ) ==> after.picks().1 == before.picks().1,
        !(picks_one_of(before.row_names(), before.picks().0) && picks_one_of(
            pod_names(after.selected_pods()),
            before.picks().1,
        )) ==> after.picks().1 == first_or_none(pod_names(after.selected_pods())),
        picks_one_of(before.row_names(), before.picks().0) && picks_one_of(
            pod_names(after.selected_pods()),
            before.picks().1,
        ) && picks_one_of(container_names(after.selected_containers()), before.picks().2)
            ==> after.picks().2 == before.picks().2,
        !(picks_one_of(before.row_names(), before.picks().0) && picks_one_of(
            pod_names(after.selected_pods()),
            before.picks().1,
        ) && picks_one_of(container_names(after.selected_containers()), before.picks().2))
            ==> after.picks().2 == first_or_none(container_names(after.selected_containers())),
        after == before.with_picks(after.ns_pick, after.pod_pick, after.cont_pick),
{
}

/// A namespace whose listing came back with no pods is never shown in sync or behind,
/// since nothing in it was compared: once its reference is known it has nothing to compare,
/// and before that it says what the lookup says.
pub proof fn a_namespace_without_pods_is_never_judged(app: App, e: Entry)
    requires
        e.pods is Ready,
        pods_of(e).len() == 0,
    ensures
        app.nverdict(e) != Verdict::InSync,
        app.nverdict(e) != Verdict::Behind,
        app.remote_spec(e.name@) is Some && app.remote_spec(e.name@)->0 is Ready ==> app.nverdict(e)
            == Verdict::Unknown(Unresolved::Empty),
{
}

/// A namespace is shown in sync or behind only when it has pods, at least one of which is
/// judged in sync or behind itself.
pub proof fn in_sync_or_behind_needs_a_compared_pod(app: App, e: Entry)
    requires
        app.nverdict(e) == Verdict::InSync || app.nverdict(e) == Verdict::Behind,
    ensures
        e.pods is Ready,
        exists|j: int|
            0 <= j < pods_of(e).len() && (#[trigger] app.pverdict(e.name@, pods_of(e)[j])
                == Verdict::InSync || app.pverdict(e.name@, pods_of(e)[j]) == Verdict::Behind),
{
    match e.pods {
        PodsState::Ready(pods) => {
            if pods@.len() == 0 {
                a_namespace_without_pods_is_never_judged(app, e);
            } else {
                let parts = pods@.map_values(|p: MyPod| app.pverdict(e.name@, p));
                assert(app.nverdict(e) == of_parts_spec(parts));
                lemma_judged_whole_has_judged_part(parts);
                let j = choose|j: int|
                    0 <= j < parts.len() && (parts[j] == Verdict::InSync || parts[j]
                        == Verdict::Behind);
                assert(parts[j] == app.pverdict(e.name@, pods_of(e)[j]));
            }
        },
        _ => {},
    }
}

/// A whole in sync or behind has a part in sync or behind.
proof fn lemma_judged_whole_has_judged_part(parts: Seq<Verdict>)
    requires
        of_parts_spec(parts) == Verdict::InSync || of_parts_spec(parts) == Verdict::Behind,
    ensures
        exists|j: int|
            0 <= j < parts.len() && (parts[j] == Verdict::InSync || parts[j] == Verdict::Behind),
{
    crate::remote::of_parts_takes_the_first_of_the_worst(parts);
    if exists|i: int| 0 <= i < parts.len() && parts[i] !is Unknown {
        let r = of_parts_spec(parts);
        let j = choose|j: int|
            #![trigger parts[j]]
            0 <= j < parts.len() && parts[j] == r && forall|k: int|
                0 <= k < j && #[trigger] parts[k] !is Unknown ==> crate::remote::severity_of(r)
                    < crate::remote::severity_of(parts[k]);
        assert(parts[j] == r);
    } else if parts.len() > 0 {
        assert(parts[0] is Unknown);
    }
}

/// Namespace `i` comes before namespace `j` in the rows of `screen`.
pub open spec fn comes_before(app: App, screen: Screen, i: int, j: int) -> bool {
    let s = app.order_on(screen);
    &&& s.contains(i as usize)
    &&& s.contains(j as usize)
    &&& forall|a: int, b: int|
        0 <= a < s.len() && 0 <= b < s.len() && s[a] == i as usize && s[b] == j as usize
            ==> a < b
}

/// Two rows whose keys are in order come in that order.
proof fn lemma_keys_in_order(app: App, screen: Screen, i: int, j: int)
    requires
        app.entries@.len() <= usize::MAX,
        app.visible(i),
        app.visible(j),
        key_lt(app.key_on(screen, i), app.key_on(screen, j)),
    ensures
        comes_before(app, screen, i, j),
{
    app.lemma_order_exists(screen);
    let s = app.order_on(screen);
    assert forall|a: int, b: int|
        0 <= a < s.len() && 0 <= b < s.len() && s[a] == i as usize && s[b] == j as usize
            implies a < b by {
        lemma_key_lt_irreflexive(app.key_on(screen, i));
        if b < a {
            assert(key_lt(app.key_on(screen, s[b] as int), app.key_on(screen, s[a] as int)));
            lemma_key_lt_asymmetric(app.key_on(screen, i), app.key_on(screen, j));
        }
    }
}

/// The overview puts what needs acting on first: sorted by status, a namespace with a
/// worse verdict comes before one with a better verdict, whatever their names.
pub proof fn worse_namespaces_come_first(app: App, i: int, j: int)
    requires
        app.entries@.len() <= usize::MAX,
        app.sort == Sort::Status,
        app.visible(i),
        app.visible(j),
        crate::remote::severity_of(app.nverdict(app.entries@[i])) < crate::remote::severity_of(
            app.nverdict(app.entries@[j]),
        ),
    ensures
        comes_before(app, Screen::Overview, i, j),
{
    let ki = app.key_on(Screen::Overview, i);
    let kj = app.key_on(Screen::Overview, j);
    assert(ki[0] == crate::remote::severity_of(app.nverdict(app.entries@[i])));
    assert(kj[0] == crate::remote::severity_of(app.nverdict(app.entries@[j])));
    lemma_keys_in_order(app, Screen::Overview, i, j);
}

/// Where `label` is in `g`: the index found holds it, and -1 means no group holds it.
proof fn lemma_group_index(g: Seq<GroupView>, label: Seq<char>)
    ensures
        group_index(g, label) >= 0 ==> group_index(g, label) < g.len() && g[group_index(
            g,
            label,
        )].0 == label,
        group_index(g, label) < 0 ==> forall|k: int| 0 <= k < g.len() ==> g[k].0 != label,
    decreases g.len(),
{
    if g.len() > 0 {
        let init = g.drop_last();
        lemma_group_index(init, label);
        if group_index(g, label) < 0 {
            assert forall|k: int| 0 <= k < g.len() implies g[k].0 != label by {
                if k < init.len() {
                    assert(init[k] == g[k]);
                }
            }
        }
    }
}

/// The label pod `p` is counted under in the deployed column of namespace `ns`: that of
/// its reference, unless it has none or, once some pod could be judged, it cannot be.
pub open spec fn pod_label(app: App, ns: Seq<char>, judged: bool, p: MyPod) -> Option<Seq<char>> {
    match app.pod_ref(ns, p) {
        None => None,
        Some(r) => if judged && app.pverdict(ns, p) is Unknown {
            None
        } else {
            Some(ref_label(r))
        },
    }
}

/// How many of `pods` are counted under `label`.
pub open spec fn pods_labelled(
    app: App,
    ns: Seq<char>,
    judged: bool,
    pods: Seq<MyPod>,
    label: Seq<char>,
) -> nat
    decreases pods.len(),
{
    if pods.len() == 0 {
        0
    } else {
        pods_labelled(app, ns, judged, pods.drop_last(), label) + if pod_label(
            app,
            ns,
            judged,
            pods.last(),
        ) == Some(label) {
            1nat
        } else {
            0nat
        }
    }
}

/// The deployed column makes one group per distinct reference its counted pods run, with
/// how many of them run it, and no group for a reference none of them runs.
pub proof fn one_group_per_reference(app: App, ns: Seq<char>, judged: bool, pods: Seq<MyPod>)
    ensures
        forall|a: int, b: int|
            0 <= a < b < app.groups_of(ns, judged, pods).len() ==> app.groups_of(
                ns,
                judged,
                pods,
            )[a].0 != app.groups_of(ns, judged, pods)[b].0,
        forall|k: int|
            0 <= k < app.groups_of(ns, judged, pods).len() ==> app.groups_of(ns, judged, pods)[k].1
                == pods_labelled(app, ns, judged, pods, app.groups_of(ns, judged, pods)[k].0)
                && app.groups_of(ns, judged, pods)[k].1 > 0,
        forall|label: Seq<char>|
            #[trigger] pods_labelled(app, ns, judged, pods, label) > 0 ==> exists|k: int|
                0 <= k < app.groups_of(ns, judged, pods).len() && app.groups_of(
                    ns,
                    judged,
                    pods,
                )[k].0 == label,
    decreases pods.len(),
{
    if pods.len() > 0 {
        let init = pods.drop_last();
        let p = pods.last();
        let prev = app.groups_of(ns, judged, init);
        let g = app.groups_of(ns, judged, pods);
        one_group_per_reference(app, ns, judged, init);
        match pod_label(app, ns, judged, p) {
            None => {
                assert(g == prev);
                assert forall|l: Seq<char>|
                    #[trigger] pods_labelled(app, ns, judged, pods, l) > 0 implies exists|k: int|
                        0 <= k < g.len() && g[k].0 == l by {
                    assert(pods_labelled(app, ns, judged, init, l) > 0);
                }
            },
            Some(label) => {
                let at = group_index(prev, label);
                lemma_group_index(prev, label);
                if at >= 0 {
                    assert(g.len() == prev.len());
                    assert forall|k: int| 0 <= k < g.len() implies #[trigger] g[k].0 == prev[k].0 by {}
                    assert forall|k: int| 0 <= k < g.len() implies g[k].1 == pods_labelled(
                        app,
                        ns,
                        judged,
                        pods,
                        g[k].0,
                    ) && g[k].1 > 0 by {
                        if k != at {
                            assert(prev[k].0 != prev[at].0);
                        }
                    }
                    assert forall|l: Seq<char>|
                        #[trigger] pods_labelled(app, ns, judged, pods, l) > 0 implies exists|k: int|
                            0 <= k < g.len() && g[k].0 == l by {
                        if l == label {
                            assert(g[at].0 == l);
                        } else {
                            assert(pods_labelled(app, ns, judged, init, l) > 0);
                            let k = choose|k: int| 0 <= k < prev.len() && prev[k].0 == l;
                            assert(g[k].0 == l);
                        }
                    }
                } else {
                    assert(pods_labelled(app, ns, judged, init, label) == 0) by {
                        if pods_labelled(app, ns, judged, init, label) > 0 {
                            let k = choose|k: int| 0 <= k < prev.len() && prev[k].0 == label;
                        }
                    }
                    assert forall|k: int| 0 <= k < g.len() implies g[k].1 == pods_labelled(
                        app,
                        ns,
                        judged,
                        pods,
                        g[k].0,
                    ) && g[k].1 > 0 by {
                        if k < prev.len() {
                            assert(g[k] == prev[k]);
                        }
                    }
                    assert forall|a: int, b: int| 0 <= a < b < g.len() implies g[a].0 != g[b].0 by {
                        if b < prev.len() {
                            assert(g[a] == prev[a] && g[b] == prev[b]);
                        } else {
                            assert(g[a] == prev[a]);
                        }
                    }
                    assert forall|l: Seq<char>|
                        #[trigger] pods_labelled(app, ns, judged, pods, l) > 0 implies exists|k: int|
                            0 <= k < g.len() && g[k].0 == l by {
                        if l == label {
                            assert(g[prev.len() as int].0 == l);
                        } else {
                            assert(pods_labelled(app, ns, judged, init, l) > 0);
                            let k = choose|k: int| 0 <= k < prev.len() && prev[k].0 == l;
                            assert(g[k] == prev[k]);
                        }
                    }
                }
            },
        }
    }
}

/// Whether `b` is the first best ranked reference among `cs`: some container gives it, none
/// ranks better, and none before that one ranks as well.
pub open spec fn is_first_best(app: App, ns: Seq<char>, cs: Seq<MyContainer>, b: (int, RefView)) -> bool {
    exists|j: int|
        #![trigger app.ranked_ref(ns, cs[j])]
        0 <= j < cs.len() && app.ranked_ref(ns, cs[j]) == Some(b) && (forall|k: int|
            0 <= k < cs.len() && #[trigger] app.ranked_ref(ns, cs[k]) is Some ==> b.0
                <= app.ranked_ref(ns, cs[k]).unwrap().0) && (forall|k: int|
            0 <= k < j && #[trigger] app.ranked_ref(ns, cs[k]) is Some ==> b.0 < app.ranked_ref(
                ns,
                cs[k],
            ).unwrap().0)
}

/// A pod stands for the reference of its first container of the best rank; a pod none of
/// whose containers can speak for it stands for nothing.
pub proof fn pod_reference_is_the_first_best(app: App, ns: Seq<char>, cs: Seq<MyContainer>)
    ensures
        app.best_ref(ns, cs) is None <==> forall|j: int|
            0 <= j < cs.len() ==> #[trigger] app.ranked_ref(ns, cs[j]) is None,
        app.best_ref(ns, cs) is Some ==> is_first_best(app, ns, cs, app.best_ref(ns, cs).unwrap()),
    decreases cs.len(),
{
    if cs.len() > 0 {
        let init = cs.drop_last();
        let n = cs.len() - 1;
        pod_reference_is_the_first_best(app, ns, init);
        assert forall|k: int| 0 <= k < n implies #[trigger] app.ranked_ref(ns, cs[k])
            == app.ranked_ref(ns, init[k]) by {}
        let prev = app.best_ref(ns, init);
        let last = app.ranked_ref(ns, cs[n]);
        if prev is None {
            if last is Some {
                let b = last.unwrap();
                assert(app.best_ref(ns, cs) == last);
                assert forall|k: int| 0 <= k < cs.len() && #[trigger] app.ranked_ref(ns, cs[k]) is Some implies b.0
                    <= app.ranked_ref(ns, cs[k]).unwrap().0 by {
                    if k < n {
                        assert(app.ranked_ref(ns, init[k]) is None);
                    }
                }
                assert forall|k: int| 0 <= k < n && #[trigger] app.ranked_ref(ns, cs[k]) is Some implies b.0
                    < app.ranked_ref(ns, cs[k]).unwrap().0 by {
                    assert(app.ranked_ref(ns, init[k]) is None);
                }
                assert(is_first_best(app, ns, cs, b));
            } else {
                assert forall|j: int| 0 <= j < cs.len() implies #[trigger] app.ranked_ref(ns, cs[j]) is None by {
                    if j < n {
                        assert(app.ranked_ref(ns, init[j]) is None);
                    }
                }
            }
        } else {
            let p = prev.unwrap();
            let j = choose|j: int|
                #![trigger app.ranked_ref(ns, init[j])]
                0 <= j < init.len() && app.ranked_ref(ns, init[j]) == Some(p) && (forall|k: int|
                    0 <= k < init.len() && #[trigger] app.ranked_ref(ns, init[k]) is Some ==> p.0
                        <= app.ranked_ref(ns, init[k]).unwrap().0) && (forall|k: int|
                    0 <= k < j && #[trigger] app.ranked_ref(ns, init[k]) is Some ==> p.0
                        < app.ranked_ref(ns, init[k]).unwrap().0);
            assert(app.ranked_ref(ns, cs[j]) == Some(p));
            if last is Some && last.unwrap().0 < p.0 {
                let b = last.unwrap();
                assert(app.best_ref(ns, cs) == last);
                assert forall|k: int| 0 <= k < cs.len() && #[trigger] app.ranked_ref(ns, cs[k]) is Some implies b.0
                    <= app.ranked_ref(ns, cs[k]).unwrap().0 by {
                    if k < n {
                        assert(app.ranked_ref(ns, init[k]) is Some);
                    }
                }
                assert forall|k: int| 0 <= k < n && #[trigger] app.ranked_ref(ns, cs[k]) is Some implies b.0
                    < app.ranked_ref(ns, cs[k]).unwrap().0 by {
                    assert(app.ranked_ref(ns, init[k]) is Some);
                }
                assert(is_first_best(app, ns, cs, b));
            } else {
                assert(app.best_ref(ns, cs) == prev);
                assert forall|k: int| 0 <= k < cs.len() && #[trigger] app.ranked_ref(ns, cs[k]) is Some implies p.0
                    <= app.ranked_ref(ns, cs[k]).unwrap().0 by {
                    if k < n {
                        assert(app.ranked_ref(ns, init[k]) is Some);
                    }
                }
                assert forall|k: int| 0 <= k < j && #[trigger] app.ranked_ref(ns, cs[k]) is Some implies p.0
                    < app.ranked_ref(ns, cs[k]).unwrap().0 by {
                    assert(app.ranked_ref(ns, init[k]) is Some);
                }
                assert(is_first_best(app, ns, cs, p));
            }
            assert(app.ranked_ref(ns, cs[j]) is Some);
        }
    }
}

/// Sorted by status, namespaces with verdicts equally bad come in the order of their names.
pub proof fn equal_verdicts_sort_by_name(app: App, i: int, j: int)
    requires
        app.entries@.len() <= usize::MAX,
        app.sort == Sort::Status,
        app.visible(i),
        app.visible(j),
        crate::remote::severity_of(app.nverdict(app.entries@[i])) == crate::remote::severity_of(
            app.nverdict(app.entries@[j]),
        ),
        key_lt(name_key(app.entries@[i].name@), name_key(app.entries@[j].name@)),
    ensures
        comes_before(app, Screen::Overview, i, j),
{
    lemma_first_equal_then_rest(app, i, j);
}

/// Sorted by pod count, a namespace with more pods comes before one with fewer.
pub proof fn more_pods_come_first(app: App, i: int, j: int)
    requires
        app.entries@.len() <= usize::MAX,
        app.sort == Sort::Pods,
        app.visible(i),
        app.visible(j),
        pods_of(app.entries@[i]).len() > pods_of(app.entries@[j]).len(),
    ensures
        comes_before(app, Screen::Overview, i, j),
{
    let ki = app.key_on(Screen::Overview, i);
    let kj = app.key_on(Screen::Overview, j);
    assert(ki[0] == -(pods_of(app.entries@[i]).len() as int));
    assert(kj[0] == -(pods_of(app.entries@[j]).len() as int));
    lemma_keys_in_order(app, Screen::Overview, i, j);
}

/// Sorted by pod count, namespaces with as many pods come in the order of their names.
pub proof fn equal_pod_counts_sort_by_name(app: App, i: int, j: int)
    requires
        app.entries@.len() <= usize::MAX,
        app.sort == Sort::Pods,
        app.visible(i),
        app.visible(j),
        pods_of(app.entries@[i]).len() == pods_of(app.entries@[j]).len(),
        key_lt(name_key(app.entries@[i].name@), name_key(app.entries@[j].name@)),
    ensures
        comes_before(app, Screen::Overview, i, j),
{
    lemma_first_equal_then_rest(app, i, j);
}

/// Keys that agree on their lead and whose names are in order are in order.
proof fn lemma_first_equal_then_rest(app: App, i: int, j: int)
    requires
        app.entries@.len() <= usize::MAX,
        app.sort != Sort::Name,
        app.visible(i),
        app.visible(j),
        app.sort_key(i)[0] == app.sort_key(j)[0],
        key_lt(name_key(app.entries@[i].name@), name_key(app.entries@[j].name@)),
    ensures
        comes_before(app, Screen::Overview, i, j),
{
    let ni = name_key(app.entries@[i].name@);
    let nj = name_key(app.entries@[j].name@);
    lemma_name_key_no_prefix(app.entries@[i].name@, app.entries@[j].name@);
    lemma_key_lt_append(ni, nj, seq![i], seq![j]);
    let ki = app.key_on(Screen::Overview, i);
    let kj = app.key_on(Screen::Overview, j);
    assert(ki.drop_first() =~= ni + seq![i]);
    assert(kj.drop_first() =~= nj + seq![j]);
    assert(key_lt(ki, kj));
    lemma_keys_in_order(app, Screen::Overview, i, j);
}

/// A name key is never a proper beginning of another: it ends in a mark no character has.
proof fn lemma_name_key_no_prefix(a: Seq<char>, b: Seq<char>)
    requires
        key_lt(name_key(a), name_key(b)),
    ensures
        !name_key(a).is_prefix_of(name_key(b)),
{
    let ka = name_key(a);
    let kb = name_key(b);
    if ka.is_prefix_of(kb) {
        let last = ka.len() - 1;
        assert(ka[last] == -1);
        assert(kb[last] == -1);
        if last < b.len() {
            assert(kb[last] == (b[last] as u32) as int);
        }
        assert(ka.len() == kb.len());
        assert(ka =~= kb);
        lemma_key_lt_irreflexive(ka);
    }
}

/// Sorted by name, namespaces come in the order of their names, whatever their verdicts.
pub proof fn names_sort_in_order(app: App, i: int, j: int)
    requires
        app.entries@.len() <= usize::MAX,
        app.sort == Sort::Name,
        app.visible(i),
        app.visible(j),
        key_lt(name_key(app.entries@[i].name@), name_key(app.entries@[j].name@)),
    ensures
        comes_before(app, Screen::Overview, i, j),
{
    let ni = name_key(app.entries@[i].name@);
    let nj = name_key(app.entries@[j].name@);
    lemma_name_key_no_prefix(app.entries@[i].name@, app.entries@[j].name@);
    lemma_key_lt_append(ni, nj, seq![i], seq![j]);
    lemma_keys_in_order(app, Screen::Overview, i, j);
}

/// Nothing reported means nothing to dismiss: a dismissed or never reported note leaves
/// Esc free to close what is below it.
pub proof fn nothing_left_to_dismiss(app: App)
    requires
        app.note is None,
    ensures
        app.reported_spec() is None,
{
}

/// What a container's image says it was built from.
pub open spec fn container_ref(c: MyContainer) -> Option<RefView> {
    match tag_of(c.image@) {
        Some(t) => image_ref_of(t),
        None => None,
    }
}

pub struct App {
    pub cluster: Cluster,
    pub entries: Vec<Entry>,
    pub repos: JsonStorage,
    pub mode: Mode,
    /// Results are kept per mode, so switching back and forth costs nothing.
    pub remotes: Vec<(Mode, String, RemoteState)>,
    pub screen: Screen,
    pub input: Input,
    pub pane: Pane,
    pub filter: Filter,
    pub sort: Sort,
    pub query: String,
    /// Selection is remembered by name: the table reorders as answers arrive, and the
    /// cursor has to stay on the row the user was looking at.
    pub ns_pick: Option<String>,
    pub pod_pick: Option<String>,
    pub cont_pick: Option<String>,
    /// The reported action and when it was reported, in milliseconds.
    pub note: Option<(Note, u64)>,
    /// Which round of pod listing is current: answers from an earlier one are dropped
    /// rather than allowed to reinstate a stale list of pods.
    pub listing_round: u64,
    pub listed_at: Option<u64>,
    pub resolved_at: Option<u64>,
    /// The clock as of the last tick, milliseconds since the epoch.
    pub now: u64,
    pub frame: usize,
    /// Set by the renderer: some keys mean something else when a pane is not on screen.
    pub narrow: bool,
    pub should_quit: bool,
    /// Work asked for and not yet handed out.
    pub pending: Vec<Action>,
}


pub open spec fn opt_remote(r: Option<&RemoteState>) -> Option<RemoteView> {
    match r {
        Some(x) => Some(x@),
        None => None,
    }
}

/// The number of verdicts in each bucket of the tally.
pub open spec fn tally_of(vs: Seq<Verdict>) -> (nat, nat, nat, nat)
    decreases vs.len(),
{
    if vs.len() == 0 {
        (0, 0, 0, 0)
    } else {
        let (a, b, c, d) = tally_of(vs.drop_last());
        match vs.last() {
            Verdict::InSync => (a + 1, b, c, d),
            Verdict::Behind => (a, b + 1, c, d),
            Verdict::Failed(_) => (a, b, c + 1, d),
            _ => (a, b, c, d + 1),
        }
    }
}

/// Each bucket of the tally holds how many verdicts are of its kind: in sync, behind,
/// failed, and everything still resolving or unknown.
pub proof fn tally_counts_each_kind(vs: Seq<Verdict>)
    ensures
        tally_of(vs).0 == vs.filter(|v: Verdict| v is InSync).len(),
        tally_of(vs).1 == vs.filter(|v: Verdict| v is Behind).len(),
        tally_of(vs).2 == vs.filter(|v: Verdict| v is Failed).len(),
        tally_of(vs).3 == vs.filter(|v: Verdict| v is Resolving || v is Unknown).len(),
    decreases vs.len(),
{
    reveal(Seq::filter);
    if vs.len() > 0 {
        tally_counts_each_kind(vs.drop_last());
    }
}

/// The problems filter keeps exactly what needs acting on, a namespace behind or one whose
/// pods or reference could not be fetched; the unknown filter keeps exactly what cannot be
/// told yet or at all; the plain view keeps everything.
pub proof fn filters_keep_what_they_name(v: Verdict)
    ensures
        filter_accepts(Filter::All, v),
        filter_accepts(Filter::Problems, v) <==> (v == Verdict::Behind || v == Verdict::Failed(
            Failure::Kube,
        ) || v == Verdict::Failed(Failure::Git)),
        filter_accepts(Filter::Unknown, v) <==> !(v == Verdict::InSync || v == Verdict::Behind
            || v is Failed),
{
}

proof fn lemma_tally_bound(vs: Seq<Verdict>)
    ensures
        tally_of(vs).0 + tally_of(vs).1 + tally_of(vs).2 + tally_of(vs).3 == vs.len(),
    decreases vs.len(),
{
    if vs.len() > 0 {
        lemma_tally_bound(vs.drop_last());
    }
}

impl App {
    pub open spec fn entries_spec(&self) -> Seq<Entry> {
        self.entries@
    }

    /// A fresh state for the namespaces `names`: every one being listed and, in mode
    /// `mode`, asked about, with the cursor on the first row.
    pub fn new(names: Vec<String>, repos: JsonStorage, mode: Mode, cluster: Cluster) -> (r: App)
        ensures
            r.names_view() == names.deep_view(),
            r.entries@.len() == names@.len(),
            forall|j: int| 0 <= j < r.entries@.len() ==> r.entries@[j].pods is Listing,
            App::listed_count(r.entries@) == 0,
            r.cluster == cluster,
            r.repos == repos,
            r.mode == mode,
            r.screen == Screen::Overview,
            r.input == Input::Normal,
            r.pane == Pane::Pods,
            r.filter == Filter::All,
            r.sort == Sort::Status,
            r.query@.len() == 0,
            r.note is None,
            r.listing_round == 1,
            r.listed_at is None,
            r.resolved_at is None,
            r.now == 0,
            r.frame == 0,
            !r.narrow,
            !r.should_quit,
            forall|m: Mode, k: Seq<char>|
                r.remote_for(m, k) == if m == mode && names.deep_view().contains(k) {
                    Some(r.requested(k))
                } else {
                    None
                },
            actions_of(r.pending@) == names.deep_view().map_values(
                |k: Seq<char>| ActionView::ListPods { round: 1, namespace: k },
            ) + r.resolves_for(names.deep_view()),
            settled(r.with_picks(None, None, None), r),
    {
        let mut entries: Vec<Entry> = Vec::new();
        let mut i: usize = 0;
        while i < names.len()
            invariant
                i <= names@.len(),
                entries@.len() == i,
                forall|j: int| 0 <= j < i ==> entries@[j].name@ == names@[j]@,
                forall|j: int| 0 <= j < i ==> entries@[j].pods is Listing,
            decreases names@.len() - i,
        {
            entries.push(Entry { name: names[i].clone(), pods: PodsState::Listing });
            i += 1;
        }
        let mut app = App {
            cluster,
            entries,
            repos,
            mode,
            remotes: Vec::new(),
            screen: Screen::Overview,
            input: Input::Normal,
            pane: Pane::Pods,
            filter: Filter::All,
            sort: Sort::Status,
            query: String::new(),
            ns_pick: None,
            pod_pick: None,
            cont_pick: None,
            note: None,
            listing_round: 0,
            listed_at: None,
            resolved_at: None,
            now: 0,
            frame: 0,
            narrow: false,
            should_quit: false,
            pending: Vec::new(),
        };
        assert(app.names_view() =~= names.deep_view());
        app.relist_pods();
        let ghost listed = app;
        proof {
            assert forall|m: Mode, k: Seq<char>| listed.remote_for(m, k) is None by {
                lemma_remote_none(listed.remotes@, m, k);
            }
            listed.lemma_missing_upto(listed.entries@.len() as int);
            assert(listed.names_view().take(listed.entries@.len() as int) =~= listed.names_view());
            lemma_all_missing(listed, listed.entries@.len() as int);
            assert(actions_of(listed.pending@) =~= names.deep_view().map_values(
                |k: Seq<char>| ActionView::ListPods { round: 1, namespace: k },
            ));
        }
        app.request_missing();
        let ghost asked = app;
        app.normalize();
        proof {
            lemma_none_listed(app.entries@);
            assert(app.with_picks(None, None, None) == asked);
            assert forall|m: Mode, k: Seq<char>|
                app.remote_for(m, k) == if m == mode && names.deep_view().contains(k) {
                    Some(app.requested(k))
                } else {
                    None
                } by {
                assert(asked.remote_for(m, k) == app.remote_for(m, k));
                assert(listed.missing_names().contains(k) == names.deep_view().contains(k));
            }
        }
        app
    }

    /// What is known about the repository of `ns` in the current mode.
    pub open spec fn remote_spec(&self, ns: Seq<char>) -> Option<RemoteView> {
        remote_in(self.remotes@, self.mode, ns)
    }

    /// What is known about the repository of `ns` in `mode`.
    pub open spec fn remote_for(&self, mode: Mode, ns: Seq<char>) -> Option<RemoteView> {
        remote_in(self.remotes@, mode, ns)
    }

    /// Verdict of one container of a pod in namespace `ns`.
    pub open spec fn cverdict(&self, ns: Seq<char>, c: MyContainer) -> Verdict {
        judge_spec(container_ref(c), self.remote_spec(ns))
    }

    /// Verdict of a pod: its containers taken together, unless it has run its course.
    pub open spec fn pverdict(&self, ns: Seq<char>, p: MyPod) -> Verdict {
        if p.finished {
            Verdict::Unknown(Unresolved::Finished)
        } else {
            of_parts_spec(p.containers@.map_values(|c: MyContainer| self.cverdict(ns, c)))
        }
    }

    /// Verdict a namespace gets from its repository alone, when it has no pods to judge.
    pub open spec fn reference_verdict_spec(&self, ns: Seq<char>) -> Verdict {
        match self.remote_spec(ns) {
            Some(RemoteView::Ready(_)) => Verdict::Unknown(Unresolved::Empty),
            other => judge_spec(None, other),
        }
    }

    /// Verdict of a namespace: its pods taken together.
    pub open spec fn nverdict(&self, e: Entry) -> Verdict {
        match e.pods {
            PodsState::Failed(_) => Verdict::Failed(Failure::Kube),
            PodsState::Listing => Verdict::Resolving,
            PodsState::Ready(pods) => if pods@.len() == 0 {
                self.reference_verdict_spec(e.name@)
            } else {
                of_parts_spec(pods@.map_values(|p: MyPod| self.pverdict(e.name@, p)))
            },
        }
    }

    /// The verdicts of all namespaces, in list order.
    pub open spec fn verdicts(&self) -> Seq<Verdict> {
        self.entries_spec().map_values(|e: Entry| self.nverdict(e))
    }

    pub fn should_quit(&self) -> (r: bool)
        ensures
            r == self.should_quit,
    {
        self.should_quit
    }

    pub fn quit(&mut self)
        ensures
            *final(self) == (App { should_quit: true, ..*old(self) }),
    {
        self.should_quit = true;
    }

    pub fn screen(&self) -> (r: Screen)
        ensures
            r == self.screen,
    {
        self.screen
    }

    pub fn input(&self) -> (r: Input)
        ensures
            r == self.input,
    {
        self.input
    }

    pub fn pane(&self) -> (r: Pane)
        ensures
            r == self.pane,
    {
        self.pane
    }

    pub fn mode(&self) -> (r: Mode)
        ensures
            r == self.mode,
    {
        self.mode
    }

    pub fn filter(&self) -> (r: Filter)
        ensures
            r == self.filter,
    {
        self.filter
    }

    pub fn sort(&self) -> (r: Sort)
        ensures
            r == self.sort,
    {
        self.sort
    }

    pub fn query(&self) -> (r: &str)
        ensures
            r@ == self.query@,
    {
        self.query.as_str()
    }

    pub fn narrow(&self) -> (r: bool)
        ensures
            r == self.narrow,
    {
        self.narrow
    }

    pub fn set_narrow(&mut self, narrow: bool)
        ensures
            *final(self) == (App { narrow, ..*old(self) }),
    {
        self.narrow = narrow;
    }

    /// The spinner frame shown while something is being resolved.
    pub fn spinner(&self) -> (r: char)
        ensures
            r == spinner_char(((self.frame / SPINNER_STEP) % 10) as int),
    {
        let step = (self.frame / SPINNER_STEP) % 10;
        if step == 0 {
            '\u{280b}'
        } else if step == 1 {
            '\u{2819}'
        } else if step == 2 {
            '\u{2839}'
        } else if step == 3 {
            '\u{2838}'
        } else if step == 4 {
            '\u{283c}'
        } else if step == 5 {
            '\u{2834}'
        } else if step == 6 {
            '\u{2826}'
        } else if step == 7 {
            '\u{2827}'
        } else if step == 8 {
            '\u{2807}'
        } else {
            '\u{280f}'
        }
    }

    /// What is known about the repository of `namespace` in the current mode.
    pub fn remote(&self, namespace: &str) -> (r: Option<&RemoteState>)
        ensures
            opt_remote(r) == self.remote_spec(namespace@),
    {
        let mut i: usize = 0;
        while i < self.remotes.len()
            invariant
                i <= self.remotes@.len(),
                forall|k: int|
                    0 <= k < i ==> !(self.remotes@[k].0 == self.mode && self.remotes@[k].1@
                        == namespace@),
            decreases self.remotes@.len() - i,
        {
            if self.remotes[i].0 == self.mode && same_str(self.remotes[i].1.as_str(), namespace) {
                proof {
                    lemma_remote_at(self.remotes@, self.mode, namespace@, i as int);
                }
                return Some(&self.remotes[i].2);
            }
            i += 1;
        }
        proof {
            lemma_remote_none(self.remotes@, self.mode, namespace@);
        }
        None
    }

    /// Records what is known about the repository of `namespace` in `mode`.
    #[verifier::loop_isolation(false)]
    fn set_remote_in(&mut self, mode: Mode, namespace: &str, state: RemoteState)
        ensures
            forall|m: Mode, k: Seq<char>|
                final(self).remote_for(m, k) == if m == mode && k == namespace@ {
                    Some(state@)
                } else {
                    old(self).remote_for(m, k)
                },
            *final(self) == (App { remotes: final(self).remotes, ..*old(self) }),
    {
        let ghost before = self.remotes@;
        let mut i: usize = 0;
        while i < self.remotes.len()
            invariant
                i <= self.remotes@.len(),
                *self == *old(self),
                self.remotes@ == before,
                forall|k: int|
                    0 <= k < i ==> !(before[k].0 == mode && before[k].1@ == namespace@),
            decreases self.remotes@.len() - i,
        {
            if self.remotes[i].0 == mode && same_str(self.remotes[i].1.as_str(), namespace) {
                let key = String::from_str(namespace);
                self.remotes.set(i, (mode, key, state));
                proof {
                    let j = i as int;
                    assert(0 <= j < before.len() && before[j].0 == mode && before[j].1@
                        == namespace@ && (forall|k: int|
                        0 <= k < j ==> !(before[k].0 == mode && before[k].1@ == namespace@))
                        && self.remotes@.len() == before.len() && self.remotes@[j].0 == mode
                        && self.remotes@[j].1@ == namespace@ && self.remotes@[j].2@ == state@
                        && forall|k: int|
                        0 <= k < before.len() && k != j ==> self.remotes@[k] == before[k]);
                    lemma_remote_after_set(before, self.remotes@, mode, namespace@, state@);
                }
                return;
            }
            i += 1;
        }
        self.remotes.push((mode, String::from_str(namespace), state));
        proof {
            assert(self.remotes@.drop_last() =~= before);
            lemma_remote_after_set(before, self.remotes@, mode, namespace@, state@);
        }
    }

    /// Verdict of one container of a pod in `namespace`.
    pub fn container_verdict(&self, namespace: &str, container: &MyContainer) -> (r: Verdict)
        ensures
            r == self.cverdict(namespace@, *container),
    {
        let image_ref = container.image_ref();
        let remote = self.remote(namespace);
        match &image_ref {
            Some(x) => judge(Some(x), remote),
            None => judge(None, remote),
        }
    }

    /// Verdict of a pod: its containers taken together, unless it has run its course.
    pub fn pod_verdict(&self, namespace: &str, pod: &MyPod) -> (r: Verdict)
        ensures
            r == self.pverdict(namespace@, *pod),
    {
        if pod.finished {
            return Verdict::Unknown(Unresolved::Finished);
        }
        let mut parts: Vec<Verdict> = Vec::new();
        let mut i: usize = 0;
        while i < pod.containers.len()
            invariant
                i <= pod.containers@.len(),
                parts@ == pod.containers@.take(i as int).map_values(
                    |c: MyContainer| self.cverdict(namespace@, c),
                ),
            decreases pod.containers@.len() - i,
        {
            let v = self.container_verdict(namespace, &pod.containers[i]);
            parts.push(v);
            i += 1;
            assert(parts@ =~= pod.containers@.take(i as int).map_values(
                |c: MyContainer| self.cverdict(namespace@, c),
            ));
        }
        assert(pod.containers@.take(i as int) =~= pod.containers@);
        Verdict::of_parts(parts.as_slice())
    }

    /// Verdict a namespace gets from its repository alone, used when there are no pods to
    /// judge.
    fn reference_verdict(&self, namespace: &str) -> (r: Verdict)
        ensures
            r == self.reference_verdict_spec(namespace@),
    {
        match self.remote(namespace) {
            Some(RemoteState::Ready(_)) => Verdict::Unknown(Unresolved::Empty),
            other => judge(None, other),
        }
    }

    /// Verdict of a namespace: its pods taken together.
    pub fn namespace_verdict(&self, entry: &Entry) -> (r: Verdict)
        ensures
            r == self.nverdict(*entry),
    {
        match &entry.pods {
            PodsState::Failed(_) => Verdict::Failed(Failure::Kube),
            PodsState::Listing => Verdict::Resolving,
            PodsState::Ready(pods) => {
                if pods.len() == 0 {
                    return self.reference_verdict(entry.name.as_str());
                }
                let mut parts: Vec<Verdict> = Vec::new();
                let mut i: usize = 0;
                while i < pods.len()
                    invariant
                        i <= pods@.len(),
                        parts@ == pods@.take(i as int).map_values(
                            |p: MyPod| self.pverdict(entry.name@, p),
                        ),
                    decreases pods@.len() - i,
                {
                    let v = self.pod_verdict(entry.name.as_str(), &pods[i]);
                    parts.push(v);
                    i += 1;
                    assert(parts@ =~= pods@.take(i as int).map_values(
                        |p: MyPod| self.pverdict(entry.name@, p),
                    ));
                }
                assert(pods@.take(i as int) =~= pods@);
                Verdict::of_parts(parts.as_slice())
            },
        }
    }

    /// How many namespaces are in sync, behind, failed, and anything else.
    pub fn counts(&self) -> (r: Counts)
        ensures
            (r.in_sync as nat, r.behind as nat, r.failed as nat, r.unknown as nat) == tally_of(
                self.verdicts(),
            ),
            r.in_sync == self.verdicts().filter(|v: Verdict| v is InSync).len(),
            r.behind == self.verdicts().filter(|v: Verdict| v is Behind).len(),
            r.failed == self.verdicts().filter(|v: Verdict| v is Failed).len(),
            r.unknown == self.verdicts().filter(|v: Verdict| v is Resolving || v is Unknown).len(),
    {
        proof {
            tally_counts_each_kind(self.verdicts());
        }
        let mut counts = Counts::default();
        let mut i: usize = 0;
        while i < self.entries.len()
            invariant
                i <= self.entries@.len(),
                (counts.in_sync as nat, counts.behind as nat, counts.failed as nat, counts.unknown as nat)
                    == tally_of(self.verdicts().take(i as int)),
            decreases self.entries@.len() - i,
        {
            proof {
                lemma_tally_bound(self.verdicts().take(i as int));
                assert(self.verdicts().take(i + 1).drop_last() =~= self.verdicts().take(i as int));
            }
            match self.namespace_verdict(&self.entries[i]) {
                Verdict::InSync => counts.in_sync += 1,
                Verdict::Behind => counts.behind += 1,
                Verdict::Failed(_) => counts.failed += 1,
                Verdict::Resolving | Verdict::Unknown(_) => counts.unknown += 1,
            }
            i += 1;
        }
        assert(self.verdicts().take(i as int) =~= self.verdicts());
        counts
    }

    /// A container's reference ranked as the pod's, when it can speak for the pod.
    pub open spec fn ranked_ref(&self, ns: Seq<char>, c: MyContainer) -> Option<(int, RefView)> {
        match container_ref(c) {
            Some(r) => match reference_rank_spec(judge_spec(Some(r), self.remote_spec(ns))) {
                Some(k) => Some((k, r)),
                None => None,
            },
            None => None,
        }
    }

    /// The best ranked reference among `cs`.
    pub open spec fn best_ref(&self, ns: Seq<char>, cs: Seq<MyContainer>) -> Option<
        (int, RefView),
    >
        decreases cs.len(),
    {
        if cs.len() == 0 {
            None
        } else {
            better_ref(self.best_ref(ns, cs.drop_last()), self.ranked_ref(ns, cs.last()))
        }
    }

    /// The reference a pod stands for: that of the container that says the most about the
    /// release, the first of them on a tie.
    pub open spec fn pod_ref(&self, ns: Seq<char>, p: MyPod) -> Option<RefView> {
        match self.best_ref(ns, p.containers@) {
            Some(x) => Some(x.1),
            None => None,
        }
    }

    /// Whether some pod of `entries` stands for a tag (`tag`) or for a commit (`!tag`).
    pub open spec fn carries(&self, entries: Seq<Entry>, tag: bool) -> bool {
        exists|i: int, j: int|
            0 <= i < entries.len() && 0 <= j < pods_of(entries[i]).len() && match self.pod_ref(
                entries[i].name@,
                #[trigger] pods_of(entries[i])[j],
            ) {
                Some(RefView::Tag(_)) => tag,
                Some(RefView::Commit(_)) => !tag,
                None => false,
            }
    }

    /// What the pods of `entries` carry, named after the mode when they carry nothing yet.
    pub open spec fn kind_spec(&self, entries: Seq<Entry>) -> RefKind {
        match (self.carries(entries, true), self.carries(entries, false)) {
            (true, false) => RefKind::Tags,
            (false, true) => RefKind::Commits,
            (true, true) => RefKind::Mixed,
            (false, false) => match self.mode {
                Mode::Commit => RefKind::Commits,
                Mode::Tag => RefKind::Tags,
            },
        }
    }

    /// What the reference column says of namespace `ns`.
    pub open spec fn reference_label_spec(&self, ns: Seq<char>) -> Seq<char> {
        match self.remote_spec(ns) {
            Some(RemoteView::Ready(t)) => match t.name {
                Some(n) => n,
                None => prefix_upto(t.commit, SHORT_HASH_LEN as int),
            },
            None | Some(RemoteView::Loading) => "resolving\u{2026}"@,
            _ => "\u{2014}"@,
        }
    }

    /// Whether some pod of `e` can be judged.
    pub open spec fn judged_spec(&self, e: Entry) -> bool {
        exists|j: int|
            0 <= j < pods_of(e).len() && !(self.pverdict(e.name@, #[trigger] pods_of(e)[j]) is Unknown)
    }

    /// What `pods` of namespace `ns` run, grouped by reference in order of first
    /// appearance. A pod standing for nothing is left out, and so is one nobody can judge
    /// while another can (`judged`).
    pub open spec fn groups_of(&self, ns: Seq<char>, judged: bool, pods: Seq<MyPod>) -> Seq<
        GroupView,
    >
        decreases pods.len(),
    {
        if pods.len() == 0 {
            seq![]
        } else {
            let prev = self.groups_of(ns, judged, pods.drop_last());
            let p = pods.last();
            let v = self.pverdict(ns, p);
            match self.pod_ref(ns, p) {
                None => prev,
                Some(r) => if judged && v is Unknown {
                    prev
                } else {
                    let label = ref_label(r);
                    let at = group_index(prev, label);
                    if at >= 0 {
                        prev.update(
                            at,
                            (label, prev[at].1 + 1, of_parts_spec(seq![prev[at].2, v])),
                        )
                    } else {
                        prev.push((label, 1, v))
                    }
                },
            }
        }
    }

    /// What the pods of a namespace are running, grouped: the first `DEPLOYED_GROUPS`
    /// groups in the column's order, and how many more there are.
    pub open spec fn deployed_spec(&self, e: Entry) -> (Seq<GroupView>, nat) {
        let g = self.groups_of(e.name@, self.judged_spec(e), pods_of(e));
        let order = group_order(g);
        let shown = if g.len() < DEPLOYED_GROUPS {
            g.len() as int
        } else {
            DEPLOYED_GROUPS as int
        };
        (
            order.take(shown).map_values(|i: usize| g[i as int]),
            if g.len() > DEPLOYED_GROUPS {
                (g.len() - DEPLOYED_GROUPS) as nat
            } else {
                0
            },
        )
    }

    /// Plain words for a verdict in namespace `ns`: the answer to "why is this row grey".
    pub open spec fn explain_spec(&self, ns: Seq<char>, v: Verdict) -> Seq<char> {
        match v {
            Verdict::InSync => "matches "@ + self.reference_label_spec(ns),
            Verdict::Behind => "behind \u{b7} reference is "@ + self.reference_label_spec(ns),
            Verdict::Resolving => "resolving the reference"@,
            Verdict::Failed(_) => match self.remote_spec(ns) {
                Some(RemoteView::Failed(reason)) => reason,
                _ => "lookup failed"@,
            },
            Verdict::Unknown(reason) => crate::remote::code_of(v) + " \u{b7} "@
                + reason_text_spec(reason),
        }
    }

    /// The verdicts of the pods of namespace `ns`.
    pub open spec fn pod_verdicts(&self, ns: Seq<char>, pods: Seq<MyPod>) -> Seq<Verdict> {
        pods.map_values(|p: MyPod| self.pverdict(ns, p))
    }

    /// The note column of namespace `e`.
    pub open spec fn note_for_spec(&self, e: Entry) -> Seq<char> {
        match e.pods {
            PodsState::Listing => "listing pods\u{2026}"@,
            PodsState::Failed(reason) => "cannot list pods \u{b7} "@ + reason@,
            PodsState::Ready(pods) => {
                let v = self.nverdict(e);
                match v {
                    Verdict::Behind => {
                        let (shown, hidden) = self.deployed_spec(e);
                        decimal(count_behind(self.pod_verdicts(e.name@, pods@))) + " of "@
                            + decimal(pods@.len()) + " pods behind"@ + if shown.len() + hidden
                            > 1 {
                            " \u{b7} mixed"@
                        } else {
                            Seq::<char>::empty()
                        }
                    },
                    Verdict::Failed(_) => match self.remote_spec(e.name@) {
                        Some(RemoteView::Failed(reason)) => "git \u{b7} "@ + reason,
                        _ => "git ls-remote failed"@,
                    },
                    Verdict::Resolving => "git ls-remote in flight"@,
                    Verdict::Unknown(Unresolved::Finished) => crate::remote::code_of(v)
                        + " \u{b7} no running pods"@,
                    Verdict::Unknown(reason) => crate::remote::code_of(v) + " \u{b7} "@
                        + reason_text_spec(reason),
                    Verdict::InSync => Seq::<char>::empty(),
                }
            },
        }
    }

    /// `row` is namespace `i` as the tables show it.
    pub open spec fn is_ns_row(&self, row: NsRow, i: int) -> bool {
        let e = self.entries@[i];
        &&& row.name@ == e.name@
        &&& row.prefix == shared_of(e.name@, self.names_view()).len()
        &&& row.verdict == self.nverdict(e)
        &&& row.pods == match e.pods {
            PodsState::Ready(pods) => Some(pods@.len() as usize),
            _ => None,
        }
        &&& (groups_view(row.deployed@), row.hidden_deployed as nat) == self.deployed_spec(e)
        &&& row.reference@ == self.reference_label_spec(e.name@)
        &&& row.note@ == self.note_for_spec(e)
    }

    /// The family heading namespace `i` goes under.
    pub open spec fn family_of_row(&self, i: usize) -> Seq<char> {
        family_label_spec(shared_of(self.entries@[i as int].name@, self.names_view()))
    }

    /// The detail screen's namespace list for the namespaces `order`: a heading wherever
    /// the family changes, then the namespace.
    pub open spec fn mini_layout(&self, order: Seq<usize>) -> Seq<MiniView>
        decreases order.len(),
    {
        if order.len() == 0 {
            seq![]
        } else {
            let prev = self.mini_layout(order.drop_last());
            let i = order.last();
            let label = self.family_of_row(i);
            let heading = if order.len() > 1 && self.family_of_row(order[order.len() - 2])
                == label {
                Seq::<MiniView>::empty()
            } else {
                seq![MiniView::Family(label)]
            };
            prev + heading + seq![MiniView::Namespace(i as int)]
        }
    }

    /// `row` shows `v`.
    pub open spec fn is_mini_row(&self, row: MiniRow, v: MiniView) -> bool {
        match (row, v) {
            (MiniRow::Family(a), MiniView::Family(b)) => a@ == b,
            (MiniRow::Namespace(r), MiniView::Namespace(i)) => self.is_ns_row(r, i),
            _ => false,
        }
    }

    /// The namespace each row of a layout shows, by name.
    pub open spec fn layout_names(&self, layout: Seq<MiniView>) -> Seq<Option<Seq<char>>> {
        layout.map_values(
            |v: MiniView|
                match v {
                    MiniView::Namespace(i) => Some(self.entries@[i].name@),
                    MiniView::Family(_) => None,
                },
        )
    }

    /// The clock in seconds since the epoch.
    pub open spec fn now_secs(&self) -> i64 {
        (self.now / 1000) as i64
    }

    /// `row` is pod `p` of namespace `ns` as the pod table shows it.
    pub open spec fn is_pod_row(&self, row: PodRow, ns: Seq<char>, p: MyPod) -> bool {
        &&& (row.prefix@, row.replicaset@, row.suffix@) == pod_parts(p.name@, ns)
        &&& row.verdict == self.pverdict(ns, p)
        &&& row.reference@ == match self.pod_ref(ns, p) {
            Some(r) => ref_label(r),
            None => "\u{2014}"@,
        }
        &&& row.status@ == p.status@
        &&& row.restarts == p.restarts
        &&& row.age@ == age_text(p, self.now_secs())
        &&& row.readiness@ == readiness_text(p.ready as nat, p.containers@.len())
    }

    /// The verdict of container `c` of pod `p`: none of it matters once the pod has run its
    /// course.
    pub open spec fn row_verdict(&self, ns: Seq<char>, p: MyPod, c: MyContainer) -> Verdict {
        if p.finished {
            Verdict::Unknown(Unresolved::Finished)
        } else {
            self.cverdict(ns, c)
        }
    }

    /// `row` is container `c` of pod `p` in namespace `ns` as the container table shows it.
    pub open spec fn is_container_row(
        &self,
        row: ContainerRow,
        ns: Seq<char>,
        p: MyPod,
        c: MyContainer,
    ) -> bool {
        &&& row.name@ == c.name@
        &&& row.tag@ == match tag_of(c.image@) {
            Some(t) => t,
            None => "\u{2014}"@,
        }
        &&& row.verdict == self.row_verdict(ns, p, c)
        &&& row.why@ == self.explain_spec(ns, self.row_verdict(ns, p, c))
    }

    /// What the footer says: the last action, or why the selected namespace cannot be
    /// judged, as kind, text, whether `r` retries and whether it stands.
    pub open spec fn note_spec(&self) -> Option<(NoteKind, Seq<char>, bool, bool)> {
        match self.reported_spec() {
            Some(n) => Some((n.kind, n.text@, n.retry, false)),
            None => if self.selected_index() < 0 {
                None
            } else {
                let e = self.entries@[self.selected_index()];
                match e.pods {
                    PodsState::Failed(reason) => Some(
                        (
                            NoteKind::Error,
                            e.name@ + " \u{b7} cannot list pods: "@ + reason@,
                            true,
                            true,
                        ),
                    ),
                    _ => match self.remote_spec(e.name@) {
                        Some(RemoteView::Failed(reason)) => Some(
                            (NoteKind::Error, e.name@ + " \u{b7} git ls-remote: "@ + reason, true, true),
                        ),
                        Some(RemoteView::Unconfigured) => Some(
                            (
                                NoteKind::Warn,
                                e.name@ + " is missing in repos.json \u{2014} nothing to compare"@,
                                false,
                                true,
                            ),
                        ),
                        Some(RemoteView::NoTags) => Some(
                            (
                                NoteKind::Warn,
                                e.name@ + " has no tags \u{2014} try "@ + mode_label(
                                    mode_toggled(self.mode),
                                ) + " mode"@,
                                false,
                                true,
                            ),
                        ),
                        _ => None,
                    },
                }
            },
        }
    }

    /// What the image of container `c` runs, as the tables show it.
    pub open spec fn running_text(c: MyContainer) -> Seq<char> {
        match tag_of(c.image@) {
            Some(t) => t,
            None => "\u{2014}"@,
        }
    }

    /// One line about the selected container.
    pub open spec fn summary_spec(&self) -> Option<Seq<char>> {
        if self.selected_index() < 0 || self.selected_container_index() < 0 {
            None
        } else {
            let ns = self.entries@[self.selected_index()].name@;
            let c = self.selected_containers()[self.selected_container_index()];
            let running = Self::running_text(c);
            let v = self.cverdict(ns, c);
            Some(
                match v {
                    Verdict::Behind => c.name@ + " runs "@ + running + " \u{2192} reference is "@
                        + self.reference_label_spec(ns),
                    Verdict::InSync => c.name@ + " runs the reference "@ + running,
                    _ => c.name@ + " "@ + running + " \u{b7} "@ + self.explain_spec(ns, v),
                },
            )
        }
    }

    /// How many namespaces are no longer being listed.
    pub open spec fn listed_count(entries: Seq<Entry>) -> nat
        decreases entries.len(),
    {
        if entries.len() == 0 {
            0
        } else {
            Self::listed_count(entries.drop_last()) + if entries.last().pods is Listing {
                0nat
            } else {
                1nat
            }
        }
    }

    /// How many of `entries` still wait for their reference in the current mode.
    pub open spec fn resolving_count(&self, entries: Seq<Entry>) -> nat
        decreases entries.len(),
    {
        if entries.len() == 0 {
            0
        } else {
            self.resolving_count(entries.drop_last()) + match self.remote_spec(
                entries.last().name@,
            ) {
                None | Some(RemoteView::Loading) => 1nat,
                _ => 0nat,
            }
        }
    }

    /// How many pods `entries` have.
    pub open spec fn pod_count(entries: Seq<Entry>) -> nat
        decreases entries.len(),
    {
        if entries.len() == 0 {
            0
        } else {
            Self::pod_count(entries.drop_last()) + pods_of(entries.last()).len()
        }
    }

    /// How many containers `pods` have.
    pub open spec fn container_count(pods: Seq<MyPod>) -> nat
        decreases pods.len(),
    {
        if pods.len() == 0 {
            0
        } else {
            Self::container_count(pods.drop_last()) + pods.last().containers@.len()
        }
    }

    /// How many containers the pods of `entries` have.
    pub open spec fn containers_in(entries: Seq<Entry>) -> nat
        decreases entries.len(),
    {
        if entries.len() == 0 {
            0
        } else {
            Self::containers_in(entries.drop_last()) + Self::container_count(
                pods_of(entries.last()),
            )
        }
    }

    /// Whole seconds from `at` to now, milliseconds both, none when `at` lies ahead.
    pub open spec fn seconds_since(&self, at: u64) -> int {
        if self.now >= at {
            (self.now - at) / 1000
        } else {
            0
        }
    }

    /// How long ago each side last answered, e.g. `k8s 4m ago · git 12s ago`.
    pub open spec fn freshness_spec(&self) -> Seq<char> {
        let k8s = match self.listed_at {
            Some(at) => Some("k8s "@ + duration_text(self.seconds_since(at)) + " ago"@),
            None => None,
        };
        let git = match self.resolved_at {
            Some(at) => Some("git "@ + duration_text(self.seconds_since(at)) + " ago"@),
            None => None,
        };
        match (k8s, git) {
            (Some(a), Some(b)) => a + " \u{b7} "@ + b,
            (Some(a), None) => a,
            (None, Some(b)) => b,
            (None, None) => Seq::<char>::empty(),
        }
    }

    /// What the pods of the selected namespace are compared against, spelled out for the
    /// header of the detail screen.
    pub open spec fn reference_detail_spec(&self) -> (Seq<char>, Seq<char>) {
        if self.selected_index() < 0 {
            ("\u{2014}"@, Seq::<char>::empty())
        } else {
            match self.remote_spec(self.entries@[self.selected_index()].name@) {
                Some(RemoteView::Ready(t)) => (
                    crate::remote::target_label(t),
                    match self.mode {
                        Mode::Commit => "tip of the default branch"@,
                        Mode::Tag => "latest version tag"@,
                    },
                ),
                Some(RemoteView::Loading) | None => ("resolving\u{2026}"@, Seq::<char>::empty()),
                Some(RemoteView::Unconfigured) => (
                    "\u{2014}"@,
                    "namespace has no entry in repos.json"@,
                ),
                Some(RemoteView::NoTags) => ("\u{2014}"@, "repository has no tags yet"@),
                Some(RemoteView::Failed(reason)) => ("\u{2014}"@, reason),
            }
        }
    }

    /// What Enter on the detail screen comes to: the page of the commit under the cursor
    /// to open, or why there is none. Nothing when no namespace is selected.
    pub open spec fn commit_choice(&self) -> Option<Result<Seq<char>, Seq<char>>> {
        if self.selected_index() < 0 {
            None
        } else {
            let ns = self.entries@[self.selected_index()].name@;
            let image_ref = match self.pane {
                Pane::Containers => if self.selected_container_index() >= 0 {
                    container_ref(self.selected_containers()[self.selected_container_index()])
                } else {
                    None
                },
                _ => if self.selected_pod_index() >= 0 {
                    self.pod_ref(ns, self.selected_pods()[self.selected_pod_index()])
                } else {
                    None
                },
            };
            match image_ref {
                None => Some(Err("nothing here carries a commit"@)),
                Some(r) => {
                    let hash = match self.remote_spec(ns) {
                        Some(RemoteView::Ready(t)) => crate::remote::commit_of_spec(t, r),
                        _ => None,
                    };
                    match hash {
                        None => Some(
                            Err(
                                "cannot resolve "@ + crate::remote::ref_text(r)
                                    + " to a commit \u{2014} try "@ + mode_label(
                                    mode_toggled(self.mode),
                                ) + " mode"@,
                            ),
                        ),
                        Some(h) => match repo_url_of(self.repos.entries(), ns) {
                            None => Some(Err(ns + " is missing in repos.json"@)),
                            Some(url) => Some(Ok(commit_url_spec(url, h))),
                        },
                    }
                },
            }
        }
    }

    /// The names of all namespaces, in list order.
    pub open spec fn names_view(&self) -> Seq<Seq<char>> {
        self.entries@.map_values(|e: Entry| e.name@)
    }

    /// What the current filter and search leave of namespace `i`.
    pub open spec fn visible(&self, i: int) -> bool {
        &&& 0 <= i < self.entries@.len()
        &&& matches_query(self.entries@[i].name@, self.query@)
        &&& filter_accepts(self.filter, self.nverdict(self.entries@[i]))
    }

    /// Where namespace `i` goes in the overview: worst first, by name, or most pods first,
    /// ties broken by name and then by position in the list.
    pub open spec fn sort_key(&self, i: int) -> Seq<int> {
        let e = self.entries@[i];
        match self.sort {
            Sort::Status => seq![crate::remote::severity_of(self.nverdict(e))] + name_key(e.name@)
                + seq![i],
            Sort::Name => name_key(e.name@) + seq![i],
            Sort::Pods => seq![-(pods_of(e).len() as int)] + name_key(e.name@) + seq![i],
        }
    }

    /// Where namespace `i` goes on the detail screen: grouped by family in alphabetical
    /// order, the unfamilied ones last, worst first inside a family, then by name.
    pub open spec fn family_key(&self, i: int) -> Seq<int> {
        let e = self.entries@[i];
        let family = family_of(e.name@, self.names_view());
        seq![
            if family.len() == 0 {
                1
            } else {
                0
            },
        ] + name_key(family) + seq![crate::remote::severity_of(self.nverdict(e))] + name_key(
            e.name@,
        ) + seq![i]
    }

    /// The key rows are ordered by on `screen`.
    pub open spec fn key_on(&self, screen: Screen, i: int) -> Seq<int> {
        match screen {
            Screen::Overview => self.sort_key(i),
            Screen::Detail => self.family_key(i),
        }
    }

    /// `s` lists exactly the namespaces the filter and search leave, each once, in the order
    /// of `screen`.
    pub open spec fn is_order_on(&self, screen: Screen, s: Seq<usize>) -> bool {
        &&& s.no_duplicates()
        &&& forall|k: int| 0 <= k < s.len() ==> self.visible(s[k] as int)
        &&& forall|i: int| self.visible(i) ==> s.contains(i as usize)
        &&& forall|a: int, b: int|
            0 <= a < b < s.len() ==> key_lt(
                self.key_on(screen, s[a] as int),
                self.key_on(screen, s[b] as int),
            )
    }

    /// `s` lists the rows of the current screen in order.
    pub open spec fn is_row_order(&self, s: Seq<usize>) -> bool {
        self.is_order_on(self.screen, s)
    }

    /// The names of all namespaces.
    pub fn names(&self) -> (r: Vec<String>)
        ensures
            r.deep_view() == self.names_view(),
    {
        let mut r: Vec<String> = Vec::new();
        let mut i: usize = 0;
        while i < self.entries.len()
            invariant
                i <= self.entries@.len(),
                r.deep_view() == self.names_view().take(i as int),
            decreases self.entries@.len() - i,
        {
            let ghost before = r.deep_view();
            let n = self.entries[i].name.clone();
            r.push(n);
            assert(r.deep_view() =~= before.push(self.entries@[i as int].name@));
            i += 1;
            assert(r.deep_view() =~= self.names_view().take(i as int));
        }
        assert(self.names_view().take(i as int) =~= self.names_view());
        r
    }

    /// The key namespace `i` is ordered by on the current screen.
    fn key_for(&self, screen: Screen, i: usize, names: &Vec<String>) -> (r: Vec<i128>)
        requires
            i < self.entries@.len(),
            names.deep_view() == self.names_view(),
        ensures
            ints_of(r@) == self.key_on(screen, i as int),
    {
        let e = &self.entries[i];
        let mut key: Vec<i128> = Vec::new();
        assert(ints_of(key@) =~= Seq::<int>::empty());
        let ghost body: Seq<int>;
        match screen {
            Screen::Overview => match self.sort {
                Sort::Status => {
                    let sev = self.namespace_verdict(e).severity();
                    key.push(sev as i128);
                    assert(ints_of(key@) =~= seq![sev as int]);
                    push_name_key(&mut key, e.name.as_str());
                    proof {
                        body = seq![sev as int] + name_key(e.name@);
                    }
                },
                Sort::Name => {
                    push_name_key(&mut key, e.name.as_str());
                    proof {
                        body = name_key(e.name@);
                    }
                    assert(ints_of(key@) =~= body);
                },
                Sort::Pods => {
                    let n = e.pod_list().len();
                    key.push(-(n as i128));
                    assert(ints_of(key@) =~= seq![-(n as int)]);
                    push_name_key(&mut key, e.name.as_str());
                    proof {
                        body = seq![-(n as int)] + name_key(e.name@);
                    }
                },
            },
            Screen::Detail => {
                let family = family_prefix(e.name.as_str(), names.as_slice());
                let lead: i128 = if family.unicode_len() == 0 {
                    1
                } else {
                    0
                };
                key.push(lead);
                assert(ints_of(key@) =~= seq![lead as int]);
                push_name_key(&mut key, family);
                let ghost mid = ints_of(key@);
                let sev = self.namespace_verdict(e).severity();
                key.push(sev as i128);
                assert(ints_of(key@) =~= mid.push(sev as int));
                push_name_key(&mut key, e.name.as_str());
                proof {
                    body = seq![lead as int] + name_key(family@) + seq![sev as int] + name_key(
                        e.name@,
                    );
                    assert(ints_of(key@) =~= body);
                }
            },
        }
        let ghost before = ints_of(key@);
        key.push(i as i128);
        assert(ints_of(key@) =~= before.push(i as int));
        assert(ints_of(key@) =~= self.key_on(screen, i as int));
        key
    }

    /// Whether namespace `i` is left by the current filter and search.
    pub fn is_visible(&self, i: usize) -> (r: bool)
        requires
            i < self.entries@.len(),
        ensures
            r == self.visible(i as int),
    {
        let e = &self.entries[i];
        let name = to_lower(e.name.as_str());
        let query = to_lower(self.query.as_str());
        let n = to_chars(name.as_str());
        let q = to_chars(query.as_str());
        contains_chars(n.as_slice(), q.as_slice()) && self.filter.accepts(self.namespace_verdict(e))
    }

    /// Namespaces the current filter and search leave, in the order of the active screen.
    pub fn ordered_indices(&self) -> (r: Vec<usize>)
        ensures
            self.is_row_order(r@),
    {
        self.ordered_indices_on(self.screen)
    }

    /// Namespaces the current filter and search leave, in the order of `screen`.
    pub fn ordered_indices_on(&self, screen: Screen) -> (r: Vec<usize>)
        ensures
            self.is_order_on(screen, r@),
    {
        let names = self.names();
        let mut keys: Vec<Vec<i128>> = Vec::new();
        let mut rows: Vec<usize> = Vec::new();
        let mut i: usize = 0;
        while i < self.entries.len()
            invariant
                i <= self.entries@.len(),
                names.deep_view() == self.names_view(),
                keys@.len() == i,
                forall|x: int| 0 <= x < i ==> ints_of(keys@[x]@) == self.key_on(screen, x),
                rows@.no_duplicates(),
                forall|k: int| 0 <= k < rows@.len() ==> rows@[k] < i && self.visible(rows@[k] as int),
                forall|x: int| 0 <= x < i && self.visible(x) ==> rows@.contains(x as usize),
            decreases self.entries@.len() - i,
        {
            keys.push(self.key_for(screen, i, &names));
            let ghost before = rows@;
            if self.is_visible(i) {
                rows.push(i);
                assert forall|x: int| 0 <= x < i && self.visible(x) implies rows@.contains(
                    x as usize,
                ) by {
                    let k = choose|k: int| 0 <= k < before.len() && before[k] == x as usize;
                    assert(rows@[k] == x as usize);
                }
                assert(rows@[before.len() as int] == i);
            }
            i += 1;
        }
        proof {
            assert forall|x: usize, y: usize|
                x < keys@.len() && y < keys@.len() && x != y implies key_of(keys@, x) != key_of(
                keys@,
                y,
            ) by {
                let kx = key_of(keys@, x);
                let ky = key_of(keys@, y);
                assert(kx == self.key_on(screen, x as int));
                assert(ky == self.key_on(screen, y as int));
                assert(kx.last() == x as int);
                assert(ky.last() == y as int);
            }
        }
        let r = sort_by_keys(&keys, &rows);
        proof {
            assert forall|k: int| 0 <= k < r@.len() implies self.visible(r@[k] as int) by {
                assert(r@.to_set().contains(r@[k]));
                assert(rows@.to_set().contains(r@[k]));
            }
            assert forall|x: int| self.visible(x) implies r@.contains(x as usize) by {
                assert(rows@.contains(x as usize));
                assert(rows@.to_set().contains(x as usize));
                assert(r@.to_set().contains(x as usize));
            }
            assert forall|a: int, b: int| 0 <= a < b < r@.len() implies key_lt(
                self.key_on(screen, r@[a] as int),
                self.key_on(screen, r@[b] as int),
            ) by {
                assert(rows@.to_set().contains(r@[a]));
                assert(rows@.to_set().contains(r@[b]));
                assert(key_of(keys@, r@[a]) == self.key_on(screen, r@[a] as int));
                assert(key_of(keys@, r@[b]) == self.key_on(screen, r@[b] as int));
            }
        }
        r
    }

    /// The namespaces below `k` that the filter and search leave, in list order.
    pub open spec fn visible_upto(&self, k: int) -> Seq<usize>
        decreases k,
    {
        if k <= 0 {
            Seq::empty()
        } else {
            let prev = self.visible_upto(k - 1);
            if self.visible(k - 1) {
                prev.push((k - 1) as usize)
            } else {
                prev
            }
        }
    }

    proof fn lemma_visible_upto(&self, k: int)
        requires
            0 <= k <= self.entries@.len() <= usize::MAX,
        ensures
            self.visible_upto(k).no_duplicates(),
            forall|j: int|
                0 <= j < self.visible_upto(k).len() ==> self.visible_upto(k)[j] < k
                    && self.visible(self.visible_upto(k)[j] as int),
            forall|i: int| 0 <= i < k && self.visible(i) ==> self.visible_upto(k).contains(i as usize),
        decreases k,
    {
        if k > 0 {
            self.lemma_visible_upto(k - 1);
            let prev = self.visible_upto(k - 1);
            if self.visible(k - 1) {
                let cur = prev.push((k - 1) as usize);
                assert(self.visible_upto(k) == cur);
                assert forall|j: int| 0 <= j < cur.len() implies cur[j] < k && self.visible(
                    cur[j] as int,
                ) by {
                    if j < prev.len() {
                        assert(cur[j] == prev[j]);
                    }
                }
                assert forall|a: int, b: int|
                    0 <= a < cur.len() && 0 <= b < cur.len() && a != b implies cur[a]
                    != cur[b] by {
                    if a < prev.len() {
                        assert(cur[a] == prev[a]);
                    }
                    if b < prev.len() {
                        assert(cur[b] == prev[b]);
                    }
                }
                assert forall|i: int| 0 <= i < k && self.visible(i) implies cur.contains(
                    i as usize,
                ) by {
                    if i < k - 1 {
                        let j = choose|j: int| 0 <= j < prev.len() && prev[j] == i as usize;
                        assert(cur[j] == i as usize);
                    } else {
                        assert(cur[prev.len() as int] == i as usize);
                    }
                }
            }
        }
    }

    /// Every row key ends in the row's own index, so no two rows share one.
    proof fn lemma_key_last(&self, screen: Screen, i: int)
        ensures
            self.key_on(screen, i).len() > 0,
            self.key_on(screen, i).last() == i,
    {
        let e = self.entries@[i];
        let tail = seq![i];
        match screen {
            Screen::Overview => match self.sort {
                Sort::Status => {
                    let head = seq![crate::remote::severity_of(self.nverdict(e))] + name_key(
                        e.name@,
                    );
                    assert((head + tail).last() == i);
                },
                Sort::Name => {
                    assert((name_key(e.name@) + tail).last() == i);
                },
                Sort::Pods => {
                    let head = seq![-(pods_of(e).len() as int)] + name_key(e.name@);
                    assert((head + tail).last() == i);
                },
            },
            Screen::Detail => {
                let family = family_of(e.name@, self.names_view());
                let head = seq![
                    if family.len() == 0 {
                        1
                    } else {
                        0
                    },
                ] + name_key(family) + seq![crate::remote::severity_of(self.nverdict(e))]
                    + name_key(e.name@);
                assert((head + tail).last() == i);
            },
        }
    }

    /// The rows of the current screen can always be put in order.
    pub proof fn lemma_row_order_exists(&self)
        requires
            self.entries@.len() <= usize::MAX,
        ensures
            self.is_row_order(self.row_order()),
    {
        self.lemma_order_exists(self.screen);
    }

    /// The rows of any screen can always be put in order.
    pub proof fn lemma_order_exists(&self, screen: Screen)
        requires
            self.entries@.len() <= usize::MAX,
        ensures
            self.is_order_on(screen, self.order_on(screen)),
    {
        let n = self.entries@.len() as int;
        self.lemma_visible_upto(n);
        let vis = self.visible_upto(n);
        let key = |x: usize| self.key_on(screen, x as int);
        assert forall|x: usize, y: usize| x != y implies #[trigger] key(x) != #[trigger] key(y) by {
            self.lemma_key_last(screen, x as int);
            self.lemma_key_last(screen, y as int);
        }
        let t = lemma_sortable(key, vis);
        assert forall|k: int| 0 <= k < t.len() implies self.visible(t[k] as int) by {
            assert(t.to_set().contains(t[k]));
            assert(vis.to_set().contains(t[k]));
            let j = choose|j: int| 0 <= j < vis.len() && vis[j] == t[k];
        }
        assert forall|i: int| self.visible(i) implies t.contains(i as usize) by {
            assert(vis.contains(i as usize));
            assert(vis.to_set().contains(i as usize));
            assert(t.to_set().contains(i as usize));
        }
        assert(self.is_order_on(screen, t));
    }

    /// The one order of the rows of the current screen.
    pub open spec fn row_order(&self) -> Seq<usize> {
        self.order_on(self.screen)
    }

    /// The one order of the rows of `screen`.
    pub open spec fn order_on(&self, screen: Screen) -> Seq<usize> {
        choose|s: Seq<usize>| self.is_order_on(screen, s)
    }

    /// The names of the rows of the current screen, in order.
    pub open spec fn row_names(&self) -> Seq<Seq<char>> {
        self.row_order().map_values(|i: usize| self.entries@[i as int].name@)
    }

    /// Any two orderings of the rows are the same ordering.
    pub proof fn lemma_row_order(&self, s: Seq<usize>)
        requires
            self.is_row_order(s),
        ensures
            self.row_order() == s,
    {
        self.lemma_order_on(self.screen, s);
    }

    /// Any two orderings of the rows of a screen are the same ordering.
    pub proof fn lemma_order_on(&self, screen: Screen, s: Seq<usize>)
        requires
            self.is_order_on(screen, s),
        ensures
            self.order_on(screen) == s,
    {
        let c = self.order_on(screen);
        assert(self.is_order_on(screen, c));
        let key = |x: usize| self.key_on(screen, x as int);
        assert(c.to_set() =~= s.to_set()) by {
            assert forall|y: usize| c.to_set().contains(y) implies s.to_set().contains(y) by {
                let k = choose|k: int| 0 <= k < c.len() && c[k] == y;
                assert(self.visible(y as int));
                assert(s.contains(y));
            }
            assert forall|y: usize| s.to_set().contains(y) implies c.to_set().contains(y) by {
                let k = choose|k: int| 0 <= k < s.len() && s[k] == y;
                assert(self.visible(y as int));
                assert(c.contains(y));
            }
        }
        assert(sorted_with(key, c));
        assert(sorted_with(key, s));
        lemma_sorted_unique(key, c, s);
    }

    /// The entry the namespace cursor is on: the first one of that name.
    pub open spec fn selected_index(&self) -> int {
        match self.ns_pick {
            Some(p) => first_of(self.names_view(), p@),
            None => -1,
        }
    }

    /// The pods of the selected namespace.
    pub open spec fn selected_pods(&self) -> Seq<MyPod> {
        if self.selected_index() >= 0 {
            pods_of(self.entries@[self.selected_index()])
        } else {
            Seq::empty()
        }
    }

    /// The pod the pod cursor is on.
    pub open spec fn selected_pod_index(&self) -> int {
        match self.pod_pick {
            Some(p) => first_of(pod_names(self.selected_pods()), p@),
            None => -1,
        }
    }

    /// The containers of the selected pod.
    pub open spec fn selected_containers(&self) -> Seq<MyContainer> {
        if self.selected_pod_index() >= 0 {
            self.selected_pods()[self.selected_pod_index()].containers@
        } else {
            Seq::empty()
        }
    }

    /// The container the container cursor is on.
    pub open spec fn selected_container_index(&self) -> int {
        match self.cont_pick {
            Some(p) => first_of(container_names(self.selected_containers()), p@),
            None => -1,
        }
    }

    /// The rows the cursor moves over in the active pane, by name.
    pub open spec fn active_names(&self) -> Seq<Seq<char>> {
        match (self.screen, self.pane) {
            (Screen::Detail, Pane::Pods) => pod_names(self.selected_pods()),
            (Screen::Detail, Pane::Containers) => container_names(self.selected_containers()),
            _ => self.row_names(),
        }
    }

    /// The cursor of the active pane.
    pub open spec fn active_pick_spec(&self) -> Option<Seq<char>> {
        match (self.screen, self.pane) {
            (Screen::Detail, Pane::Pods) => opt_str_view(self.pod_pick),
            (Screen::Detail, Pane::Containers) => opt_str_view(self.cont_pick),
            _ => opt_str_view(self.ns_pick),
        }
    }

    /// Every namespace the filter and search leave is one of the rows.
    pub proof fn shown_namespace_is_a_row(&self, i: int)
        requires
            self.entries@.len() <= usize::MAX,
            self.visible(i),
        ensures
            self.row_names().contains(self.entries@[i].name@),
    {
        self.lemma_row_order_exists();
        let s = self.row_order();
        assert(s.contains(i as usize));
        let k = choose|k: int| 0 <= k < s.len() && s[k] == i as usize;
        assert(self.row_names()[k] == self.entries@[i].name@);
    }

    /// Every row is a namespace the filter and search leave.
    pub proof fn row_is_a_shown_namespace(&self, name: Seq<char>)
        requires
            self.entries@.len() <= usize::MAX,
            self.row_names().contains(name),
        ensures
            exists|i: int| self.visible(i) && self.entries@[i].name@ == name,
    {
        self.lemma_row_order_exists();
        let s = self.row_order();
        let k = choose|k: int| 0 <= k < self.row_names().len() && self.row_names()[k] == name;
        assert(self.visible(s[k] as int));
    }

    /// The namespace the cursor is on.
    pub fn selected_entry(&self) -> (r: Option<&Entry>)
        ensures
            match r {
                Some(e) => self.selected_index() >= 0 && *e == self.entries@[self.selected_index()],
                None => self.selected_index() < 0,
            },
    {
        let pick = match &self.ns_pick {
            Some(p) => p,
            None => {
                return None;
            },
        };
        let names = self.names();
        match position_of(&names, pick.as_str()) {
            Some(i) => {
                proof {
                    lemma_first_of(names.deep_view(), pick@);
                }
                Some(&self.entries[i])
            },
            None => None,
        }
    }

    /// The pod the cursor is on, in the selected namespace.
    pub fn selected_pod(&self) -> (r: Option<&MyPod>)
        ensures
            match r {
                Some(p) => self.selected_pod_index() >= 0 && *p
                    == self.selected_pods()[self.selected_pod_index()],
                None => self.selected_pod_index() < 0,
            },
    {
        let pick = match &self.pod_pick {
            Some(p) => p,
            None => {
                return None;
            },
        };
        let pods = match self.selected_entry() {
            Some(e) => e.pod_list(),
            None => {
                proof {
                    assert(pod_names(self.selected_pods()) =~= Seq::<Seq<char>>::empty());
                }
                return None;
            },
        };
        let names = pod_name_list(pods);
        match position_of(&names, pick.as_str()) {
            Some(i) => {
                proof {
                    lemma_first_of(names.deep_view(), pick@);
                }
                Some(&pods[i])
            },
            None => None,
        }
    }

    /// The container the cursor is on, in the selected pod.
    pub fn selected_container(&self) -> (r: Option<&MyContainer>)
        ensures
            match r {
                Some(c) => self.selected_container_index() >= 0 && *c
                    == self.selected_containers()[self.selected_container_index()],
                None => self.selected_container_index() < 0,
            },
    {
        let pick = match &self.cont_pick {
            Some(p) => p,
            None => {
                return None;
            },
        };
        let containers = match self.selected_pod() {
            Some(p) => p.containers.as_slice(),
            None => {
                proof {
                    assert(container_names(self.selected_containers()) =~= Seq::<
                        Seq<char>,
                    >::empty());
                }
                return None;
            },
        };
        let names = container_name_list(containers);
        match position_of(&names, pick.as_str()) {
            Some(i) => {
                proof {
                    lemma_first_of(names.deep_view(), pick@);
                }
                Some(&containers[i])
            },
            None => None,
        }
    }

    /// The names of the rows of the current screen, in order.
    pub fn ordered_names(&self) -> (r: Vec<String>)
        ensures
            r.deep_view() == self.row_names(),
    {
        let order = self.ordered_indices();
        proof {
            self.lemma_row_order(order@);
        }
        let mut r: Vec<String> = Vec::new();
        let mut k: usize = 0;
        while k < order.len()
            invariant
                k <= order@.len(),
                order@ == self.row_order(),
                self.is_row_order(order@),
                r.deep_view() == self.row_names().take(k as int),
            decreases order@.len() - k,
        {
            let i = order[k];
            assert(self.visible(i as int));
            let ghost before = r.deep_view();
            r.push(self.entries[i].name.clone());
            assert(r.deep_view() =~= before.push(self.entries@[i as int].name@));
            k += 1;
            assert(r.deep_view() =~= self.row_names().take(k as int));
        }
        assert(self.row_names().take(k as int) =~= self.row_names());
        r
    }

    /// How many namespaces the filter and search leave.
    pub fn matching_namespaces(&self) -> (r: usize)
        ensures
            r == self.row_order().len(),
    {
        let order = self.ordered_indices();
        proof {
            self.lemma_row_order(order@);
        }
        order.len()
    }

    /// The cursors of the three panes, by name.
    pub open spec fn picks(&self) -> (Option<Seq<char>>, Option<Seq<char>>, Option<Seq<char>>) {
        (opt_str_view(self.ns_pick), opt_str_view(self.pod_pick), opt_str_view(self.cont_pick))
    }

    /// The same state with other cursors.
    pub open spec fn with_picks(
        self,
        ns: Option<String>,
        pod: Option<String>,
        cont: Option<String>,
    ) -> App {
        App { ns_pick: ns, pod_pick: pod, cont_pick: cont, ..self }
    }

    /// The cursors after the active one is put on `pick`. A namespace cursor that moves
    /// takes the pod and container cursors with it, and so does a pod cursor that moves
    /// the container cursor.
    pub open spec fn picked(&self, pick: Seq<char>) -> (
        Option<Seq<char>>,
        Option<Seq<char>>,
        Option<Seq<char>>,
    ) {
        let (ns, pod, cont) = self.picks();
        match (self.screen, self.pane) {
            (Screen::Detail, Pane::Pods) => (
                ns,
                Some(pick),
                if pod == Some(pick) {
                    cont
                } else {
                    None
                },
            ),
            (Screen::Detail, Pane::Containers) => (ns, pod, Some(pick)),
            _ => if ns == Some(pick) {
                (ns, pod, cont)
            } else {
                (Some(pick), None, None)
            },
        }
    }

    /// The rows the cursor moves over in the active pane, by name.
    pub fn active_rows(&self) -> (r: Vec<String>)
        ensures
            r.deep_view() == self.active_names(),
    {
        match (self.screen, self.pane) {
            (Screen::Detail, Pane::Pods) => match self.selected_entry() {
                Some(e) => pod_name_list(e.pod_list()),
                None => {
                    let r: Vec<String> = Vec::new();
                    assert(r.deep_view() =~= self.active_names());
                    r
                },
            },
            (Screen::Detail, Pane::Containers) => match self.selected_pod() {
                Some(p) => container_name_list(p.containers.as_slice()),
                None => {
                    let r: Vec<String> = Vec::new();
                    assert(r.deep_view() =~= self.active_names());
                    r
                },
            },
            _ => self.ordered_names(),
        }
    }

    /// The cursor of the active pane.
    pub fn active_pick(&self) -> (r: Option<String>)
        ensures
            opt_str_view(r) == self.active_pick_spec(),
    {
        match (self.screen, self.pane) {
            (Screen::Detail, Pane::Pods) => clone_pick(&self.pod_pick),
            (Screen::Detail, Pane::Containers) => clone_pick(&self.cont_pick),
            _ => clone_pick(&self.ns_pick),
        }
    }

    /// Puts the cursor of the active pane on `pick`.
    pub fn set_active_pick(&mut self, pick: String)
        ensures
            final(self).picks() == old(self).picked(pick@),
            *final(self) == old(self).with_picks(
                final(self).ns_pick,
                final(self).pod_pick,
                final(self).cont_pick,
            ),
    {
        match (self.screen, self.pane) {
            (Screen::Detail, Pane::Pods) => {
                let same = match &self.pod_pick {
                    Some(p) => same_str(p.as_str(), pick.as_str()),
                    None => false,
                };
                if !same {
                    self.cont_pick = None;
                }
                self.pod_pick = Some(pick);
            },
            (Screen::Detail, Pane::Containers) => {
                self.cont_pick = Some(pick);
            },
            _ => {
                let same = match &self.ns_pick {
                    Some(p) => same_str(p.as_str(), pick.as_str()),
                    None => false,
                };
                if !same {
                    self.pod_pick = None;
                    self.cont_pick = None;
                }
                self.ns_pick = Some(pick);
            },
        }
    }

    /// Moves the cursor of the active pane by `delta` rows, stopping at either end. A
    /// cursor on no row of the pane starts from the first.
    pub fn move_selection(&mut self, delta: isize)
        ensures
            old(self).active_names().len() == 0 ==> *final(self) == *old(self),
            old(self).active_names().len() > 0 ==> final(self).picks() == old(self).picked(
                old(self).active_names()[moved_index(
                    old(self).active_names(),
                    old(self).active_pick_spec(),
                    delta as int,
                )],
            ),
            *final(self) == old(self).with_picks(
                final(self).ns_pick,
                final(self).pod_pick,
                final(self).cont_pick,
            ),
    {
        let rows = self.active_rows();
        if rows.len() == 0 {
            return;
        }
        let pick = self.active_pick();
        let current: usize = match &pick {
            Some(p) => match position_of(&rows, p.as_str()) {
                Some(i) => i,
                None => 0,
            },
            None => 0,
        };
        proof {
            lemma_first_of(rows.deep_view(), pick->0@);
        }
        let target: i128 = current as i128 + delta as i128;
        let last: usize = rows.len() - 1;
        let next: usize = if target < 0 {
            0
        } else if target > last as i128 {
            last
        } else {
            target as usize
        };
        let chosen = rows[next].clone();
        assert(chosen@ == rows.deep_view()[next as int]);
        self.set_active_pick(chosen);
    }

    /// Keeps every cursor on a row that exists, which matters because rows arrive, get
    /// filtered out and get reordered while the tool is open. A cursor that has to move
    /// goes to the first row, and the cursors below it start over.
    pub fn normalize(&mut self)
        ensures
            settled(*old(self), *final(self)),
    {
        let names = self.ordered_names();
        let ns = keep_or_first_of(&names, &self.ns_pick);
        let ns_kept = match &self.ns_pick {
            Some(p) => contains_name(&names, p.as_str()),
            None => false,
        };
        if !ns_kept {
            self.pod_pick = None;
            self.cont_pick = None;
        }
        self.ns_pick = ns;
        let ghost mid = *self;
        let pods = match self.selected_entry() {
            Some(e) => pod_name_list(e.pod_list()),
            None => {
                let r: Vec<String> = Vec::new();
                assert(r.deep_view() =~= pod_names(self.selected_pods()));
                r
            },
        };
        let pod = keep_or_first_of(&pods, &self.pod_pick);
        let pod_kept = match &self.pod_pick {
            Some(p) => contains_name(&pods, p.as_str()),
            None => false,
        };
        if !pod_kept {
            self.cont_pick = None;
        }
        self.pod_pick = pod;
        assert(self.selected_pods() == mid.selected_pods());
        let containers = match self.selected_pod() {
            Some(p) => container_name_list(p.containers.as_slice()),
            None => {
                let r: Vec<String> = Vec::new();
                assert(r.deep_view() =~= container_names(self.selected_containers()));
                r
            },
        };
        let cont = keep_or_first_of(&containers, &self.cont_pick);
        self.cont_pick = cont;
        assert(self.selected_pods() == mid.selected_pods());
    }

    /// What a request for namespace `ns` leaves its repository at: asked about, or known to
    /// have no repository at all.
    pub open spec fn requested(&self, ns: Seq<char>) -> RemoteView {
        if repo_url_of(self.repos.entries(), ns) is Some {
            RemoteView::Loading
        } else {
            RemoteView::Unconfigured
        }
    }

    /// What a request for namespace `ns` asks `git` to do: nothing when no repository is
    /// configured for it.
    pub open spec fn resolve_for(&self, ns: Seq<char>) -> Seq<ActionView> {
        resolve_in(self.repos.entries(), self.mode, ns)
    }

    /// What requests for each of `names` ask `git` to do, in order.
    pub open spec fn resolves_for(&self, names: Seq<Seq<char>>) -> Seq<ActionView> {
        resolves_in(self.repos.entries(), self.mode, names)
    }

    /// The state right after the mode is switched, before anything is asked for.
    pub open spec fn after_toggle(self) -> App {
        App { mode: mode_toggled(self.mode), note: None, ..self }
    }

    /// The namespaces the current mode has no answer for yet, in list order.
    pub open spec fn missing_names(&self) -> Seq<Seq<char>> {
        self.missing_upto(self.entries@.len() as int)
    }

    /// The first `n` namespaces the current mode has no answer for yet.
    pub open spec fn missing_upto(&self, n: int) -> Seq<Seq<char>>
        decreases n,
    {
        if n <= 0 {
            seq![]
        } else {
            let prev = self.missing_upto(n - 1);
            let k = self.entries@[n - 1].name@;
            if self.remote_spec(k) is None {
                prev.push(k)
            } else {
                prev
            }
        }
    }

    proof fn lemma_missing_upto(&self, n: int)
        requires
            0 <= n <= self.entries@.len(),
        ensures
            forall|k: Seq<char>|
                self.missing_upto(n).contains(k) <==> (self.names_view().take(n).contains(k)
                    && self.remote_spec(k) is None),
        decreases n,
    {
        if n > 0 {
            self.lemma_missing_upto(n - 1);
            let prev = self.missing_upto(n - 1);
            let names = self.names_view();
            assert forall|k: Seq<char>|
                self.missing_upto(n).contains(k) <==> (names.take(n).contains(k)
                    && self.remote_spec(k) is None) by {
                let last = self.entries@[n - 1].name@;
                assert(names.take(n)[n - 1] == last);
                let now = names.take(n);
                let before = names.take(n - 1);
                if now.contains(k) {
                    let j = choose|j: int| 0 <= j < now.len() && now[j] == k;
                    if j < n - 1 {
                        assert(before[j] == k);
                    }
                }
                if before.contains(k) {
                    let j = choose|j: int| 0 <= j < before.len() && before[j] == k;
                    assert(now[j] == k);
                }
                if self.remote_spec(last) is None {
                    let cur = prev.push(last);
                    assert(cur[prev.len() as int] == last);
                    if prev.contains(k) {
                        let j = choose|j: int| 0 <= j < prev.len() && prev[j] == k;
                        assert(cur[j] == k);
                    }
                    if cur.contains(k) {
                        let j = choose|j: int| 0 <= j < cur.len() && cur[j] == k;
                        if j < prev.len() {
                            assert(prev[j] == k);
                        }
                    }
                }
            }
        }
    }

    /// The note reported last, while it is still worth showing.
    pub open spec fn reported_spec(&self) -> Option<Note> {
        match self.note {
            Some((n, at)) => if self.now < at + NOTE_TTL_MS {
                Some(n)
            } else {
                None
            },
            None => None,
        }
    }

    /// Asks `git` about namespace `namespace` in the current mode, or records that there
    /// is no repository to ask.
    fn request(&mut self, namespace: &str)
        ensures
            forall|m: Mode, k: Seq<char>|
                final(self).remote_for(m, k) == if m == old(self).mode && k == namespace@ {
                    Some(old(self).requested(namespace@))
                } else {
                    old(self).remote_for(m, k)
                },
            actions_of(final(self).pending@) == actions_of(old(self).pending@) + old(self).resolve_for(namespace@),
            *final(self) == (App {
                remotes: final(self).remotes,
                pending: final(self).pending,
                ..*old(self)
            }),
    {
        let mode = self.mode;
        match self.repos.get_repo_by_name(namespace) {
            Some(repo) => {
                let url = repo.url.clone();
                self.pending.push(
                    Action::Resolve { mode, namespace: String::from_str(namespace), url },
                );
                assert(actions_of(self.pending@) =~= actions_of(old(self).pending@) + old(
                    self,
                ).resolve_for(namespace@));
                self.set_remote_in(mode, namespace, RemoteState::Loading);
            },
            None => {
                self.set_remote_in(mode, namespace, RemoteState::Unconfigured);
                assert(actions_of(self.pending@) =~= actions_of(old(self).pending@) + old(self).resolve_for(namespace@));
            },
        }
    }

    /// The names of the namespaces the current mode has no answer for yet.
    fn missing(&self) -> (r: Vec<String>)
        ensures
            r.deep_view() == self.missing_names(),
    {
        let mut r: Vec<String> = Vec::new();
        let mut i: usize = 0;
        while i < self.entries.len()
            invariant
                i <= self.entries@.len(),
                r.deep_view() == self.missing_upto(i as int),
            decreases self.entries@.len() - i,
        {
            let ghost before = r.deep_view();
            if self.remote(self.entries[i].name.as_str()).is_none() {
                r.push(self.entries[i].name.clone());
                assert(r.deep_view() =~= before.push(self.entries@[i as int].name@));
            }
            i += 1;
        }
        r
    }

    /// Asks for every namespace the current mode has no answer for yet.
    fn request_missing(&mut self)
        ensures
            forall|m: Mode, k: Seq<char>|
                final(self).remote_for(m, k) == if m == old(self).mode && old(self).missing_names().contains(k) {
                    Some(old(self).requested(k))
                } else {
                    old(self).remote_for(m, k)
                },
            actions_of(final(self).pending@) == actions_of(old(self).pending@) + old(self).resolves_for(old(self).missing_names()),
            *final(self) == (App {
                remotes: final(self).remotes,
                pending: final(self).pending,
                ..*old(self)
            }),
    {
        let names = self.missing();
        let mut i: usize = 0;
        while i < names.len()
            invariant
                i <= names@.len(),
                names.deep_view() == old(self).missing_names(),
                forall|m: Mode, k: Seq<char>|
                    self.remote_for(m, k) == if m == old(self).mode && names.deep_view().take(
                        i as int,
                    ).contains(k) {
                        Some(old(self).requested(k))
                    } else {
                        old(self).remote_for(m, k)
                    },
                actions_of(self.pending@) == actions_of(old(self).pending@) + old(self).resolves_for(names.deep_view().take(i as int)),
                *self == (App { remotes: self.remotes, pending: self.pending, ..*old(self) }),
            decreases names@.len() - i,
        {
            let ghost taken = names.deep_view().take(i as int);
            let ghost next = names.deep_view().take(i + 1);
            proof {
                assert(next.drop_last() =~= taken);
                assert(next.last() == names@[i as int]@);
                assert forall|k: Seq<char>| next.contains(k) <==> (taken.contains(k) || k
                    == names@[i as int]@) by {
                    if next.contains(k) {
                        let j = choose|j: int| 0 <= j < next.len() && next[j] == k;
                        if j < i {
                            assert(taken[j] == k);
                        }
                    }
                    if taken.contains(k) {
                        let j = choose|j: int| 0 <= j < taken.len() && taken[j] == k;
                        assert(next[j] == k);
                    }
                    if k == names@[i as int]@ {
                        assert(next[i as int] == k);
                    }
                }
            }
            let ghost pending_before = actions_of(self.pending@);
            self.request(names[i].as_str());
            proof {
                assert(actions_of(self.pending@) =~= actions_of(old(self).pending@) + old(self).resolves_for(next));
            }
            i += 1;
        }
        assert(names.deep_view().take(i as int) =~= names.deep_view());
    }

    /// Records what is known about the repository of `namespace` in the current mode.
    pub fn set_remote(&mut self, namespace: &str, state: RemoteState)
        ensures
            forall|m: Mode, k: Seq<char>|
                final(self).remote_for(m, k) == if m == old(self).mode && k == namespace@ {
                    Some(state@)
                } else {
                    old(self).remote_for(m, k)
                },
            *final(self) == (App { remotes: final(self).remotes, ..*old(self) }),
    {
        let mode = self.mode;
        self.set_remote_in(mode, namespace, state);
    }

    /// Takes in what a lookup of `name` in `mode` came to, and when it arrived.
    pub fn accept_lookup(&mut self, mode: Mode, name: &str, result: Result<Target, LookupError>)
        ensures
            forall|m: Mode, k: Seq<char>|
                final(self).remote_for(m, k) == if m == mode && k == name@ {
                    Some(state_after(lookup_view(result)))
                } else {
                    old(self).remote_for(m, k)
                },
            final(self).resolved_at == Some(old(self).now),
            *final(self) == (App {
                remotes: final(self).remotes,
                resolved_at: final(self).resolved_at,
                ..*old(self)
            }),
    {
        let state = RemoteState::after_lookup(result);
        self.resolved_at = Some(self.now);
        self.set_remote_in(mode, name, state);
    }

    /// Takes in what listing the pods of `name` came to in listing round `round`. An
    /// answer from an earlier round is dropped: it would put a stale list of pods back on
    /// screen.
    pub fn accept_pods(&mut self, round: u64, name: &str, result: Result<Vec<MyPod>, MsgError>)
        ensures
            round != old(self).listing_round ==> *final(self) == *old(self),
            round == old(self).listing_round ==> {
                let at = first_of(old(self).names_view(), name@);
                &&& final(self).entries@.len() == old(self).entries@.len()
                &&& forall|j: int|
                    0 <= j < old(self).entries@.len() && j != at ==> final(self).entries@[j]
                        == old(self).entries@[j]
                &&& at >= 0 ==> final(self).entries@[at].name@ == old(self).entries@[at].name@
                    && final(self).entries@[at].pods == pods_state_of(result)
                &&& final(self).listed_at == Some(old(self).now)
            },
            final(self).names_view() == old(self).names_view(),
            *final(self) == (App {
                entries: final(self).entries,
                listed_at: final(self).listed_at,
                ..*old(self)
            }),
    {
        if round != self.listing_round {
            return;
        }
        let state = match result {
            Ok(pods) => PodsState::Ready(pods),
            Err(e) => PodsState::Failed(e.details),
        };
        let names = self.names();
        match position_of(&names, name) {
            Some(i) => {
                proof {
                    lemma_first_of(names.deep_view(), name@);
                }
                let entry_name = self.entries[i].name.clone();
                self.entries.set(i, Entry { name: entry_name, pods: state });
                assert(self.names_view() =~= old(self).names_view());
            },
            None => {},
        }
        self.listed_at = Some(self.now);
    }

    /// Sets the clock, in milliseconds since the epoch.
    pub fn set_now(&mut self, now: u64)
        ensures
            *final(self) == (App { now, ..*old(self) }),
    {
        self.now = now;
    }

    /// Moves the spinner on, then keeps the selection pointing at rows that still exist.
    pub fn tick(&mut self)
        ensures
            settled((App { frame: next_frame(old(self).frame), ..*old(self) }), *final(self)),
    {
        self.frame = if self.frame == usize::MAX {
            0
        } else {
            self.frame + 1
        };
        self.normalize();
    }

    /// Shows `text` in the footer until it expires or is dismissed.
    pub fn report(&mut self, kind: NoteKind, text: String)
        ensures
            final(self).note matches Some((n, at)) && at == old(self).now && note_view(n) == (
                kind,
                text@,
                false,
                false,
            ),
            *final(self) == (App { note: final(self).note, ..*old(self) }),
    {
        let now = self.now;
        self.note = Some((Note { kind, text, retry: false, standing: false }, now));
    }

    /// The reported action, while it is still worth showing.
    pub fn reported(&self) -> (r: Option<&Note>)
        ensures
            match r {
                Some(n) => self.reported_spec() == Some(*n),
                None => self.reported_spec() is None,
            },
    {
        match &self.note {
            Some((n, at)) => {
                if self.now < *at || self.now - *at < NOTE_TTL_MS {
                    Some(n)
                } else {
                    None
                }
            },
            None => None,
        }
    }

    /// Gives up the reported action. An expired one is already invisible, so giving it up
    /// does not count as having done something: Esc would be swallowed for nothing.
    pub fn dismiss_note(&mut self) -> (r: bool)
        ensures
            r == old(self).reported_spec() is Some,
            final(self).note is None,
            *final(self) == (App { note: None, ..*old(self) }),
    {
        let showing = self.reported().is_some();
        self.note = None;
        showing
    }

    pub fn focus_next(&mut self)
        ensures
            final(self).pane == match old(self).pane {
                Pane::Namespaces => Pane::Pods,
                _ => Pane::Containers,
            },
            *final(self) == (App { pane: final(self).pane, ..*old(self) }),
    {
        self.pane = match self.pane {
            Pane::Namespaces => Pane::Pods,
            Pane::Pods | Pane::Containers => Pane::Containers,
        };
    }

    pub fn focus_prev(&mut self)
        ensures
            final(self).pane == match old(self).pane {
                Pane::Containers => Pane::Pods,
                _ => Pane::Namespaces,
            },
            *final(self) == (App { pane: final(self).pane, ..*old(self) }),
    {
        self.pane = match self.pane {
            Pane::Namespaces | Pane::Pods => Pane::Namespaces,
            Pane::Containers => Pane::Pods,
        };
    }

    pub fn focus_containers(&mut self)
        ensures
            *final(self) == (App { pane: Pane::Containers, ..*old(self) }),
    {
        self.pane = Pane::Containers;
    }

    /// Opens the detail screen of the selected namespace, if there is one.
    pub fn open_namespace(&mut self)
        ensures
            old(self).ns_pick is None ==> *final(self) == *old(self),
            old(self).ns_pick is Some ==> *final(self) == (App {
                screen: Screen::Detail,
                pane: Pane::Pods,
                ..*old(self)
            }),
    {
        if self.ns_pick.is_none() {
            return;
        }
        self.screen = Screen::Detail;
        self.pane = Pane::Pods;
    }

    /// Esc: gives up whatever is on top: a message, then the detail screen, then the tool.
    pub fn back(&mut self)
        ensures
            old(self).reported_spec() is Some ==> *final(self) == (App {
                note: None,
                ..*old(self)
            }),
            old(self).reported_spec() is None && old(self).screen == Screen::Detail
                ==> *final(self) == (App {
                note: None,
                screen: Screen::Overview,
                pane: Pane::Pods,
                ..*old(self)
            }),
            old(self).reported_spec() is None && old(self).screen == Screen::Overview
                ==> *final(self) == (App { note: None, should_quit: true, ..*old(self) }),
    {
        if self.dismiss_note() {
            return;
        }
        match self.screen {
            Screen::Detail => {
                self.screen = Screen::Overview;
                self.pane = Pane::Pods;
            },
            Screen::Overview => self.quit(),
        }
    }

    /// Switching modes reuses whatever was already resolved and only asks for the rest.
    pub fn toggle_mode(&mut self)
        ensures
            final(self).mode == mode_toggled(old(self).mode),
            final(self).note is None,
            forall|m: Mode, k: Seq<char>|
                final(self).remote_for(m, k) == if m == final(self).mode && !(old(self).remote_for(m, k) is Some) && old(self).names_view().contains(k) {
                    Some(final(self).requested(k))
                } else {
                    old(self).remote_for(m, k)
                },
            actions_of(final(self).pending@) == actions_of(old(self).pending@) + old(
                self,
            ).after_toggle().resolves_for(old(self).after_toggle().missing_names()),
            *final(self) == (App {
                mode: final(self).mode,
                note: None,
                remotes: final(self).remotes,
                pending: final(self).pending,
                ..*old(self)
            }),
    {
        self.mode = self.mode.toggled();
        self.note = None;
        let ghost mid = *self;
        assert(mid == old(self).after_toggle());
        self.request_missing();
        proof {
            mid.lemma_missing_upto(mid.entries@.len() as int);
            assert(mid.names_view().take(mid.entries@.len() as int) =~= mid.names_view());
        }
    }

    pub fn cycle_filter(&mut self)
        ensures
            *final(self) == (App { filter: filter_next(old(self).filter), ..*old(self) }),
    {
        self.filter = self.filter.next();
    }

    pub fn cycle_sort(&mut self)
        ensures
            *final(self) == (App { sort: sort_next(old(self).sort), ..*old(self) }),
    {
        self.sort = self.sort.next();
    }

    /// Search filters the namespace list, so it is only allowed while that list is the one
    /// the user is looking at: filtering a list that is off screen would move the selection
    /// under them.
    pub fn searchable(&self) -> (r: bool)
        ensures
            r == match self.screen {
                Screen::Overview => true,
                Screen::Detail => self.pane == Pane::Namespaces && !self.narrow,
            },
    {
        match self.screen {
            Screen::Overview => true,
            Screen::Detail => self.pane == Pane::Namespaces && !self.narrow,
        }
    }

    pub fn start_search(&mut self)
        ensures
            *final(self) == if old(self).searchable_spec() {
                App { input: Input::Search, ..*old(self) }
            } else {
                *old(self)
            },
    {
        if self.searchable() {
            self.input = Input::Search;
        }
    }

    pub open spec fn searchable_spec(&self) -> bool {
        match self.screen {
            Screen::Overview => true,
            Screen::Detail => self.pane == Pane::Namespaces && !self.narrow,
        }
    }

    pub fn search_push(&mut self, symbol: char)
        ensures
            final(self).query@ == old(self).query@.push(symbol),
            *final(self) == (App { query: final(self).query, ..*old(self) }),
    {
        push_char(&mut self.query, symbol);
    }

    pub fn search_pop(&mut self)
        ensures
            final(self).query@ == if old(self).query@.len() > 0 {
                old(self).query@.drop_last()
            } else {
                old(self).query@
            },
            *final(self) == (App { query: final(self).query, ..*old(self) }),
    {
        let v = to_chars(self.query.as_str());
        if v.len() > 0 {
            self.query = string_of(v.as_slice(), 0, v.len() - 1);
            assert(self.query@ =~= old(self).query@.drop_last());
        }
    }

    /// Leaving search either keeps the typed filter or drops it.
    pub fn end_search(&mut self, keep: bool)
        ensures
            final(self).input == Input::Normal,
            final(self).query@ == if keep {
                old(self).query@
            } else {
                Seq::<char>::empty()
            },
            *final(self) == (App {
                input: Input::Normal,
                query: final(self).query,
                ..*old(self)
            }),
    {
        self.input = Input::Normal;
        if !keep {
            self.query = String::new();
        }
    }

    pub fn toggle_help(&mut self)
        ensures
            *final(self) == (App {
                input: if old(self).input == Input::Help {
                    Input::Normal
                } else {
                    Input::Help
                },
                ..*old(self)
            }),
    {
        self.input = match self.input {
            Input::Help => Input::Normal,
            _ => Input::Help,
        };
    }

    /// Hands out the work asked for so far, and forgets it.
    pub fn take_actions(&mut self) -> (r: Vec<Action>)
        ensures
            r@ == old(self).pending@,
            final(self).pending@.len() == 0,
            *final(self) == (App { pending: final(self).pending, ..*old(self) }),
    {
        let mut r: Vec<Action> = Vec::new();
        std::mem::swap(&mut r, &mut self.pending);
        r
    }

    /// Asks Kubernetes for the pods of every namespace again, in a new listing round.
    pub fn relist_pods(&mut self)
        requires
            old(self).listing_round < u64::MAX,
        ensures
            final(self).listing_round == old(self).listing_round + 1,
            final(self).names_view() == old(self).names_view(),
            final(self).entries@.len() == old(self).entries@.len(),
            forall|j: int|
                0 <= j < final(self).entries@.len() ==> final(self).entries@[j].pods is Listing,
            actions_of(final(self).pending@) == actions_of(old(self).pending@) + old(
                self,
            ).names_view().map_values(
                |k: Seq<char>|
                    ActionView::ListPods { round: (old(self).listing_round + 1) as u64, namespace: k },
            ),
            *final(self) == (App {
                entries: final(self).entries,
                listing_round: final(self).listing_round,
                pending: final(self).pending,
                ..*old(self)
            }),
    {
        self.listing_round = self.listing_round + 1;
        let round = self.listing_round;
        let mut i: usize = 0;
        while i < self.entries.len()
            invariant
                i <= self.entries@.len(),
                self.names_view() == old(self).names_view(),
                self.entries@.len() == old(self).entries@.len(),
                forall|j: int| 0 <= j < i ==> self.entries@[j].pods is Listing,
                round == old(self).listing_round + 1,
                *self == (App { entries: self.entries, listing_round: round, ..*old(self) }),
            decreases self.entries@.len() - i,
        {
            let name = self.entries[i].name.clone();
            self.entries.set(i, Entry { name, pods: PodsState::Listing });
            assert(self.names_view() =~= old(self).names_view());
            i += 1;
        }
        let names = self.names();
        let ghost listed = old(self).names_view().map_values(
            |k: Seq<char>| ActionView::ListPods { round, namespace: k },
        );
        let mut k: usize = 0;
        while k < names.len()
            invariant
                k <= names@.len(),
                names.deep_view() == old(self).names_view(),
                listed == old(self).names_view().map_values(
                    |n: Seq<char>| ActionView::ListPods { round, namespace: n },
                ),
                actions_of(self.pending@) == actions_of(old(self).pending@) + listed.take(
                    k as int,
                ),
                self.names_view() == old(self).names_view(),
                self.entries@.len() == old(self).entries@.len(),
                forall|j: int| 0 <= j < self.entries@.len() ==> self.entries@[j].pods is Listing,
                round == old(self).listing_round + 1,
                *self == (App {
                    entries: self.entries,
                    listing_round: round,
                    pending: self.pending,
                    ..*old(self)
                }),
            decreases names@.len() - k,
        {
            let ghost before = actions_of(self.pending@);
            self.pending.push(Action::ListPods { round, namespace: names[k].clone() });
            assert(actions_of(self.pending@) =~= before.push(listed[k as int]));
            k += 1;
            assert(actions_of(self.pending@) =~= actions_of(old(self).pending@) + listed.take(
                k as int,
            ));
        }
        assert(listed.take(k as int) =~= listed);
    }

    /// Asks the selected namespace again: `git` for its reference, and Kubernetes for its
    /// pods when that is the side that failed. The footer offers `r` for both, so both
    /// happen. A lookup still in flight is not asked again: the second answer could land
    /// first and be overwritten by the older one.
    pub fn refresh_selected(&mut self)
        ensures
            old(self).selected_index() < 0 ==> *final(self) == *old(self),
            old(self).selected_index() >= 0 ==> {
                let i = old(self).selected_index();
                let e = old(self).entries@[i];
                let unlisted = e.pods is Failed;
                let loading = old(self).remote_spec(e.name@) == Some(RemoteView::Loading);
                &&& final(self).entries@.len() == old(self).entries@.len()
                &&& forall|j: int|
                    0 <= j < old(self).entries@.len() && j != i ==> final(self).entries@[j]
                        == old(self).entries@[j]
                &&& final(self).entries@[i].name@ == e.name@
                &&& unlisted ==> final(self).entries@[i].pods is Listing
                &&& !unlisted ==> final(self).entries@[i] == e
                &&& forall|m: Mode, k: Seq<char>|
                    final(self).remote_for(m, k) == if !loading && m == old(self).mode && k
                        == e.name@ {
                        Some(old(self).requested(k))
                    } else {
                        old(self).remote_for(m, k)
                    }
                &&& actions_of(final(self).pending@) == actions_of(old(self).pending@) + (if unlisted {
                    seq![ActionView::ListPods { round: old(self).listing_round, namespace: e.name@ }]
                } else {
                    seq![]
                }) + (if loading {
                    seq![]
                } else {
                    old(self).resolve_for(e.name@)
                })
                &&& *final(self) == (App {
                    entries: final(self).entries,
                    remotes: final(self).remotes,
                    pending: final(self).pending,
                    note: None,
                    ..*old(self)
                })
            },
    {
        let (name, unlisted) = match self.selected_entry() {
            Some(e) => (e.name.clone(), matches!(e.pods, PodsState::Failed(_))),
            None => {
                return;
            },
        };
        let ghost i = self.selected_index();
        proof {
            lemma_first_of(self.names_view(), self.ns_pick->0@);
        }
        if unlisted {
            let round = self.listing_round;
            let names = self.names();
            match position_of(&names, name.as_str()) {
                Some(j) => {
                    proof {
                        lemma_first_of(names.deep_view(), name@);
                    }
                    let entry_name = self.entries[j].name.clone();
                    self.entries.set(j, Entry { name: entry_name, pods: PodsState::Listing });
                },
                None => {},
            }
            let ghost before = actions_of(self.pending@);
            self.pending.push(Action::ListPods { round, namespace: name.clone() });
            assert(actions_of(self.pending@) =~= before + seq![
                ActionView::ListPods { round: old(self).listing_round, namespace: name@ },
            ]);
        }
        let loading = match self.remote(name.as_str()) {
            Some(RemoteState::Loading) => true,
            _ => false,
        };
        self.note = None;
        if !loading {
            self.request(name.as_str());
        }
        proof {
            let e = old(self).entries@[i];
            if unlisted {
                assert(actions_of(self.pending@) =~= actions_of(old(self).pending@) + seq![
                    ActionView::ListPods { round: old(self).listing_round, namespace: name@ },
                ] + (if loading {
                    seq![]
                } else {
                    old(self).resolve_for(name@)
                }));
            } else {
                assert(actions_of(self.pending@) =~= actions_of(old(self).pending@) + seq![] + (
                if loading {
                    seq![]
                } else {
                    old(self).resolve_for(name@)
                }));
            }
        }
    }

    /// Reference a pod stands for: the one of its containers that says the most about the
    /// release. Taking the first container instead would let a service mesh proxy injected
    /// ahead of the application speak for the whole pod. A pod where nothing can speak, a
    /// foreign workload or one pinned by digest, stands for nothing.
    pub fn pod_reference(&self, namespace: &str, pod: &MyPod) -> (r: Option<ImageRef>)
        ensures
            opt_ref_view(r) == self.pod_ref(namespace@, *pod),
    {
        let remote = self.remote(namespace);
        let mut best: Option<(u8, ImageRef)> = None;
        let mut i: usize = 0;
        while i < pod.containers.len()
            invariant
                i <= pod.containers@.len(),
                opt_remote_view(remote) == self.remote_spec(namespace@),
                match best {
                    Some((k, r)) => self.best_ref(namespace@, pod.containers@.take(i as int))
                        == Some((k as int, r@)),
                    None => self.best_ref(namespace@, pod.containers@.take(i as int)) is None,
                },
            decreases pod.containers@.len() - i,
        {
            proof {
                assert(pod.containers@.take(i + 1).drop_last() =~= pod.containers@.take(i as int));
            }
            let c = &pod.containers[i];
            let candidate: Option<(u8, ImageRef)> = match c.image_ref() {
                Some(image_ref) => {
                    let rank = reference_rank(judge(Some(&image_ref), remote));
                    match rank {
                        Some(k) => Some((k, image_ref)),
                        None => None,
                    }
                },
                None => None,
            };
            best = match (best, candidate) {
                (Some(a), Some(b)) => if b.0 < a.0 {
                    Some(b)
                } else {
                    Some(a)
                },
                (None, b) => b,
                (a, None) => a,
            };
            i += 1;
        }
        assert(pod.containers@.take(i as int) =~= pod.containers@);
        match best {
            Some((_, r)) => Some(r),
            None => None,
        }
    }

    /// What the pods of the namespaces from `from` up to `to` carry.
    fn kind_of(&self, from: usize, to: usize) -> (r: RefKind)
        requires
            from <= to <= self.entries@.len(),
        ensures
            r == self.kind_spec(self.entries@.subrange(from as int, to as int)),
    {
        let ghost sub = self.entries@.subrange(from as int, to as int);
        let mut tags = false;
        let mut commits = false;
        let mut i: usize = from;
        while i < to
            invariant
                from <= i <= to <= self.entries@.len(),
                sub == self.entries@.subrange(from as int, to as int),
                tags <==> exists|a: int, b: int|
                    0 <= a < i - from && 0 <= b < pods_of(sub[a]).len() && self.pod_ref(
                        sub[a].name@,
                        #[trigger] pods_of(sub[a])[b],
                    ) matches Some(RefView::Tag(_)),
                commits <==> exists|a: int, b: int|
                    0 <= a < i - from && 0 <= b < pods_of(sub[a]).len() && self.pod_ref(
                        sub[a].name@,
                        #[trigger] pods_of(sub[a])[b],
                    ) matches Some(RefView::Commit(_)),
            decreases to - i,
        {
            let entry = &self.entries[i];
            let ghost at: int = i - from;
            assert(sub[at] == self.entries@[i as int]);
            let pods = entry.pod_list();
            let mut j: usize = 0;
            while j < pods.len()
                invariant
                    from <= i < to <= self.entries@.len(),
                    at == i - from,
                    sub == self.entries@.subrange(from as int, to as int),
                    *entry == sub[at],
                    pods@ == pods_of(sub[at]),
                    j <= pods@.len(),
                    tags <==> (exists|a: int, b: int|
                        0 <= a < at && 0 <= b < pods_of(sub[a]).len() && self.pod_ref(
                            sub[a].name@,
                            #[trigger] pods_of(sub[a])[b],
                        ) matches Some(RefView::Tag(_))) || (exists|b: int|
                        0 <= b < j && self.pod_ref(sub[at].name@, #[trigger] pods@[b])
                            matches Some(RefView::Tag(_))),
                    commits <==> (exists|a: int, b: int|
                        0 <= a < at && 0 <= b < pods_of(sub[a]).len() && self.pod_ref(
                            sub[a].name@,
                            #[trigger] pods_of(sub[a])[b],
                        ) matches Some(RefView::Commit(_))) || (exists|b: int|
                        0 <= b < j && self.pod_ref(sub[at].name@, #[trigger] pods@[b])
                            matches Some(RefView::Commit(_))),
                decreases pods@.len() - j,
            {
                match self.pod_reference(entry.name.as_str(), &pods[j]) {
                    Some(ImageRef::Tag(_)) => {
                        tags = true;
                    },
                    Some(ImageRef::Commit(_)) => {
                        commits = true;
                    },
                    None => {},
                }
                j += 1;
            }
            proof {
                assert forall|a: int, b: int|
                    0 <= a < at + 1 && 0 <= b < pods_of(sub[a]).len() && self.pod_ref(
                        sub[a].name@,
                        #[trigger] pods_of(sub[a])[b],
                    ) matches Some(RefView::Tag(_)) implies tags by {
                    if a == at {
                        assert(pods@[b] == pods_of(sub[a])[b]);
                    }
                }
                assert forall|a: int, b: int|
                    0 <= a < at + 1 && 0 <= b < pods_of(sub[a]).len() && self.pod_ref(
                        sub[a].name@,
                        #[trigger] pods_of(sub[a])[b],
                    ) matches Some(RefView::Commit(_)) implies commits by {
                    if a == at {
                        assert(pods@[b] == pods_of(sub[a])[b]);
                    }
                }
            }
            i += 1;
        }
        match (tags, commits) {
            (true, false) => RefKind::Tags,
            (false, true) => RefKind::Commits,
            (true, true) => RefKind::Mixed,
            // nothing has arrived yet: name the column after what the mode expects
            (false, false) => match self.mode {
                Mode::Commit => RefKind::Commits,
                Mode::Tag => RefKind::Tags,
            },
        }
    }

    /// What every namespace's pods carry, when they all carry the same kind of reference.
    pub fn deployed_kind(&self) -> (r: RefKind)
        ensures
            r == self.kind_spec(self.entries@),
    {
        assert(self.entries@.subrange(0, self.entries@.len() as int) =~= self.entries@);
        self.kind_of(0, self.entries.len())
    }

    /// The same for the selected namespace alone.
    pub fn selected_kind(&self) -> (r: RefKind)
        ensures
            r == self.kind_spec(
                if self.selected_index() >= 0 {
                    seq![self.entries@[self.selected_index()]]
                } else {
                    seq![]
                },
            ),
    {
        if let Some(p) = &self.ns_pick {
            let names = self.names();
            if let Some(i) = position_of(&names, p.as_str()) {
                proof {
                    lemma_first_of(names.deep_view(), p@);
                }
                let n = self.entries.len();
                assert(i < n);
                assert(self.entries@.subrange(i as int, i + 1) =~= seq![self.entries@[i as int]]);
                return self.kind_of(i, i + 1);
            }
        }
        assert(self.entries@.subrange(0, 0) =~= Seq::<Entry>::empty());
        self.kind_of(0, 0)
    }

    /// What the reference column says of `namespace`: the tag, or the short hash, of what
    /// the pods are compared against.
    pub fn reference_label(&self, namespace: &str) -> (r: String)
        ensures
            r@ == self.reference_label_spec(namespace@),
    {
        match self.remote(namespace) {
            Some(RemoteState::Ready(target)) => match &target.name {
                Some(n) => n.clone(),
                None => target.short(),
            },
            None | Some(RemoteState::Loading) => String::from_str("resolving\u{2026}"),
            _ => String::from_str("\u{2014}"),
        }
    }

    /// Whether some pod of `entry` can be judged.
    fn judged(&self, entry: &Entry) -> (r: bool)
        ensures
            r == self.judged_spec(*entry),
    {
        let pods = entry.pod_list();
        let mut j: usize = 0;
        while j < pods.len()
            invariant
                j <= pods@.len(),
                pods@ == pods_of(*entry),
                forall|k: int|
                    0 <= k < j ==> self.pverdict(entry.name@, #[trigger] pods@[k]) is Unknown,
            decreases pods@.len() - j,
        {
            match self.pod_verdict(entry.name.as_str(), &pods[j]) {
                Verdict::Unknown(_) => {},
                _ => {
                    return true;
                },
            }
            j += 1;
        }
        false
    }

    /// What the pods of a namespace are running, grouped. A pod nobody can judge is left
    /// out, since somebody else's workload sharing the namespace is not a second version of
    /// ours, but only while another pod can be judged: when none can, showing what they run
    /// is all the column has to offer.
    pub fn deployed(&self, entry: &Entry) -> (r: (Vec<Deployed>, usize))
        ensures
            (groups_view(r.0@), r.1 as nat) == self.deployed_spec(*entry),
    {
        let judged = self.judged(entry);
        let pods = entry.pod_list();
        let ghost ns = entry.name@;
        let mut groups: Vec<Deployed> = Vec::new();
        let mut j: usize = 0;
        while j < pods.len()
            invariant
                j <= pods@.len(),
                pods@ == pods_of(*entry),
                ns == entry.name@,
                judged == self.judged_spec(*entry),
                groups_view(groups@) == self.groups_of(ns, judged, pods@.take(j as int)),
                forall|k: int| 0 <= k < groups@.len() ==> groups@[k].count <= j,
            decreases pods@.len() - j,
        {
            proof {
                assert(pods@.take(j + 1).drop_last() =~= pods@.take(j as int));
                assert(pods@.take(j + 1).last() == pods@[j as int]);
            }
            let pod = &pods[j];
            let verdict = self.pod_verdict(entry.name.as_str(), pod);
            match self.pod_reference(entry.name.as_str(), pod) {
                None => {},
                Some(image_ref) => {
                    let skip = judged && matches!(verdict, Verdict::Unknown(_));
                    if !skip {
                        let label = image_ref.label();
                        let ghost before = groups_view(groups@);
                        match find_group(&groups, label.as_str()) {
                            Some(at) => {
                                let mut parts: Vec<Verdict> = Vec::new();
                                parts.push(groups[at].verdict);
                                parts.push(verdict);
                                assert(parts@ =~= seq![before[at as int].2, verdict]);
                                let merged = Verdict::of_parts(parts.as_slice());
                                let count = groups[at].count + 1;
                                groups.set(at, Deployed { label, count, verdict: merged });
                                assert(groups_view(groups@) =~= before.update(
                                    at as int,
                                    (ref_label(image_ref@), before[at as int].1 + 1, merged),
                                ));
                            },
                            None => {
                                groups.push(Deployed { label, count: 1, verdict });
                                assert(groups_view(groups@) =~= before.push(
                                    (ref_label(image_ref@), 1, verdict),
                                ));
                            },
                        }
                    }
                },
            }
            j += 1;
        }
        assert(pods@.take(j as int) =~= pods@);
        let ghost g = groups_view(groups@);
        // most pods first, then by label, then in order of appearance
        let mut keys: Vec<Vec<i128>> = Vec::new();
        let mut rows: Vec<usize> = Vec::new();
        let mut k: usize = 0;
        while k < groups.len()
            invariant
                k <= groups@.len(),
                g == groups_view(groups@),
                keys@.len() == k,
                rows@.len() == k,
                forall|x: int| 0 <= x < k ==> rows@[x] == x,
                forall|x: int| 0 <= x < k ==> ints_of(#[trigger] keys@[x]@) == group_key(g, x as usize),
            decreases groups@.len() - k,
        {
            let mut key: Vec<i128> = Vec::new();
            key.push(-(groups[k].count as i128));
            assert(ints_of(key@) =~= seq![-(g[k as int].1 as int)]);
            push_name_key(&mut key, groups[k].label.as_str());
            let ghost mid = ints_of(key@);
            key.push(k as i128);
            assert(ints_of(key@) =~= mid.push(k as int));
            assert(ints_of(key@) =~= group_key(g, k));
            keys.push(key);
            rows.push(k);
            k += 1;
        }
        proof {
            assert forall|x: usize, y: usize|
                x < keys@.len() && y < keys@.len() && x != y implies key_of(keys@, x) != key_of(
                keys@,
                y,
            ) by {
                assert(key_of(keys@, x) == group_key(g, x));
                assert(key_of(keys@, y) == group_key(g, y));
                assert(group_key(g, x).last() == x as int);
                assert(group_key(g, y).last() == y as int);
            }
            assert(rows@.no_duplicates());
        }
        let order = sort_by_keys(&keys, &rows);
        proof {
            assert forall|x: int| 0 <= x < rows@.len() implies rows@.to_set().contains(
                rows@[x],
            ) by {}
            assert forall|q: int| 0 <= q < order@.len() implies order@[q] < g.len() by {
                assert(order@.to_set().contains(order@[q]));
                assert(rows@.to_set().contains(order@[q]));
                let x = choose|x: int| 0 <= x < rows@.len() && rows@[x] == order@[q];
            }
            assert forall|x: usize| x < g.len() implies order@.contains(x) by {
                assert(rows@[x as int] == x);
                assert(rows@.to_set().contains(x));
                assert(order@.to_set().contains(x));
            }
            assert forall|a: int, b: int| 0 <= a < b < order@.len() implies key_lt(
                group_keys(g)(order@[a]),
                group_keys(g)(order@[b]),
            ) by {
                assert(key_of(keys@, order@[a]) == group_key(g, order@[a]));
                assert(key_of(keys@, order@[b]) == group_key(g, order@[b]));
            }
            assert(is_group_order(g, order@));
            lemma_group_order(g, order@);
        }
        let shown: usize = if groups.len() < DEPLOYED_GROUPS {
            groups.len()
        } else {
            DEPLOYED_GROUPS
        };
        let mut out: Vec<Deployed> = Vec::new();
        let mut q: usize = 0;
        while q < shown
            invariant
                q <= shown <= order@.len(),
                shown == groups@.len() || shown == DEPLOYED_GROUPS,
                g == groups_view(groups@),
                is_group_order(g, order@),
                groups_view(out@) == order@.take(q as int).map_values(|i: usize| g[i as int]),
            decreases shown - q,
        {
            let i = order[q];
            let d = Deployed {
                label: groups[i].label.clone(),
                count: groups[i].count,
                verdict: groups[i].verdict,
            };
            let ghost before = groups_view(out@);
            out.push(d);
            assert(groups_view(out@) =~= before.push(g[i as int]));
            q += 1;
            assert(groups_view(out@) =~= order@.take(q as int).map_values(
                |i: usize| g[i as int],
            ));
        }
        let hidden: usize = if groups.len() > DEPLOYED_GROUPS {
            groups.len() - DEPLOYED_GROUPS
        } else {
            0
        };
        (out, hidden)
    }

    /// Plain words for a verdict in `namespace`: the answer to "why is this row grey".
    pub fn explain(&self, namespace: &str, verdict: Verdict) -> (r: String)
        ensures
            r@ == self.explain_spec(namespace@, verdict),
    {
        match verdict {
            Verdict::InSync => {
                let label = self.reference_label(namespace);
                concat("matches ", label.as_str())
            },
            Verdict::Behind => {
                let label = self.reference_label(namespace);
                concat("behind \u{b7} reference is ", label.as_str())
            },
            Verdict::Resolving => String::from_str("resolving the reference"),
            Verdict::Failed(_) => match self.remote(namespace) {
                Some(RemoteState::Failed(reason)) => reason.clone(),
                _ => String::from_str("lookup failed"),
            },
            Verdict::Unknown(reason) => {
                let mut out = String::from_str(verdict.code());
                out.append(" \u{b7} ");
                out.append(reason_text(reason));
                out
            },
        }
    }

    /// The note column of a namespace: what is going on with it, in a few words.
    pub fn note_for(&self, entry: &Entry) -> (r: String)
        ensures
            r@ == self.note_for_spec(*entry),
    {
        match &entry.pods {
            PodsState::Listing => String::from_str("listing pods\u{2026}"),
            PodsState::Failed(reason) => concat("cannot list pods \u{b7} ", reason.as_str()),
            PodsState::Ready(pods) => {
                let verdict = self.namespace_verdict(entry);
                match verdict {
                    Verdict::Behind => {
                        let mut behind: usize = 0;
                        let mut j: usize = 0;
                        while j < pods.len()
                            invariant
                                j <= pods@.len(),
                                behind as nat == count_behind(
                                    self.pod_verdicts(entry.name@, pods@.take(j as int)),
                                ),
                                behind <= j,
                            decreases pods@.len() - j,
                        {
                            proof {
                                assert(self.pod_verdicts(entry.name@, pods@.take(j + 1)).drop_last()
                                    =~= self.pod_verdicts(entry.name@, pods@.take(j as int)));
                            }
                            if self.pod_verdict(entry.name.as_str(), &pods[j]) == Verdict::Behind {
                                behind += 1;
                            }
                            j += 1;
                        }
                        assert(pods@.take(j as int) =~= pods@);
                        let (groups, hidden) = self.deployed(entry);
                        let mut out = decimal_string(behind as u64);
                        out.append(" of ");
                        push_decimal(&mut out, pods.len() as u64);
                        out.append(" pods behind");
                        // the deployed column already shows the split; the word only names it
                        if groups.len() as u128 + hidden as u128 > 1 {
                            out.append(" \u{b7} mixed");
                        }
                        assert(out@ =~= self.note_for_spec(*entry));
                        out
                    },
                    Verdict::Failed(_) => match self.remote(entry.name.as_str()) {
                        Some(RemoteState::Failed(reason)) => concat("git \u{b7} ", reason.as_str()),
                        _ => String::from_str("git ls-remote failed"),
                    },
                    Verdict::Resolving => String::from_str("git ls-remote in flight"),
                    Verdict::Unknown(Unresolved::Finished) => concat(
                        verdict.code(),
                        " \u{b7} no running pods",
                    ),
                    Verdict::Unknown(reason) => {
                        let mut out = String::from_str(verdict.code());
                        out.append(" \u{b7} ");
                        out.append(reason_text(reason));
                        out
                    },
                    Verdict::InSync => String::new(),
                }
            },
        }
    }

    /// Namespace `index` as the tables show it.
    pub fn ns_row(&self, index: usize, names: &Vec<String>) -> (r: NsRow)
        requires
            index < self.entries@.len(),
            names.deep_view() == self.names_view(),
        ensures
            self.is_ns_row(r, index as int),
    {
        let entry = &self.entries[index];
        let (deployed, hidden_deployed) = self.deployed(entry);
        let prefix = shared_prefix(entry.name.as_str(), names.as_slice());
        NsRow {
            prefix: prefix.unicode_len(),
            name: entry.name.clone(),
            verdict: self.namespace_verdict(entry),
            pods: match &entry.pods {
                PodsState::Ready(pods) => Some(pods.len()),
                _ => None,
            },
            deployed,
            hidden_deployed,
            reference: self.reference_label(entry.name.as_str()),
            note: self.note_for(entry),
        }
    }

    /// The rows of the overview, in its order.
    pub fn overview_rows(&self) -> (r: Vec<NsRow>)
        ensures
            r@.len() == self.order_on(Screen::Overview).len(),
            forall|k: int|
                0 <= k < r@.len() ==> self.is_ns_row(
                    #[trigger] r@[k],
                    self.order_on(Screen::Overview)[k] as int,
                ),
    {
        let names = self.names();
        let order = self.ordered_indices_on(Screen::Overview);
        proof {
            self.lemma_order_on(Screen::Overview, order@);
        }
        let mut rows: Vec<NsRow> = Vec::new();
        let mut k: usize = 0;
        while k < order.len()
            invariant
                k <= order@.len(),
                names.deep_view() == self.names_view(),
                order@ == self.order_on(Screen::Overview),
                self.is_order_on(Screen::Overview, order@),
                rows@.len() == k,
                forall|q: int| 0 <= q < k ==> self.is_ns_row(#[trigger] rows@[q], order@[q] as int),
            decreases order@.len() - k,
        {
            let i = order[k];
            assert(self.visible(i as int));
            rows.push(self.ns_row(i, &names));
            k += 1;
        }
        rows
    }

    /// The selected namespace as the tables show it.
    pub fn selected_row(&self) -> (r: Option<NsRow>)
        ensures
            match r {
                Some(row) => self.selected_index() >= 0 && self.is_ns_row(
                    row,
                    self.selected_index(),
                ),
                None => self.selected_index() < 0,
            },
    {
        let pick = match &self.ns_pick {
            Some(p) => p,
            None => {
                return None;
            },
        };
        let names = self.names();
        match position_of(&names, pick.as_str()) {
            Some(i) => Some(self.ns_row(i, &names)),
            None => None,
        }
    }

    /// The same namespaces, grouped by family, the way the detail screen lists them. The
    /// heading carries the whole prefix the family shares, so the rows below it do not
    /// have to repeat it.
    pub fn mini_rows(&self) -> (r: Vec<MiniRow>)
        ensures
            r@.len() == self.mini_layout(self.order_on(Screen::Detail)).len(),
            forall|k: int|
                0 <= k < r@.len() ==> self.is_mini_row(
                    #[trigger] r@[k],
                    self.mini_layout(self.order_on(Screen::Detail))[k],
                ),
    {
        let names = self.names();
        let order = self.ordered_indices_on(Screen::Detail);
        proof {
            self.lemma_order_on(Screen::Detail, order@);
        }
        let mut rows: Vec<MiniRow> = Vec::new();
        let mut family: Option<String> = None;
        let mut k: usize = 0;
        while k < order.len()
            invariant
                k <= order@.len(),
                names.deep_view() == self.names_view(),
                self.is_order_on(Screen::Detail, order@),
                rows@.len() == self.mini_layout(order@.take(k as int)).len(),
                forall|q: int|
                    0 <= q < rows@.len() ==> self.is_mini_row(
                        #[trigger] rows@[q],
                        self.mini_layout(order@.take(k as int))[q],
                    ),
                opt_str_view(family) == if k > 0 {
                    Some(self.family_of_row(order@[k - 1]))
                } else {
                    None
                },
            decreases order@.len() - k,
        {
            let i = order[k];
            assert(self.visible(i as int));
            let ghost taken = order@.take(k + 1);
            proof {
                assert(taken.drop_last() =~= order@.take(k as int));
                assert(taken.last() == i);
                if k > 0 {
                    assert(taken[taken.len() - 2] == order@[k - 1]);
                }
            }
            let row = self.ns_row(i, &names);
            let label = family_label(shared_prefix(row.name.as_str(), names.as_slice()));
            let same = match &family {
                Some(f) => same_str(f.as_str(), label.as_str()),
                None => false,
            };
            let ghost before = rows@;
            let ghost prev = self.mini_layout(order@.take(k as int));
            if !same {
                rows.push(MiniRow::Family(label.clone()));
                family = Some(label);
            }
            rows.push(MiniRow::Namespace(row));
            proof {
                let layout = self.mini_layout(taken);
                assert forall|q: int| 0 <= q < rows@.len() implies self.is_mini_row(
                    #[trigger] rows@[q],
                    layout[q],
                ) by {
                    if q < before.len() {
                        assert(rows@[q] == before[q]);
                        assert(layout[q] == prev[q]);
                    }
                }
            }
            k += 1;
        }
        assert(order@.take(k as int) =~= order@);
        rows
    }

    /// Where the cursor sits among the rows of the detail screen's namespace list, which
    /// also holds unselectable family headings.
    pub fn mini_selected(&self) -> (r: Option<usize>)
        ensures
            match r {
                Some(k) => self.ns_pick is Some && k as int == first_some(
                    self.layout_names(self.mini_layout(self.order_on(Screen::Detail))),
                    self.ns_pick->0@,
                ),
                None => self.ns_pick is None || first_some(
                    self.layout_names(self.mini_layout(self.order_on(Screen::Detail))),
                    self.ns_pick->0@,
                ) == -1,
            },
    {
        let pick = match &self.ns_pick {
            Some(p) => p,
            None => {
                return None;
            },
        };
        let rows = self.mini_rows();
        let ghost names = self.layout_names(self.mini_layout(self.order_on(Screen::Detail)));
        assert(names.skip(0) =~= names);
        let mut k: usize = 0;
        while k < rows.len()
            invariant
                k <= rows@.len(),
                rows@.len() == names.len(),
                self.ns_pick is Some && self.ns_pick->0@ == pick@,
                names == self.layout_names(self.mini_layout(self.order_on(Screen::Detail))),
                forall|q: int|
                    0 <= q < rows@.len() ==> self.is_mini_row(
                        #[trigger] rows@[q],
                        self.mini_layout(self.order_on(Screen::Detail))[q],
                    ),
                first_some(names, pick@) == if first_some(names.skip(k as int), pick@) < 0 {
                    -1
                } else {
                    first_some(names.skip(k as int), pick@) + k
                },
            decreases rows@.len() - k,
        {
            proof {
                assert(names.skip(k as int)[0] == names[k as int]);
                assert(names.skip(k as int).drop_first() =~= names.skip(k + 1));
            }
            let hit = match &rows[k] {
                MiniRow::Namespace(ns) => same_str(ns.name.as_str(), pick.as_str()),
                MiniRow::Family(_) => false,
            };
            if hit {
                proof {
                    let layout = self.mini_layout(self.order_on(Screen::Detail));
                    assert(self.is_mini_row(rows@[k as int], layout[k as int]));
                    assert(names[k as int] == Some(pick@));
                    assert(names.skip(k as int)[0] == names[k as int]);
                    assert(first_some(names.skip(k as int), pick@) == 0);
                }
                return Some(k);
            }
            k += 1;
        }
        assert(names.skip(k as int).len() == 0);
        None
    }

    /// The pods of the selected namespace as the pod table shows them.
    pub fn pod_rows(&self) -> (r: Vec<PodRow>)
        ensures
            self.selected_index() < 0 ==> r@.len() == 0,
            self.selected_index() >= 0 ==> {
                let ns = self.entries@[self.selected_index()].name@;
                &&& r@.len() == self.selected_pods().len()
                &&& forall|k: int|
                    0 <= k < r@.len() ==> self.is_pod_row(
                        #[trigger] r@[k],
                        ns,
                        self.selected_pods()[k],
                    )
            },
    {
        let entry = match self.selected_entry() {
            Some(e) => e,
            None => {
                return Vec::new();
            },
        };
        let now: i64 = (self.now / 1000) as i64;
        let pods = entry.pod_list();
        let mut rows: Vec<PodRow> = Vec::new();
        let mut k: usize = 0;
        while k < pods.len()
            invariant
                k <= pods@.len(),
                pods@ == pods_of(*entry),
                now == self.now_secs(),
                rows@.len() == k,
                forall|q: int|
                    0 <= q < k ==> self.is_pod_row(#[trigger] rows@[q], entry.name@, pods@[q]),
            decreases pods@.len() - k,
        {
            let pod = &pods[k];
            let parts = split_pod_name(pod.name.as_str(), entry.name.as_str());
            let reference = match self.pod_reference(entry.name.as_str(), pod) {
                Some(r) => r.label(),
                None => String::from_str("\u{2014}"),
            };
            let age = match pod.age(now) {
                Some(a) => a,
                None => String::from_str("\u{2014}"),
            };
            rows.push(
                PodRow {
                    prefix: String::from_str(parts.prefix),
                    replicaset: String::from_str(parts.replicaset),
                    suffix: String::from_str(parts.suffix),
                    verdict: self.pod_verdict(entry.name.as_str(), pod),
                    reference,
                    status: pod.status.clone(),
                    restarts: pod.restarts,
                    age,
                    readiness: pod.readiness(),
                },
            );
            k += 1;
        }
        rows
    }

    /// The containers of the selected pod as the container table shows them.
    pub fn container_rows(&self) -> (r: Vec<ContainerRow>)
        ensures
            self.selected_index() < 0 || self.selected_pod_index() < 0 ==> r@.len() == 0,
            self.selected_index() >= 0 && self.selected_pod_index() >= 0 ==> {
                let ns = self.entries@[self.selected_index()].name@;
                let p = self.selected_pods()[self.selected_pod_index()];
                &&& r@.len() == p.containers@.len()
                &&& forall|k: int|
                    0 <= k < r@.len() ==> self.is_container_row(
                        #[trigger] r@[k],
                        ns,
                        p,
                        p.containers@[k],
                    )
            },
    {
        let entry = match self.selected_entry() {
            Some(e) => e,
            None => {
                return Vec::new();
            },
        };
        let pod = match self.selected_pod() {
            Some(p) => p,
            None => {
                return Vec::new();
            },
        };
        let mut rows: Vec<ContainerRow> = Vec::new();
        let mut k: usize = 0;
        while k < pod.containers.len()
            invariant
                k <= pod.containers@.len(),
                rows@.len() == k,
                forall|q: int|
                    0 <= q < k ==> self.is_container_row(
                        #[trigger] rows@[q],
                        entry.name@,
                        *pod,
                        pod.containers@[q],
                    ),
            decreases pod.containers@.len() - k,
        {
            let container = &pod.containers[k];
            let verdict = if pod.finished {
                Verdict::Unknown(Unresolved::Finished)
            } else {
                self.container_verdict(entry.name.as_str(), container)
            };
            let tag = match container.tag() {
                Some(t) => String::from_str(t),
                None => String::from_str("\u{2014}"),
            };
            rows.push(
                ContainerRow {
                    name: container.name.clone(),
                    tag,
                    verdict,
                    why: self.explain(entry.name.as_str(), verdict),
                },
            );
            k += 1;
        }
        rows
    }

    /// What the footer says: the last action, or why the selected namespace cannot be
    /// judged. Actions expire, standing problems do not.
    pub fn note(&self) -> (r: Option<Note>)
        ensures
            match r {
                Some(n) => self.note_spec() == Some(note_view(n)),
                None => self.note_spec() is None,
            },
    {
        if let Some(n) = self.reported() {
            return Some(Note { kind: n.kind, text: n.text.clone(), retry: n.retry, standing: false });
        }
        let entry = match self.selected_entry() {
            Some(e) => e,
            None => {
                return None;
            },
        };
        if let PodsState::Failed(reason) = &entry.pods {
            let mut text = entry.name.clone();
            text.append(" \u{b7} cannot list pods: ");
            text.append(reason.as_str());
            return Some(Note { kind: NoteKind::Error, text, retry: true, standing: true });
        }
        match self.remote(entry.name.as_str()) {
            Some(RemoteState::Failed(reason)) => {
                let mut text = entry.name.clone();
                text.append(" \u{b7} git ls-remote: ");
                text.append(reason.as_str());
                Some(Note { kind: NoteKind::Error, text, retry: true, standing: true })
            },
            Some(RemoteState::Unconfigured) => {
                let mut text = entry.name.clone();
                text.append(" is missing in repos.json \u{2014} nothing to compare");
                Some(Note { kind: NoteKind::Warn, text, retry: false, standing: true })
            },
            Some(RemoteState::NoTags) => {
                let mut text = entry.name.clone();
                text.append(" has no tags \u{2014} try ");
                text.append(self.mode.toggled().label());
                text.append(" mode");
                Some(Note { kind: NoteKind::Warn, text, retry: false, standing: true })
            },
            _ => None,
        }
    }

    /// One line about the selected container, shown on the detail screen.
    pub fn selection_summary(&self) -> (r: Option<String>)
        ensures
            opt_str_view(r) == self.summary_spec(),
    {
        let entry = match self.selected_entry() {
            Some(e) => e,
            None => {
                return None;
            },
        };
        let container = match self.selected_container() {
            Some(c) => c,
            None => {
                return None;
            },
        };
        let verdict = self.container_verdict(entry.name.as_str(), container);
        let running = match container.tag() {
            Some(t) => String::from_str(t),
            None => String::from_str("\u{2014}"),
        };
        let mut out = container.name.clone();
        match verdict {
            Verdict::Behind => {
                out.append(" runs ");
                out.append(running.as_str());
                out.append(" \u{2192} reference is ");
                let label = self.reference_label(entry.name.as_str());
                out.append(label.as_str());
            },
            Verdict::InSync => {
                out.append(" runs the reference ");
                out.append(running.as_str());
            },
            _ => {
                out.append(" ");
                out.append(running.as_str());
                out.append(" \u{b7} ");
                let why = self.explain(entry.name.as_str(), verdict);
                out.append(why.as_str());
            },
        }
        Some(out)
    }

    /// How many namespaces have been listed out of how many, while any is still pending.
    pub fn listing(&self) -> (r: Option<(usize, usize)>)
        ensures
            match r {
                Some((done, total)) => done as nat == Self::listed_count(self.entries@) && total
                    == self.entries@.len() && done != total,
                None => Self::listed_count(self.entries@) == self.entries@.len(),
            },
    {
        let mut done: usize = 0;
        let mut i: usize = 0;
        while i < self.entries.len()
            invariant
                i <= self.entries@.len(),
                done as nat == Self::listed_count(self.entries@.take(i as int)),
                done <= i,
            decreases self.entries@.len() - i,
        {
            assert(self.entries@.take(i + 1).drop_last() =~= self.entries@.take(i as int));
            if !matches!(self.entries[i].pods, PodsState::Listing) {
                done += 1;
            }
            i += 1;
        }
        assert(self.entries@.take(i as int) =~= self.entries@);
        if done == self.entries.len() {
            None
        } else {
            Some((done, self.entries.len()))
        }
    }

    /// How far the lookups of the current mode have come, while some are still out: how
    /// many namespaces have an answer, of how many.
    pub fn lookup_progress(&self) -> (r: Option<(usize, usize)>)
        ensures
            match r {
                Some((done, total)) => self.resolving_count(self.entries@) > 0 && total
                    == self.entries@.len() && done == total - self.resolving_count(self.entries@),
                None => self.resolving_count(self.entries@) == 0,
            },
    {
        let waiting = self.resolving();
        if waiting == 0 {
            None
        } else {
            let total = self.entries.len();
            Some((total - waiting, total))
        }
    }

    /// What the upper footer line shows.
    pub open spec fn status_content_spec(&self, narrow: bool) -> StatusContent {
        if self.note_spec() is Some {
            StatusContent::Note
        } else {
            match self.screen {
                Screen::Detail => if self.summary_spec() is Some {
                    StatusContent::Selection
                } else {
                    StatusContent::Summary
                },
                Screen::Overview => if narrow && self.selected_index() >= 0 && self.note_for_spec(
                    self.entries@[self.selected_index()],
                ).len() > 0 {
                    StatusContent::RowNote
                } else {
                    StatusContent::Summary
                },
            }
        }
    }

    /// What the upper footer line shows: what just happened; else, on the detail screen,
    /// what is selected; else, on the narrow overview, which has no note column, the note
    /// of the selected row; else the tally.
    pub fn status_content(&self, narrow: bool) -> (r: StatusContent)
        ensures
            r == self.status_content_spec(narrow),
    {
        if self.note().is_some() {
            return StatusContent::Note;
        }
        match self.screen {
            Screen::Detail => if self.selection_summary().is_some() {
                StatusContent::Selection
            } else {
                StatusContent::Summary
            },
            Screen::Overview => {
                if narrow {
                    if let Some(row) = self.selected_row() {
                        if row.note.as_str().unicode_len() > 0 {
                            return StatusContent::RowNote;
                        }
                    }
                }
                StatusContent::Summary
            },
        }
    }

    /// Repositories whose reference is still being fetched in the current mode.
    pub fn resolving(&self) -> (r: usize)
        ensures
            r as nat == self.resolving_count(self.entries@),
            r <= self.entries@.len(),
    {
        let mut count: usize = 0;
        let mut i: usize = 0;
        while i < self.entries.len()
            invariant
                i <= self.entries@.len(),
                count as nat == self.resolving_count(self.entries@.take(i as int)),
                count <= i,
            decreases self.entries@.len() - i,
        {
            assert(self.entries@.take(i + 1).drop_last() =~= self.entries@.take(i as int));
            match self.remote(self.entries[i].name.as_str()) {
                None | Some(RemoteState::Loading) => {
                    count += 1;
                },
                _ => {},
            }
            i += 1;
        }
        assert(self.entries@.take(i as int) =~= self.entries@);
        count
    }

    /// How many pods all namespaces have.
    pub fn total_pods(&self) -> (r: usize)
        requires
            Self::pod_count(self.entries@) <= usize::MAX,
        ensures
            r as nat == Self::pod_count(self.entries@),
    {
        let mut total: usize = 0;
        let mut i: usize = 0;
        while i < self.entries.len()
            invariant
                i <= self.entries@.len(),
                total as nat == Self::pod_count(self.entries@.take(i as int)),
                Self::pod_count(self.entries@) <= usize::MAX,
            decreases self.entries@.len() - i,
        {
            assert(self.entries@.take(i + 1).drop_last() =~= self.entries@.take(i as int));
            proof {
                lemma_pod_count_grows(self.entries@, i + 1);
            }
            total = total + self.entries[i].pod_list().len();
            i += 1;
        }
        assert(self.entries@.take(i as int) =~= self.entries@);
        total
    }

    /// How many containers the pods of all namespaces have.
    pub fn total_containers(&self) -> (r: usize)
        requires
            Self::containers_in(self.entries@) <= usize::MAX,
        ensures
            r as nat == Self::containers_in(self.entries@),
    {
        let mut total: usize = 0;
        let mut i: usize = 0;
        while i < self.entries.len()
            invariant
                i <= self.entries@.len(),
                total as nat == Self::containers_in(self.entries@.take(i as int)),
                Self::containers_in(self.entries@) <= usize::MAX,
            decreases self.entries@.len() - i,
        {
            assert(self.entries@.take(i + 1).drop_last() =~= self.entries@.take(i as int));
            proof {
                lemma_containers_in_grows(self.entries@, i + 1);
            }
            let pods = self.entries[i].pod_list();
            let mut j: usize = 0;
            while j < pods.len()
                invariant
                    i < self.entries@.len(),
                    pods@ == pods_of(self.entries@[i as int]),
                    j <= pods@.len(),
                    total as nat == Self::containers_in(self.entries@.take(i as int))
                        + Self::container_count(pods@.take(j as int)),
                    Self::containers_in(self.entries@.take(i as int)) + Self::container_count(
                        pods@,
                    ) <= usize::MAX,
                decreases pods@.len() - j,
            {
                assert(pods@.take(j + 1).drop_last() =~= pods@.take(j as int));
                proof {
                    lemma_container_count_grows(pods@, j + 1);
                }
                total = total + pods[j].containers.len();
                j += 1;
            }
            assert(pods@.take(j as int) =~= pods@);
            i += 1;
        }
        assert(self.entries@.take(i as int) =~= self.entries@);
        total
    }

    /// How long ago each side last answered, e.g. `k8s 4m ago · git 12s ago`.
    pub fn freshness(&self) -> (r: String)
        ensures
            r@ == self.freshness_spec(),
    {
        let mut out = String::new();
        let mut any = false;
        if let Some(at) = self.listed_at {
            let secs: u64 = if self.now >= at {
                (self.now - at) / 1000
            } else {
                0
            };
            out.append("k8s ");
            let d = short_duration(secs as i64);
            out.append(d.as_str());
            out.append(" ago");
            any = true;
        }
        if let Some(at) = self.resolved_at {
            let secs: u64 = if self.now >= at {
                (self.now - at) / 1000
            } else {
                0
            };
            if any {
                out.append(" \u{b7} ");
            }
            out.append("git ");
            let d = short_duration(secs as i64);
            out.append(d.as_str());
            out.append(" ago");
        }
        out
    }

    /// What the pods of the selected namespace are compared against, spelled out for the
    /// header of the detail screen.
    pub fn reference_detail(&self) -> (r: (String, String))
        ensures
            (r.0@, r.1@) == self.reference_detail_spec(),
    {
        let entry = match self.selected_entry() {
            Some(e) => e,
            None => {
                return (String::from_str("\u{2014}"), String::new());
            },
        };
        match self.remote(entry.name.as_str()) {
            Some(RemoteState::Ready(target)) => (
                target.label(),
                match self.mode {
                    Mode::Commit => String::from_str("tip of the default branch"),
                    Mode::Tag => String::from_str("latest version tag"),
                },
            ),
            Some(RemoteState::Loading) | None => (String::from_str("resolving\u{2026}"), String::new()),
            Some(RemoteState::Unconfigured) => (
                String::from_str("\u{2014}"),
                String::from_str("namespace has no entry in repos.json"),
            ),
            Some(RemoteState::NoTags) => (
                String::from_str("\u{2014}"),
                String::from_str("repository has no tags yet"),
            ),
            Some(RemoteState::Failed(reason)) => (String::from_str("\u{2014}"), reason.clone()),
        }
    }

    /// The project page of the repository configured for `namespace`.
    pub fn repo_url(&self, namespace: &str) -> (r: Option<&str>)
        ensures
            match r {
                Some(u) => repo_url_of(self.repos.entries(), namespace@) == Some(u@),
                None => repo_url_of(self.repos.entries(), namespace@) is None,
            },
    {
        match self.repos.get_repo_by_name(namespace) {
            Some(repo) => Some(repo.url.as_str()),
            None => None,
        }
    }

    /// Where the namespace cursor sits among the rows of the current screen.
    pub fn ns_position(&self) -> (r: Option<usize>)
        ensures
            match r {
                Some(k) => self.ns_pick is Some && k as int == first_of(
                    self.row_names(),
                    self.ns_pick->0@,
                ),
                None => self.ns_pick is None || first_of(self.row_names(), self.ns_pick->0@)
                    == -1,
            },
    {
        let pick = match &self.ns_pick {
            Some(p) => p,
            None => {
                return None;
            },
        };
        let names = self.ordered_names();
        position_of(&names, pick.as_str())
    }

    /// Where the pod cursor sits among the pods of the selected namespace.
    pub fn pod_position(&self) -> (r: Option<usize>)
        ensures
            match r {
                Some(k) => k as int == self.selected_pod_index(),
                None => self.selected_pod_index() < 0,
            },
    {
        let pick = match &self.pod_pick {
            Some(p) => p,
            None => {
                return None;
            },
        };
        let pods = match self.selected_entry() {
            Some(e) => e.pod_list(),
            None => {
                proof {
                    assert(pod_names(self.selected_pods()) =~= Seq::<Seq<char>>::empty());
                }
                return None;
            },
        };
        let names = pod_name_list(pods);
        position_of(&names, pick.as_str())
    }

    /// Where the container cursor sits among the containers of the selected pod.
    pub fn container_position(&self) -> (r: Option<usize>)
        ensures
            match r {
                Some(k) => k as int == self.selected_container_index(),
                None => self.selected_container_index() < 0,
            },
    {
        let pick = match &self.cont_pick {
            Some(p) => p,
            None => {
                return None;
            },
        };
        let containers = match self.selected_pod() {
            Some(p) => p.containers.as_slice(),
            None => {
                proof {
                    assert(container_names(self.selected_containers()) =~= Seq::<
                        Seq<char>,
                    >::empty());
                }
                return None;
            },
        };
        let names = container_name_list(containers);
        position_of(&names, pick.as_str())
    }

    /// Enter on the detail screen: asks for the page of the commit under the cursor to be
    /// opened, or says why there is none. A release image names a tag, so its commit is
    /// only known once the tags are fetched.
    pub fn open_commit(&mut self)
        ensures
            match old(self).commit_choice() {
                None => *final(self) == *old(self),
                Some(Err(text)) => final(self).note matches Some((n, at)) && at == old(self).now
                    && note_view(n) == (NoteKind::Warn, text, false, false) && *final(self) == (
                App { note: final(self).note, ..*old(self) }),
                Some(Ok(url)) => actions_of(final(self).pending@) == actions_of(
                    old(self).pending@,
                ).push(ActionView::OpenBrowser { url }) && *final(self) == (App {
                    pending: final(self).pending,
                    ..*old(self)
                }),
            },
    {
        let entry = match self.selected_entry() {
            Some(e) => e,
            None => {
                return;
            },
        };
        let namespace = entry.name.clone();
        let image_ref = match self.pane {
            Pane::Containers => match self.selected_container() {
                Some(c) => c.image_ref(),
                None => None,
            },
            _ => match self.selected_pod() {
                Some(pod) => self.pod_reference(namespace.as_str(), pod),
                None => None,
            },
        };
        let image_ref = match image_ref {
            Some(r) => r,
            None => {
                self.report(NoteKind::Warn, String::from_str("nothing here carries a commit"));
                return;
            },
        };
        let hash = match self.remote(namespace.as_str()) {
            Some(RemoteState::Ready(target)) => target.commit_of(&image_ref),
            _ => None,
        };
        let hash = match hash {
            Some(h) => h,
            None => {
                let mut text = String::from_str("cannot resolve ");
                text.append(image_ref.as_str());
                text.append(" to a commit \u{2014} try ");
                text.append(self.mode.toggled().label());
                text.append(" mode");
                self.report(NoteKind::Warn, text);
                return;
            },
        };
        let url = match self.repo_url(namespace.as_str()) {
            Some(u) => commit_url(u, hash.as_str()),
            None => {
                let text = concat(namespace.as_str(), " is missing in repos.json");
                self.report(NoteKind::Warn, text);
                return;
            },
        };
        let ghost before = actions_of(self.pending@);
        self.pending.push(Action::OpenBrowser { url });
        assert(actions_of(self.pending@) =~= before.push(
            self.pending@.last()@,
        ));
    }

    /// Enter: the overview opens a namespace, the detail screen opens a commit.
    pub fn activate(&mut self)
        ensures
            old(self).screen == Screen::Overview ==> (old(self).ns_pick is None ==> *final(self)
                == *old(self)) && (old(self).ns_pick is Some ==> *final(self) == (App {
                screen: Screen::Detail,
                pane: Pane::Pods,
                ..*old(self)
            })),
            old(self).screen == Screen::Detail ==> match old(self).commit_choice() {
                None => *final(self) == *old(self),
                Some(Err(text)) => final(self).note matches Some((n, at)) && at == old(self).now
                    && note_view(n) == (NoteKind::Warn, text, false, false) && *final(self) == (
                App { note: final(self).note, ..*old(self) }),
                Some(Ok(url)) => actions_of(final(self).pending@) == actions_of(
                    old(self).pending@,
                ).push(ActionView::OpenBrowser { url }) && *final(self) == (App {
                    pending: final(self).pending,
                    ..*old(self)
                }),
            },
    {
        match self.screen {
            Screen::Overview => self.open_namespace(),
            Screen::Detail => self.open_commit(),
        }
    }

    /// Takes in whether the browser opened `url`: reported either way.
    pub fn opened(&mut self, url: &str, result: Result<(), String>)
        ensures
            final(self).note matches Some((n, at)) && at == old(self).now && note_view(n) == match result {
                Ok(_) => (NoteKind::Done, "opened "@ + url@, false, false),
                Err(e) => (NoteKind::Error, "cannot open browser: "@ + e@, false, false),
            },
            *final(self) == (App { note: final(self).note, ..*old(self) }),
    {
        match result {
            Ok(_) => {
                let text = concat("opened ", url);
                self.report(NoteKind::Done, text);
            },
            Err(e) => {
                let text = concat("cannot open browser: ", e.as_str());
                self.report(NoteKind::Error, text);
            },
        }
    }

    /// Steps back from the detail screen to the overview.
    pub fn leave_detail(&mut self)
        ensures
            *final(self) == (App { screen: Screen::Overview, pane: Pane::Pods, ..*old(self) }),
    {
        self.screen = Screen::Overview;
        self.pane = Pane::Pods;
    }

    /// The title of the container list: the part of the pod's name that tells it apart.
    pub fn containers_title(&self) -> (r: String)
        ensures
            r@ == if self.selected_index() >= 0 && self.selected_pod_index() >= 0 {
                let parts = pod_parts(
                    self.selected_pods()[self.selected_pod_index()].name@,
                    self.entries@[self.selected_index()].name@,
                );
                "CONTAINERS OF \u{2026}"@ + parts.1 + parts.2
            } else {
                "CONTAINERS"@
            },
    {
        let entry = match self.selected_entry() {
            Some(e) => e,
            None => {
                return String::from_str("CONTAINERS");
            },
        };
        let pod = match self.selected_pod() {
            Some(p) => p,
            None => {
                return String::from_str("CONTAINERS");
            },
        };
        let parts = split_pod_name(pod.name.as_str(), entry.name.as_str());
        let mut out = String::from_str("CONTAINERS OF \u{2026}");
        out.append(parts.replicaset);
        out.append(parts.suffix);
        out
    }

    /// Where the cursor of the main table sits, as the key line shows it: `3/12` on the
    /// overview, `pod 3/12` on the detail screen.
    pub fn position(&self) -> (r: String)
        ensures
            r@ == match self.screen {
                Screen::Overview => crate::drawer::layout::position_spec(
                    ""@,
                    match self.ns_pick {
                        Some(p) => if first_of(self.row_names(), p@) >= 0 {
                            Some(first_of(self.row_names(), p@) as usize)
                        } else {
                            None
                        },
                        None => None,
                    },
                    self.row_order().len(),
                ),
                Screen::Detail => crate::drawer::layout::position_spec(
                    "pod "@,
                    if self.selected_pod_index() >= 0 {
                        Some(self.selected_pod_index() as usize)
                    } else {
                        None
                    },
                    if self.selected_index() >= 0 {
                        self.selected_pods().len()
                    } else {
                        0
                    },
                ),
            },
    {
        match self.screen {
            Screen::Overview => {
                let names = self.ordered_names();
                let index = match &self.ns_pick {
                    Some(p) => position_of(&names, p.as_str()),
                    None => None,
                };
                assert(names@.len() == self.row_order().len());
                crate::drawer::layout::position_text("", index, names.len())
            },
            Screen::Detail => {
                let index = self.pod_position();
                let total = match self.selected_entry() {
                    Some(e) => e.pod_list().len(),
                    None => 0,
                };
                proof {
                    if self.selected_pod_index() >= 0 {
                        lemma_first_of(pod_names(self.selected_pods()), self.pod_pick->0@);
                    }
                }
                crate::drawer::layout::position_text("pod ", index, total)
            },
        }
    }

    pub fn total_namespaces(&self) -> (r: usize)
        ensures
            r == self.entries@.len(),
    {
        self.entries.len()
    }
}

/// Namespaces whose pods are all still being listed count as none listed.
pub proof fn lemma_none_listed(entries: Seq<Entry>)
    requires
        forall|j: int| 0 <= j < entries.len() ==> entries[j].pods is Listing,
    ensures
        App::listed_count(entries) == 0,
    decreases entries.len(),
{
    if entries.len() > 0 {
        lemma_none_listed(entries.drop_last());
    }
}

/// A name as part of a sort key: its characters, then -1, so that it comes before any
/// longer name it is a prefix of.
pub open spec fn name_key(n: Seq<char>) -> Seq<int> {
    codes(n).push(-1)
}

/// The code points of `n`.
pub open spec fn codes(n: Seq<char>) -> Seq<int> {
    n.map_values(|c: char| (c as u32) as int)
}

/// Appends the key of `name` to `key`.
fn push_name_key(key: &mut Vec<i128>, name: &str)
    ensures
        ints_of(final(key)@) == ints_of(old(key)@) + name_key(name@),
{
    let v = to_chars(name);
    let mut i: usize = 0;
    while i < v.len()
        invariant
            i <= v@.len(),
            v@ == name@,
            ints_of(key@) == ints_of(old(key)@) + codes(v@.take(i as int)),
        decreases v@.len() - i,
    {
        let c = v[i];
        let ghost before = ints_of(key@);
        key.push((c as u32) as i128);
        assert(ints_of(key@) =~= before.push((c as u32) as int));
        i += 1;
        assert(ints_of(key@) =~= ints_of(old(key)@) + codes(v@.take(i as int)));
    }
    let ghost before = ints_of(key@);
    key.push(-1);
    assert(ints_of(key@) =~= before.push(-1));
    assert(v@.take(i as int) =~= v@);
    assert(ints_of(key@) =~= ints_of(old(key)@) + name_key(name@));
}

/// Whether `name` matches what is typed into the search, ignoring case.
pub open spec fn matches_query(name: Seq<char>, query: Seq<char>) -> bool {
    contains_seq(lowercase(name), lowercase(query))
}

/// Index of the first of `names` equal to `name`, or -1.
pub open spec fn first_of(names: Seq<Seq<char>>, name: Seq<char>) -> int
    decreases names.len(),
{
    if names.len() == 0 {
        -1
    } else if names[0] == name {
        0
    } else {
        let r = first_of(names.drop_first(), name);
        if r < 0 {
            -1
        } else {
            r + 1
        }
    }
}

pub proof fn lemma_first_of(names: Seq<Seq<char>>, name: Seq<char>)
    ensures
        -1 <= first_of(names, name) < names.len(),
        first_of(names, name) >= 0 ==> names[first_of(names, name)] == name,
        first_of(names, name) < 0 <==> !names.contains(name),
        forall|j: int| 0 <= j < first_of(names, name) ==> names[j] != name,
    decreases names.len(),
{
    if names.len() > 0 && names[0] != name {
        let rest = names.drop_first();
        lemma_first_of(rest, name);
        assert forall|j: int| 0 <= j < first_of(names, name) implies names[j] != name by {
            if j > 0 {
                assert(rest[j - 1] == names[j]);
            }
        }
        if names.contains(name) {
            let k = choose|k: int| 0 <= k < names.len() && names[k] == name;
            assert(rest[k - 1] == name);
        }
        if rest.contains(name) {
            let k = choose|k: int| 0 <= k < rest.len() && rest[k] == name;
            assert(names[k + 1] == name);
        }
    } else if names.len() > 0 {
        assert(names.contains(name));
    }
}

/// Index of the first of `names` equal to `name`.
pub fn position_of(names: &Vec<String>, name: &str) -> (r: Option<usize>)
    ensures
        match r {
            Some(i) => i < names@.len() && i as int == first_of(names.deep_view(), name@),
            None => first_of(names.deep_view(), name@) == -1,
        },
{
    proof {
        lemma_first_of(names.deep_view(), name@);
    }
    let mut i: usize = 0;
    while i < names.len()
        invariant
            i <= names@.len(),
            forall|k: int| 0 <= k < i ==> names.deep_view()[k] != name@,
            -1 <= first_of(names.deep_view(), name@) < names@.len(),
            first_of(names.deep_view(), name@) < 0 <==> !names.deep_view().contains(name@),
            first_of(names.deep_view(), name@) >= 0 ==> names.deep_view()[first_of(
                names.deep_view(),
                name@,
            )] == name@,
            forall|j: int|
                0 <= j < first_of(names.deep_view(), name@) ==> names.deep_view()[j] != name@,
        decreases names@.len() - i,
    {
        if same_str(names[i].as_str(), name) {
            proof {
                assert(names.deep_view()[i as int] == names@[i as int]@);
                assert(names.deep_view().contains(name@));
            }
            return Some(i);
        }
        i += 1;
    }
    None
}

/// Whether `name` is one of `names`.
pub fn contains_name(names: &Vec<String>, name: &str) -> (r: bool)
    ensures
        r == names.deep_view().contains(name@),
{
    proof {
        lemma_first_of(names.deep_view(), name@);
    }
    match position_of(names, name) {
        Some(_) => true,
        None => false,
    }
}

/// Index of the first group labelled `label`.
fn find_group(groups: &Vec<Deployed>, label: &str) -> (r: Option<usize>)
    ensures
        match r {
            Some(i) => i < groups@.len() && i as int == group_index(groups_view(groups@), label@),
            None => group_index(groups_view(groups@), label@) == -1,
        },
{
    let ghost g = groups_view(groups@);
    let mut i: usize = 0;
    while i < groups.len()
        invariant
            i <= groups@.len(),
            g == groups_view(groups@),
            group_index(g.take(i as int), label@) == -1,
        decreases groups@.len() - i,
    {
        proof {
            assert(g.take(i + 1).drop_last() =~= g.take(i as int));
        }
        if same_str(groups[i].label.as_str(), label) {
            proof {
                lemma_group_index_prefix(g, label@, (i + 1) as int);
            }
            return Some(i);
        }
        i += 1;
    }
    assert(g.take(i as int) =~= g);
    None
}

/// The first group of a label found among the first `n` is the first overall.
proof fn lemma_group_index_prefix(g: Seq<GroupView>, label: Seq<char>, n: int)
    requires
        0 <= n <= g.len(),
        group_index(g.take(n), label) >= 0,
    ensures
        group_index(g, label) == group_index(g.take(n), label),
    decreases g.len() - n,
{
    if n < g.len() {
        assert(g.take(n + 1).drop_last() =~= g.take(n));
        lemma_group_index_prefix(g, label, n + 1);
    } else {
        assert(g.take(n) =~= g);
    }
}

/// A copy of a cursor.
pub fn clone_pick(pick: &Option<String>) -> (r: Option<String>)
    ensures
        opt_str_view(r) == opt_str_view(*pick),
{
    match pick {
        Some(p) => Some(p.clone()),
        None => None,
    }
}

/// The pick, while it names one of `names`; otherwise the first of them, if any.
pub fn keep_or_first_of(names: &Vec<String>, pick: &Option<String>) -> (r: Option<String>)
    ensures
        opt_str_view(r) == keep_or_first(names.deep_view(), opt_str_view(*pick)),
{
    if let Some(p) = pick {
        if contains_name(names, p.as_str()) {
            return Some(p.clone());
        }
    }
    if names.len() > 0 {
        let first = names[0].clone();
        assert(first@ == names.deep_view()[0]);
        Some(first)
    } else {
        None
    }
}

/// Where the cursor lands after moving `delta` rows from `pick` among `names`: a cursor on
/// no row starts from the first, and it stops at either end.
pub open spec fn moved_index(names: Seq<Seq<char>>, pick: Option<Seq<char>>, delta: int) -> int {
    let at = match pick {
        Some(p) => first_of(names, p),
        None => -1,
    };
    let current = if at >= 0 {
        at
    } else {
        0
    };
    clamp(current + delta, 0, names.len() - 1)
}

pub open spec fn clamp(x: int, lo: int, hi: int) -> int {
    if x < lo {
        lo
    } else if x > hi {
        hi
    } else {
        x
    }
}

/// The pick, while it names one of `names`; otherwise the first of them, if any.
pub open spec fn keep_or_first(names: Seq<Seq<char>>, pick: Option<Seq<char>>) -> Option<Seq<char>> {
    match pick {
        Some(p) => if names.contains(p) {
            Some(p)
        } else if names.len() > 0 {
            Some(names[0])
        } else {
            None
        },
        None => if names.len() > 0 {
            Some(names[0])
        } else {
            None
        },
    }
}

/// Whether a pick names one of `names`.
pub open spec fn picks_one_of(names: Seq<Seq<char>>, pick: Option<Seq<char>>) -> bool {
    match pick {
        Some(p) => names.contains(p),
        None => false,
    }
}

pub open spec fn pod_names(pods: Seq<MyPod>) -> Seq<Seq<char>> {
    pods.map_values(|p: MyPod| p.name@)
}

pub open spec fn container_names(cs: Seq<MyContainer>) -> Seq<Seq<char>> {
    cs.map_values(|c: MyContainer| c.name@)
}

/// The names of `pods`.
pub fn pod_name_list(pods: &[MyPod]) -> (r: Vec<String>)
    ensures
        r.deep_view() == pod_names(pods@),
{
    let mut r: Vec<String> = Vec::new();
    let mut i: usize = 0;
    while i < pods.len()
        invariant
            i <= pods@.len(),
            r.deep_view() == pod_names(pods@).take(i as int),
        decreases pods@.len() - i,
    {
        let ghost before = r.deep_view();
        r.push(pods[i].name.clone());
        assert(r.deep_view() =~= before.push(pods@[i as int].name@));
        i += 1;
        assert(r.deep_view() =~= pod_names(pods@).take(i as int));
    }
    assert(pod_names(pods@).take(i as int) =~= pod_names(pods@));
    r
}

/// The names of `containers`.
pub fn container_name_list(containers: &[MyContainer]) -> (r: Vec<String>)
    ensures
        r.deep_view() == container_names(containers@),
{
    let mut r: Vec<String> = Vec::new();
    let mut i: usize = 0;
    while i < containers.len()
        invariant
            i <= containers@.len(),
            r.deep_view() == container_names(containers@).take(i as int),
        decreases containers@.len() - i,
    {
        let ghost before = r.deep_view();
        r.push(containers[i].name.clone());
        assert(r.deep_view() =~= before.push(containers@[i as int].name@));
        i += 1;
        assert(r.deep_view() =~= container_names(containers@).take(i as int));
    }
    assert(container_names(containers@).take(i as int) =~= container_names(containers@));
    r
}

/// The frames of the spinner.
pub open spec fn spinner_char(step: int) -> char {
    if step == 0 {
        '\u{280b}'
    } else if step == 1 {
        '\u{2819}'
    } else if step == 2 {
        '\u{2839}'
    } else if step == 3 {
        '\u{2838}'
    } else if step == 4 {
        '\u{283c}'
    } else if step == 5 {
        '\u{2834}'
    } else if step == 6 {
        '\u{2826}'
    } else if step == 7 {
        '\u{2827}'
    } else if step == 8 {
        '\u{2807}'
    } else {
        '\u{280f}'
    }
}

} // verus!
