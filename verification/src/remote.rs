//! What a pod runs, what it should run, and how the two compare.
//!
//! CI bakes `<short sha>-<pipeline id>` into branch builds and `<git tag>-<pipeline id>`
//! into releases; `git ls-remote` says what the repository's default branch or its newest
//! tag points at. Running `git` is left to the caller, which hands back what it printed.
use crate::chars::{
    all_digits, all_hex, concat, ends_with, find_char, first_index_of, first_word,
    first_word_of, is_digit, is_hex_digit, last_index_of, lemma_last_index_of, lines_of,
    lowercase, rfind_char, same_str, split_lines, starts_with, string_from, string_of,
    to_chars, to_lower, trim, trimmed,
};
use vstd::prelude::*;

verus! {

/// Characters kept of a commit hash when it is shown.
pub const SHORT_HASH_LEN: usize = 8;

/// Shortest run of hex digits read as a commit hash.
pub const MIN_HASH_LEN: usize = 7;

/// Longest run of hex digits read as a commit hash.
pub const MAX_HASH_LEN: usize = 40;

/// What CI baked into an image tag. Branch builds are tagged `<short sha>-<pipeline id>`,
/// releases `<git tag>-<pipeline id>`, so the same field means different things.
#[derive(Debug, Clone, PartialEq, Eq)]
pub enum ImageRef {
    Commit(String),
    Tag(String),
}

/// An image reference as text.
pub enum RefView {
    Commit(Seq<char>),
    Tag(Seq<char>),
}

impl View for ImageRef {
    type V = RefView;

    open spec fn view(&self) -> RefView {
        match self {
            ImageRef::Commit(s) => RefView::Commit(s@),
            ImageRef::Tag(s) => RefView::Tag(s@),
        }
    }
}

pub open spec fn ref_text(r: RefView) -> Seq<char> {
    match r {
        RefView::Commit(s) => s,
        RefView::Tag(s) => s,
    }
}

pub open spec fn opt_ref_view(r: Option<ImageRef>) -> Option<RefView> {
    match r {
        Some(x) => Some(x@),
        None => None,
    }
}

/// The first `n` characters of `s`, or all of it when it is shorter.
pub open spec fn prefix_upto(s: Seq<char>, n: int) -> Seq<char> {
    if s.len() <= n {
        s
    } else {
        s.take(n)
    }
}

/// The tag with CI's trailing `-<pipeline id>` taken off: only a trailing group of digits,
/// with something before the dash, counts as one.
pub open spec fn pipeline_cut(tag: Seq<char>) -> Seq<char> {
    let p = last_index_of(tag, '-');
    if p > 0 && p + 1 < tag.len() && all_digits(tag.skip(p + 1)) {
        tag.take(p)
    } else {
        tag
    }
}

/// A reference read as a commit: seven to forty hex digits.
pub open spec fn looks_like_hash(r: Seq<char>) -> bool {
    MIN_HASH_LEN <= r.len() <= MAX_HASH_LEN && all_hex(r)
}

/// What an image tag says it was built from.
pub open spec fn image_ref_of(tag: Seq<char>) -> Option<RefView> {
    let r = pipeline_cut(tag);
    if r.len() == 0 {
        None
    } else if looks_like_hash(r) {
        Some(RefView::Commit(r))
    } else {
        Some(RefView::Tag(r))
    }
}

/// How a reference is shown: a hash cut to its short form, a tag in full.
pub open spec fn ref_label(r: RefView) -> Seq<char> {
    match r {
        RefView::Commit(s) => prefix_upto(s, SHORT_HASH_LEN as int),
        RefView::Tag(s) => s,
    }
}

/// `tag` without CI's pipeline id.
pub fn strip_pipeline_id(tag: &str) -> (r: &str)
    ensures
        r@ == pipeline_cut(tag@),
{
    let v = to_chars(tag);
    proof {
        lemma_last_index_of(v@, '-');
    }
    let vs = v.as_slice();
    assert(vs@ == v@);
    match rfind_char(vs, '-') {
        Some(p) => {
            if p > 0 && p + 1 < v.len() {
                let mut i: usize = p + 1;
                while i < v.len()
                    invariant
                        v@ == tag@,
                        p as int == last_index_of(v@, '-'),
                        0 < p,
                        p + 1 < v@.len(),
                        p + 1 <= i <= v@.len(),
                        forall|j: int| p + 1 <= j < i ==> is_digit(v@[j]),
                    decreases v@.len() - i,
                {
                    if !('0' <= v[i] && v[i] <= '9') {
                        proof {
                            assert(v@.skip(p + 1)[i - p - 1] == v@[i as int]);
                            assert(!is_digit(v@.skip(p + 1)[i - p - 1]));
                            assert(!all_digits(v@.skip(p + 1)));
                        }
                        return tag;
                    }
                    i += 1;
                }
                proof {
                    assert forall|j: int| 0 <= j < v@.skip(p + 1).len() implies is_digit(
                        #[trigger] v@.skip(p + 1)[j],
                    ) by {
                        assert(v@.skip(p + 1)[j] == v@[p + 1 + j]);
                    }
                }
                let r = tag.substring_char(0, p);
                assert(r@ =~= tag@.take(p as int));
                r
            } else {
                tag
            }
        },
        None => tag,
    }
}

/// Whether every character is a hex digit.
fn all_hex_chars(v: &[char]) -> (r: bool)
    ensures
        r == all_hex(v@),
{
    let mut i: usize = 0;
    while i < v.len()
        invariant
            i <= v@.len(),
            forall|j: int| 0 <= j < i ==> is_hex_digit(v@[j]),
        decreases v@.len() - i,
    {
        let c = v[i];
        if !(('0' <= c && c <= '9') || ('a' <= c && c <= 'f') || ('A' <= c && c <= 'F')) {
            return false;
        }
        i += 1;
    }
    true
}

/// The first `n` characters of `s` as a `String`.
pub fn take_chars(s: &str, n: usize) -> (r: String)
    ensures
        r@ == prefix_upto(s@, n as int),
{
    let v = to_chars(s);
    if v.len() <= n {
        assert(v@.subrange(0, v@.len() as int) =~= v@);
        string_of(v.as_slice(), 0, v.len())
    } else {
        string_of(v.as_slice(), 0, n)
    }
}

impl ImageRef {
    /// What an image tag says the image was built from.
    pub fn from_image_tag(tag: &str) -> (r: Option<ImageRef>)
        ensures
            opt_ref_view(r) == image_ref_of(tag@),
    {
        let reference = strip_pipeline_id(tag);
        let v = to_chars(reference);
        if v.len() == 0 {
            return None;
        }
        let looks = MIN_HASH_LEN <= v.len() && v.len() <= MAX_HASH_LEN && all_hex_chars(
            v.as_slice(),
        );
        let text = String::from_str(reference);
        if looks {
            Some(ImageRef::Commit(text))
        } else {
            Some(ImageRef::Tag(text))
        }
    }

    pub fn as_str(&self) -> (r: &str)
        ensures
            r@ == ref_text(self@),
    {
        match self {
            ImageRef::Commit(x) => x.as_str(),
            ImageRef::Tag(x) => x.as_str(),
        }
    }

    /// How the reference is shown in a column: a hash is cut to its short form, a tag
    /// name is worth reading in full.
    pub fn label(&self) -> (r: String)
        ensures
            r@ == ref_label(self@),
    {
        match self {
            ImageRef::Commit(sha) => take_chars(sha.as_str(), SHORT_HASH_LEN),
            ImageRef::Tag(name) => name.clone(),
        }
    }
}

/// What a running pod is expected to match.
#[derive(Debug, Clone, Copy, PartialEq, Eq, Hash, Structural)]
pub enum Mode {
    /// Tip of the default branch
    Commit,
    /// Commit the latest tag points at — what production is supposed to run
    Tag,
}

impl Default for Mode {
    fn default() -> (r: Mode)
        ensures
            r == Mode::Commit,
    {
        Mode::Commit
    }
}

pub open spec fn mode_label(m: Mode) -> Seq<char> {
    match m {
        Mode::Commit => "commit"@,
        Mode::Tag => "tag"@,
    }
}

impl Mode {
    pub fn toggled(self) -> (r: Mode)
        ensures
            r == mode_toggled(self),
    {
        match self {
            Mode::Commit => Mode::Tag,
            Mode::Tag => Mode::Commit,
        }
    }

    pub fn label(self) -> (r: &'static str)
        ensures
            r@ == mode_label(self),
    {
        match self {
            Mode::Commit => "commit",
            Mode::Tag => "tag",
        }
    }
}

pub open spec fn mode_toggled(m: Mode) -> Mode {
    match m {
        Mode::Commit => Mode::Tag,
        Mode::Tag => Mode::Commit,
    }
}

/// Toggling the mode twice comes back to where it started, and once always changes it.
pub proof fn toggled_twice_is_identity(m: Mode)
    ensures
        mode_toggled(mode_toggled(m)) == m,
        mode_toggled(m) != m,
{
}

/// Commit the pods are compared against, plus the tag name when there is one.
#[derive(Debug, Clone, PartialEq, Eq)]
pub struct Target {
    pub commit: String,
    pub name: Option<String>,
    /// Every tag of the repository, each paired with its commit. Only filled in tag mode,
    /// where it tells this repository's tags apart from a sidecar's version and resolves
    /// the commit of whatever tag a pod actually runs.
    pub tags: Vec<(String, String)>,
}

/// A target as text.
pub struct TargetView {
    pub commit: Seq<char>,
    pub name: Option<Seq<char>>,
    pub tags: Seq<(Seq<char>, Seq<char>)>,
}

pub open spec fn opt_str_view(o: Option<String>) -> Option<Seq<char>> {
    match o {
        Some(s) => Some(s@),
        None => None,
    }
}

impl View for Target {
    type V = TargetView;

    open spec fn view(&self) -> TargetView {
        TargetView {
            commit: self.commit@,
            name: opt_str_view(self.name),
            tags: self.tags.deep_view(),
        }
    }
}

/// The commit of tag `name`: the first pair carrying that name.
pub open spec fn tag_lookup(tags: Seq<(Seq<char>, Seq<char>)>, name: Seq<char>) -> Option<
    Seq<char>,
>
    decreases tags.len(),
{
    if tags.len() == 0 {
        None
    } else {
        match tag_lookup(tags.drop_last(), name) {
            Some(c) => Some(c),
            None => if tags.last().0 == name {
                Some(tags.last().1)
            } else {
                None
            },
        }
    }
}

/// No tag name is listed twice.
pub open spec fn distinct_names(tags: Seq<(Seq<char>, Seq<char>)>) -> bool {
    forall|i: int, j: int| 0 <= i < j < tags.len() ==> tags[i].0 != tags[j].0
}

/// The pair at `j` is the first to carry `name`, so it is the one looked up.
pub proof fn lemma_lookup_at(tags: Seq<(Seq<char>, Seq<char>)>, name: Seq<char>, j: int)
    requires
        0 <= j < tags.len(),
        tags[j].0 == name,
        forall|i: int| 0 <= i < j ==> tags[i].0 != name,
    ensures
        tag_lookup(tags, name) == Some(tags[j].1),
    decreases tags.len(),
{
    if j < tags.len() - 1 {
        lemma_lookup_at(tags.drop_last(), name, j);
    } else {
        lemma_lookup_none(tags.drop_last(), name);
    }
}

/// No pair carries `name`, so nothing is found.
pub proof fn lemma_lookup_none(tags: Seq<(Seq<char>, Seq<char>)>, name: Seq<char>)
    requires
        forall|i: int| 0 <= i < tags.len() ==> tags[i].0 != name,
    ensures
        tag_lookup(tags, name) is None,
    decreases tags.len(),
{
    if tags.len() > 0 {
        lemma_lookup_none(tags.drop_last(), name);
    }
}

/// What a lookup finds is the first pair with that name.
pub proof fn lemma_lookup_found(tags: Seq<(Seq<char>, Seq<char>)>, name: Seq<char>)
    ensures
        tag_lookup(tags, name) is None ==> forall|i: int|
            0 <= i < tags.len() ==> tags[i].0 != name,
        tag_lookup(tags, name) is Some ==> exists|j: int|
            0 <= j < tags.len() && tags[j].0 == name && tags[j].1 == tag_lookup(tags, name)->0
                && forall|i: int| 0 <= i < j ==> tags[i].0 != name,
    decreases tags.len(),
{
    if tags.len() > 0 {
        let prev = tags.drop_last();
        lemma_lookup_found(prev, name);
        if tag_lookup(prev, name) is Some {
            let j = choose|j: int|
                0 <= j < prev.len() && prev[j].0 == name && prev[j].1 == tag_lookup(prev, name)->0
                    && forall|i: int| 0 <= i < j ==> prev[i].0 != name;
            assert(tags[j] == prev[j]);
            assert forall|i: int| 0 <= i < j implies tags[i].0 != name by {
                assert(tags[i] == prev[i]);
            }
        } else {
            assert forall|i: int| 0 <= i < tags.len() - 1 implies tags[i].0 != name by {
                assert(tags[i] == prev[i]);
            }
            if tags.last().0 == name {
                let j = tags.len() - 1;
                assert(tags[j].0 == name);
            }
        }
    }
}

impl Default for Target {
    fn default() -> (r: Target)
        ensures
            r@.commit.len() == 0,
            r@.name is None,
            r@.tags.len() == 0,
    {
        let r = Target { commit: String::new(), name: None, tags: Vec::new() };
        assert(r@.tags =~= Seq::<(Seq<char>, Seq<char>)>::empty());
        r
    }
}

/// What a target is labelled with: its tag, or `HEAD`, then the short hash.
pub open spec fn target_label(t: TargetView) -> Seq<char> {
    match t.name {
        Some(n) => n + " "@ + prefix_upto(t.commit, SHORT_HASH_LEN as int),
        None => "HEAD "@ + prefix_upto(t.commit, SHORT_HASH_LEN as int),
    }
}

/// The commit an image reference stands for, as far as a target can tell.
pub open spec fn commit_of_spec(t: TargetView, r: RefView) -> Option<Seq<char>> {
    match r {
        RefView::Commit(sha) => Some(sha),
        RefView::Tag(name) => tag_lookup(t.tags, name),
    }
}

/// Index of the first pair named `name`.
pub fn find_tag(tags: &Vec<(String, String)>, name: &str) -> (r: Option<usize>)
    ensures
        match r {
            Some(j) => j < tags@.len() && tags.deep_view()[j as int].0 == name@ && forall|i: int|
                0 <= i < j ==> tags.deep_view()[i].0 != name@,
            None => forall|i: int| 0 <= i < tags@.len() ==> tags.deep_view()[i].0 != name@,
        },
{
    let mut i: usize = 0;
    while i < tags.len()
        invariant
            i <= tags@.len(),
            forall|k: int| 0 <= k < i ==> tags.deep_view()[k].0 != name@,
        decreases tags@.len() - i,
    {
        if same_str(tags[i].0.as_str(), name) {
            return Some(i);
        }
        i += 1;
    }
    None
}

impl Target {
    pub fn short(&self) -> (r: String)
        ensures
            r@ == prefix_upto(self.commit@, SHORT_HASH_LEN as int),
    {
        take_chars(self.commit.as_str(), SHORT_HASH_LEN)
    }

    pub fn label(&self) -> (r: String)
        ensures
            r@ == target_label(self@),
    {
        let short = self.short();
        match &self.name {
            Some(name) => {
                let head = concat(name.as_str(), " ");
                concat(head.as_str(), short.as_str())
            },
            None => concat("HEAD ", short.as_str()),
        }
    }

    /// The commit of tag `name`.
    pub fn tag_commit(&self, name: &str) -> (r: Option<String>)
        ensures
            opt_str_view(r) == tag_lookup(self@.tags, name@),
    {
        proof {
            lemma_lookup_found(self@.tags, name@);
        }
        match find_tag(&self.tags, name) {
            Some(j) => {
                proof {
                    lemma_lookup_at(self@.tags, name@, j as int);
                }
                Some(self.tags[j].1.clone())
            },
            None => {
                proof {
                    lemma_lookup_none(self@.tags, name@);
                }
                None
            },
        }
    }

    /// Commit an image reference stands for, as far as this target can tell.
    pub fn commit_of(&self, image_ref: &ImageRef) -> (r: Option<String>)
        ensures
            opt_str_view(r) == commit_of_spec(self@, image_ref@),
    {
        match image_ref {
            ImageRef::Commit(sha) => Some(sha.clone()),
            ImageRef::Tag(name) => self.tag_commit(name.as_str()),
        }
    }
}

/// Why a repository has no target. Kept apart from a plain message because the two cases
/// are not failures of the same kind: a repository without tags is a fact about the
/// repository, a broken `ls-remote` is a fact about this run.
#[derive(Debug, Clone, PartialEq, Eq)]
pub enum LookupError {
    NoTags,
    Git(String),
}

/// What is known about a repository's target commit.
#[derive(Debug, Clone)]
pub enum RemoteState {
    Loading,
    Ready(Target),
    /// The namespace has no entry in `repos.json`, so there is no repository to ask.
    Unconfigured,
    /// Tag mode against a repository that has not been tagged yet.
    NoTags,
    Failed(String),
}

/// What a lookup found, or why it found nothing, as text.
pub enum LookupView {
    Found(TargetView),
    NoTags,
    Git(Seq<char>),
}

pub open spec fn lookup_view(r: Result<Target, LookupError>) -> LookupView {
    match r {
        Ok(t) => LookupView::Found(t@),
        Err(LookupError::NoTags) => LookupView::NoTags,
        Err(LookupError::Git(m)) => LookupView::Git(m@),
    }
}

/// The state of a remote as text.
pub enum RemoteView {
    Loading,
    Ready(TargetView),
    Unconfigured,
    NoTags,
    Failed(Seq<char>),
}

impl View for RemoteState {
    type V = RemoteView;

    open spec fn view(&self) -> RemoteView {
        match self {
            RemoteState::Loading => RemoteView::Loading,
            RemoteState::Ready(t) => RemoteView::Ready(t@),
            RemoteState::Unconfigured => RemoteView::Unconfigured,
            RemoteState::NoTags => RemoteView::NoTags,
            RemoteState::Failed(m) => RemoteView::Failed(m@),
        }
    }
}

/// What a finished lookup leaves the repository's state at.
pub open spec fn state_after(r: LookupView) -> RemoteView {
    match r {
        LookupView::Found(t) => RemoteView::Ready(t),
        LookupView::NoTags => RemoteView::NoTags,
        LookupView::Git(m) => RemoteView::Failed(m),
    }
}

impl RemoteState {
    /// The state a finished lookup leaves behind.
    pub fn after_lookup(result: Result<Target, LookupError>) -> (r: RemoteState)
        ensures
            r@ == state_after(lookup_view(result)),
    {
        match result {
            Ok(target) => RemoteState::Ready(target),
            Err(LookupError::NoTags) => RemoteState::NoTags,
            Err(LookupError::Git(reason)) => RemoteState::Failed(reason),
        }
    }
}

/// Which of the five things a row can be. Ordered the way a reader should look at them.
#[derive(Debug, Clone, Copy, PartialEq, Eq, Structural)]
pub enum Verdict {
    Behind,
    Failed(Failure),
    Resolving,
    Unknown(Unresolved),
    InSync,
}

/// Side that could not answer.
#[derive(Debug, Clone, Copy, PartialEq, Eq, Structural)]
pub enum Failure {
    Kube,
    Git,
}

/// Why there is nothing to compare. Shown as a short code in its own column, so the
/// meanings that used to share one shade of grey can be told apart at a glance.
#[derive(Debug, Clone, Copy, PartialEq, Eq, Structural)]
pub enum Unresolved {
    Sidecar,
    Digest,
    NoConfig,
    NoTags,
    WrongMode,
    Finished,
    Empty,
}

pub open spec fn glyph_of(v: Verdict) -> char {
    match v {
        Verdict::InSync => '\u{25cf}',
        Verdict::Behind => '\u{25bc}',
        Verdict::Failed(_) => '\u{2717}',
        Verdict::Resolving => '\u{2819}',
        Verdict::Unknown(_) => '\u{25cb}',
    }
}

pub open spec fn code_of(v: Verdict) -> Seq<char> {
    match v {
        Verdict::Failed(Failure::Kube) => "k8s"@,
        Verdict::Failed(Failure::Git) => "git"@,
        Verdict::Unknown(Unresolved::Sidecar) => "sidecar"@,
        Verdict::Unknown(Unresolved::Digest) => "digest"@,
        Verdict::Unknown(Unresolved::NoConfig) => "no-cfg"@,
        Verdict::Unknown(Unresolved::NoTags) => "no-tags"@,
        Verdict::Unknown(Unresolved::WrongMode) => "mode"@,
        Verdict::Unknown(Unresolved::Finished) => "done"@,
        Verdict::Unknown(Unresolved::Empty) => "no-pods"@,
        _ => ""@,
    }
}

/// Sort weight: what somebody opening the tool has to act on comes first.
pub open spec fn severity_of(v: Verdict) -> int {
    match v {
        Verdict::Behind => 0,
        Verdict::Failed(_) => 1,
        Verdict::Resolving => 2,
        Verdict::Unknown(_) => 3,
        Verdict::InSync => 4,
    }
}

/// The worse of two verdicts; the first one wins a tie.
pub open spec fn worse_of(current: Verdict, other: Verdict) -> Verdict {
    if severity_of(other) < severity_of(current) {
        other
    } else {
        current
    }
}

/// The worst of the verdicts that can be judged, the earliest one among equals.
pub open spec fn worst_judged(parts: Seq<Verdict>) -> Option<Verdict>
    decreases parts.len(),
{
    if parts.len() == 0 {
        None
    } else {
        let prev = worst_judged(parts.drop_last());
        let v = parts.last();
        if v is Unknown {
            prev
        } else {
            match prev {
                Some(c) => Some(worse_of(c, v)),
                None => Some(v),
            }
        }
    }
}

/// The first verdict that cannot be judged.
pub open spec fn first_unjudged(parts: Seq<Verdict>) -> Option<Verdict>
    decreases parts.len(),
{
    if parts.len() == 0 {
        None
    } else {
        match first_unjudged(parts.drop_last()) {
            Some(c) => Some(c),
            None => if parts.last() is Unknown {
                Some(parts.last())
            } else {
                None
            },
        }
    }
}

/// Verdict of a whole made of parts.
pub open spec fn of_parts_spec(parts: Seq<Verdict>) -> Verdict {
    match worst_judged(parts) {
        Some(v) => v,
        None => match first_unjudged(parts) {
            Some(v) => v,
            None => Verdict::Unknown(Unresolved::Empty),
        },
    }
}

proof fn lemma_worst_judged(parts: Seq<Verdict>)
    ensures
        worst_judged(parts) is None <==> forall|i: int|
            0 <= i < parts.len() ==> parts[i] is Unknown,
        worst_judged(parts) is Some ==> {
            &&& worst_judged(parts)->0 !is Unknown
            &&& parts.contains(worst_judged(parts)->0)
            &&& forall|i: int|
                0 <= i < parts.len() && parts[i] !is Unknown ==> severity_of(
                    worst_judged(parts)->0,
                ) <= severity_of(parts[i])
        },
    decreases parts.len(),
{
    if parts.len() > 0 {
        let prev = parts.drop_last();
        lemma_worst_judged(prev);
        assert forall|i: int| 0 <= i < prev.len() implies prev[i] == parts[i] by {}
        if worst_judged(prev) is Some {
            let c = worst_judged(prev)->0;
            let k = choose|k: int| 0 <= k < prev.len() && prev[k] == c;
            assert(parts[k] == c);
        }
        if worst_judged(parts) is Some {
            let w = worst_judged(parts)->0;
            if w == parts.last() {
                assert(parts[parts.len() - 1] == w);
            }
        }
    }
}

/// `r` is the first of the worst judged parts: a judged part at some place `j`, no judged
/// part is worse, and every judged part before `j` is better.
pub open spec fn is_first_worst(parts: Seq<Verdict>, r: Verdict) -> bool {
    &&& r !is Unknown
    &&& forall|k: int|
        0 <= k < parts.len() && #[trigger] parts[k] !is Unknown ==> severity_of(r) <= severity_of(
            parts[k],
        )
    &&& exists|j: int|
        #![trigger parts[j]]
        0 <= j < parts.len() && parts[j] == r && forall|k: int|
            0 <= k < j && #[trigger] parts[k] !is Unknown ==> severity_of(r) < severity_of(
                parts[k],
            )
}

/// The worst judged part is the first of the worst.
proof fn lemma_worst_judged_first(parts: Seq<Verdict>)
    ensures
        worst_judged(parts) is Some ==> is_first_worst(parts, worst_judged(parts)->0),
    decreases parts.len(),
{
    if parts.len() > 0 {
        let prev = parts.drop_last();
        let n = parts.len() - 1;
        let v = parts[n];
        lemma_worst_judged_first(prev);
        lemma_worst_judged(prev);
        assert forall|i: int| 0 <= i < prev.len() implies #[trigger] prev[i] == parts[i] by {}
        match worst_judged(prev) {
            None => {
                if v !is Unknown {
                    assert forall|k: int| 0 <= k < parts.len() && #[trigger] parts[k] !is Unknown implies severity_of(v)
                        <= severity_of(parts[k]) by {
                        if k < n {
                            assert(prev[k] is Unknown);
                        }
                    }
                    assert forall|k: int| 0 <= k < n && #[trigger] parts[k] !is Unknown implies severity_of(v)
                        < severity_of(parts[k]) by {
                        assert(prev[k] is Unknown);
                    }
                    assert(parts[n] == v);
                }
            },
            Some(c) => {
                let j = choose|j: int|
                    #![trigger prev[j]]
                    0 <= j < prev.len() && prev[j] == c && forall|k: int|
                        0 <= k < j && #[trigger] prev[k] !is Unknown ==> severity_of(c)
                            < severity_of(prev[k]);
                assert(parts[j] == c);
                if v !is Unknown && severity_of(v) < severity_of(c) {
                    assert forall|k: int| 0 <= k < parts.len() && #[trigger] parts[k] !is Unknown implies severity_of(v)
                        <= severity_of(parts[k]) by {
                        if k < n {
                            assert(prev[k] !is Unknown);
                        }
                    }
                    assert forall|k: int| 0 <= k < n && #[trigger] parts[k] !is Unknown implies severity_of(v)
                        < severity_of(parts[k]) by {
                        assert(prev[k] !is Unknown);
                    }
                    assert(parts[n] == v);
                } else {
                    assert forall|k: int| 0 <= k < parts.len() && #[trigger] parts[k] !is Unknown implies severity_of(c)
                        <= severity_of(parts[k]) by {
                        if k < n {
                            assert(prev[k] !is Unknown);
                        }
                    }
                    assert forall|k: int| 0 <= k < j && #[trigger] parts[k] !is Unknown implies severity_of(c)
                        < severity_of(parts[k]) by {
                        assert(prev[k] !is Unknown);
                    }
                }
            },
        }
    }
}

/// A whole takes the verdict of its worst part that can be judged, the earliest of them
/// among equally bad ones; when no part can be judged, the reason of its first part; and
/// when it has no parts, that it is empty.
pub proof fn of_parts_takes_the_first_of_the_worst(parts: Seq<Verdict>)
    ensures
        (exists|i: int| 0 <= i < parts.len() && parts[i] !is Unknown) ==> is_first_worst(
            parts,
            of_parts_spec(parts),
        ),
        (forall|i: int| 0 <= i < parts.len() ==> parts[i] is Unknown) && parts.len() > 0
            ==> of_parts_spec(parts) == parts[0],
        parts.len() == 0 ==> of_parts_spec(parts) == Verdict::Unknown(Unresolved::Empty),
{
    lemma_worst_judged(parts);
    lemma_worst_judged_first(parts);
    lemma_first_unjudged(parts);
}

proof fn lemma_first_unjudged(parts: Seq<Verdict>)
    ensures
        (forall|i: int| 0 <= i < parts.len() ==> parts[i] is Unknown) && parts.len() > 0
            ==> first_unjudged(parts) == Some(parts[0]),
        parts.len() == 0 ==> first_unjudged(parts) is None,
    decreases parts.len(),
{
    if parts.len() > 1 {
        let prev = parts.drop_last();
        assert forall|i: int| 0 <= i < prev.len() implies prev[i] == parts[i] by {}
        lemma_first_unjudged(prev);
    } else if parts.len() == 1 {
        assert(first_unjudged(parts.drop_last()) is None);
    }
}

impl Verdict {
    /// Carries the same meaning as the colour, so a row still reads in a monochrome
    /// terminal and under colour blindness.
    pub fn glyph(self) -> (r: char)
        ensures
            r == glyph_of(self),
    {
        match self {
            Verdict::InSync => '\u{25cf}',
            Verdict::Behind => '\u{25bc}',
            Verdict::Failed(_) => '\u{2717}',
            Verdict::Resolving => '\u{2819}',
            Verdict::Unknown(_) => '\u{25cb}',
        }
    }

    pub fn code(self) -> (r: &'static str)
        ensures
            r@ == code_of(self),
    {
        match self {
            Verdict::Failed(Failure::Kube) => "k8s",
            Verdict::Failed(Failure::Git) => "git",
            Verdict::Unknown(Unresolved::Sidecar) => "sidecar",
            Verdict::Unknown(Unresolved::Digest) => "digest",
            Verdict::Unknown(Unresolved::NoConfig) => "no-cfg",
            Verdict::Unknown(Unresolved::NoTags) => "no-tags",
            Verdict::Unknown(Unresolved::WrongMode) => "mode",
            Verdict::Unknown(Unresolved::Finished) => "done",
            Verdict::Unknown(Unresolved::Empty) => "no-pods",
            Verdict::Behind | Verdict::Resolving | Verdict::InSync => "",
        }
    }

    /// Sort weight: what somebody opening the tool has to act on comes first.
    pub fn severity(self) -> (r: u8)
        ensures
            r == severity_of(self),
    {
        match self {
            Verdict::Behind => 0,
            Verdict::Failed(_) => 1,
            Verdict::Resolving => 2,
            Verdict::Unknown(_) => 3,
            Verdict::InSync => 4,
        }
    }

    fn worse(self, other: Verdict) -> (r: Verdict)
        ensures
            r == worse_of(self, other),
    {
        if other.severity() < self.severity() {
            other
        } else {
            self
        }
    }

    /// Verdict of a whole made of parts — the containers of a pod, the pods of a namespace.
    ///
    /// Anything lagging drags the whole down. Parts nobody can judge are left out as long as
    /// something else could be judged: a sidecar pinned to its own version says nothing
    /// about the release, and neither does somebody else's pod that happens to share the
    /// namespace. Only when nothing at all can be judged does the whole take on the reason
    /// why.
    pub fn of_parts(parts: &[Verdict]) -> (r: Verdict)
        ensures
            r == of_parts_spec(parts@),
            parts@.contains(Verdict::Behind) ==> r == Verdict::Behind,
            (exists|i: int| 0 <= i < parts@.len() && parts@[i] !is Unknown) ==> {
                &&& r !is Unknown
                &&& parts@.contains(r)
                &&& forall|i: int|
                    0 <= i < parts@.len() && parts@[i] !is Unknown ==> severity_of(r)
                        <= severity_of(parts@[i])
            },
            (forall|i: int| 0 <= i < parts@.len() ==> parts@[i] is Unknown) && parts@.len() > 0
                ==> r == parts@[0],
            parts@.len() == 0 ==> r == Verdict::Unknown(Unresolved::Empty),
            (exists|i: int| 0 <= i < parts@.len() && parts@[i] !is Unknown) ==> is_first_worst(
                parts@,
                r,
            ),
    {
        let mut judged: Option<Verdict> = None;
        let mut unjudged: Option<Verdict> = None;
        let mut i: usize = 0;
        while i < parts.len()
            invariant
                i <= parts@.len(),
                judged == worst_judged(parts@.take(i as int)),
                unjudged == first_unjudged(parts@.take(i as int)),
            decreases parts@.len() - i,
        {
            let verdict = parts[i];
            proof {
                assert(parts@.take(i + 1).drop_last() =~= parts@.take(i as int));
            }
            match verdict {
                Verdict::Unknown(_) => {
                    unjudged = match unjudged {
                        Some(current) => Some(current),
                        None => Some(verdict),
                    };
                },
                _ => {
                    judged = match judged {
                        Some(current) => Some(current.worse(verdict)),
                        None => Some(verdict),
                    };
                },
            }
            i += 1;
        }
        proof {
            assert(parts@.take(parts@.len() as int) =~= parts@);
            lemma_worst_judged(parts@);
            lemma_first_unjudged(parts@);
            of_parts_takes_the_first_of_the_worst(parts@);
            if parts@.contains(Verdict::Behind) {
                let k = choose|k: int| 0 <= k < parts@.len() && parts@[k] == Verdict::Behind;
                assert(parts@[k] !is Unknown);
            }
        }
        match judged {
            Some(v) => v,
            None => match unjudged {
                Some(v) => v,
                None => Verdict::Unknown(Unresolved::Empty),
            },
        }
    }
}

/// No two verdicts that mean different things share a glyph.
pub proof fn each_state_has_its_own_glyph(a: Verdict, b: Verdict)
    requires
        glyph_of(a) == glyph_of(b),
    ensures
        severity_of(a) == severity_of(b),
{
}

/// Every reason for grey has a code of its own, and no other verdict shares it.
pub proof fn every_reason_for_grey_has_its_own_code(a: Unresolved, b: Unresolved)
    requires
        a != b,
    ensures
        code_of(Verdict::Unknown(a)) != code_of(Verdict::Unknown(b)),
        code_of(Verdict::Unknown(a)).len() > 0,
{
    reveal_strlit("sidecar");
    reveal_strlit("digest");
    reveal_strlit("no-cfg");
    reveal_strlit("no-tags");
    reveal_strlit("mode");
    reveal_strlit("done");
    reveal_strlit("no-pods");
    let x = code_of(Verdict::Unknown(a));
    let y = code_of(Verdict::Unknown(b));
    if x.len() == y.len() {
        assert(x[0] != y[0] || x[1] != y[1] || x[3] != y[3]);
    }
}

/// Whether a running image is what the target says it should be.
pub open spec fn judge_spec(image_ref: Option<RefView>, remote: Option<RemoteView>) -> Verdict {
    match remote {
        None => Verdict::Resolving,
        Some(RemoteView::Loading) => Verdict::Resolving,
        Some(RemoteView::Unconfigured) => Verdict::Unknown(Unresolved::NoConfig),
        Some(RemoteView::NoTags) => Verdict::Unknown(Unresolved::NoTags),
        Some(RemoteView::Failed(_)) => Verdict::Failed(Failure::Git),
        Some(RemoteView::Ready(target)) => match image_ref {
            None => Verdict::Unknown(Unresolved::Digest),
            Some(RefView::Commit(hash)) => if lowercase(hash).is_prefix_of(
                lowercase(target.commit),
            ) {
                Verdict::InSync
            } else {
                Verdict::Behind
            },
            Some(RefView::Tag(name)) => match tag_lookup(target.tags, name) {
                Some(commit) => if commit == target.commit {
                    Verdict::InSync
                } else {
                    Verdict::Behind
                },
                None => if target.tags.len() == 0 {
                    Verdict::Unknown(Unresolved::WrongMode)
                } else {
                    Verdict::Unknown(Unresolved::Sidecar)
                },
            },
        },
    }
}

/// Until the repository's reference is known a container is still resolving; a repository
/// that is not configured, has no tags, or could not be asked leaves it unjudged for that
/// reason, whatever it runs; and an image with no usable reference cannot be told.
pub proof fn nothing_is_judged_without_a_reference(image_ref: Option<RefView>, target: TargetView, why: Seq<char>)
    ensures
        judge_spec(image_ref, None) == Verdict::Resolving,
        judge_spec(image_ref, Some(RemoteView::Loading)) == Verdict::Resolving,
        judge_spec(image_ref, Some(RemoteView::Unconfigured)) == Verdict::Unknown(
            Unresolved::NoConfig,
        ),
        judge_spec(image_ref, Some(RemoteView::NoTags)) == Verdict::Unknown(Unresolved::NoTags),
        judge_spec(image_ref, Some(RemoteView::Failed(why))) == Verdict::Failed(Failure::Git),
        judge_spec(None, Some(RemoteView::Ready(target))) == Verdict::Unknown(Unresolved::Digest),
{
}

/// A container that runs a commit build is in sync when its hash, ignoring case, starts
/// the commit the repository points at, and behind otherwise; what tags the repository
/// lists, and which one it is named after, play no part.
pub proof fn commit_builds_are_judged_by_their_hash(hash: Seq<char>, target: TargetView, other: TargetView)
    ensures
        judge_spec(Some(RefView::Commit(hash)), Some(RemoteView::Ready(target))) == (if lowercase(
            hash,
        ).is_prefix_of(lowercase(target.commit)) {
            Verdict::InSync
        } else {
            Verdict::Behind
        }),
        other.commit == target.commit ==> judge_spec(
            Some(RefView::Commit(hash)),
            Some(RemoteView::Ready(other)),
        ) == judge_spec(Some(RefView::Commit(hash)), Some(RemoteView::Ready(target))),
{
}

/// A container that runs a tag build is in sync when the repository lists that tag at the
/// commit it points at, and behind when it lists it at another; a tag the repository does
/// not list cannot be told.
pub proof fn tag_builds_are_judged_by_the_commit_their_tag_names(name: Seq<char>, target: TargetView)
    ensures
        tag_lookup(target.tags, name) == Some(target.commit) ==> judge_spec(
            Some(RefView::Tag(name)),
            Some(RemoteView::Ready(target)),
        ) == Verdict::InSync,
        tag_lookup(target.tags, name) is Some && tag_lookup(target.tags, name) != Some(target.commit)
            ==> judge_spec(Some(RefView::Tag(name)), Some(RemoteView::Ready(target)))
            == Verdict::Behind,
        tag_lookup(target.tags, name) is None ==> judge_spec(
            Some(RefView::Tag(name)),
            Some(RemoteView::Ready(target)),
        ) is Unknown,
{
}

pub open spec fn opt_remote_view(r: Option<&RemoteState>) -> Option<RemoteView> {
    match r {
        Some(x) => Some(x@),
        None => None,
    }
}

pub open spec fn opt_image_view(r: Option<&ImageRef>) -> Option<RefView> {
    match r {
        Some(x) => Some(x@),
        None => None,
    }
}

/// Whether a running image is what the target says it should be.
///
/// A commit is compared by hash, ignoring case, and the image may carry a short form. A tag
/// is compared by the commit it names, and only when the repository actually has a tag
/// with that name — otherwise it belongs to something else, such as a sidecar pinned to its
/// own version, and there is nothing to judge.
pub fn judge(image_ref: Option<&ImageRef>, remote: Option<&RemoteState>) -> (r: Verdict)
    ensures
        r == judge_spec(opt_image_view(image_ref), opt_remote_view(remote)),
{
    let target = match remote {
        None => {
            return Verdict::Resolving;
        },
        Some(RemoteState::Loading) => {
            return Verdict::Resolving;
        },
        Some(RemoteState::Unconfigured) => {
            return Verdict::Unknown(Unresolved::NoConfig);
        },
        Some(RemoteState::NoTags) => {
            return Verdict::Unknown(Unresolved::NoTags);
        },
        Some(RemoteState::Failed(_)) => {
            return Verdict::Failed(Failure::Git);
        },
        Some(RemoteState::Ready(target)) => target,
    };
    let image_ref = match image_ref {
        Some(x) => x,
        None => {
            return Verdict::Unknown(Unresolved::Digest);
        },
    };
    match image_ref {
        ImageRef::Commit(hash) => {
            let full = to_lower(target.commit.as_str());
            let short = to_lower(hash.as_str());
            let a = to_chars(full.as_str());
            let b = to_chars(short.as_str());
            if starts_with(a.as_slice(), b.as_slice()) {
                Verdict::InSync
            } else {
                Verdict::Behind
            }
        },
        // by commit rather than by name: two tags can point at the same one, and then the
        // pod is running exactly what the reference asks for
        ImageRef::Tag(name) => match target.tag_commit(name.as_str()) {
            Some(commit) => {
                if commit == target.commit {
                    Verdict::InSync
                } else {
                    Verdict::Behind
                }
            },
            // without a tag list there is nothing to look the name up in, which says
            // something about the mode rather than about the image
            None => {
                if target.tags.len() == 0 {
                    Verdict::Unknown(Unresolved::WrongMode)
                } else {
                    Verdict::Unknown(Unresolved::Sidecar)
                }
            },
        },
    }
}


/// Where tag refs live.
pub open spec fn tags_dir() -> Seq<char> {
    "refs/tags/"@
}

/// Suffix `git` puts on the ref that an annotated tag points at.
pub open spec fn peeled_mark() -> Seq<char> {
    "^{}"@
}

/// A line of `ls-remote` output read as `(sha, reference)`: what stands either side of the
/// first tab, trimmed. A line without a tab carries no ref.
pub open spec fn ref_line(line: Seq<char>) -> Option<(Seq<char>, Seq<char>)> {
    let i = first_index_of(line, '\t');
    if i < 0 {
        None
    } else {
        Some((trim(line.take(i)), trim(line.skip(i + 1))))
    }
}

/// The refs listed in `ls-remote` output, in order.
pub open spec fn refs_of(lines: Seq<Seq<char>>) -> Seq<(Seq<char>, Seq<char>)>
    decreases lines.len(),
{
    if lines.len() == 0 {
        seq![]
    } else {
        let prev = refs_of(lines.drop_last());
        match ref_line(lines.last()) {
            Some(p) => prev.push(p),
            None => prev,
        }
    }
}

/// The tag a ref names, when it is a tag ref.
pub open spec fn tag_name(reference: Seq<char>) -> Option<Seq<char>> {
    if tags_dir().is_prefix_of(reference) {
        Some(reference.skip(tags_dir().len() as int))
    } else {
        None
    }
}

/// The tag a peeled entry (`<tag>^{}`) stands for.
pub open spec fn unpeeled(name: Seq<char>) -> Option<Seq<char>> {
    if peeled_mark().is_suffix_of(name) {
        Some(name.take(name.len() - peeled_mark().len()))
    } else {
        None
    }
}

/// The commit of tag `name` according to `refs`: a peeled entry names the commit and wins
/// over the tag object's own sha, the last one if there are several; without one, the
/// first plain entry stands.
pub open spec fn tag_commit_in(refs: Seq<(Seq<char>, Seq<char>)>, name: Seq<char>) -> Option<
    Seq<char>,
>
    decreases refs.len(),
{
    if refs.len() == 0 {
        None
    } else {
        let prev = tag_commit_in(refs.drop_last(), name);
        let (sha, reference) = refs.last();
        match tag_name(reference) {
            Some(n) => match unpeeled(n) {
                Some(p) => if p == name {
                    Some(sha)
                } else {
                    prev
                },
                None => if n == name && prev is None {
                    Some(sha)
                } else {
                    prev
                },
            },
            None => prev,
        }
    }
}

/// The name of the tag a ref line stands for, prefix and peel mark taken off where present.
pub open spec fn latest_name(top: Seq<char>) -> Seq<char> {
    let n = match tag_name(top) {
        Some(n) => n,
        None => top,
    };
    match unpeeled(n) {
        Some(p) => p,
        None => n,
    }
}

/// Setting the value of the first pair named `name` changes what `name` looks up to and
/// nothing else.
proof fn lemma_lookup_after_set(
    tags: Seq<(Seq<char>, Seq<char>)>,
    j: int,
    name: Seq<char>,
    commit: Seq<char>,
)
    requires
        0 <= j < tags.len(),
        tags[j].0 == name,
        forall|i: int| 0 <= i < j ==> tags[i].0 != name,
    ensures
        forall|k: Seq<char>|
            tag_lookup(tags.update(j, (name, commit)), k) == if k == name {
                Some(commit)
            } else {
                tag_lookup(tags, k)
            },
{
    let after = tags.update(j, (name, commit));
    assert forall|k: Seq<char>|
        tag_lookup(after, k) == if k == name {
            Some(commit)
        } else {
            tag_lookup(tags, k)
        } by {
        if k == name {
            lemma_lookup_at(after, name, j);
        } else {
            lemma_lookup_found(tags, k);
            if tag_lookup(tags, k) is Some {
                let j2 = choose|j2: int|
                    0 <= j2 < tags.len() && tags[j2].0 == k && tags[j2].1 == tag_lookup(tags, k)->0
                        && forall|i: int| 0 <= i < j2 ==> tags[i].0 != k;
                lemma_lookup_at(after, k, j2);
            } else {
                lemma_lookup_none(after, k);
            }
        }
    }
}

/// Appending a pair under a new name adds that name and changes nothing else.
proof fn lemma_lookup_after_push(
    tags: Seq<(Seq<char>, Seq<char>)>,
    name: Seq<char>,
    commit: Seq<char>,
)
    requires
        forall|i: int| 0 <= i < tags.len() ==> tags[i].0 != name,
    ensures
        forall|k: Seq<char>|
            tag_lookup(tags.push((name, commit)), k) == if k == name {
                Some(commit)
            } else {
                tag_lookup(tags, k)
            },
{
    let after = tags.push((name, commit));
    assert(after.drop_last() =~= tags);
    lemma_lookup_none(tags, name);
}

/// The refs of `ls-remote` output, each read as `(sha, reference)`.
fn read_refs(stdout: &str) -> (refs: Vec<(String, String)>)
    ensures
        refs.deep_view() == refs_of(lines_of(stdout@)),
{
    let s = to_chars(stdout);
    let lines = split_lines(s.as_slice());
    let mut refs: Vec<(String, String)> = Vec::new();
    let mut k: usize = 0;
    while k < lines.len()
        invariant
            k <= lines@.len(),
            lines.deep_view() == lines_of(stdout@),
            refs.deep_view() == refs_of(lines.deep_view().take(k as int)),
        decreases lines@.len() - k,
    {
        let ghost before = refs.deep_view();
        let line = to_chars(lines[k].as_str());
        let ls = line.as_slice();
        proof {
            assert(lines.deep_view().take(k + 1).drop_last() =~= lines.deep_view().take(
                k as int,
            ));
            assert(lines.deep_view()[k as int] == lines@[k as int]@);
            assert(ls@.subrange(0, ls@.len() as int) =~= ls@);
        }
        proof {
            crate::chars::lemma_first_index_of(ls@, '\t');
        }
        match find_char(ls, 0, ls.len(), '\t') {
            Some(i) => {
                let sha = trimmed(ls, 0, i);
                let name = trimmed(ls, i + 1, ls.len());
                proof {
                    assert(ls@.subrange(0, i as int) =~= ls@.take(i as int));
                    assert(ls@.subrange(i + 1, ls@.len() as int) =~= ls@.skip(i + 1));
                }
                refs.push((string_from(sha.as_slice()), string_from(name.as_slice())));
                assert(refs.deep_view() =~= before.push((sha@, name@)));
            },
            None => {},
        }
        k += 1;
    }
    assert(lines.deep_view().take(lines@.len() as int) =~= lines.deep_view());
    refs
}

/// Expects `git ls-remote --tags --sort=-v:refname` output: the newest tag comes first,
/// and an annotated tag also has a `^{}` line carrying the commit it points at.
pub fn pick_latest_tag(stdout: &String) -> (r: Result<Target, LookupError>)
    ensures
        pick_latest_tag_post(*stdout, r),
{
    let refs = read_refs(stdout.as_str());
    let ghost all = refs.deep_view();
    if refs.len() == 0 {
        return Err(LookupError::NoTags);
    }
    let prefix = to_chars("refs/tags/");
    let suffix = to_chars("^{}");
    let mut tags: Vec<(String, String)> = Vec::new();
    let mut k: usize = 0;
    proof {
        assert(tags.deep_view() =~= Seq::<(Seq<char>, Seq<char>)>::empty());
    }
    while k < refs.len()
        invariant
            k <= refs@.len(),
            all == refs.deep_view(),
            prefix@ == tags_dir(),
            suffix@ == peeled_mark(),
            distinct_names(tags.deep_view()),
            forall|n: Seq<char>| tag_lookup(tags.deep_view(), n) == tag_commit_in(all.take(k as int), n),
        decreases refs@.len() - k,
    {
        let ghost before = tags.deep_view();
        let sha = refs[k].0.clone();
        let reference = to_chars(refs[k].1.as_str());
        proof {
            assert(all.take(k + 1).drop_last() =~= all.take(k as int));
            assert(all[k as int] == (refs@[k as int].0@, refs@[k as int].1@));
            assert(all.take(k + 1).last() == all[k as int]);
        }
        if starts_with(reference.as_slice(), prefix.as_slice()) {
            let name = slice_to_vec(&reference, prefix.len(), reference.len());
            assert(name@ =~= reference@.skip(prefix@.len() as int));
            if ends_with(name.as_slice(), suffix.as_slice()) {
                let peeled = slice_to_vec(&name, 0, name.len() - suffix.len());
                assert(peeled@ =~= name@.take(name@.len() - suffix@.len()));
                let key = string_from(peeled.as_slice());
                match find_tag(&tags, key.as_str()) {
                    Some(j) => {
                        proof {
                            lemma_lookup_after_set(before, j as int, key@, sha@);
                        }
                        tags.set(j, (key, sha));
                        assert(tags.deep_view() =~= before.update(j as int, (peeled@, refs@[k as int].0@)));
                    },
                    None => {
                        proof {
                            lemma_lookup_after_push(before, key@, sha@);
                        }
                        tags.push((key, sha));
                        assert(tags.deep_view() =~= before.push((peeled@, refs@[k as int].0@)));
                    },
                }
            } else {
                let key = string_from(name.as_slice());
                match find_tag(&tags, key.as_str()) {
                    Some(j) => {
                        proof {
                            lemma_lookup_at(before, key@, j as int);
                        }
                    },
                    None => {
                        proof {
                            lemma_lookup_none(before, key@);
                            lemma_lookup_after_push(before, key@, sha@);
                        }
                        tags.push((key, sha));
                        assert(tags.deep_view() =~= before.push((name@, refs@[k as int].0@)));
                    },
                }
            }
        }
        k += 1;
    }
    assert(all.take(refs@.len() as int) =~= all);
    let top = to_chars(refs[0].1.as_str());
    assert(all[0] == (refs@[0].0@, refs@[0].1@));
    let named = if starts_with(top.as_slice(), prefix.as_slice()) {
        let n = slice_to_vec(&top, prefix.len(), top.len());
        assert(n@ =~= top@.skip(prefix@.len() as int));
        n
    } else {
        top
    };
    let name = if ends_with(named.as_slice(), suffix.as_slice()) {
        let n = slice_to_vec(&named, 0, named.len() - suffix.len());
        assert(n@ =~= named@.take(named@.len() - suffix@.len()));
        n
    } else {
        named
    };
    let key = string_from(name.as_slice());
    proof {
        lemma_lookup_found(tags.deep_view(), key@);
    }
    match find_tag(&tags, key.as_str()) {
        Some(j) => {
            proof {
                lemma_lookup_at(tags.deep_view(), key@, j as int);
            }
            let commit = tags[j].1.clone();
            Ok(Target { commit, name: Some(key), tags })
        },
        None => {
            proof {
                lemma_lookup_none(tags.deep_view(), key@);
            }
            Err(LookupError::Git(String::from_str("cannot resolve the latest tag")))
        },
    }
}

/// What running `git ls-remote` came to: it could not be started, or it ran and exited.
/// Output is taken as text, invalid UTF-8 already replaced.
pub enum GitOutcome {
    Unavailable(String),
    Exited { success: bool, stdout: String, stderr: String },
}

/// The first line of `lines` that says anything, trimmed.
pub open spec fn first_said(lines: Seq<Seq<char>>) -> Option<Seq<char>>
    decreases lines.len(),
{
    if lines.len() == 0 {
        None
    } else if trim(lines[0]).len() > 0 {
        Some(trim(lines[0]))
    } else {
        first_said(lines.drop_first())
    }
}

/// Why `git` failed, from what it wrote to stderr.
pub open spec fn failure_reason(stderr: Seq<char>) -> Seq<char> {
    match first_said(lines_of(stderr)) {
        Some(l) => l,
        None => "git ls-remote failed"@,
    }
}

/// What a run of `git ls-remote` printed, or why it came to nothing.
pub open spec fn ls_remote_spec(outcome: GitOutcome) -> Result<Seq<char>, Seq<char>> {
    match outcome {
        GitOutcome::Unavailable(e) => Err("cannot run git: "@ + e@),
        GitOutcome::Exited { success, stdout, stderr } => if success {
            Ok(stdout@)
        } else {
            Err(failure_reason(stderr@))
        },
    }
}

/// Reads the outcome of `git ls-remote`: what it printed when it succeeded, otherwise the
/// first line it complained with.
pub fn ls_remote(outcome: &GitOutcome) -> (r: Result<String, LookupError>)
    ensures
        match (r, ls_remote_spec(*outcome)) {
            (Ok(out), Ok(expected)) => out@ == expected,
            (Err(LookupError::Git(m)), Err(expected)) => m@ == expected,
            _ => false,
        },
{
    match outcome {
        GitOutcome::Unavailable(e) => Err(LookupError::Git(concat("cannot run git: ", e.as_str()))),
        GitOutcome::Exited { success, stdout, stderr } => {
            if *success {
                return Ok(stdout.clone());
            }
            let chars = to_chars(stderr.as_str());
            let lines = split_lines(chars.as_slice());
            let ghost all = lines.deep_view();
            let mut i: usize = 0;
            proof {
                assert(all.skip(0) =~= all);
            }
            while i < lines.len()
                invariant
                    i <= lines@.len(),
                    all == lines.deep_view(),
                    all == lines_of(stderr@),
                    ls_remote_spec(*outcome) == Err::<Seq<char>, Seq<char>>(failure_reason(stderr@)),
                    first_said(all) == first_said(all.skip(i as int)),
                decreases lines@.len() - i,
            {
                let line = to_chars(lines[i].as_str());
                let l = line.as_slice();
                let t = trimmed(l, 0, l.len());
                proof {
                    assert(l@.subrange(0, l@.len() as int) =~= l@);
                    assert(all.skip(i as int)[0] == all[i as int]);
                    assert(all.skip(i as int).drop_first() =~= all.skip(i + 1));
                }
                if t.len() > 0 {
                    return Err(LookupError::Git(string_from(t.as_slice())));
                }
                i += 1;
            }
            assert(all.skip(i as int).len() == 0);
            Err(LookupError::Git(String::from_str("git ls-remote failed")))
        },
    }
}

/// What `latest_commit` makes of what `git ls-remote <url> HEAD` printed.
pub open spec fn head_commit(stdout: Seq<char>) -> LookupView {
    match first_word(stdout) {
        Some(sha) => LookupView::Found(
            TargetView { commit: sha, name: None, tags: Seq::empty() },
        ),
        None => LookupView::Git("remote returned no HEAD"@),
    }
}

/// Commit that the remote `HEAD` points at, i.e. the tip of the default branch, read off
/// what `git ls-remote <url> HEAD` came to.
pub fn latest_commit(outcome: &GitOutcome) -> (r: Result<Target, LookupError>)
    ensures
        lookup_view(r) == match ls_remote_spec(*outcome) {
            Ok(stdout) => head_commit(stdout),
            Err(m) => LookupView::Git(m),
        },
{
    let stdout = match ls_remote(outcome) {
        Ok(x) => x,
        Err(e) => {
            return Err(e);
        },
    };
    let chars = to_chars(stdout.as_str());
    match first_word_of(chars.as_slice()) {
        Some(sha) => {
            let t = Target { commit: string_from(sha.as_slice()), name: None, tags: Vec::new() };
            assert(t@.tags =~= Seq::<(Seq<char>, Seq<char>)>::empty());
            Ok(t)
        },
        None => Err(LookupError::Git(String::from_str("remote returned no HEAD"))),
    }
}

/// Commit behind the highest version tag, read off what
/// `git ls-remote --tags --sort=-v:refname <url>` came to. Ordering is left to `git`, whose
/// version sort puts `v0.1.100` above `v0.1.99` — plain alphabetical would not.
pub fn latest_tag(outcome: &GitOutcome) -> (r: Result<Target, LookupError>)
    ensures
        match ls_remote_spec(*outcome) {
            Err(m) => lookup_view(r) == LookupView::Git(m),
            Ok(stdout) => exists|s: String|
                s@ == stdout && #[trigger] pick_latest_tag_post(s, r),
        },
{
    match ls_remote(outcome) {
        Ok(stdout) => {
            let r = pick_latest_tag(&stdout);
            assert(pick_latest_tag_post(stdout, r));
            r
        },
        Err(e) => Err(e),
    }
}

/// What `pick_latest_tag` promises of its result.
pub open spec fn pick_latest_tag_post(stdout: String, r: Result<Target, LookupError>) -> bool {
    let refs = refs_of(lines_of(stdout@));
    match r {
        Err(LookupError::NoTags) => refs.len() == 0,
        Err(LookupError::Git(m)) => {
            &&& refs.len() > 0
            &&& tag_commit_in(refs, latest_name(refs[0].1)) is None
            &&& m@ == "cannot resolve the latest tag"@
        },
        Ok(t) => {
            &&& refs.len() > 0
            &&& t@.name == Some(latest_name(refs[0].1))
            &&& tag_commit_in(refs, latest_name(refs[0].1)) == Some(t@.commit)
            &&& distinct_names(t@.tags)
            &&& forall|k: Seq<char>| tag_lookup(t@.tags, k) == tag_commit_in(refs, k)
        },
    }
}

/// The arguments `git ls-remote` is run with for a mode: `HEAD` for the tip of the default
/// branch, every tag newest first for the latest release.
pub open spec fn lookup_args_spec(mode: Mode, url: Seq<char>) -> Seq<Seq<char>> {
    match mode {
        Mode::Commit => seq!["ls-remote"@, url, "HEAD"@],
        Mode::Tag => seq!["ls-remote"@, "--tags"@, "--sort=-v:refname"@, url],
    }
}

/// What to run `git` with to resolve `url` in `mode`.
pub fn lookup_args(mode: Mode, url: &str) -> (r: Vec<String>)
    ensures
        r.deep_view() == lookup_args_spec(mode, url@),
{
    let mut r: Vec<String> = Vec::new();
    r.push(String::from_str("ls-remote"));
    match mode {
        Mode::Commit => {
            r.push(String::from_str(url));
            r.push(String::from_str("HEAD"));
        },
        Mode::Tag => {
            r.push(String::from_str("--tags"));
            r.push(String::from_str("--sort=-v:refname"));
            r.push(String::from_str(url));
        },
    }
    assert(r.deep_view() =~= lookup_args_spec(mode, url@));
    r
}

/// Resolves a repository in `mode` from what `git` came to when run with `lookup_args`.
pub fn resolve(mode: Mode, outcome: &GitOutcome) -> (r: Result<Target, LookupError>)
    ensures
        mode == Mode::Commit ==> lookup_view(r) == match ls_remote_spec(*outcome) {
            Ok(stdout) => head_commit(stdout),
            Err(m) => LookupView::Git(m),
        },
        mode == Mode::Tag ==> match ls_remote_spec(*outcome) {
            Err(m) => lookup_view(r) == LookupView::Git(m),
            Ok(stdout) => exists|s: String| s@ == stdout && #[trigger] pick_latest_tag_post(s, r),
        },
{
    match mode {
        Mode::Commit => latest_commit(outcome),
        Mode::Tag => latest_tag(outcome),
    }
}

/// `v[from..to]` as a new vector.
fn slice_to_vec(v: &Vec<char>, from: usize, to: usize) -> (r: Vec<char>)
    requires
        from <= to <= v@.len(),
    ensures
        r@ == v@.subrange(from as int, to as int),
{
    let mut r: Vec<char> = Vec::new();
    let mut i: usize = from;
    while i < to
        invariant
            from <= i <= to <= v@.len(),
            r@ == v@.subrange(from as int, i as int),
        decreases to - i,
    {
        r.push(v[i]);
        i += 1;
        assert(r@ =~= v@.subrange(from as int, i as int));
    }
    r
}

} // verus!
