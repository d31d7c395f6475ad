//! What the screens say and how wide each part of them is: the texts of the bars, the
//! footer and the help, and the widths the tables cut their cells to. Drawing them is left
//! to the caller; every number and every word it draws comes from here.
use crate::chars::{push_char, same_str, to_chars};
use crate::drawer::app::{
    filter_label, Counts, Deployed, Filter, Input, NoteKind, NsRow, RefKind, Screen, Sort,
};
use crate::drawer::theme::{verdict_role, Role};
use crate::context::{env_label, Env};
use crate::pods::{is_calm, is_calm_status};
use crate::remote::{mode_label, Failure, Mode, Unresolved, Verdict};
use crate::text::{decimal, decimal_string, ellipsize, ellipsized, fit_head, fitted, push_decimal};
use vstd::prelude::*;

verus! {

/// Below this the interface says so instead of drawing something unreadable.
pub const MIN_WIDTH: u16 = 60;

pub const MIN_HEIGHT: u16 = 15;

/// Below this the panes collapse into a single list.
pub const WIDE_WIDTH: u16 = 100;

/// Cells of the progress bar.
pub const PROGRESS_WIDTH: usize = 20;

/// Columns of air kept between any text and the edge it sits against.
pub const PAD: u16 = 1;

/// Columns of the overview table.
pub const GLYPH: u16 = 2;

pub const PODS: u16 = 5;

pub const DEPLOYED: u16 = 30;

pub const REFERENCE: u16 = 12;

/// Width of one deployed reference in its column.
pub const GROUP_WIDTH: usize = 15;

/// Room for `+12` once a namespace runs more commits than the column can list.
pub const HIDDEN_WIDTH: usize = 4;

pub const NARROW_REFERENCE: u16 = 11;

/// One column of the cursor, plus the single space a table keeps between columns.
pub const CURSOR: u16 = 1;

pub const GAP: u16 = 1;

/// Columns of the detail screen.
pub const MINI_WIDTH: u16 = 38;

pub const MINI_PODS: u16 = 3;

/// The bar itself plus a column of air, so the pod counts do not run into it.
pub const SCROLLBAR: u16 = 2;

/// What the mini list leaves for a name: its width less the border, the padding either
/// side, the scrollbar, the cursor, the glyph, the pod count and the gaps between them.
pub const MINI_NAME: u16 = 25;

pub const SUMMARY_HEIGHT: u16 = 4;

pub const COMMIT: u16 = 11;

pub const STATUS: u16 = 18;

pub const RESTARTS: u16 = 4;

pub const AGE: u16 = 5;

pub const CONTAINERS: u16 = 5;

pub const CONTAINER_ROWS: usize = 4;

pub const CONTAINER_NAME: u16 = 30;

pub const CONTAINER_TAG: u16 = 22;

/// The mini list's name column is what its fixed parts leave.
pub proof fn mini_name_is_what_is_left()
    ensures
        MINI_NAME == MINI_WIDTH - 1 - 2 * PAD - SCROLLBAR - CURSOR - GLYPH - MINI_PODS - 2 * GAP,
{
}

/// `n` spaces.
pub open spec fn spaces(n: nat) -> Seq<char> {
    Seq::new(n, |i: int| ' ')
}

/// `s` padded with spaces to `width` characters, left as it is when it is that long already.
pub open spec fn padded_to(s: Seq<char>, width: nat) -> Seq<char> {
    if s.len() < width {
        s + spaces((width - s.len()) as nat)
    } else {
        s
    }
}

/// Pads `s` with spaces to `width` characters.
pub fn pad_right(s: &mut String, width: usize)
    ensures
        final(s)@ == padded_to(old(s)@, width as nat),
{
    let n = to_chars(s.as_str()).len();
    if n >= width {
        return;
    }
    assert(s@ =~= old(s)@ + spaces(0));
    let mut k = n;
    while k < width
        invariant
            n == old(s)@.len(),
            n <= k <= width,
            s@ == old(s)@ + spaces((k - n) as nat),
        decreases width - k,
    {
        let ghost before = s@;
        push_char(s, ' ');
        k += 1;
        assert(s@ =~= old(s)@ + spaces((k - n) as nat));
    }
    assert(s@ =~= padded_to(old(s)@, width as nat));
}

/// Columns of blank between a line's left and right halves: whatever the halves leave of
/// `width`, and never less than one, so that two halves never run together.
pub fn gap(used: usize, width: usize) -> (r: usize)
    ensures
        r >= 1,
        used < width ==> used + r == width,
        used >= width ==> r == 1,
{
    if width > used {
        width - used
    } else {
        1
    }
}

/// How many cells of the progress bar are filled once `done` of `total` are, and how many
/// are not. A total of nothing counts as finished.
pub fn progress_cells(done: usize, total: usize) -> (r: (usize, usize))
    requires
        done <= total,
    ensures
        r.0 == if total == 0 {
            PROGRESS_WIDTH as int
        } else {
            (done as int) * (PROGRESS_WIDTH as int) / (total as int)
        },
        r.0 + r.1 == PROGRESS_WIDTH,
{
    let filled: usize = if total == 0 {
        PROGRESS_WIDTH
    } else {
        let f = (done as u128) * 20u128 / (total as u128);
        assert(f <= PROGRESS_WIDTH) by (nonlinear_arith)
            requires
                f as int == (done as int) * 20 / (total as int),
                done <= total,
                total > 0,
        {
        }
        f as usize
    };
    (filled, PROGRESS_WIDTH - filled)
}

/// The glyph of a footer note.
pub open spec fn note_glyph_spec(kind: NoteKind) -> char {
    match kind {
        NoteKind::Done => '\u{2713}',
        NoteKind::Warn => '!',
        NoteKind::Error => '\u{2717}',
    }
}

pub fn note_glyph(kind: NoteKind) -> (r: char)
    ensures
        r == note_glyph_spec(kind),
{
    match kind {
        NoteKind::Done => '\u{2713}',
        NoteKind::Warn => '!',
        NoteKind::Error => '\u{2717}',
    }
}

/// The colour of a footer note.
pub open spec fn note_kind_role_spec(kind: NoteKind) -> Role {
    match kind {
        NoteKind::Done => Role::Good,
        NoteKind::Warn => Role::Warn,
        NoteKind::Error => Role::Bad,
    }
}

pub fn note_kind_role(kind: NoteKind) -> (r: Role)
    ensures
        r == note_kind_role_spec(kind),
{
    match kind {
        NoteKind::Done => Role::Good,
        NoteKind::Warn => Role::Warn,
        NoteKind::Error => Role::Bad,
    }
}

/// The keys a footer note offers: `r` where it can be retried, Esc where it can be
/// dismissed, which a standing problem cannot.
pub open spec fn note_hint_spec(retry: bool, standing: bool) -> Seq<char> {
    match (retry, standing) {
        (true, true) => "r retry"@,
        (true, false) => "r retry \u{b7} esc dismiss"@,
        (false, true) => ""@,
        (false, false) => "esc dismiss"@,
    }
}

pub fn note_hint(retry: bool, standing: bool) -> (r: &'static str)
    ensures
        r@ == note_hint_spec(retry, standing),
{
    match (retry, standing) {
        (true, true) => "r retry",
        (true, false) => "r retry \u{b7} esc dismiss",
        (false, true) => "",
        (false, false) => "esc dismiss",
    }
}

/// The length of the hint in bytes, which is what the note's room is measured against:
/// the dot takes two.
pub open spec fn note_hint_bytes(retry: bool, standing: bool) -> int {
    match (retry, standing) {
        (true, true) => 7,
        (true, false) => 22,
        (false, true) => 0,
        (false, false) => 11,
    }
}

/// Characters a footer note may take on a line `width` wide, beside its hint.
pub fn note_room(width: usize, retry: bool, standing: bool) -> (r: usize)
    ensures
        r == if width >= note_hint_bytes(retry, standing) + 4 {
            width - note_hint_bytes(retry, standing) - 4
        } else {
            0
        },
{
    let taken: usize = match (retry, standing) {
        (true, true) => 7,
        (true, false) => 22,
        (false, true) => 0,
        (false, false) => 11,
    } + 4;
    if width >= taken {
        width - taken
    } else {
        0
    }
}

/// What is left of `width` once `taken` characters and a margin of four are off it.
pub fn room(width: usize, taken: usize) -> (r: usize)
    ensures
        r == if width >= taken + 4 {
            width - taken - 4
        } else {
            0
        },
{
    if taken <= width && width - taken >= 4 {
        width - taken - 4
    } else {
        0
    }
}

/// The keys the footer offers in each situation: only the ones that do something there.
pub open spec fn key_hints_spec(input: Input, screen: Screen, narrow: bool) -> Seq<
    (Seq<char>, Seq<char>),
> {
    match (input, screen, narrow) {
        (Input::Search, _, _) => seq![
            ("enter"@, "keep"@),
            ("esc"@, "clear"@),
            ("\u{2191}\u{2193}"@, "move"@),
        ],
        (_, Screen::Overview, true) => seq![
            ("\u{2191}\u{2193}"@, "move"@),
            ("enter"@, "in"@),
            ("/"@, "find"@),
            ("?"@, "keys"@),
            ("q"@, "quit"@),
        ],
        (_, Screen::Detail, true) => seq![
            ("\u{2191}\u{2193}"@, "pods"@),
            ("tab"@, "containers"@),
            ("enter"@, "commit"@),
            ("esc"@, "back"@),
            ("?"@, "keys"@),
        ],
        (_, Screen::Overview, false) => seq![
            ("\u{2191}\u{2193}"@, "move"@),
            ("enter"@, "open namespace"@),
            ("/"@, "search"@),
            ("f"@, "filter"@),
            ("s"@, "sort"@),
            ("m"@, "mode"@),
            ("r"@, "refresh"@),
            ("?"@, "help"@),
            ("q"@, "quit"@),
        ],
        (_, Screen::Detail, false) => seq![
            ("\u{2191}\u{2193}"@, "pods"@),
            ("\u{2190}\u{2192}"@, "pane"@),
            ("tab"@, "containers"@),
            ("enter"@, "open commit"@),
            ("m"@, "mode"@),
            ("esc"@, "overview"@),
            ("?"@, "help"@),
        ],
    }
}

/// Pairs of texts.
pub open spec fn pairs_view(v: Seq<(&'static str, &'static str)>) -> Seq<(Seq<char>, Seq<char>)> {
    v.map_values(|p: (&'static str, &'static str)| (p.0@, p.1@))
}

/// Appends a pair of texts.
fn push_pair(v: &mut Vec<(&'static str, &'static str)>, key: &'static str, action: &'static str)
    ensures
        pairs_view(final(v)@) == pairs_view(old(v)@).push((key@, action@)),
{
    v.push((key, action));
    assert(pairs_view(v@) =~= pairs_view(old(v)@).push((key@, action@)));
}

/// The keys the footer offers, as key and what it does.
pub fn key_hints(input: Input, screen: Screen, narrow: bool) -> (r: Vec<(&'static str, &'static str)>)
    ensures
        pairs_view(r@) == key_hints_spec(input, screen, narrow),
{
    let mut v: Vec<(&'static str, &'static str)> = Vec::new();
    assert(pairs_view(v@) =~= Seq::<(Seq<char>, Seq<char>)>::empty());
    match (input, screen, narrow) {
        (Input::Search, _, _) => {
            push_pair(&mut v, "enter", "keep");
            push_pair(&mut v, "esc", "clear");
            push_pair(&mut v, "\u{2191}\u{2193}", "move");
        },
        (_, Screen::Overview, true) => {
            push_pair(&mut v, "\u{2191}\u{2193}", "move");
            push_pair(&mut v, "enter", "in");
            push_pair(&mut v, "/", "find");
            push_pair(&mut v, "?", "keys");
            push_pair(&mut v, "q", "quit");
        },
        (_, Screen::Detail, true) => {
            push_pair(&mut v, "\u{2191}\u{2193}", "pods");
            push_pair(&mut v, "tab", "containers");
            push_pair(&mut v, "enter", "commit");
            push_pair(&mut v, "esc", "back");
            push_pair(&mut v, "?", "keys");
        },
        (_, Screen::Overview, false) => {
            push_pair(&mut v, "\u{2191}\u{2193}", "move");
            push_pair(&mut v, "enter", "open namespace");
            push_pair(&mut v, "/", "search");
            push_pair(&mut v, "f", "filter");
            push_pair(&mut v, "s", "sort");
            push_pair(&mut v, "m", "mode");
            push_pair(&mut v, "r", "refresh");
            push_pair(&mut v, "?", "help");
            push_pair(&mut v, "q", "quit");
        },
        (_, Screen::Detail, false) => {
            push_pair(&mut v, "\u{2191}\u{2193}", "pods");
            push_pair(&mut v, "\u{2190}\u{2192}", "pane");
            push_pair(&mut v, "tab", "containers");
            push_pair(&mut v, "enter", "open commit");
            push_pair(&mut v, "m", "mode");
            push_pair(&mut v, "esc", "overview");
            push_pair(&mut v, "?", "help");
        },
    }
    v
}

/// The full key map of the help screen.
pub open spec fn help_keys_spec() -> Seq<(Seq<char>, Seq<char>)> {
    seq![
        ("\u{2191}\u{2193} k j"@, "move"@),
        ("pgup pgdn"@, "jump ten rows"@),
        ("home end"@, "first / last"@),
        ("\u{2190}\u{2192} tab"@, "switch pane"@),
        ("enter"@, "open namespace \u{b7} open commit in GitLab"@),
        ("esc"@, "back \u{b7} dismiss \u{b7} quit"@),
        ("/"@, "search namespaces"@),
        ("f"@, "filter: all / problems / unknown"@),
        ("s"@, "sort: status / name / pods"@),
        ("m"@, "commit \u{21c4} tag mode"@),
        ("r"@, "re-resolve the selected namespace"@),
        ("R"@, "re-list pods from Kubernetes"@),
        ("q"@, "quit"@),
    ]
}

/// The full key map of the help screen, as key and what it does.
pub fn help_keys() -> (r: Vec<(&'static str, &'static str)>)
    ensures
        pairs_view(r@) == help_keys_spec(),
{
    let mut v: Vec<(&'static str, &'static str)> = Vec::new();
    assert(pairs_view(v@) =~= Seq::<(Seq<char>, Seq<char>)>::empty());
    push_pair(&mut v, "\u{2191}\u{2193} k j", "move");
    push_pair(&mut v, "pgup pgdn", "jump ten rows");
    push_pair(&mut v, "home end", "first / last");
    push_pair(&mut v, "\u{2190}\u{2192} tab", "switch pane");
    push_pair(&mut v, "enter", "open namespace \u{b7} open commit in GitLab");
    push_pair(&mut v, "esc", "back \u{b7} dismiss \u{b7} quit");
    push_pair(&mut v, "/", "search namespaces");
    push_pair(&mut v, "f", "filter: all / problems / unknown");
    push_pair(&mut v, "s", "sort: status / name / pods");
    push_pair(&mut v, "m", "commit \u{21c4} tag mode");
    push_pair(&mut v, "r", "re-resolve the selected namespace");
    push_pair(&mut v, "R", "re-list pods from Kubernetes");
    push_pair(&mut v, "q", "quit");
    v
}

/// Every verdict a row can have, in the order the legend explains them.
pub open spec fn legend_verdicts() -> Seq<Verdict> {
    seq![
        Verdict::InSync,
        Verdict::Behind,
        Verdict::Failed(Failure::Kube),
        Verdict::Failed(Failure::Git),
        Verdict::Resolving,
        Verdict::Unknown(Unresolved::Sidecar),
        Verdict::Unknown(Unresolved::Digest),
        Verdict::Unknown(Unresolved::NoConfig),
        Verdict::Unknown(Unresolved::NoTags),
        Verdict::Unknown(Unresolved::WrongMode),
        Verdict::Unknown(Unresolved::Finished),
        Verdict::Unknown(Unresolved::Empty),
    ]
}

/// What each verdict means, as the legend says it.
pub open spec fn legend_meanings() -> Seq<Seq<char>> {
    seq![
        "deployed commit equals the reference"@,
        "deployed commit differs from the reference"@,
        "cannot list pods \u{2014} no access or no such namespace"@,
        "ls-remote failed \u{2014} the reason is in the row"@,
        "the reference is being fetched"@,
        "foreign image \u{2014} nothing to compare"@,
        "pinned by digest, the tag carries no commit"@,
        "namespace has no entry in repos.json"@,
        "tag mode, but the repository has no tags"@,
        "a release image, and commit mode cannot resolve one"@,
        "a pod that has run its course \u{2014} a CronJob leaves those behind"@,
        "no pods, so nothing to compare"@,
    ]
}

/// Appends a verdict and what it means.
fn push_meaning(v: &mut Vec<(Verdict, &'static str)>, verdict: Verdict, meaning: &'static str)
    ensures
        final(v)@.len() == old(v)@.len() + 1,
        forall|k: int| 0 <= k < old(v)@.len() ==> final(v)@[k] == old(v)@[k],
        final(v)@.last().0 == verdict,
        final(v)@.last().1@ == meaning@,
{
    v.push((verdict, meaning));
}

/// The legend of the help screen: every verdict and what it means.
pub fn legend() -> (r: Vec<(Verdict, &'static str)>)
    ensures
        r@.len() == legend_verdicts().len(),
        forall|k: int|
            0 <= k < r@.len() ==> r@[k].0 == legend_verdicts()[k] && r@[k].1@
                == legend_meanings()[k],
{
    let mut v: Vec<(Verdict, &'static str)> = Vec::new();
    push_meaning(&mut v, Verdict::InSync, "deployed commit equals the reference");
    push_meaning(&mut v, Verdict::Behind, "deployed commit differs from the reference");
    push_meaning(
        &mut v,
        Verdict::Failed(Failure::Kube),
        "cannot list pods \u{2014} no access or no such namespace",
    );
    push_meaning(
        &mut v,
        Verdict::Failed(Failure::Git),
        "ls-remote failed \u{2014} the reason is in the row",
    );
    push_meaning(&mut v, Verdict::Resolving, "the reference is being fetched");
    push_meaning(
        &mut v,
        Verdict::Unknown(Unresolved::Sidecar),
        "foreign image \u{2014} nothing to compare",
    );
    push_meaning(
        &mut v,
        Verdict::Unknown(Unresolved::Digest),
        "pinned by digest, the tag carries no commit",
    );
    push_meaning(
        &mut v,
        Verdict::Unknown(Unresolved::NoConfig),
        "namespace has no entry in repos.json",
    );
    push_meaning(
        &mut v,
        Verdict::Unknown(Unresolved::NoTags),
        "tag mode, but the repository has no tags",
    );
    push_meaning(
        &mut v,
        Verdict::Unknown(Unresolved::WrongMode),
        "a release image, and commit mode cannot resolve one",
    );
    push_meaning(
        &mut v,
        Verdict::Unknown(Unresolved::Finished),
        "a pod that has run its course \u{2014} a CronJob leaves those behind",
    );
    push_meaning(&mut v, Verdict::Unknown(Unresolved::Empty), "no pods, so nothing to compare");
    v
}

/// The legend explains every verdict a row can have, each exactly once.
pub proof fn legend_explains_every_verdict_once(v: Verdict)
    ensures
        exists|k: int| 0 <= k < legend_verdicts().len() && legend_verdicts()[k] == v,
        forall|a: int, b: int|
            0 <= a < b < legend_verdicts().len() ==> legend_verdicts()[a] != legend_verdicts()[b],
{
    let l = legend_verdicts();
    match v {
        Verdict::InSync => assert(l[0] == v),
        Verdict::Behind => assert(l[1] == v),
        Verdict::Failed(Failure::Kube) => assert(l[2] == v),
        Verdict::Failed(Failure::Git) => assert(l[3] == v),
        Verdict::Resolving => assert(l[4] == v),
        Verdict::Unknown(Unresolved::Sidecar) => assert(l[5] == v),
        Verdict::Unknown(Unresolved::Digest) => assert(l[6] == v),
        Verdict::Unknown(Unresolved::NoConfig) => assert(l[7] == v),
        Verdict::Unknown(Unresolved::NoTags) => assert(l[8] == v),
        Verdict::Unknown(Unresolved::WrongMode) => assert(l[9] == v),
        Verdict::Unknown(Unresolved::Finished) => assert(l[10] == v),
        Verdict::Unknown(Unresolved::Empty) => assert(l[11] == v),
    }
}

/// What the interface says on a terminal smaller than it can draw on.
pub open spec fn too_small_spec(width: u16, height: u16) -> Seq<char> {
    "terminal too small: "@ + decimal(width as nat) + seq!['\u{d7}'] + decimal(height as nat)
        + ", need 60\u{d7}15"@
}

pub fn too_small_text(width: u16, height: u16) -> (r: String)
    ensures
        r@ == too_small_spec(width, height),
{
    let mut out = String::from_str("terminal too small: ");
    push_decimal(&mut out, width as u64);
    push_char(&mut out, '\u{d7}');
    push_decimal(&mut out, height as u64);
    out.append(", need 60\u{d7}15");
    assert(out@ =~= too_small_spec(width, height));
    out
}

/// Whether the terminal is too small to draw on.
pub fn too_small(width: u16, height: u16) -> (r: bool)
    ensures
        r == (width < MIN_WIDTH || height < MIN_HEIGHT),
{
    width < MIN_WIDTH || height < MIN_HEIGHT
}

/// Whether the terminal is wide enough for every pane.
pub fn wide(width: u16) -> (r: bool)
    ensures
        r == (width >= WIDE_WIDTH),
{
    width >= WIDE_WIDTH
}

/// `"{a} of {b}"`.
pub open spec fn of_text(a: nat, b: nat) -> Seq<char> {
    decimal(a) + " of "@ + decimal(b)
}

pub fn count_of(a: usize, b: usize) -> (r: String)
    ensures
        r@ == of_text(a as nat, b as nat),
{
    let mut out = decimal_string(a as u64);
    out.append(" of ");
    push_decimal(&mut out, b as u64);
    out
}

/// `"{a}/{b}"`.
pub open spec fn fraction_text(a: nat, b: nat) -> Seq<char> {
    decimal(a) + "/"@ + decimal(b)
}

pub fn fraction(a: usize, b: usize) -> (r: String)
    ensures
        r@ == fraction_text(a as nat, b as nat),
{
    let mut out = decimal_string(a as u64);
    out.append("/");
    push_decimal(&mut out, b as u64);
    out
}

/// The four counts of the header, each after its glyph.
pub open spec fn tally_spec(c: Counts) -> Seq<Seq<char>> {
    seq![
        seq!['\u{25cf}', ' '] + decimal(c.in_sync as nat) + "  "@,
        seq!['\u{25bc}', ' '] + decimal(c.behind as nat) + "  "@,
        seq!['\u{2717}', ' '] + decimal(c.failed as nat) + "  "@,
        seq!['\u{25cb}', ' '] + decimal(c.unknown as nat) + ""@,
    ]
}

/// Texts.
pub open spec fn texts_view(v: Seq<String>) -> Seq<Seq<char>> {
    v.map_values(|s: String| s@)
}

/// `glyph`, a space, `n` and then `tail`.
fn counted(glyph: char, n: usize, tail: &str) -> (r: String)
    ensures
        r@ == seq![glyph, ' '] + decimal(n as nat) + tail@,
{
    let mut out = String::new();
    push_char(&mut out, glyph);
    push_char(&mut out, ' ');
    push_decimal(&mut out, n as u64);
    out.append(tail);
    assert(out@ =~= seq![glyph, ' '] + decimal(n as nat) + tail@);
    out
}

/// The four counts of the header, each after its glyph.
pub fn tally(counts: &Counts) -> (r: Vec<String>)
    ensures
        texts_view(r@) == tally_spec(*counts),
{
    let mut v: Vec<String> = Vec::new();
    v.push(counted('\u{25cf}', counts.in_sync, "  "));
    v.push(counted('\u{25bc}', counts.behind, "  "));
    v.push(counted('\u{2717}', counts.failed, "  "));
    v.push(counted('\u{25cb}', counts.unknown, ""));
    assert(texts_view(v@) =~= tally_spec(*counts));
    v
}

/// The four counts of the footer, spelled out.
pub open spec fn summary_spec(c: Counts) -> Seq<Seq<char>> {
    seq![
        seq!['\u{25cf}', ' '] + decimal(c.in_sync as nat) + " in sync"@,
        seq!['\u{25bc}', ' '] + decimal(c.behind as nat) + " behind"@,
        seq!['\u{2717}', ' '] + decimal(c.failed as nat) + " failed"@,
        seq!['\u{25cb}', ' '] + decimal(c.unknown as nat) + " unknown"@,
    ]
}

/// The four counts of the footer, spelled out.
pub fn summary(counts: &Counts) -> (r: Vec<String>)
    ensures
        texts_view(r@) == summary_spec(*counts),
{
    let mut v: Vec<String> = Vec::new();
    v.push(counted('\u{25cf}', counts.in_sync, " in sync"));
    v.push(counted('\u{25bc}', counts.behind, " behind"));
    v.push(counted('\u{2717}', counts.failed, " failed"));
    v.push(counted('\u{25cb}', counts.unknown, " unknown"));
    assert(texts_view(v@) =~= summary_spec(*counts));
    v
}

/// The filter chips: each filter with how many namespaces it would leave.
pub open spec fn chips_spec(total: nat, problems: nat, unknown: nat) -> Seq<(Filter, Seq<char>)> {
    seq![
        (Filter::All, chip_text(Filter::All, total)),
        (Filter::Problems, chip_text(Filter::Problems, problems)),
        (Filter::Unknown, chip_text(Filter::Unknown, unknown)),
    ]
}

/// A filter chip: the filter and how many namespaces it leaves.
pub open spec fn chip_text(f: Filter, count: nat) -> Seq<char> {
    seq![' '] + filter_label(f) + seq![' '] + decimal(count) + seq![' ']
}

/// The filter chips: each filter with how many namespaces it leaves, given how many there
/// are in all and how the counts of the tally stand.
pub fn filter_chips(total: usize, counts: &Counts) -> (r: Vec<(Filter, String)>)
    requires
        counts.behind + counts.failed <= usize::MAX,
    ensures
        r@.len() == 3,
        forall|k: int|
            0 <= k < 3 ==> (r@[k].0, r@[k].1@) == chips_spec(
                total as nat,
                (counts.behind + counts.failed) as nat,
                counts.unknown as nat,
            )[k],
{
    let mut v: Vec<(Filter, String)> = Vec::new();
    v.push((Filter::All, chip(Filter::All, total)));
    v.push((Filter::Problems, chip(Filter::Problems, counts.behind + counts.failed)));
    v.push((Filter::Unknown, chip(Filter::Unknown, counts.unknown)));
    v
}

/// A filter chip: the filter and how many namespaces it leaves.
pub fn chip(f: Filter, count: usize) -> (r: String)
    ensures
        r@ == chip_text(f, count as nat),
{
    let mut label = String::new();
    push_char(&mut label, ' ');
    label.append(f.label());
    push_char(&mut label, ' ');
    push_decimal(&mut label, count as u64);
    push_char(&mut label, ' ');
    assert(label@ =~= chip_text(f, count as nat));
    label
}

/// The sort control.
pub open spec fn sort_text_spec(sort: Sort) -> Seq<char> {
    crate::drawer::app::sort_label(sort) + " \u{25be}"@
}

pub fn sort_text(sort: Sort) -> (r: String)
    ensures
        r@ == sort_text_spec(sort),
{
    let mut out = String::from_str(sort.label());
    out.append(" \u{25be}");
    out
}

/// What the filter bar says on the right: how much there is in all.
pub open spec fn totals_spec(namespaces: nat, pods: nat, containers: nat) -> Seq<char> {
    decimal(namespaces) + " namespaces \u{b7} "@ + decimal(pods) + " pods \u{b7} "@ + decimal(
        containers,
    ) + " containers"@
}

pub fn totals(namespaces: usize, pods: usize, containers: usize) -> (r: String)
    ensures
        r@ == totals_spec(namespaces as nat, pods as nat, containers as nat),
{
    let mut out = decimal_string(namespaces as u64);
    out.append(" namespaces \u{b7} ");
    push_decimal(&mut out, pods as u64);
    out.append(" pods \u{b7} ");
    push_decimal(&mut out, containers as u64);
    out.append(" containers");
    out
}

/// What the start-up bar says on the right: how many references are still being fetched.
pub open spec fn left_spec(n: nat) -> Seq<char> {
    "resolving git references \u{b7} "@ + decimal(n) + " left"@
}

pub fn left_text(n: usize) -> (r: String)
    ensures
        r@ == left_spec(n as nat),
{
    let mut out = String::from_str("resolving git references \u{b7} ");
    push_decimal(&mut out, n as u64);
    out.append(" left");
    out
}

/// A mode as the header shows it, one chip each.
pub open spec fn mode_chip_spec(mode: Mode) -> Seq<char> {
    " "@ + mode_label(mode) + " "@
}

pub fn mode_chip(mode: Mode) -> (r: String)
    ensures
        r@ == mode_chip_spec(mode),
{
    let mut out = String::from_str(" ");
    out.append(mode.label());
    out.append(" ");
    out
}

/// The environment badge of the header.
pub open spec fn env_badge_spec(env: Env) -> Seq<char> {
    " "@ + env_label(env) + " "@
}

pub fn env_badge(env: Env) -> (r: String)
    ensures
        r@ == env_badge_spec(env),
{
    let mut out = String::from_str(" ");
    out.append(env.label());
    out.append(" ");
    out
}

/// The context named in the header, or that there is none.
pub open spec fn cluster_text_spec(context: Option<Seq<char>>) -> Seq<char> {
    match context {
        Some(c) => c,
        None => "no kubeconfig context"@,
    }
}

pub fn cluster_text(context: &Option<String>) -> (r: String)
    ensures
        r@ == cluster_text_spec(crate::remote::opt_str_view(*context)),
{
    match context {
        Some(c) => c.clone(),
        None => String::from_str("no kubeconfig context"),
    }
}

/// How fresh the numbers are, or, before anything has come back, that the tool is
/// starting.
pub open spec fn fresh_text_spec(freshness: Seq<char>) -> Seq<char> {
    if freshness.len() == 0 {
        "starting up"@
    } else {
        freshness
    }
}

pub fn fresh_text(freshness: &str) -> (r: String)
    ensures
        r@ == fresh_text_spec(freshness@),
{
    if freshness.unicode_len() == 0 {
        String::from_str("starting up")
    } else {
        String::from_str(freshness)
    }
}

/// What the footer says on the right while idle.
pub open spec fn idle_spec(freshness: Seq<char>) -> Seq<char> {
    "idle \u{b7} "@ + freshness
}

pub fn idle_text(freshness: &str) -> (r: String)
    ensures
        r@ == idle_spec(freshness@),
{
    let mut out = String::from_str("idle \u{b7} ");
    out.append(freshness);
    out
}

/// Where a cursor sits, as the key line shows it: `3/12`, `pod 3/12`, `-/12` when it sits on
/// nothing, and `0/0` when there is nothing to sit on.
pub open spec fn position_spec(label: Seq<char>, index: Option<usize>, total: nat) -> Seq<char> {
    if total == 0 {
        "0/0"@
    } else {
        match index {
            Some(i) => label + decimal((i + 1) as nat) + "/"@ + decimal(total),
            None => label + "-/"@ + decimal(total),
        }
    }
}

pub fn position_text(label: &str, index: Option<usize>, total: usize) -> (r: String)
    requires
        index matches Some(i) ==> i < usize::MAX,
    ensures
        r@ == position_spec(label@, index, total as nat),
{
    if total == 0 {
        return String::from_str("0/0");
    }
    let mut out = String::from_str(label);
    match index {
        Some(i) => {
            push_decimal(&mut out, (i + 1) as u64);
            out.append("/");
        },
        None => {
            out.append("-/");
        },
    }
    push_decimal(&mut out, total as u64);
    out
}

/// The heading of the deployed column, named after what it holds: a cluster deployed from
/// releases shows tags whichever mode is on, so naming it after the mode would be a guess.
pub open spec fn deployed_title_spec(kind: RefKind) -> Seq<char> {
    match kind {
        RefKind::Commits => "DEPLOYED COMMIT"@,
        RefKind::Tags => "DEPLOYED TAG"@,
        RefKind::Mixed => "DEPLOYED"@,
    }
}

pub fn deployed_title(kind: RefKind) -> (r: &'static str)
    ensures
        r@ == deployed_title_spec(kind),
{
    match kind {
        RefKind::Commits => "DEPLOYED COMMIT",
        RefKind::Tags => "DEPLOYED TAG",
        RefKind::Mixed => "DEPLOYED",
    }
}

/// The heading of the pod table's reference column.
pub open spec fn reference_title_spec(kind: RefKind) -> Seq<char> {
    match kind {
        RefKind::Commits => "COMMIT"@,
        RefKind::Tags => "TAG"@,
        RefKind::Mixed => "DEPLOYED"@,
    }
}

pub fn reference_title(kind: RefKind) -> (r: &'static str)
    ensures
        r@ == reference_title_spec(kind),
{
    match kind {
        RefKind::Commits => "COMMIT",
        RefKind::Tags => "TAG",
        RefKind::Mixed => "DEPLOYED",
    }
}

/// The columns of the overview that do not grow: glyph, pods, deployed, reference, the
/// gaps between the six columns and the cursor.
pub open spec fn fixed_overview() -> int {
    GLYPH + PODS + DEPLOYED + REFERENCE + 5 * GAP + CURSOR
}

/// How the room the fixed columns leave is split between the namespace and the note:
/// three fifths to the namespace, the rest to the note.
pub fn flexible(total: u16) -> (r: (usize, usize))
    ensures
        ({
            let room = if total >= fixed_overview() {
                total - fixed_overview()
            } else {
                0
            };
            r.0 == room * 3 / 5 && r.0 + r.1 == room
        }),
{
    let fixed: u16 = GLYPH + PODS + DEPLOYED + REFERENCE + 5 * GAP + CURSOR;
    let room: usize = if total >= fixed {
        (total - fixed) as usize
    } else {
        0
    };
    let name = room * 3 / 5;
    (name, room - name)
}

/// The name column of the narrow overview.
pub fn narrow_name_width(total: u16) -> (r: usize)
    ensures
        r == if total >= GLYPH + NARROW_REFERENCE + PODS + 3 * GAP + CURSOR {
            total - (GLYPH + NARROW_REFERENCE + PODS + 3 * GAP + CURSOR)
        } else {
            0
        },
{
    let fixed: u16 = GLYPH + NARROW_REFERENCE + PODS + 3 * GAP + CURSOR;
    if total >= fixed {
        (total - fixed) as usize
    } else {
        0
    }
}

/// The name column of the pod table, wide or narrow.
pub fn pod_name_width(width: u16, wide: bool) -> (r: usize)
    ensures
        ({
            let fixed = if wide {
                GLYPH + COMMIT + STATUS + RESTARTS + AGE + CONTAINERS + 6 * GAP + CURSOR
                    + SCROLLBAR
            } else {
                GLYPH + COMMIT + CONTAINERS + 3 * GAP + CURSOR + SCROLLBAR
            };
            r == if width >= fixed {
                width - fixed
            } else {
                0
            }
        }),
{
    let fixed: u16 = if wide {
        GLYPH + COMMIT + STATUS + RESTARTS + AGE + CONTAINERS + 6 * GAP + CURSOR + SCROLLBAR
    } else {
        GLYPH + COMMIT + CONTAINERS + 3 * GAP + CURSOR + SCROLLBAR
    };
    if width >= fixed {
        (width - fixed) as usize
    } else {
        0
    }
}

/// Rows of the container list: what there is, at least one and at most `CONTAINER_ROWS`,
/// and its two lines of frame.
pub fn container_list_height(rows: usize) -> (r: u16)
    ensures
        r == 2 + if rows < 1 {
            1
        } else if rows > CONTAINER_ROWS {
            CONTAINER_ROWS as int
        } else {
            rows as int
        },
{
    let n: usize = if rows < 1 {
        1
    } else if rows > CONTAINER_ROWS {
        CONTAINER_ROWS
    } else {
        rows
    };
    2 + n as u16
}

/// Where a namespace name stops repeating its family and starts telling them apart: after
/// `prefix` characters, or at its end.
pub open spec fn split_name_spec(name: Seq<char>, prefix: nat) -> (Seq<char>, Seq<char>) {
    if prefix < name.len() {
        (name.take(prefix as int), name.skip(prefix as int))
    } else {
        (name, Seq::empty())
    }
}

pub fn split_name(name: &str, prefix: usize) -> (r: (&str, &str))
    ensures
        (r.0@, r.1@) == split_name_spec(name@, prefix as nat),
{
    let n = name.unicode_len();
    if prefix < n {
        let head = name.substring_char(0, prefix);
        let tail = name.substring_char(prefix, n);
        assert(head@ =~= name@.take(prefix as int));
        assert(tail@ =~= name@.skip(prefix as int));
        (head, tail)
    } else {
        (name, name.substring_char(n, n))
    }
}

/// A character as the code of its lower case, for ASCII letters.
pub open spec fn lower_code(c: char) -> u32 {
    if 'A' <= c && c <= 'Z' {
        ((c as u32) + 32) as u32
    } else {
        c as u32
    }
}

pub open spec fn is_ascii(s: Seq<char>) -> bool {
    forall|i: int| 0 <= i < s.len() ==> (s[i] as u32) < 128
}

/// A text as the codes of its lower case.
pub open spec fn lowered(s: Seq<char>) -> Seq<u32> {
    s.map_values(|c: char| lower_code(c))
}

/// Whether `needle` occurs in `hay` at `at`.
pub open spec fn codes_at(hay: Seq<u32>, needle: Seq<u32>, at: int) -> bool {
    0 <= at && at + needle.len() <= hay.len() && hay.subrange(at, at + needle.len()) == needle
}

/// Index of the first occurrence of `needle` in `hay`, or -1.
#[verifier::opaque]
pub open spec fn find_in(hay: Seq<u32>, needle: Seq<u32>) -> int {
    if exists|at: int| codes_at(hay, needle, at) {
        choose|at: int|
            codes_at(hay, needle, at) && forall|b: int| 0 <= b < at ==> !codes_at(hay, needle, b)
    } else {
        -1
    }
}

proof fn lemma_find_first(hay: Seq<u32>, needle: Seq<u32>, at: int)
    requires
        codes_at(hay, needle, at),
        forall|b: int| 0 <= b < at ==> !codes_at(hay, needle, b),
    ensures
        find_in(hay, needle) == at,
{
    reveal(find_in);
    let c = choose|c: int|
        codes_at(hay, needle, c) && forall|b: int| 0 <= b < c ==> !codes_at(hay, needle, b);
    assert(c == at);
}

proof fn lemma_find_none(hay: Seq<u32>, needle: Seq<u32>)
    requires
        forall|b: int| !codes_at(hay, needle, b),
    ensures
        find_in(hay, needle) == -1,
{
    reveal(find_in);
}

/// Where the search text sits in the part of a name shown bright, ignoring case. Only
/// worked out for ASCII text, where characters and their lower case line up.
pub open spec fn hit_spec(tail: Seq<char>, query: Seq<char>) -> Option<int> {
    if query.len() == 0 || !is_ascii(tail) || !is_ascii(query) {
        None
    } else {
        let at = find_in(lowered(tail), lowered(query));
        if at >= 0 {
            Some(at)
        } else {
            None
        }
    }
}

/// The codes of the lower case of `v`.
fn lower_ascii(v: &Vec<char>) -> (r: Vec<u32>)
    ensures
        r@ == lowered(v@),
{
    let mut r: Vec<u32> = Vec::new();
    let mut i: usize = 0;
    while i < v.len()
        invariant
            i <= v@.len(),
            r@ == lowered(v@.take(i as int)),
        decreases v@.len() - i,
    {
        let c = v[i];
        let l: u32 = if 'A' <= c && c <= 'Z' {
            (c as u32) + 32
        } else {
            c as u32
        };
        r.push(l);
        i += 1;
        assert(r@ =~= lowered(v@.take(i as int)));
    }
    assert(v@.take(i as int) =~= v@);
    r
}

/// Whether every character of `v` is ASCII.
fn all_ascii(v: &Vec<char>) -> (r: bool)
    ensures
        r == is_ascii(v@),
{
    let mut i: usize = 0;
    while i < v.len()
        invariant
            i <= v@.len(),
            forall|k: int| 0 <= k < i ==> (v@[k] as u32) < 128,
        decreases v@.len() - i,
    {
        if (v[i] as u32) >= 128 {
            return false;
        }
        i += 1;
    }
    true
}

/// Whether `needle` occurs in `hay` at `at`.
fn codes_match(hay: &Vec<u32>, needle: &Vec<u32>, at: usize) -> (r: bool)
    ensures
        r == codes_at(hay@, needle@, at as int),
{
    if at > hay.len() || needle.len() > hay.len() - at {
        return false;
    }
    let hl = hay.len();
    let mut k: usize = 0;
    while k < needle.len()
        invariant
            hl == hay@.len(),
            at + needle@.len() <= hay@.len(),
            k <= needle@.len(),
            forall|j: int| 0 <= j < k ==> hay@[at + j] == needle@[j],
        decreases needle@.len() - k,
    {
        if hay[at + k] != needle[k] {
            assert(hay@.subrange(at as int, at + needle@.len())[k as int] != needle@[k as int]);
            return false;
        }
        k += 1;
    }
    assert(hay@.subrange(at as int, at + needle@.len()) =~= needle@);
    true
}

/// Where the search text sits in `tail`, ignoring case.
pub fn hit(tail: &str, query: &str) -> (r: Option<usize>)
    ensures
        match r {
            Some(at) => hit_spec(tail@, query@) == Some(at as int) && codes_at(
                lowered(tail@),
                lowered(query@),
                at as int,
            ),
            None => hit_spec(tail@, query@) is None,
        },
{
    let t = to_chars(tail);
    let q = to_chars(query);
    if q.len() == 0 || !all_ascii(&t) || !all_ascii(&q) {
        return None;
    }
    let lt = lower_ascii(&t);
    let lq = lower_ascii(&q);
    let mut at: usize = 0;
    while at < lt.len()
        invariant
            lt@ == lowered(t@),
            lq@ == lowered(q@),
            t@ == tail@,
            q@ == query@,
            q@.len() > 0,
            is_ascii(tail@),
            is_ascii(query@),
            forall|b: int| 0 <= b < at ==> !codes_at(lt@, lq@, b),
        decreases lt@.len() - at,
    {
        if codes_match(&lt, &lq, at) {
            proof {
                lemma_find_first(lt@, lq@, at as int);
            }
            return Some(at);
        }
        at += 1;
    }
    proof {
        assert forall|b: int| !codes_at(lt@, lq@, b) by {
            if b >= lt@.len() {
                assert(lq@.len() > 0);
            }
        }
        lemma_find_none(lt@, lq@);
    }
    None
}

/// `text` taken apart around what the search matched: before, the match, after.
pub fn matched_parts(text: &str, query: &str) -> (r: Option<(String, String, String)>)
    ensures
        match r {
            Some((a, b, c)) => hit_spec(text@, query@) matches Some(at) && a@ == text@.take(at)
                && b@ == text@.subrange(at, at + query@.len()) && c@ == text@.skip(
                at + query@.len(),
            ) && a@ + b@ + c@ == text@,
            None => hit_spec(text@, query@) is None,
        },
{
    let at = match hit(text, query) {
        Some(at) => at,
        None => {
            return None;
        },
    };
    let t = to_chars(text);
    let q = to_chars(query);
    assert(lowered(q@).len() == q@.len());
    assert(lowered(t@).len() == t@.len());
    let tl = t.len();
    let end = at + q.len();
    let a = crate::chars::string_of(t.as_slice(), 0, at);
    let b = crate::chars::string_of(t.as_slice(), at, end);
    let c = crate::chars::string_of(t.as_slice(), end, t.len());
    assert(a@ =~= text@.take(at as int));
    assert(c@ =~= text@.skip(end as int));
    assert(a@ + b@ + c@ =~= text@);
    Some((a, b, c))
}

/// A deployed reference as its column shows it: how many pods run it when more than one.
pub open spec fn group_text(label: Seq<char>, count: nat) -> Seq<char> {
    if count > 1 {
        label + " \u{d7}"@ + decimal(count)
    } else {
        label
    }
}

/// How wide the cell of group `index` of `shown` is: the last gives up room for the count of
/// those left out.
pub open spec fn group_width(index: int, shown: nat, hidden: nat) -> nat {
    if hidden > 0 && index == shown - 1 {
        (GROUP_WIDTH - HIDDEN_WIDTH) as nat
    } else {
        GROUP_WIDTH as nat
    }
}

/// The cells of the deployed column: every group cut and padded to the same width, so the
/// second one starts in the same place in every row, then `+N` for those left out.
pub open spec fn deployed_cells_spec(groups: Seq<(Seq<char>, nat)>, hidden: nat) -> Seq<Seq<char>> {
    Seq::new(
        groups.len(),
        |k: int|
            {
                let w = group_width(k, groups.len(), hidden);
                padded_to(ellipsized(group_text(groups[k].0, groups[k].1), w - 1), w)
            },
    ) + if hidden > 0 {
        seq!["+"@ + decimal(hidden)]
    } else {
        Seq::empty()
    }
}

/// The groups of a row as label and count.
pub open spec fn row_groups(deployed: Seq<Deployed>) -> Seq<(Seq<char>, nat)> {
    deployed.map_values(|d: Deployed| (d.label@, d.count as nat))
}

/// The cells of the deployed column of `row`.
pub fn deployed_cells(row: &NsRow) -> (r: Vec<String>)
    ensures
        texts_view(r@) == deployed_cells_spec(
            row_groups(row.deployed@),
            row.hidden_deployed as nat,
        ),
{
    let ghost groups = row_groups(row.deployed@);
    let hidden = row.hidden_deployed;
    let n = row.deployed.len();
    let mut cells: Vec<String> = Vec::new();
    let mut k: usize = 0;
    while k < n
        invariant
            k <= n,
            n == row.deployed@.len(),
            groups == row_groups(row.deployed@),
            hidden == row.hidden_deployed,
            cells@.len() == k,
            forall|q: int|
                0 <= q < k ==> #[trigger] cells@[q]@ == {
                    let w = group_width(q, groups.len(), hidden as nat);
                    padded_to(ellipsized(group_text(groups[q].0, groups[q].1), w - 1), w)
                },
        decreases n - k,
    {
        let group = &row.deployed[k];
        let width: usize = if hidden > 0 && k == n - 1 {
            GROUP_WIDTH - HIDDEN_WIDTH
        } else {
            GROUP_WIDTH
        };
        let mut text = group.label.clone();
        if group.count > 1 {
            text.append(" \u{d7}");
            push_decimal(&mut text, group.count as u64);
        }
        assert(text@ == group_text(groups[k as int].0, groups[k as int].1));
        let mut cell = ellipsize(text.as_str(), width - 1);
        pad_right(&mut cell, width);
        cells.push(cell);
        k += 1;
    }
    if hidden > 0 {
        let mut more = String::from_str("+");
        push_decimal(&mut more, hidden as u64);
        cells.push(more);
    }
    assert(texts_view(cells@) =~= deployed_cells_spec(groups, hidden as nat));
    cells
}

/// The number of decimal digits of `n`.
proof fn lemma_decimal_len(n: nat)
    ensures
        decimal(n).len() >= 1,
        n < 10 ==> decimal(n).len() == 1,
        n < 100 ==> decimal(n).len() <= 2,
        n < 1000 ==> decimal(n).len() <= 3,
    decreases n,
{
    if n >= 10 {
        lemma_decimal_len(n / 10);
    }
}

/// The characters `cells` take together.
pub open spec fn total_width(cells: Seq<Seq<char>>) -> nat
    decreases cells.len(),
{
    if cells.len() == 0 {
        0
    } else {
        total_width(cells.drop_last()) + cells.last().len()
    }
}

proof fn lemma_width_one(a: Seq<char>)
    ensures
        total_width(seq![a]) == a.len(),
{
    assert(seq![a].drop_last() =~= Seq::<Seq<char>>::empty());
    assert(total_width(Seq::<Seq<char>>::empty()) == 0);
    assert(seq![a].last() == a);
}

proof fn lemma_width_two(a: Seq<char>, b: Seq<char>)
    ensures
        total_width(seq![a, b]) == a.len() + b.len(),
{
    assert(seq![a, b].drop_last() =~= seq![a]);
    lemma_width_one(a);
}

proof fn lemma_width_three(a: Seq<char>, b: Seq<char>, c: Seq<char>)
    ensures
        total_width(seq![a, b, c]) == a.len() + b.len() + c.len(),
{
    assert(seq![a, b, c].drop_last() =~= seq![a, b]);
    lemma_width_two(a, b);
}

/// Two groups and a count of fewer than a thousand more always fit the deployed column:
/// the count takes its room out of the last group rather than out of the layout.
pub proof fn deployed_cells_fit_the_column(groups: Seq<(Seq<char>, nat)>, hidden: nat)
    requires
        groups.len() <= 2,
        hidden > 0 ==> groups.len() == 2,
        hidden < 1000,
    ensures
        total_width(deployed_cells_spec(groups, hidden)) <= DEPLOYED,
{
    let cells = deployed_cells_spec(groups, hidden);
    let head = Seq::new(
        groups.len(),
        |k: int|
            {
                let w = group_width(k, groups.len(), hidden);
                padded_to(ellipsized(group_text(groups[k].0, groups[k].1), w - 1), w)
            },
    );
    let tail: Seq<Seq<char>> = if hidden > 0 {
        seq!["+"@ + decimal(hidden)]
    } else {
        Seq::empty()
    };
    assert(cells == head + tail);
    assert(GROUP_WIDTH == 15 && HIDDEN_WIDTH == 4 && DEPLOYED == 30);
    assert forall|k: int| 0 <= k < groups.len() implies head[k].len() == group_width(
        k,
        groups.len(),
        hidden,
    ) by {
        let w = group_width(k, groups.len(), hidden);
        assert(w == 15 || w == 11);
        let t = ellipsized(group_text(groups[k].0, groups[k].1), w - 1);
        assert(t.len() <= w - 1);
        assert(padded_to(t, w).len() == w);
    }
    lemma_decimal_len(hidden);
    if hidden > 0 {
        assert(tail[0] =~= "+"@ + decimal(hidden));
        reveal_strlit("+");
        assert(tail[0].len() <= 4);
    }
    if groups.len() == 0 {
        assert(cells =~= tail);
        if hidden == 0 {
            assert(cells.len() == 0);
        }
    } else if groups.len() == 1 {
        assert(hidden == 0);
        assert(cells =~= seq![head[0]]);
        lemma_width_one(head[0]);
    } else {
        if hidden > 0 {
            assert(cells =~= seq![head[0], head[1], tail[0]]);
            lemma_width_three(head[0], head[1], tail[0]);
        } else {
            assert(cells =~= seq![head[0], head[1]]);
            lemma_width_two(head[0], head[1]);
        }
    }
}

/// The heading of a family in the mini list: the prefix it shares, and a rule filling the
/// rest of the name column.
pub open spec fn family_heading_spec(family: Seq<char>) -> Seq<char> {
    let rule = if MINI_NAME >= family.len() + 1 {
        (MINI_NAME - family.len() - 1) as nat
    } else {
        0
    };
    family + seq![' '] + Seq::new(rule, |i: int| '\u{2500}')
}

pub fn family_heading(family: &str) -> (r: String)
    ensures
        r@ == family_heading_spec(family@),
{
    let n = to_chars(family).len();
    let rule: usize = if n < MINI_NAME as usize {
        MINI_NAME as usize - n - 1
    } else {
        0
    };
    let mut out = String::from_str(family);
    push_char(&mut out, ' ');
    assert(out@ =~= family@ + seq![' '] + Seq::new(0, |i: int| '\u{2500}'));
    let mut k: usize = 0;
    while k < rule
        invariant
            k <= rule,
            out@ == family@ + seq![' '] + Seq::new(k as nat, |i: int| '\u{2500}'),
        decreases rule - k,
    {
        push_char(&mut out, '\u{2500}');
        k += 1;
        assert(out@ =~= family@ + seq![' '] + Seq::new(k as nat, |i: int| '\u{2500}'));
    }
    assert(out@ =~= family_heading_spec(family@));
    out
}

/// A pod name fitted into its column: its three parts while the part that tells pods
/// apart fits whole, or that part alone, cut.
pub enum PodNameCells {
    Whole(String, String, String),
    Cut(String),
}

/// A pod name fitted into `width` columns: the workload prefix gives up room first.
pub open spec fn pod_name_fit(prefix: Seq<char>, replicaset: Seq<char>, suffix: Seq<char>, width: int) -> (
    bool,
    Seq<char>,
    Seq<char>,
) {
    let telling = replicaset + suffix;
    let (head, kept) = fitted(prefix, telling, width);
    (kept == telling, head, kept)
}

pub fn pod_name_cells(prefix: &str, replicaset: &str, suffix: &str, width: usize) -> (r: PodNameCells)
    ensures
        ({
            let (whole, head, kept) = pod_name_fit(prefix@, replicaset@, suffix@, width as int);
            match r {
                PodNameCells::Whole(a, b, c) => whole && a@ == head && b@ == replicaset@ && c@
                    == suffix@,
                PodNameCells::Cut(k) => !whole && k@ == kept,
            }
        }),
{
    let mut telling = String::from_str(replicaset);
    telling.append(suffix);
    let (head, kept) = fit_head(prefix, telling.as_str(), width);
    if same_str(kept.as_str(), telling.as_str()) {
        PodNameCells::Whole(head, String::from_str(replicaset), String::from_str(suffix))
    } else {
        PodNameCells::Cut(kept)
    }
}

/// The colour of a namespace's name: an up-to-date one steps back.
pub open spec fn name_role_spec(v: Verdict) -> Role {
    match v {
        Verdict::InSync => Role::Fg2,
        _ => Role::Fg,
    }
}

pub fn name_role(v: Verdict) -> (r: Role)
    ensures
        r == name_role_spec(v),
{
    match v {
        Verdict::InSync => Role::Fg2,
        _ => Role::Fg,
    }
}

/// The colour of the reference column: dimmed while it is being fetched.
pub open spec fn reference_role_spec(v: Verdict) -> Role {
    match v {
        Verdict::Resolving => Role::Dim,
        _ => Role::Fg2,
    }
}

pub fn reference_role(v: Verdict) -> (r: Role)
    ensures
        r == reference_role_spec(v),
{
    match v {
        Verdict::Resolving => Role::Dim,
        _ => Role::Fg2,
    }
}

/// The colour of the note column: loud where something needs acting on.
pub open spec fn note_role_spec(v: Verdict) -> Role {
    match v {
        Verdict::Behind => Role::Bad,
        Verdict::Failed(_) => Role::Warn,
        _ => Role::Dim,
    }
}

pub fn note_role(v: Verdict) -> (r: Role)
    ensures
        r == note_role_spec(v),
{
    match v {
        Verdict::Behind => Role::Bad,
        Verdict::Failed(_) => Role::Warn,
        _ => Role::Dim,
    }
}

/// The colour of a verdict.
pub fn verdict_color_role(v: Verdict) -> (r: Role)
    ensures
        r == verdict_role(v),
{
    match v {
        Verdict::InSync => Role::Good,
        Verdict::Behind => Role::Bad,
        Verdict::Failed(_) => Role::Warn,
        Verdict::Resolving | Verdict::Unknown(_) => Role::Dim,
    }
}

/// The colour of a pane's title: bright while it has the focus.
pub fn pane_title_role(focused: bool) -> (r: Role)
    ensures
        r == if focused {
            Role::Cyan
        } else {
            Role::Dim
        },
{
    if focused {
        Role::Cyan
    } else {
        Role::Dim
    }
}

/// The colour of a pane's cursor row: a quieter one where the pane has no focus.
pub fn selection_role(focused: bool) -> (r: Role)
    ensures
        r == if focused {
            Role::Selection
        } else {
            Role::Bar
        },
{
    if focused {
        Role::Selection
    } else {
        Role::Bar
    }
}

/// The colour of a restart count: none is nothing to look at.
pub fn restarts_role(restarts: i32) -> (r: Role)
    ensures
        r == if restarts == 0 {
            Role::Faint
        } else {
            Role::Warn
        },
{
    if restarts == 0 {
        Role::Faint
    } else {
        Role::Warn
    }
}

/// The colour of a pod's status: a calm one steps back, anything else is bad news.
pub fn status_role(status: &str) -> (r: Role)
    ensures
        r == if is_calm_status(status@) {
            Role::Dim
        } else {
            Role::Bad
        },
{
    if is_calm(status) {
        Role::Dim
    } else {
        Role::Bad
    }
}

/// The glyph a row shows: the spinner while it is being resolved.
pub fn glyph_of_row(v: Verdict, spinner: char) -> (r: char)
    ensures
        r == if v == Verdict::Resolving {
            spinner
        } else {
            crate::remote::glyph_of(v)
        },
{
    match v {
        Verdict::Resolving => spinner,
        other => other.glyph(),
    }
}

/// The line of the summary that names the repository, or that there is none.
pub fn repo_text(url: Option<&str>) -> (r: String)
    ensures
        r@ == match url {
            Some(u) => u@,
            None => "missing in repos.json"@,
        },
{
    match url {
        Some(u) => String::from_str(u),
        None => String::from_str("missing in repos.json"),
    }
}

/// What the narrow overview shows of a row's deployed references, for want of room: the
/// label of the first group and its verdict to colour it by, or a dash and nothing.
pub fn first_deployed(groups: &Vec<Deployed>) -> (r: (String, Option<Verdict>))
    ensures
        r.0@ == if groups@.len() > 0 {
            groups@[0].label@
        } else {
            "\u{2014}"@
        },
        r.1 == if groups@.len() > 0 {
            Some(groups@[0].verdict)
        } else {
            None
        },
{
    if groups.len() > 0 {
        (groups[0].label.clone(), Some(groups[0].verdict))
    } else {
        (String::from_str("\u{2014}"), None)
    }
}

/// A count, or a dash where there is none yet.
pub fn count_or_dash(n: Option<usize>) -> (r: String)
    ensures
        r@ == match n {
            Some(k) => decimal(k as nat),
            None => "\u{2014}"@,
        },
{
    match n {
        Some(k) => decimal_string(k as u64),
        None => String::from_str("\u{2014}"),
    }
}

} // verus!
