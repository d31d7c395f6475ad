//! Text shaping shared by the renderers. Names in this tool are long and share long
//! prefixes, so the layout dims what repeats instead of cutting off what does not.
use crate::chars::{
    ellipsis_char, last_index_of, lemma_last_index_of, push_char, rfind_char, starts_with,
    string_of, to_chars,
};
use vstd::prelude::*;

verus! {

/// How many of `names` start with `p`.
pub open spec fn count_prefixed(names: Seq<Seq<char>>, p: Seq<char>) -> nat
    decreases names.len(),
{
    if names.len() == 0 {
        0
    } else {
        count_prefixed(names.drop_last(), p) + if p.is_prefix_of(names.last()) {
            1nat
        } else {
            0nat
        }
    }
}

/// A dash of `name` whose prefix, the dash included, at least one other name shares. The
/// name itself is in the list, so two names starting with it mean one other.
pub open spec fn is_family_cut(name: Seq<char>, names: Seq<Seq<char>>, i: int) -> bool {
    0 <= i < name.len() && name[i] == '-' && count_prefixed(names, name.take(i + 1)) >= 2
}

/// The first such dash: no earlier one qualifies.
pub open spec fn is_first_family_cut(name: Seq<char>, names: Seq<Seq<char>>, i: int) -> bool {
    is_family_cut(name, names, i) && forall|j: int| 0 <= j < i ==> !is_family_cut(name, names, j)
}

/// Family a name belongs to: its first `-`-delimited prefix that at least one other name
/// shares, or nothing.
pub open spec fn family_of(name: Seq<char>, names: Seq<Seq<char>>) -> Seq<char> {
    if exists|i: int| is_first_family_cut(name, names, i) {
        let i = choose|i: int| is_first_family_cut(name, names, i);
        name.take(i + 1)
    } else {
        Seq::empty()
    }
}

/// Every name of the family also starts with `candidate`.
pub open spec fn covers(names: Seq<Seq<char>>, family: Seq<char>, candidate: Seq<char>) -> bool {
    forall|k: int|
        0 <= k < names.len() && family.is_prefix_of(names[k]) ==> candidate.is_prefix_of(
            #[trigger] names[k],
        )
}

/// A dash of `name` beyond its family whose prefix every member of the family repeats.
pub open spec fn is_shared_cut(name: Seq<char>, names: Seq<Seq<char>>, i: int) -> bool {
    &&& 0 <= i < name.len()
    &&& name[i] == '-'
    &&& i + 1 > family_of(name, names).len()
    &&& covers(names, family_of(name, names), name.take(i + 1))
}

/// The last such dash: no later one qualifies.
pub open spec fn is_last_shared_cut(name: Seq<char>, names: Seq<Seq<char>>, i: int) -> bool {
    is_shared_cut(name, names, i) && forall|j: int|
        i < j < name.len() ==> !is_shared_cut(name, names, j)
}

/// The part of a name that tells nothing, because every member of its family repeats it:
/// the longest dash-ended prefix the whole family shares, the family itself at least, and
/// nothing for a name that has no family.
pub open spec fn shared_of(name: Seq<char>, names: Seq<Seq<char>>) -> Seq<char> {
    let family = family_of(name, names);
    if family.len() == 0 {
        Seq::empty()
    } else if exists|i: int| is_last_shared_cut(name, names, i) {
        let i = choose|i: int| is_last_shared_cut(name, names, i);
        name.take(i + 1)
    } else {
        family
    }
}

/// How many of `names` start with `p`.
fn count_with_prefix(names: &[String], p: &[char]) -> (r: usize)
    ensures
        r == count_prefixed(names.deep_view(), p@),
{
    let mut count: usize = 0;
    let mut k: usize = 0;
    while k < names.len()
        invariant
            k <= names@.len(),
            count <= k,
            count == count_prefixed(names.deep_view().take(k as int), p@),
        decreases names@.len() - k,
    {
        let other = to_chars(names[k].as_str());
        proof {
            assert(names.deep_view().take(k + 1).drop_last() =~= names.deep_view().take(k as int));
            assert(names.deep_view()[k as int] == names@[k as int]@);
        }
        if starts_with(other.as_slice(), p) {
            count += 1;
        }
        k += 1;
    }
    assert(names.deep_view().take(names@.len() as int) =~= names.deep_view());
    count
}

/// Whether every name starting with `family` also starts with `candidate`.
fn all_covered(names: &[String], family: &[char], candidate: &[char]) -> (r: bool)
    ensures
        r == covers(names.deep_view(), family@, candidate@),
{
    let mut k: usize = 0;
    while k < names.len()
        invariant
            k <= names@.len(),
            forall|j: int|
                0 <= j < k && family@.is_prefix_of(names.deep_view()[j])
                    ==> candidate@.is_prefix_of(#[trigger] names.deep_view()[j]),
        decreases names@.len() - k,
    {
        let other = to_chars(names[k].as_str());
        assert(names.deep_view()[k as int] == names@[k as int]@);
        if starts_with(other.as_slice(), family) && !starts_with(other.as_slice(), candidate) {
            return false;
        }
        k += 1;
    }
    true
}

/// The minimal cut is unique, so the one found is the one the specification picks.
proof fn lemma_family_at(name: Seq<char>, names: Seq<Seq<char>>, i: int)
    requires
        is_first_family_cut(name, names, i),
    ensures
        family_of(name, names) == name.take(i + 1),
{
    let c = choose|c: int| is_first_family_cut(name, names, c);
    if c < i {
        assert(!is_family_cut(name, names, c));
    }
    if i < c {
        assert(!is_family_cut(name, names, i));
    }
}

/// Family a name belongs to: its first `-`-delimited prefix that at least one other name
/// shares. With `orchard-*` and `nimbus-*` side by side this picks `orchard-` and
/// `nimbus-`, and nothing for a name that stands alone.
pub fn family_prefix<'a>(name: &'a str, names: &[String]) -> (r: &'a str)
    ensures
        r@ == family_of(name@, names.deep_view()),
{
    let v = to_chars(name);
    let ghost all = names.deep_view();
    let mut i: usize = 0;
    while i < v.len()
        invariant
            i <= v@.len(),
            v@ == name@,
            all == names.deep_view(),
            forall|j: int| 0 <= j < i ==> !is_family_cut(name@, all, j),
        decreases v@.len() - i,
    {
        if v[i] == '-' {
            let prefix = crate::chars::slice_to(v.as_slice(), 0, i + 1);
            assert(prefix@ =~= name@.take(i + 1));
            // the name itself is in the list, so two matches mean one other name
            if count_with_prefix(names, prefix.as_slice()) >= 2 {
                proof {
                    lemma_family_at(name@, all, i as int);
                }
                let r = name.substring_char(0, i + 1);
                assert(r@ =~= name@.take(i + 1));
                return r;
            }
        }
        i += 1;
    }
    let r = name.substring_char(0, 0);
    assert(r@ =~= Seq::<char>::empty());
    r
}

/// The last qualifying cut is unique too.
proof fn lemma_shared_at(name: Seq<char>, names: Seq<Seq<char>>, i: int)
    requires
        is_last_shared_cut(name, names, i),
    ensures
        exists|c: int| is_last_shared_cut(name, names, c),
        (choose|c: int| is_last_shared_cut(name, names, c)) == i,
{
    let c = choose|c: int| is_last_shared_cut(name, names, c);
    if c < i {
        assert(!is_shared_cut(name, names, i));
    }
    if i < c {
        assert(!is_shared_cut(name, names, c));
    }
}

/// Some qualifying cut at or after `j` is the last one.
proof fn lemma_last_shared_cut_exists(name: Seq<char>, names: Seq<Seq<char>>, j: int)
    requires
        is_shared_cut(name, names, j),
    ensures
        exists|c: int| is_last_shared_cut(name, names, c),
    decreases name.len() - j,
{
    if !is_last_shared_cut(name, names, j) {
        let k = choose|k: int| j < k < name.len() && is_shared_cut(name, names, k);
        lemma_last_shared_cut_exists(name, names, k);
    }
}

/// A dash-ended prefix of `name`, at least as long as its family, that every member of
/// the family repeats.
pub open spec fn is_shared_prefix(name: Seq<char>, names: Seq<Seq<char>>, p: Seq<char>) -> bool {
    &&& p.len() > 0
    &&& p.last() == '-'
    &&& p.is_prefix_of(name)
    &&& p.len() >= family_of(name, names).len()
    &&& covers(names, family_of(name, names), p)
}

/// The shared prefix of a name with a family is the longest dash-ended prefix, at least as
/// long as the family, that every member of the family repeats; a name without a family
/// shares nothing.
pub proof fn shared_prefix_is_the_longest(name: Seq<char>, names: Seq<Seq<char>>, p: Seq<char>)
    ensures
        family_of(name, names).len() == 0 ==> shared_of(name, names).len() == 0,
        family_of(name, names).len() > 0 ==> is_shared_prefix(name, names, shared_of(name, names)),
        family_of(name, names).len() > 0 && is_shared_prefix(name, names, p) ==> p.len()
            <= shared_of(name, names).len(),
{
    let family = family_of(name, names);
    if family.len() > 0 {
        let fi = choose|i: int| is_first_family_cut(name, names, i);
        assert(family =~= name.take(fi + 1));
        assert(covers(names, family, family));
        if exists|i: int| is_last_shared_cut(name, names, i) {
            let i = choose|i: int| is_last_shared_cut(name, names, i);
            assert(shared_of(name, names) =~= name.take(i + 1));
        }
        if is_shared_prefix(name, names, p) && p.len() > family.len() {
            let j = p.len() - 1;
            assert(p =~= name.take(j + 1));
            assert(is_shared_cut(name, names, j));
            lemma_last_shared_cut_exists(name, names, j);
            let i = choose|i: int| is_last_shared_cut(name, names, i);
            assert(shared_of(name, names) =~= name.take(i + 1));
            if j > i {
                assert(!is_shared_cut(name, names, j));
            }
        }
    }
}

/// The part of a name that tells nothing, because every member of its family repeats it.
/// Dimmed rather than cut, so the telling part is always on screen.
pub fn shared_prefix<'a>(name: &'a str, names: &[String]) -> (r: &'a str)
    ensures
        r@ == shared_of(name@, names.deep_view()),
        family_of(name@, names.deep_view()).is_prefix_of(r@) || r@.len() == 0,
        r@.is_prefix_of(name@),
{
    let family = family_prefix(name, names);
    let f = to_chars(family);
    let ghost all = names.deep_view();
    let v = to_chars(name);
    proof {
        if exists|i: int| is_first_family_cut(name@, all, i) {
            let i = choose|i: int| is_first_family_cut(name@, all, i);
            assert(family_of(name@, all) == name@.take(i + 1));
        }
    }
    if f.len() == 0 {
        let r = name.substring_char(0, 0);
        assert(r@ =~= Seq::<char>::empty());
        return r;
    }
    let flen = f.len();
    let mut best: usize = flen;
    let mut i: usize = 0;
    while i < v.len()
        invariant
            i <= v@.len(),
            v@ == name@,
            f@ == family_of(name@, all),
            all == names.deep_view(),
            flen == f@.len(),
            flen > 0,
            f@.is_prefix_of(name@),
            flen <= best <= v@.len(),
            best == flen ==> forall|j: int| 0 <= j < i ==> !is_shared_cut(name@, all, j),
            best > flen ==> {
                &&& best <= i
                &&& is_shared_cut(name@, all, best - 1)
                &&& forall|j: int| best - 1 < j < i ==> !is_shared_cut(name@, all, j)
            },
        decreases v@.len() - i,
    {
        if v[i] == '-' && i + 1 > flen {
            let candidate = crate::chars::slice_to(v.as_slice(), 0, i + 1);
            assert(candidate@ =~= name@.take(i + 1));
            if all_covered(names, f.as_slice(), candidate.as_slice()) {
                best = i + 1;
            }
        }
        i += 1;
    }
    proof {
        if best > flen {
            lemma_shared_at(name@, all, best - 1);
        } else {
            assert forall|c: int| !is_last_shared_cut(name@, all, c) by {
                if 0 <= c < v@.len() {
                    assert(!is_shared_cut(name@, all, c));
                }
            }
        }
    }
    let r = name.substring_char(0, best);
    assert(r@ =~= name@.take(best as int));
    proof {
        assert(f@ =~= name@.take(flen as int));
    }
    r
}

/// Parts of a pod name the renderer dims differently: the workload prefix, the
/// ReplicaSet hash, and the suffix that actually tells one pod from another.
#[derive(Debug, Clone, PartialEq, Eq)]
pub struct PodName<'a> {
    pub prefix: &'a str,
    pub replicaset: &'a str,
    pub suffix: &'a str,
}

/// Where the namespace part of a pod name ends: after `<namespace>-`, or at the start
/// when the pod is not named after its namespace.
pub open spec fn namespace_cut(pod: Seq<char>, namespace: Seq<char>) -> int {
    if namespace.is_prefix_of(pod) && pod.len() > namespace.len() && pod[namespace.len() as int]
        == '-' {
        namespace.len() + 1int
    } else {
        0
    }
}

/// The three parts of a pod name.
pub open spec fn pod_parts(pod: Seq<char>, namespace: Seq<char>) -> (
    Seq<char>,
    Seq<char>,
    Seq<char>,
) {
    let cut = namespace_cut(pod, namespace);
    let rest = pod.skip(cut);
    let d = last_index_of(rest, '-');
    if d >= 0 {
        (pod.take(cut), rest.take(d + 1), rest.skip(d + 1))
    } else {
        (pod.take(cut), Seq::empty(), rest)
    }
}

/// A pod name splits into the namespace and its dash, when the name starts with them; then
/// everything up to and including the last dash after that, which holds the ReplicaSet
/// hash; then the unique suffix, which holds no dash. Put back together, the parts give
/// the name.
pub proof fn pod_name_splits_at_its_last_dash(pod: Seq<char>, namespace: Seq<char>)
    ensures
        pod_parts(pod, namespace).0 + pod_parts(pod, namespace).1 + pod_parts(pod, namespace).2
            == pod,
        pod_parts(pod, namespace).0 == if namespace.push('-').is_prefix_of(pod) {
            namespace.push('-')
        } else {
            Seq::empty()
        },
        !pod_parts(pod, namespace).2.contains('-'),
        pod_parts(pod, namespace).1.len() == 0 || pod_parts(pod, namespace).1.last() == '-',
{
    let cut = namespace_cut(pod, namespace);
    let rest = pod.skip(cut);
    lemma_last_index_of(rest, '-');
    let d = last_index_of(rest, '-');
    let (a, b, c) = pod_parts(pod, namespace);
    if namespace.push('-').is_prefix_of(pod) {
        assert(pod[namespace.len() as int] == namespace.push('-')[namespace.len() as int]);
        assert(namespace =~= pod.take(namespace.len() as int)) by {
            assert forall|k: int| 0 <= k < namespace.len() implies namespace[k] == pod[k] by {
                assert(namespace.push('-')[k] == namespace[k]);
            }
        }
        assert(cut == namespace.len() + 1);
        assert(a =~= namespace.push('-'));
    } else {
        if cut > 0 {
            assert(namespace.push('-') =~= pod.take(cut));
        }
        assert(a =~= Seq::<char>::empty());
    }
    if d >= 0 {
        assert(a + b + c =~= pod);
        assert(b.last() == rest[d]);
        if c.contains('-') {
            let k = choose|k: int| 0 <= k < c.len() && c[k] == '-';
            assert(c[k] == rest[d + 1 + k]);
        }
    } else {
        assert(a + b + c =~= pod);
        if c.contains('-') {
            let k = choose|k: int| 0 <= k < c.len() && c[k] == '-';
            assert(c[k] == rest[k]);
        }
    }
}

/// Splits `orchard-gateway-6b9f4c2d71-q8xzv` into the workload prefix, the
/// ReplicaSet hash and the unique suffix.
pub fn split_pod_name<'a>(pod: &'a str, namespace: &str) -> (r: PodName<'a>)
    ensures
        (r.prefix@, r.replicaset@, r.suffix@) == pod_parts(pod@, namespace@),
        r.prefix@ + r.replicaset@ + r.suffix@ == pod@,
{
    let v = to_chars(pod);
    let ns = to_chars(namespace);
    let cut: usize = if starts_with(v.as_slice(), ns.as_slice()) && v.len() > ns.len() && v[ns.len()]
        == '-' {
        ns.len() + 1
    } else {
        0
    };
    let rest = crate::chars::slice_to(v.as_slice(), cut, v.len());
    assert(rest@ =~= pod@.skip(cut as int));
    proof {
        lemma_last_index_of(rest@, '-');
    }
    let rs = rest.as_slice();
    assert(rs@ == rest@);
    let prefix = pod.substring_char(0, cut);
    assert(prefix@ =~= pod@.take(cut as int));
    match rfind_char(rs, '-') {
        Some(d) => {
            let replicaset = pod.substring_char(cut, cut + d + 1);
            let suffix = pod.substring_char(cut + d + 1, v.len());
            assert(replicaset@ =~= rest@.take(d + 1));
            assert(suffix@ =~= rest@.skip(d + 1));
            assert(prefix@ + replicaset@ + suffix@ =~= pod@);
            PodName { prefix, replicaset, suffix }
        },
        None => {
            let replicaset = pod.substring_char(cut, cut);
            let suffix = pod.substring_char(cut, v.len());
            assert(replicaset@ =~= Seq::<char>::empty());
            assert(suffix@ =~= rest@);
            assert(prefix@ + replicaset@ + suffix@ =~= pod@);
            PodName { prefix, replicaset, suffix }
        },
    }
}

/// The decimal digit `d`.
pub open spec fn digit_char(d: int) -> char {
    if d == 0 {
        '0'
    } else if d == 1 {
        '1'
    } else if d == 2 {
        '2'
    } else if d == 3 {
        '3'
    } else if d == 4 {
        '4'
    } else if d == 5 {
        '5'
    } else if d == 6 {
        '6'
    } else if d == 7 {
        '7'
    } else if d == 8 {
        '8'
    } else {
        '9'
    }
}

/// `n` written in decimal, without leading zeros.
pub open spec fn decimal(n: nat) -> Seq<char>
    decreases n,
{
    if n < 10 {
        seq![digit_char(n as int)]
    } else {
        decimal(n / 10).push(digit_char((n % 10) as int))
    }
}

fn digit(d: u64) -> (c: char)
    requires
        d < 10,
    ensures
        c == digit_char(d as int),
{
    if d == 0 {
        '0'
    } else if d == 1 {
        '1'
    } else if d == 2 {
        '2'
    } else if d == 3 {
        '3'
    } else if d == 4 {
        '4'
    } else if d == 5 {
        '5'
    } else if d == 6 {
        '6'
    } else if d == 7 {
        '7'
    } else if d == 8 {
        '8'
    } else {
        '9'
    }
}

/// Appends `n` in decimal.
pub fn push_decimal(out: &mut String, n: u64)
    ensures
        final(out)@ == old(out)@ + decimal(n as nat),
    decreases n,
{
    if n >= 10 {
        push_decimal(out, n / 10);
    }
    push_char(out, digit(n % 10));
    assert(final(out)@ =~= old(out)@ + decimal(n as nat));
}

/// `n` in decimal.
pub fn decimal_string(n: u64) -> (r: String)
    ensures
        r@ == decimal(n as nat),
{
    let mut out = String::new();
    push_decimal(&mut out, n);
    assert(out@ =~= decimal(n as nat));
    out
}

/// Compact age in the shape `kubectl` uses, a negative age counted as none.
pub open spec fn duration_text(seconds: int) -> Seq<char> {
    let s = if seconds < 0 {
        0
    } else {
        seconds
    };
    if s < 60 {
        decimal(s as nat).push('s')
    } else if s < 3600 {
        decimal((s / 60) as nat).push('m')
    } else if s < 86400 {
        decimal((s / 3600) as nat).push('h')
    } else {
        decimal((s / 86400) as nat).push('d')
    }
}

/// Compact age in the shape `kubectl` uses: `45s`, `12m`, `4h`, `6d`.
pub fn short_duration(seconds: i64) -> (r: String)
    ensures
        r@ == duration_text(seconds as int),
{
    let s: u64 = if seconds < 0 {
        0
    } else {
        seconds as u64
    };
    let (n, unit) = if s < 60 {
        (s, 's')
    } else if s < 3_600 {
        (s / 60, 'm')
    } else if s < 86_400 {
        (s / 3_600, 'h')
    } else {
        (s / 86_400, 'd')
    };
    let mut out = decimal_string(n);
    push_char(&mut out, unit);
    out
}

/// `text` cut down to `width` characters, the cut marked with an ellipsis.
pub open spec fn ellipsized(text: Seq<char>, width: int) -> Seq<char> {
    if text.len() <= width {
        text
    } else if width <= 0 {
        Seq::empty()
    } else {
        text.take(width - 1).push(ellipsis_char())
    }
}

/// Cuts `text` down to `width` characters, marking the cut with an ellipsis.
pub fn ellipsize(text: &str, width: usize) -> (r: String)
    ensures
        r@ == ellipsized(text@, width as int),
        r@.len() == if text@.len() <= width {
            text@.len()
        } else {
            width as nat
        },
{
    let v = to_chars(text);
    if v.len() <= width {
        return String::from_str(text);
    }
    if width == 0 {
        return String::new();
    }
    let mut r = string_of(v.as_slice(), 0, width - 1);
    push_char(&mut r, '\u{2026}');
    assert(r@ =~= text@.take(width - 1).push(ellipsis_char()));
    r
}

/// `head` and `tail` fitted into `width` characters: the head gives up room from the left
/// first, marked with an ellipsis, and the tail is only cut when it does not fit alone.
pub open spec fn fitted(head: Seq<char>, tail: Seq<char>, width: int) -> (Seq<char>, Seq<char>) {
    if head.len() + tail.len() <= width {
        (head, tail)
    } else if tail.len() >= width {
        (Seq::empty(), ellipsized(tail, width))
    } else {
        let room = width - tail.len();
        if room == 1 {
            (seq![ellipsis_char()], tail)
        } else {
            (seq![ellipsis_char()] + head.skip(head.len() - room + 1), tail)
        }
    }
}

/// Fits `head` and `tail` into `width` characters by eating the head from the left,
/// because the head is the part every name repeats. The tail is only cut when it does not
/// fit on its own.
pub fn fit_head(head: &str, tail: &str, width: usize) -> (r: (String, String))
    ensures
        (r.0@, r.1@) == fitted(head@, tail@, width as int),
        r.0@.len() + r.1@.len() <= width || head@.len() + tail@.len() <= width,
        head@.len() + tail@.len() <= width ==> r.0@ == head@ && r.1@ == tail@,
{
    let t = to_chars(tail);
    let h = to_chars(head);
    let tail_len = t.len();
    let head_len = h.len();
    if head_len <= width && tail_len <= width - head_len {
        return (String::from_str(head), String::from_str(tail));
    }
    if tail_len >= width {
        return (String::new(), ellipsize(tail, width));
    }
    let room = width - tail_len;
    if room == 1 {
        let mut e = String::new();
        push_char(&mut e, '\u{2026}');
        assert(e@ =~= seq![ellipsis_char()]);
        (e, String::from_str(tail))
    } else {
        let mut e = String::new();
        push_char(&mut e, '\u{2026}');
        let rest = string_of(h.as_slice(), head_len - room + 1, head_len);
        e.append(rest.as_str());
        assert(e@ =~= seq![ellipsis_char()] + head@.skip(head_len - room + 1));
        (e, String::from_str(tail))
    }
}

} // verus!
