//! Version comparison for the self-update check: `MAJOR.MINOR.PATCH`
//! first, then a stable build above a pre-release of the same core, then
//! pre-release identifiers segment by segment.

use std::cmp::Ordering;
use vstd::prelude::*;

use crate::numeric::{parse_u64, parsed_u64};
use crate::text::{
    char_views, chars_of, code_of, code_point, lemma_code_injective, lemma_suffix_ends, lemma_suffix_step,
    split_chars, split_once_seq, split_once_text, split_seq, suffix_from,
};

verus! {

/// The order of two numbers.
pub open spec fn num_order(x: u64, y: u64) -> Ordering {
    if x < y {
        Ordering::Less
    } else if x == y {
        Ordering::Equal
    } else {
        Ordering::Greater
    }
}

/// The same comparison seen from the other side.
pub open spec fn flipped(o: Ordering) -> Ordering {
    match o {
        Ordering::Less => Ordering::Greater,
        Ordering::Equal => Ordering::Equal,
        Ordering::Greater => Ordering::Less,
    }
}

/// Lexicographic order of two number triples.
pub open spec fn triplet_order(a: (u64, u64, u64), b: (u64, u64, u64)) -> Ordering {
    let first = num_order(a.0, b.0);
    let second = num_order(a.1, b.1);
    if first != Ordering::Equal {
        first
    } else if second != Ordering::Equal {
        second
    } else {
        num_order(a.2, b.2)
    }
}

/// The number of the `k`-th dot-separated piece of a version core: its
/// value where it reads as a `u64`, else 0; 0 where there is no such piece.
pub open spec fn segment_number(segs: Seq<Seq<char>>, k: int) -> u64 {
    if k < segs.len() {
        match parsed_u64(segs[k]) {
            Some(n) => n,
            None => 0,
        }
    } else {
        0
    }
}

/// The `(MAJOR, MINOR, PATCH)` numbers of a version core.
pub open spec fn triplet_of(core: Seq<char>) -> (u64, u64, u64) {
    let segs = split_seq(core, '.');
    (segment_number(segs, 0), segment_number(segs, 1), segment_number(segs, 2))
}

/// The part of a version before its first `-` (all of it when there is none).
pub open spec fn core_of(v: Seq<char>) -> Seq<char> {
    match split_once_seq(v, '-') {
        Some((c, _)) => c,
        None => v,
    }
}

/// The pre-release part of a version: what follows its first `-`.
pub open spec fn prerelease_of(v: Seq<char>) -> Option<Seq<char>> {
    match split_once_seq(v, '-') {
        Some((_, p)) => Some(p),
        None => None,
    }
}

/// Lexicographic order of two texts by character. On `str` this is the
/// order of `Ord::cmp`, which compares UTF-8 bytes, an encoding that keeps
/// the order of code points.
pub open spec fn lex_order(a: Seq<char>, b: Seq<char>) -> Ordering
    decreases a.len(),
{
    if a.len() == 0 && b.len() == 0 {
        Ordering::Equal
    } else if a.len() == 0 {
        Ordering::Less
    } else if b.len() == 0 {
        Ordering::Greater
    } else if code_of(a[0]) < code_of(b[0]) {
        Ordering::Less
    } else if code_of(a[0]) > code_of(b[0]) {
        Ordering::Greater
    } else {
        lex_order(a.drop_first(), b.drop_first())
    }
}

/// Order of two pre-release identifiers: numerically when both read as
/// numbers, else lexicographically.
pub open spec fn segment_order(x: Seq<char>, y: Seq<char>) -> Ordering {
    match (parsed_u64(x), parsed_u64(y)) {
        (Some(nx), Some(ny)) => num_order(nx, ny),
        _ => lex_order(x, y),
    }
}

/// Order of two lists of pre-release identifiers: the first pair that
/// differs decides; a list that runs out first is the smaller.
pub open spec fn segments_order(a: Seq<Seq<char>>, b: Seq<Seq<char>>) -> Ordering
    decreases a.len(),
{
    if a.len() == 0 && b.len() == 0 {
        Ordering::Equal
    } else if a.len() == 0 {
        Ordering::Less
    } else if b.len() == 0 {
        Ordering::Greater
    } else {
        let first = segment_order(a[0], b[0]);
        if first != Ordering::Equal {
            first
        } else {
            segments_order(a.drop_first(), b.drop_first())
        }
    }
}

/// Order of two pre-release texts, split at each `.`.
pub open spec fn prerelease_order(a: Seq<char>, b: Seq<char>) -> Ordering {
    segments_order(split_seq(a, '.'), split_seq(b, '.'))
}

/// Order of two version strings.
pub open spec fn version_order(a: Seq<char>, b: Seq<char>) -> Ordering {
    let core = triplet_order(triplet_of(core_of(a)), triplet_of(core_of(b)));
    if core != Ordering::Equal {
        core
    } else {
        match (prerelease_of(a), prerelease_of(b)) {
            (None, None) => Ordering::Equal,
            (None, Some(_)) => Ordering::Greater,
            (Some(_), None) => Ordering::Less,
            (Some(pa), Some(pb)) => prerelease_order(pa, pb),
        }
    }
}

/// Splits a version into its core and its pre-release part, at the first `-`.
pub fn split_pre(v: &str) -> (r: (&str, Option<&str>))
    ensures
        r.0@ == core_of(v@),
        match r.1 {
            Some(p) => prerelease_of(v@) == Some(p@),
            None => prerelease_of(v@) is None,
        },
{
    match split_once_text(v, '-') {
        Some((core, pre)) => (core, Some(pre)),
        None => (v, None),
    }
}

fn segment_value(segs: &Vec<Vec<char>>, k: usize) -> (r: u64)
    ensures
        r == segment_number(char_views(segs@), k as int),
{
    if k < segs.len() {
        match parse_u64(&segs[k]) {
            Some(n) => n,
            None => 0,
        }
    } else {
        0
    }
}

/// The `(MAJOR, MINOR, PATCH)` numbers of a version core; a missing or
/// unreadable piece counts as 0.
pub fn parse_triplet(core: &str) -> (r: (u64, u64, u64))
    ensures
        r == triplet_of(core@),
{
    let segs = split_chars(&chars_of(core), '.');
    (segment_value(&segs, 0), segment_value(&segs, 1), segment_value(&segs, 2))
}

fn order_u64(x: u64, y: u64) -> (r: Ordering)
    ensures
        r == num_order(x, y),
{
    if x < y {
        Ordering::Less
    } else if x == y {
        Ordering::Equal
    } else {
        Ordering::Greater
    }
}

/// Compares the `MAJOR.MINOR.PATCH` numbers of two version cores.
pub fn cmp_numeric_triplet(a: &str, b: &str) -> (r: Ordering)
    ensures
        r == triplet_order(triplet_of(a@), triplet_of(b@)),
{
    let pa = parse_triplet(a);
    let pb = parse_triplet(b);
    match order_u64(pa.0, pb.0) {
        Ordering::Equal => match order_u64(pa.1, pb.1) {
            Ordering::Equal => order_u64(pa.2, pb.2),
            o => o,
        },
        o => o,
    }
}

fn compare_chars(x: &Vec<char>, y: &Vec<char>) -> (r: Ordering)
    ensures
        r == lex_order(x@, y@),
{
    let mut i: usize = 0;
    proof {
        lemma_suffix_ends(x@, i);
        lemma_suffix_ends(y@, i);
    }
    loop
        invariant
            i <= x.len(),
            i <= y.len(),
            lex_order(x@, y@) == lex_order(suffix_from(x@, i), suffix_from(y@, i)),
        decreases x.len() - i,
    {
        proof {
            lemma_suffix_ends(x@, i);
            lemma_suffix_ends(y@, i);
        }
        if i == x.len() && i == y.len() {
            return Ordering::Equal;
        } else if i == x.len() {
            return Ordering::Less;
        } else if i == y.len() {
            return Ordering::Greater;
        }
        let j = i + 1;
        proof {
            lemma_suffix_step(x@, i, j);
            lemma_suffix_step(y@, i, j);
        }
        let cx = x[i];
        let cy = y[i];
        if code_point(cx) < code_point(cy) {
            return Ordering::Less;
        } else if code_point(cx) > code_point(cy) {
            return Ordering::Greater;
        }
        i = j;
    }
}

fn compare_segment(x: &Vec<char>, y: &Vec<char>) -> (r: Ordering)
    ensures
        r == segment_order(x@, y@),
{
    match (parse_u64(x), parse_u64(y)) {
        (Some(nx), Some(ny)) => order_u64(nx, ny),
        _ => compare_chars(x, y),
    }
}

/// Compares two pre-release texts identifier by identifier: numerically
/// where both read as numbers, lexicographically otherwise; when one list
/// of identifiers is a prefix of the other, the shorter is the smaller.
pub fn cmp_prerelease(a: &str, b: &str) -> (r: Ordering)
    ensures
        r == prerelease_order(a@, b@),
{
    let sa = split_chars(&chars_of(a), '.');
    let sb = split_chars(&chars_of(b), '.');
    let ghost va = char_views(sa@);
    let ghost vb = char_views(sb@);
    let mut i: usize = 0;
    proof {
        lemma_suffix_ends(va, i);
        lemma_suffix_ends(vb, i);
    }
    loop
        invariant
            va == char_views(sa@),
            vb == char_views(sb@),
            va.len() == sa.len(),
            vb.len() == sb.len(),
            i <= sa.len(),
            i <= sb.len(),
            prerelease_order(a@, b@) == segments_order(suffix_from(va, i), suffix_from(vb, i)),
        decreases sa.len() - i,
    {
        proof {
            lemma_suffix_ends(va, i);
            lemma_suffix_ends(vb, i);
        }
        if i == sa.len() && i == sb.len() {
            return Ordering::Equal;
        } else if i == sa.len() {
            return Ordering::Less;
        } else if i == sb.len() {
            return Ordering::Greater;
        }
        let j = i + 1;
        proof {
            lemma_suffix_step(va, i, j);
            lemma_suffix_step(vb, i, j);
        }
        match compare_segment(&sa[i], &sb[i]) {
            Ordering::Equal => {},
            o => {
                return o;
            },
        }
        i = j;
    }
}

/// Compares two versions: `MAJOR.MINOR.PATCH` first; on a tie a stable
/// build (no `-suffix`) is above a pre-release, and two pre-releases compare
/// by their identifiers.
pub fn compare_versions(a: &str, b: &str) -> (r: Ordering)
    ensures
        r == version_order(a@, b@),
{
    let (a_core, a_pre) = split_pre(a);
    let (b_core, b_pre) = split_pre(b);
    let core = cmp_numeric_triplet(a_core, b_core);
    match core {
        Ordering::Equal => {},
        _ => {
            return core;
        },
    }
    match (a_pre, b_pre) {
        (None, None) => Ordering::Equal,
        (None, Some(_)) => Ordering::Greater,
        (Some(_), None) => Ordering::Less,
        (Some(pa), Some(pb)) => cmp_prerelease(pa, pb),
    }
}

/// A version that reads as one: its core (the text before its first `-`,
/// or all of it) is three `.`-separated numerals, each a `u64`.
pub open spec fn readable_version(v: Seq<char>) -> bool {
    let segs = split_seq(core_of(v), '.');
    &&& segs.len() == 3
    &&& parsed_u64(segs[0]) is Some
    &&& parsed_u64(segs[1]) is Some
    &&& parsed_u64(segs[2]) is Some
}

/// Version `a` is newer than version `b`: `a` reads as a version and is
/// above `b` in the version order. An unreadable `a` is never newer.
pub open spec fn newer(a: Seq<char>, b: Seq<char>) -> bool {
    readable_version(a) && version_order(a, b) == Ordering::Greater
}

/// Whether a text reads as a version (three `u64` numerals before any `-`).
pub fn version_is_readable(v: &str) -> (b: bool)
    ensures
        b == readable_version(v@),
{
    let (core, _) = split_pre(v);
    let segs = split_chars(&chars_of(core), '.');
    if segs.len() != 3 {
        return false;
    }
    let first = parse_u64(&segs[0]);
    let second = parse_u64(&segs[1]);
    let third = parse_u64(&segs[2]);
    match (first, second, third) {
        (Some(_), Some(_), Some(_)) => true,
        _ => false,
    }
}

/// Is version `a` newer than version `b`? Compares `MAJOR.MINOR.PATCH`
/// first; on a tie, a stable build (no `-suffix`) beats a pre-release, and
/// otherwise the pre-release identifiers decide (`beta.10` > `beta.9` by
/// numeric identifier). An unreadable `a` is treated as not newer.
pub fn is_newer(a: &str, b: &str) -> (r: bool)
    ensures
        r == newer(a@, b@),
{
    if !version_is_readable(a) {
        return false;
    }
    match compare_versions(a, b) {
        Ordering::Greater => true,
        _ => false,
    }
}

proof fn lemma_lex_flip(a: Seq<char>, b: Seq<char>)
    ensures
        lex_order(b, a) == flipped(lex_order(a, b)),
    decreases a.len(),
{
    if a.len() > 0 && b.len() > 0 && code_of(a[0]) == code_of(b[0]) {
        lemma_lex_flip(a.drop_first(), b.drop_first());
    }
}

proof fn lemma_lex_same(a: Seq<char>)
    ensures
        lex_order(a, a) == Ordering::Equal,
    decreases a.len(),
{
    if a.len() > 0 {
        lemma_lex_same(a.drop_first());
    }
}

proof fn lemma_segment_flip(x: Seq<char>, y: Seq<char>)
    ensures
        segment_order(y, x) == flipped(segment_order(x, y)),
        segment_order(x, x) == Ordering::Equal,
{
    lemma_lex_flip(x, y);
    lemma_lex_same(x);
}

proof fn lemma_segments_flip(a: Seq<Seq<char>>, b: Seq<Seq<char>>)
    ensures
        segments_order(b, a) == flipped(segments_order(a, b)),
    decreases a.len(),
{
    if a.len() > 0 && b.len() > 0 {
        lemma_segment_flip(a[0], b[0]);
        lemma_segments_flip(a.drop_first(), b.drop_first());
    }
}

proof fn lemma_segments_same(a: Seq<Seq<char>>)
    ensures
        segments_order(a, a) == Ordering::Equal,
    decreases a.len(),
{
    if a.len() > 0 {
        lemma_segment_flip(a[0], a[0]);
        lemma_segments_same(a.drop_first());
    }
}

/// No version is newer than itself: every version compares equal to itself.
pub proof fn law_version_order_reflexive(a: Seq<char>)
    ensures
        version_order(a, a) == Ordering::Equal,
{
    if let Some(p) = prerelease_of(a) {
        lemma_segments_same(split_seq(p, '.'));
    }
}

/// Comparing the other way round gives the opposite answer; in particular
/// when `a` is newer than `b`, `b` is older than `a` and so not newer.
pub proof fn law_version_order_antisymmetric(a: Seq<char>, b: Seq<char>)
    ensures
        version_order(b, a) == flipped(version_order(a, b)),
        version_order(a, b) == Ordering::Greater ==> version_order(b, a) == Ordering::Less,
        version_order(a, b) == Ordering::Equal <==> version_order(b, a) == Ordering::Equal,
{
    match (prerelease_of(a), prerelease_of(b)) {
        (Some(pa), Some(pb)) => {
            lemma_segments_flip(split_seq(pa, '.'), split_seq(pb, '.'));
        },
        _ => {},
    }
}

/// A higher `MAJOR.MINOR.PATCH` is above whatever either pre-release says,
/// and so newer when it reads as a version.
pub proof fn law_higher_core_is_newer(a: Seq<char>, b: Seq<char>)
    requires
        triplet_order(triplet_of(core_of(a)), triplet_of(core_of(b))) == Ordering::Greater,
    ensures
        version_order(a, b) == Ordering::Greater,
        readable_version(a) ==> newer(a, b),
        !newer(b, a),
{
    law_version_order_antisymmetric(a, b);
}

/// On the same `MAJOR.MINOR.PATCH`, a stable build (no `-suffix`) is newer
/// than any pre-release.
pub proof fn law_stable_beats_prerelease(a: Seq<char>, b: Seq<char>)
    requires
        triplet_of(core_of(a)) == triplet_of(core_of(b)),
        prerelease_of(a) is None,
        prerelease_of(b) is Some,
    ensures
        version_order(a, b) == Ordering::Greater,
        version_order(b, a) == Ordering::Less,
        readable_version(a) ==> newer(a, b),
        !newer(b, a),
{
}

/// Two lists of pre-release identifiers that agree before position `k`,
/// and whose identifiers at `k` both read as numbers, compare as those
/// numbers do (so `beta.10` is above `beta.9`).
pub proof fn law_numeric_identifiers_compare_numerically(
    a: Seq<Seq<char>>,
    b: Seq<Seq<char>>,
    k: int,
)
    requires
        0 <= k < a.len(),
        k < b.len(),
        forall|i: int| 0 <= i < k ==> a[i] == b[i],
        parsed_u64(a[k]) is Some,
        parsed_u64(b[k]) is Some,
        parsed_u64(a[k]) != parsed_u64(b[k]),
    ensures
        segments_order(a, b) == num_order(parsed_u64(a[k])->0, parsed_u64(b[k])->0),
    decreases k,
{
    if k > 0 {
        lemma_segment_flip(a[0], a[0]);
        assert(a[0] == b[0]);
        law_numeric_identifiers_compare_numerically(a.drop_first(), b.drop_first(), k - 1);
    }
}

/// An unreadable version is never newer than anything.
pub proof fn law_unreadable_is_not_newer(a: Seq<char>, b: Seq<char>)
    requires
        !readable_version(a),
    ensures
        !newer(a, b),
{
}

/// No version is newer than itself, and of two versions at most one is
/// newer than the other.
pub proof fn law_newer_is_a_strict_order_pairwise(a: Seq<char>, b: Seq<char>)
    ensures
        !newer(a, a),
        newer(a, b) ==> !newer(b, a),
{
    law_version_order_reflexive(a);
    law_version_order_antisymmetric(a, b);
}

/// Texts compare by their first differing character: after a common
/// prefix, the text whose next character has the smaller code point is the
/// smaller, whatever follows (so `rc1` is below `rc2`, and `beta` below
/// `gamma`); and texts compare equal only when they are the same.
pub proof fn law_lex_first_difference_decides(p: Seq<char>, x: Seq<char>, y: Seq<char>)
    requires
        x.len() > 0,
        y.len() > 0,
        code_of(x[0]) < code_of(y[0]),
    ensures
        lex_order(p + x, p + y) == Ordering::Less,
        lex_order(p + y, p + x) == Ordering::Greater,
    decreases p.len(),
{
    if p.len() > 0 {
        assert((p + x).drop_first() =~= p.drop_first() + x);
        assert((p + y).drop_first() =~= p.drop_first() + y);
        assert((p + x)[0] == p[0]);
        assert((p + y)[0] == p[0]);
        law_lex_first_difference_decides(p.drop_first(), x, y);
    } else {
        assert(p + x =~= x);
        assert(p + y =~= y);
    }
}

proof fn lemma_lex_equal_iff_same(a: Seq<char>, b: Seq<char>)
    ensures
        lex_order(a, b) == Ordering::Equal <==> a == b,
    decreases a.len(),
{
    if a.len() > 0 && b.len() > 0 {
        lemma_lex_equal_iff_same(a.drop_first(), b.drop_first());
        if code_of(a[0]) == code_of(b[0]) && a.drop_first() == b.drop_first() {
            lemma_code_injective(a[0], b[0]);
            assert forall|i: int| 0 <= i < a.len() implies a[i] == b[i] by {
                if i > 0 {
                    assert(a[i] == a.drop_first()[i - 1]);
                    assert(b[i] == b.drop_first()[i - 1]);
                }
            }
            assert(a =~= b);
        }
        if a == b {
            lemma_lex_same(a);
        }
    } else if a.len() == 0 && b.len() == 0 {
        assert(a =~= b);
    }
}

proof fn lemma_lex_prefix_below(a: Seq<char>, b: Seq<char>)
    requires
        b.len() > 0,
    ensures
        lex_order(a, a + b) == Ordering::Less,
    decreases a.len(),
{
    if a.len() > 0 {
        assert((a + b).drop_first() =~= a.drop_first() + b);
        assert((a + b)[0] == a[0]);
        lemma_lex_prefix_below(a.drop_first(), b);
    }
}

/// A proper prefix is below the longer text, and only equal texts compare
/// equal.
pub proof fn law_lex_equal_only_when_same(a: Seq<char>, b: Seq<char>)
    ensures
        lex_order(a, b) == Ordering::Equal <==> a == b,
        b.len() > 0 ==> lex_order(a, a + b) == Ordering::Less,
{
    lemma_lex_equal_iff_same(a, b);
    if b.len() > 0 {
        lemma_lex_prefix_below(a, b);
    }
}

} // verus!
