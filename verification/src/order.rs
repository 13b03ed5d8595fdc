//! Lexicographic ordering of names.
//!
//! Enumerated file names are emitted in sorted order so that generation is
//! deterministic, and the reported non-decodable name is the least one.
//! This module defines the order on character sequences (by code point) and
//! on raw byte sequences, proves that each is a total order, and provides
//! the executable comparisons.

use vstd::prelude::*;
use vstd::relations::{sorted_by, total_ordering};
use vstd::seq_lib::lemma_sorted_unique;
use vstd::string::StrSliceExecFns;

verus! {

/// The character sequences of a sequence of strings.
pub open spec fn name_views(s: Seq<String>) -> Seq<Seq<char>> {
    s.map_values(|x: String| x@)
}

/// The byte sequences of a sequence of raw names.
pub open spec fn raw_views(s: Seq<Vec<u8>>) -> Seq<Seq<u8>> {
    s.map_values(|x: Vec<u8>| x@)
}

/// Lexicographic `<=` on character sequences, ordered by code point.
pub open spec fn chars_le(a: Seq<char>, b: Seq<char>) -> bool
    decreases a.len(),
{
    if a.len() == 0 {
        true
    } else if b.len() == 0 {
        false
    } else if a[0] == b[0] {
        chars_le(a.drop_first(), b.drop_first())
    } else {
        (a[0] as u32) < (b[0] as u32)
    }
}

/// The character-sequence order as a closure, for `sort_by` and `sorted_by`.
pub open spec fn char_seq_leq() -> spec_fn(Seq<char>, Seq<char>) -> bool {
    |a: Seq<char>, b: Seq<char>| chars_le(a, b)
}

/// Lexicographic `<=` on raw byte sequences.
pub open spec fn bytes_le(a: Seq<u8>, b: Seq<u8>) -> bool
    decreases a.len(),
{
    if a.len() == 0 {
        true
    } else if b.len() == 0 {
        false
    } else if a[0] == b[0] {
        bytes_le(a.drop_first(), b.drop_first())
    } else {
        a[0] < b[0]
    }
}

/// The byte-sequence order as a closure.
pub open spec fn byte_seq_leq() -> spec_fn(Seq<u8>, Seq<u8>) -> bool {
    |a: Seq<u8>, b: Seq<u8>| bytes_le(a, b)
}

/// Distinct characters have distinct code points.
proof fn lemma_char_cast_distinct(c: char, d: char)
    requires
        c != d,
    ensures
        c as u32 != d as u32,
{
}

pub proof fn lemma_chars_le_reflexive(a: Seq<char>)
    ensures
        chars_le(a, a),
    decreases a.len(),
{
    if a.len() > 0 {
        lemma_chars_le_reflexive(a.drop_first());
    }
}

pub proof fn lemma_chars_le_antisymmetric(a: Seq<char>, b: Seq<char>)
    requires
        chars_le(a, b),
        chars_le(b, a),
    ensures
        a == b,
    decreases a.len(),
{
    if a.len() == 0 {
        assert(b.len() == 0);
        assert(a =~= b);
    } else {
        lemma_chars_le_antisymmetric(a.drop_first(), b.drop_first());
        assert(a =~= seq![a[0]] + a.drop_first());
        assert(b =~= seq![b[0]] + b.drop_first());
    }
}

pub proof fn lemma_chars_le_transitive(a: Seq<char>, b: Seq<char>, c: Seq<char>)
    requires
        chars_le(a, b),
        chars_le(b, c),
    ensures
        chars_le(a, c),
    decreases a.len(),
{
    if a.len() > 0 && b.len() > 0 && c.len() > 0 {
        if a[0] == b[0] && b[0] == c[0] {
            lemma_chars_le_transitive(a.drop_first(), b.drop_first(), c.drop_first());
        }
    }
}

pub proof fn lemma_chars_le_connected(a: Seq<char>, b: Seq<char>)
    ensures
        chars_le(a, b) || chars_le(b, a),
    decreases a.len(),
{
    if a.len() > 0 && b.len() > 0 {
        if a[0] == b[0] {
            lemma_chars_le_connected(a.drop_first(), b.drop_first());
        } else {
            lemma_char_cast_distinct(a[0], b[0]);
        }
    }
}

/// The character-sequence order is a total order, as `sort_by` requires.
pub proof fn lemma_char_seq_leq_total_ordering()
    ensures
        total_ordering(char_seq_leq()),
{
    assert forall|a: Seq<char>| #[trigger] char_seq_leq()(a, a) by {
        lemma_chars_le_reflexive(a);
    }
    assert forall|a: Seq<char>, b: Seq<char>|
        #[trigger] char_seq_leq()(a, b) && #[trigger] char_seq_leq()(b, a) implies a == b by {
        lemma_chars_le_antisymmetric(a, b);
    }
    assert forall|a: Seq<char>, b: Seq<char>, c: Seq<char>|
        #[trigger] char_seq_leq()(a, b) && #[trigger] char_seq_leq()(b, c) implies char_seq_leq()(
        a,
        c,
    ) by {
        lemma_chars_le_transitive(a, b, c);
    }
    assert forall|a: Seq<char>, b: Seq<char>|
        #[trigger] char_seq_leq()(a, b) || #[trigger] char_seq_leq()(b, a) by {
        lemma_chars_le_connected(a, b);
    }
}

pub proof fn lemma_bytes_le_reflexive(a: Seq<u8>)
    ensures
        bytes_le(a, a),
    decreases a.len(),
{
    if a.len() > 0 {
        lemma_bytes_le_reflexive(a.drop_first());
    }
}

pub proof fn lemma_bytes_le_antisymmetric(a: Seq<u8>, b: Seq<u8>)
    requires
        bytes_le(a, b),
        bytes_le(b, a),
    ensures
        a == b,
    decreases a.len(),
{
    if a.len() == 0 {
        assert(b.len() == 0);
        assert(a =~= b);
    } else {
        lemma_bytes_le_antisymmetric(a.drop_first(), b.drop_first());
        assert(a =~= seq![a[0]] + a.drop_first());
        assert(b =~= seq![b[0]] + b.drop_first());
    }
}

pub proof fn lemma_bytes_le_transitive(a: Seq<u8>, b: Seq<u8>, c: Seq<u8>)
    requires
        bytes_le(a, b),
        bytes_le(b, c),
    ensures
        bytes_le(a, c),
    decreases a.len(),
{
    if a.len() > 0 && b.len() > 0 && c.len() > 0 {
        if a[0] == b[0] && b[0] == c[0] {
            lemma_bytes_le_transitive(a.drop_first(), b.drop_first(), c.drop_first());
        }
    }
}

pub proof fn lemma_bytes_le_connected(a: Seq<u8>, b: Seq<u8>)
    ensures
        bytes_le(a, b) || bytes_le(b, a),
    decreases a.len(),
{
    if a.len() > 0 && b.len() > 0 && a[0] == b[0] {
        lemma_bytes_le_connected(a.drop_first(), b.drop_first());
    }
}

/// The byte-sequence order is a total order.
pub proof fn lemma_byte_seq_leq_total_ordering()
    ensures
        total_ordering(byte_seq_leq()),
{
    assert forall|a: Seq<u8>| #[trigger] byte_seq_leq()(a, a) by {
        lemma_bytes_le_reflexive(a);
    }
    assert forall|a: Seq<u8>, b: Seq<u8>|
        #[trigger] byte_seq_leq()(a, b) && #[trigger] byte_seq_leq()(b, a) implies a == b by {
        lemma_bytes_le_antisymmetric(a, b);
    }
    assert forall|a: Seq<u8>, b: Seq<u8>, c: Seq<u8>|
        #[trigger] byte_seq_leq()(a, b) && #[trigger] byte_seq_leq()(b, c) implies byte_seq_leq()(
        a,
        c,
    ) by {
        lemma_bytes_le_transitive(a, b, c);
    }
    assert forall|a: Seq<u8>, b: Seq<u8>|
        #[trigger] byte_seq_leq()(a, b) || #[trigger] byte_seq_leq()(b, a) by {
        lemma_bytes_le_connected(a, b);
    }
}

/// If two sequences agree below `i`, comparing them is comparing their tails from `i` on.
proof fn lemma_chars_le_skip(a: Seq<char>, b: Seq<char>, i: int)
    requires
        0 <= i <= a.len(),
        0 <= i <= b.len(),
        forall|j: int| 0 <= j < i ==> a[j] == b[j],
    ensures
        chars_le(a, b) == chars_le(a.skip(i), b.skip(i)),
    decreases i,
{
    if i == 0 {
        assert(a.skip(0) =~= a);
        assert(b.skip(0) =~= b);
    } else {
        assert(a.len() > 0 && b.len() > 0 && a[0] == b[0]);
        lemma_chars_le_skip(a.drop_first(), b.drop_first(), i - 1);
        assert(a.drop_first().skip(i - 1) =~= a.skip(i));
        assert(b.drop_first().skip(i - 1) =~= b.skip(i));
    }
}

/// Executable lexicographic comparison of two strings.
pub fn str_le(a: &str, b: &str) -> (r: bool)
    ensures
        r == chars_le(a@, b@),
{
    let a_len = a.unicode_len();
    let b_len = b.unicode_len();
    let mut i: usize = 0;
    loop
        invariant
            a_len == a@.len(),
            b_len == b@.len(),
            i <= a_len,
            i <= b_len,
            forall|j: int| 0 <= j < i ==> a@[j] == b@[j],
        decreases a_len - i,
    {
        proof {
            lemma_chars_le_skip(a@, b@, i as int);
        }
        if i == a_len {
            assert(a@.skip(i as int).len() == 0);
            return true;
        }
        if i == b_len {
            assert(b@.skip(i as int).len() == 0);
            return false;
        }
        let ca = a.get_char(i);
        let cb = b.get_char(i);
        assert(a@.skip(i as int)[0] == a@[i as int]);
        assert(b@.skip(i as int)[0] == b@[i as int]);
        if ca == cb {
            i += 1;
        } else {
            return (ca as u32) < (cb as u32);
        }
    }
}

/// Executable equality of two strings, by their character sequences.
pub fn str_eq(a: &str, b: &str) -> (r: bool)
    ensures
        r == (a@ == b@),
{
    let a_len = a.unicode_len();
    let b_len = b.unicode_len();
    if a_len != b_len {
        return false;
    }
    let mut i: usize = 0;
    while i < a_len
        invariant
            a_len == a@.len(),
            b_len == b@.len(),
            a_len == b_len,
            i <= a_len,
            forall|j: int| 0 <= j < i ==> a@[j] == b@[j],
        decreases a_len - i,
    {
        if a.get_char(i) != b.get_char(i) {
            return false;
        }
        i += 1;
    }
    proof {
        assert(a@ =~= b@);
    }
    true
}

/// Executable lexicographic comparison of two raw byte names.
pub fn raw_le(a: &Vec<u8>, b: &Vec<u8>) -> (r: bool)
    ensures
        r == bytes_le(a@, b@),
{
    let mut i: usize = 0;
    loop
        invariant
            i <= a@.len(),
            i <= b@.len(),
            forall|j: int| 0 <= j < i ==> a@[j] == b@[j],
        decreases a@.len() - i,
    {
        proof {
            lemma_bytes_le_skip(a@, b@, i as int);
        }
        if i == a.len() {
            assert(a@.skip(i as int).len() == 0);
            return true;
        }
        if i == b.len() {
            assert(b@.skip(i as int).len() == 0);
            return false;
        }
        let ca = a[i];
        let cb = b[i];
        assert(a@.skip(i as int)[0] == a@[i as int]);
        assert(b@.skip(i as int)[0] == b@[i as int]);
        if ca == cb {
            i += 1;
        } else {
            return ca < cb;
        }
    }
}

/// The first position whose string is not `<= s`; entries before it are `<= s`.
fn insert_position(out: &Vec<String>, s: &str) -> (j: usize)
    ensures
        j <= out@.len(),
        forall|t: int| 0 <= t < j ==> chars_le(#[trigger] out@[t]@, s@),
        j < out@.len() ==> !chars_le(out@[j as int]@, s@),
{
    let mut j: usize = 0;
    while j < out.len()
        invariant
            j <= out@.len(),
            forall|t: int| 0 <= t < j ==> chars_le(#[trigger] out@[t]@, s@),
        decreases out@.len() - j,
    {
        if !str_le(out[j].as_str(), s) {
            return j;
        }
        j += 1;
    }
    j
}

/// Sorts a vector of names lexicographically ascending; the result is the
/// canonical `sort_by` of the input's character sequences.
pub fn sort_strings(v: &Vec<String>) -> (r: Vec<String>)
    ensures
        name_views(r@) == name_views(v@).sort_by(char_seq_leq()),
{
    let ghost goal: Seq<Seq<char>> = name_views(v@);
    let mut out: Vec<String> = Vec::new();
    proof {
        assert(name_views(out@) =~= goal.take(0));
    }
    let mut k: usize = 0;
    while k < v.len()
        invariant
            k <= v@.len(),
            goal == name_views(v@),
            sorted_by(name_views(out@), char_seq_leq()),
            name_views(out@).to_multiset() == goal.take(k as int).to_multiset(),
        decreases v@.len() - k,
    {
        let s = v[k].clone();
        let j = insert_position(&out, s.as_str());
        let ghost old_views = name_views(out@);
        out.insert(j, s);
        proof {
            assert(name_views(out@) =~= old_views.insert(j as int, s@));
            old_views.insert_ensures(j as int, s@);
            assert forall|x: int, y: int| 0 <= x < y < name_views(out@).len() implies char_seq_leq()(
                name_views(out@)[x],
                name_views(out@)[y],
            ) by {
                let views = name_views(out@);
                if y < j {
                    assert(views[x] == old_views[x] && views[y] == old_views[y]);
                } else if x > j {
                    assert(views[x] == old_views[x - 1] && views[y] == old_views[y - 1]);
                } else if x < j && y == j {
                    assert(chars_le(old_views[x], s@));
                } else if x == j && y > j {
                    if j < old_views.len() {
                        lemma_chars_le_connected(old_views[j as int], s@);
                        assert(chars_le(s@, old_views[j as int]));
                        if y - 1 > j {
                            assert(char_seq_leq()(old_views[j as int], old_views[y - 1]));
                        } else {
                            lemma_chars_le_reflexive(old_views[j as int]);
                        }
                        lemma_chars_le_transitive(s@, old_views[j as int], old_views[y - 1]);
                    }
                } else if x < j && y > j {
                    assert(views[x] == old_views[x] && views[y] == old_views[y - 1]);
                }
            }
            vstd::seq_lib::to_multiset_insert(old_views, j as int, s@);
            vstd::seq_lib::to_multiset_build(goal.take(k as int), goal[k as int]);
            assert(goal.take(k + 1) =~= goal.take(k as int).push(goal[k as int]));
            assert(v@[k as int]@ == goal[k as int]);
        }
        k += 1;
    }
    proof {
        assert(goal.take(v@.len() as int) =~= goal);
        lemma_char_seq_leq_total_ordering();
        goal.lemma_sort_by_ensures(char_seq_leq());
        lemma_sorted_unique(name_views(out@), goal.sort_by(char_seq_leq()), char_seq_leq());
    }
    out
}

proof fn lemma_bytes_le_skip(a: Seq<u8>, b: Seq<u8>, i: int)
    requires
        0 <= i <= a.len(),
        0 <= i <= b.len(),
        forall|j: int| 0 <= j < i ==> a[j] == b[j],
    ensures
        bytes_le(a, b) == bytes_le(a.skip(i), b.skip(i)),
    decreases i,
{
    if i == 0 {
        assert(a.skip(0) =~= a);
        assert(b.skip(0) =~= b);
    } else {
        assert(a.len() > 0 && b.len() > 0 && a[0] == b[0]);
        lemma_bytes_le_skip(a.drop_first(), b.drop_first(), i - 1);
        assert(a.drop_first().skip(i - 1) =~= a.skip(i));
        assert(b.drop_first().skip(i - 1) =~= b.skip(i));
    }
}

} // verus!
