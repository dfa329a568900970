//! Three-way comparisons on integers and on integer sequences, with the
//! lemmas that make them strict total orders.
use std::cmp::Ordering;
use vstd::prelude::*;

verus! {

/// The comparison with its two sides swapped.
pub open spec fn flip(o: Ordering) -> Ordering {
    match o {
        Ordering::Less => Ordering::Greater,
        Ordering::Equal => Ordering::Equal,
        Ordering::Greater => Ordering::Less,
    }
}

/// The natural order of two integers.
pub open spec fn int_cmp(a: int, b: int) -> Ordering {
    if a < b {
        Ordering::Less
    } else if a > b {
        Ordering::Greater
    } else {
        Ordering::Equal
    }
}

/// Lexicographic comparison of `a` and `b` from position `i` on; a proper
/// prefix orders first.
pub open spec fn lex_at(a: Seq<int>, b: Seq<int>, i: int) -> Ordering
    decreases a.len() - i,
{
    if i < 0 || i >= a.len() {
        if i >= b.len() {
            Ordering::Equal
        } else {
            Ordering::Less
        }
    } else if i >= b.len() {
        Ordering::Greater
    } else if a[i] < b[i] {
        Ordering::Less
    } else if a[i] > b[i] {
        Ordering::Greater
    } else {
        lex_at(a, b, i + 1)
    }
}

/// Lexicographic comparison of two integer sequences.
pub open spec fn lex_cmp(a: Seq<int>, b: Seq<int>) -> Ordering {
    lex_at(a, b, 0)
}

/// Bytes read as integers.
pub open spec fn byte_ints(b: Seq<u8>) -> Seq<int> {
    b.map_values(|x: u8| x as int)
}

/// Indices read as integers.
pub open spec fn index_ints(b: Seq<usize>) -> Seq<int> {
    b.map_values(|x: usize| x as int)
}

/// Swapping the sides of a lexicographic comparison flips its result.
pub proof fn lemma_lex_at_flip(a: Seq<int>, b: Seq<int>, i: int)
    requires
        0 <= i,
    ensures
        lex_at(b, a, i) == flip(lex_at(a, b, i)),
    decreases a.len() - i,
{
    if i < a.len() && i < b.len() && a[i] == b[i] {
        lemma_lex_at_flip(a, b, i + 1);
    }
}

/// Lexicographic comparison is transitive, and strict as soon as one step is.
pub proof fn lemma_lex_at_trans(a: Seq<int>, b: Seq<int>, c: Seq<int>, i: int)
    requires
        0 <= i,
        lex_at(a, b, i) != Ordering::Greater,
        lex_at(b, c, i) != Ordering::Greater,
    ensures
        lex_at(a, c, i) != Ordering::Greater,
        lex_at(a, b, i) == Ordering::Less || lex_at(b, c, i) == Ordering::Less ==> lex_at(a, c, i)
            == Ordering::Less,
        lex_at(a, b, i) == Ordering::Equal && lex_at(b, c, i) == Ordering::Equal ==> lex_at(a, c, i)
            == Ordering::Equal,
    decreases a.len() - i,
{
    if i < a.len() && i < b.len() && i < c.len() && a[i] == b[i] && b[i] == c[i] {
        lemma_lex_at_trans(a, b, c, i + 1);
    }
}

/// Two sequences compare equal from `i` on exactly when they agree from `i` on.
pub proof fn lemma_lex_at_equal(a: Seq<int>, b: Seq<int>, i: int)
    requires
        0 <= i <= a.len(),
        i <= b.len(),
    ensures
        lex_at(a, b, i) == Ordering::Equal <==> (a.len() == b.len() && forall|j: int|
            i <= j < a.len() ==> a[j] == b[j]),
    decreases a.len() - i,
{
    if i < a.len() && i < b.len() && a[i] == b[i] {
        lemma_lex_at_equal(a, b, i + 1);
    }
}

/// Compares two byte strings lexicographically.
pub fn compare_bytes(a: &[u8], b: &[u8]) -> (r: Ordering)
    ensures
        r == lex_cmp(byte_ints(a@), byte_ints(b@)),
{
    let ghost x = byte_ints(a@);
    let ghost y = byte_ints(b@);
    let mut i: usize = 0;
    while i < a.len() && i < b.len()
        invariant
            i <= a@.len(),
            i <= b@.len(),
            x == byte_ints(a@),
            y == byte_ints(b@),
            lex_at(x, y, 0) == lex_at(x, y, i as int),
        decreases a@.len() - i,
    {
        if a[i] < b[i] {
            return Ordering::Less;
        } else if a[i] > b[i] {
            return Ordering::Greater;
        }
        i = i + 1;
    }
    if i < a.len() {
        Ordering::Greater
    } else if i < b.len() {
        Ordering::Less
    } else {
        Ordering::Equal
    }
}

/// Compares two index sequences lexicographically.
pub fn compare_indices(a: &Vec<usize>, b: &Vec<usize>) -> (r: Ordering)
    ensures
        r == lex_cmp(index_ints(a@), index_ints(b@)),
{
    let ghost x = index_ints(a@);
    let ghost y = index_ints(b@);
    let mut i: usize = 0;
    while i < a.len() && i < b.len()
        invariant
            i <= a@.len(),
            i <= b@.len(),
            x == index_ints(a@),
            y == index_ints(b@),
            lex_at(x, y, 0) == lex_at(x, y, i as int),
        decreases a@.len() - i,
    {
        if a[i] < b[i] {
            return Ordering::Less;
        } else if a[i] > b[i] {
            return Ordering::Greater;
        }
        i = i + 1;
    }
    if i < a.len() {
        Ordering::Greater
    } else if i < b.len() {
        Ordering::Less
    } else {
        Ordering::Equal
    }
}

/// Compares two integers.
pub fn compare_ints(a: i128, b: i128) -> (r: Ordering)
    ensures
        r == int_cmp(a as int, b as int),
{
    if a < b {
        Ordering::Less
    } else if a > b {
        Ordering::Greater
    } else {
        Ordering::Equal
    }
}

} // verus!
