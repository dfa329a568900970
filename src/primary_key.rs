//! Key values: one primary or foreign key value, or a composite of them, with
//! the total order that the node numbering rests on.
use crate::order::{
    byte_ints, compare_bytes, compare_ints, flip, int_cmp, lemma_lex_at_flip, lemma_lex_at_trans,
    lex_cmp,
};
use std::cmp::Ordering;
use vstd::prelude::*;
use crate::text::{decimal, int_text, uuid_string, uuid_text};
use vstd::string::*;
use vstd::utf8::encode_utf8;

verus! {

/// One primary or foreign key value, or a composite of two or three of them.
///
/// Values of different variants order by variant, in the order of declaration;
/// values of one variant by their contents: text by its UTF-8 bytes, integers
/// and UUIDs numerically, composites element by element.
#[derive(Debug, PartialEq, Eq, PartialOrd, Ord, Hash)]
pub enum PrimaryKey {
    /// A textual key.
    String(String),
    /// A 32-bit integer key.
    I32(i32),
    /// A 64-bit integer key.
    I64(i64),
    /// A UUID key, as its 128-bit big-endian value.
    UUID(u128),
    /// A key made of several columns, in column order.
    Composite(Vec<PrimaryKey>),
}

/// The rank of a key's variant in the order.
pub open spec fn tag(k: PrimaryKey) -> int {
    match k {
        PrimaryKey::String(_) => 0,
        PrimaryKey::I32(_) => 1,
        PrimaryKey::I64(_) => 2,
        PrimaryKey::UUID(_) => 3,
        PrimaryKey::Composite(_) => 4,
    }
}

/// The bytes by which text orders: its UTF-8 encoding.
pub open spec fn text_ints(s: Seq<char>) -> Seq<int> {
    byte_ints(encode_utf8(s))
}

/// The total order on keys.
pub open spec fn key_cmp(a: PrimaryKey, b: PrimaryKey) -> Ordering
    decreases a, 0int,
{
    match (a, b) {
        (PrimaryKey::String(x), PrimaryKey::String(y)) => lex_cmp(text_ints(x@), text_ints(y@)),
        (PrimaryKey::I32(x), PrimaryKey::I32(y)) => int_cmp(x as int, y as int),
        (PrimaryKey::I64(x), PrimaryKey::I64(y)) => int_cmp(x as int, y as int),
        (PrimaryKey::UUID(x), PrimaryKey::UUID(y)) => int_cmp(x as int, y as int),
        (PrimaryKey::Composite(x), PrimaryKey::Composite(y)) => keys_cmp(x@, y@, 0),
        _ => int_cmp(tag(a), tag(b)),
    }
}

/// Lexicographic comparison of two key sequences from position `i` on.
pub open spec fn keys_cmp(a: Seq<PrimaryKey>, b: Seq<PrimaryKey>, i: int) -> Ordering
    decreases a, a.len() - i,
{
    if i < 0 || i >= a.len() {
        if i >= b.len() {
            Ordering::Equal
        } else {
            Ordering::Less
        }
    } else if i >= b.len() {
        Ordering::Greater
    } else {
        let c = key_cmp(a[i], b[i]);
        if c != Ordering::Equal {
            c
        } else {
            keys_cmp(a, b, i + 1)
        }
    }
}

/// `k` is the key made of `parts`: the part itself when there is one, else
/// the composite of them.
pub open spec fn is_key_of_parts(k: PrimaryKey, parts: Seq<PrimaryKey>) -> bool {
    if parts.len() == 1 {
        k == parts[0]
    } else {
        k matches PrimaryKey::Composite(v) && v@ == parts
    }
}

/// The display form of a key: text, integers and UUIDs as their literal
/// value, a composite as its elements joined by `", "`.
pub open spec fn key_text(k: PrimaryKey) -> Seq<char>
    decreases k, 0int,
{
    match k {
        PrimaryKey::String(s) => s@,
        PrimaryKey::I32(i) => decimal(i as int),
        PrimaryKey::I64(i) => decimal(i as int),
        PrimaryKey::UUID(u) => uuid_text(u),
        PrimaryKey::Composite(v) => {
            if v@.len() == 0 {
                Seq::empty()
            } else {
                key_text(v@[0]) + parts_text(v@, 1)
            }
        },
    }
}

/// The display forms of the keys of `s` from position `i` on, each after `", "`.
pub open spec fn parts_text(s: Seq<PrimaryKey>, i: int) -> Seq<char>
    decreases s, s.len() - i,
{
    if i < 0 || i >= s.len() {
        Seq::empty()
    } else {
        ", "@ + key_text(s[i]) + parts_text(s, i + 1)
    }
}

/// Swapping the sides of a key comparison flips its result.
pub proof fn lemma_key_cmp_flip(a: PrimaryKey, b: PrimaryKey)
    ensures
        key_cmp(b, a) == flip(key_cmp(a, b)),
    decreases a, 0int,
{
    match (a, b) {
        (PrimaryKey::String(x), PrimaryKey::String(y)) => {
            lemma_lex_at_flip(text_ints(x@), text_ints(y@), 0);
        },
        (PrimaryKey::Composite(x), PrimaryKey::Composite(y)) => {
            lemma_keys_cmp_flip(x@, y@, 0);
        },
        _ => {},
    }
}

/// Swapping the sides of a key sequence comparison flips its result.
pub proof fn lemma_keys_cmp_flip(a: Seq<PrimaryKey>, b: Seq<PrimaryKey>, i: int)
    requires
        0 <= i,
    ensures
        keys_cmp(b, a, i) == flip(keys_cmp(a, b, i)),
    decreases a, a.len() - i,
{
    if i < a.len() && i < b.len() {
        lemma_key_cmp_flip(a[i], b[i]);
        if key_cmp(a[i], b[i]) == Ordering::Equal {
            lemma_keys_cmp_flip(a, b, i + 1);
        }
    }
}

/// Key comparison is transitive, strict as soon as one step is, and its
/// equality is transitive.
pub proof fn lemma_key_cmp_trans(a: PrimaryKey, b: PrimaryKey, c: PrimaryKey)
    requires
        key_cmp(a, b) != Ordering::Greater,
        key_cmp(b, c) != Ordering::Greater,
    ensures
        key_cmp(a, c) != Ordering::Greater,
        key_cmp(a, b) == Ordering::Less || key_cmp(b, c) == Ordering::Less ==> key_cmp(a, c)
            == Ordering::Less,
        key_cmp(a, b) == Ordering::Equal && key_cmp(b, c) == Ordering::Equal ==> key_cmp(a, c)
            == Ordering::Equal,
    decreases a, 0int,
{
    match (a, b, c) {
        (PrimaryKey::String(x), PrimaryKey::String(y), PrimaryKey::String(z)) => {
            lemma_lex_at_trans(text_ints(x@), text_ints(y@), text_ints(z@), 0);
        },
        (PrimaryKey::Composite(x), PrimaryKey::Composite(y), PrimaryKey::Composite(z)) => {
            lemma_keys_cmp_trans(x@, y@, z@, 0);
        },
        _ => {},
    }
}

/// Transitivity of key sequence comparison, as for single keys.
pub proof fn lemma_keys_cmp_trans(
    a: Seq<PrimaryKey>,
    b: Seq<PrimaryKey>,
    c: Seq<PrimaryKey>,
    i: int,
)
    requires
        0 <= i,
        keys_cmp(a, b, i) != Ordering::Greater,
        keys_cmp(b, c, i) != Ordering::Greater,
    ensures
        keys_cmp(a, c, i) != Ordering::Greater,
        keys_cmp(a, b, i) == Ordering::Less || keys_cmp(b, c, i) == Ordering::Less ==> keys_cmp(
            a,
            c,
            i,
        ) == Ordering::Less,
        keys_cmp(a, b, i) == Ordering::Equal && keys_cmp(b, c, i) == Ordering::Equal ==> keys_cmp(
            a,
            c,
            i,
        ) == Ordering::Equal,
    decreases a, a.len() - i,
{
    if i < a.len() && i < b.len() && i < c.len() {
        lemma_key_cmp_trans(a[i], b[i], c[i]);
        if key_cmp(a[i], b[i]) == Ordering::Equal && key_cmp(b[i], c[i]) == Ordering::Equal {
            lemma_keys_cmp_trans(a, b, c, i + 1);
        }
    }
}

/// Two key sequences of one length whose elements compare equal pairwise
/// compare equal.
pub proof fn lemma_keys_cmp_equal(a: Seq<PrimaryKey>, b: Seq<PrimaryKey>, i: int)
    requires
        0 <= i,
        a.len() == b.len(),
        forall|j: int| i <= j < a.len() ==> key_cmp(a[j], #[trigger] b[j]) == Ordering::Equal,
    ensures
        keys_cmp(a, b, i) == Ordering::Equal,
    decreases a.len() - i,
{
    if i < a.len() {
        lemma_keys_cmp_equal(a, b, i + 1);
    }
}

/// The order of keys: a key of an earlier variant orders first; two text
/// keys order by their UTF-8 bytes, two integer or UUID keys numerically,
/// and two composites element by element.
pub proof fn lemma_key_order(a: PrimaryKey, b: PrimaryKey)
    ensures
        tag(a) < tag(b) ==> key_cmp(a, b) == Ordering::Less,
        a is String && b is String ==> key_cmp(a, b) == lex_cmp(
            text_ints(a->String_0@),
            text_ints(b->String_0@),
        ),
        a is I32 && b is I32 ==> key_cmp(a, b) == int_cmp(a->I32_0 as int, b->I32_0 as int),
        a is I64 && b is I64 ==> key_cmp(a, b) == int_cmp(a->I64_0 as int, b->I64_0 as int),
        a is UUID && b is UUID ==> key_cmp(a, b) == int_cmp(a->UUID_0 as int, b->UUID_0 as int),
        a is Composite && b is Composite ==> key_cmp(a, b) == keys_cmp(
            a->Composite_0@,
            b->Composite_0@,
            0,
        ),
{
}

/// Two composites whose elements agree up to position `i` and differ there
/// order as their elements at `i` do; when one runs out first, it orders first.
pub proof fn lemma_keys_cmp_lexicographic(a: Seq<PrimaryKey>, b: Seq<PrimaryKey>, i: int)
    requires
        0 <= i <= a.len(),
        i <= b.len(),
        forall|j: int| 0 <= j < i ==> key_cmp(#[trigger] a[j], b[j]) == Ordering::Equal,
    ensures
        i < a.len() && i < b.len() && key_cmp(a[i], b[i]) != Ordering::Equal ==> keys_cmp(a, b, 0)
            == key_cmp(a[i], b[i]),
        i == a.len() && i < b.len() ==> keys_cmp(a, b, 0) == Ordering::Less,
        i < a.len() && i == b.len() ==> keys_cmp(a, b, 0) == Ordering::Greater,
        i == a.len() && i == b.len() ==> keys_cmp(a, b, 0) == Ordering::Equal,
{
    lemma_keys_cmp_skip_prefix(a, b, i);
}

proof fn lemma_keys_cmp_skip_prefix(a: Seq<PrimaryKey>, b: Seq<PrimaryKey>, k: int)
    requires
        0 <= k <= a.len(),
        k <= b.len(),
        forall|j: int| 0 <= j < k ==> key_cmp(#[trigger] a[j], b[j]) == Ordering::Equal,
    ensures
        keys_cmp(a, b, 0) == keys_cmp(a, b, k),
    decreases k,
{
    if k > 0 {
        lemma_keys_cmp_skip_prefix(a, b, k - 1);
        assert(key_cmp(a[k - 1], b[k - 1]) == Ordering::Equal);
    }
}

/// Every key compares equal to itself.
pub proof fn lemma_key_cmp_refl(a: PrimaryKey)
    ensures
        key_cmp(a, a) == Ordering::Equal,
{
    lemma_key_cmp_flip(a, a);
}

impl PrimaryKey {
    /// The key made of the values of a key's columns, in column order: the
    /// value itself for a single column, their composite otherwise.
    pub fn from_parts(parts: Vec<PrimaryKey>) -> (r: PrimaryKey)
        requires
            parts@.len() >= 1,
        ensures
            is_key_of_parts(r, parts@),
    {
        if parts.len() == 1 {
            let mut parts = parts;
            parts.pop().unwrap()
        } else {
            PrimaryKey::Composite(parts)
        }
    }

    /// Compares two keys in the total order of keys.
    pub fn compare(&self, other: &PrimaryKey) -> (r: Ordering)
        ensures
            r == key_cmp(*self, *other),
        decreases self,
    {
        match (self, other) {
            (PrimaryKey::String(x), PrimaryKey::String(y)) => {
                compare_bytes(x.as_str().as_bytes(), y.as_str().as_bytes())
            },
            (PrimaryKey::I32(x), PrimaryKey::I32(y)) => compare_ints(*x as i128, *y as i128),
            (PrimaryKey::I64(x), PrimaryKey::I64(y)) => compare_ints(*x as i128, *y as i128),
            (PrimaryKey::UUID(x), PrimaryKey::UUID(y)) => {
                if *x < *y {
                    Ordering::Less
                } else if *x > *y {
                    Ordering::Greater
                } else {
                    Ordering::Equal
                }
            },
            (PrimaryKey::Composite(x), PrimaryKey::Composite(y)) => {
                let mut i: usize = 0;
                while i < x.len() && i < y.len()
                    invariant
                        *self == PrimaryKey::Composite(*x),
                        *other == PrimaryKey::Composite(*y),
                        i <= x@.len(),
                        i <= y@.len(),
                        keys_cmp(x@, y@, 0) == keys_cmp(x@, y@, i as int),
                    decreases x@.len() - i,
                {
                    proof {
                        assert(decreases_to!(*self => x@[i as int]));
                    }
                    let c = x[i].compare(&y[i]);
                    match c {
                        Ordering::Equal => {},
                        _ => return c,
                    }
                    i = i + 1;
                }
                if i < x.len() {
                    Ordering::Greater
                } else if i < y.len() {
                    Ordering::Less
                } else {
                    Ordering::Equal
                }
            },
            _ => compare_ints(self.tag() as i128, other.tag() as i128),
        }
    }

    /// The display form of the key.
    pub fn to_display(&self) -> (r: String)
        ensures
            r@ == key_text(*self),
        decreases self,
    {
        match self {
            PrimaryKey::String(s) => s.clone(),
            PrimaryKey::I32(i) => int_text(*i as i128),
            PrimaryKey::I64(i) => int_text(*i as i128),
            PrimaryKey::UUID(u) => uuid_string(*u),
            PrimaryKey::Composite(parts) => {
                if parts.len() == 0 {
                    return String::new();
                }
                proof {
                    assert(decreases_to!(*self => self->Composite_0));
                    assert(decreases_to!(*parts => parts@));
                    assert(decreases_to!(parts@ => parts@[0]));
                }
                let mut out = parts[0].to_display();
                let mut i: usize = 1;
                while i < parts.len()
                    invariant
                        *self == PrimaryKey::Composite(*parts),
                        1 <= i <= parts@.len(),
                        out@ + parts_text(parts@, i as int) == key_text(*self),
                    decreases parts@.len() - i,
                {
                    proof {
                        assert(decreases_to!(*self => self->Composite_0));
                        assert(decreases_to!(*parts => parts@));
                        assert(decreases_to!(parts@ => parts@[i as int]));
                    }
                    let part = parts[i].to_display();
                    proof {
                        assert(out@ + ", "@ + part@ + parts_text(parts@, i + 1) =~= out@
                            + parts_text(parts@, i as int));
                    }
                    out.append(", ");
                    out.append(part.as_str());
                    i = i + 1;
                }
                proof {
                    assert(out@ + parts_text(parts@, i as int) =~= out@);
                }
                out
            },
        }
    }

    /// The rank of the key's variant in the order.
    pub fn tag(&self) -> (r: u8)
        ensures
            r as int == tag(*self),
    {
        match self {
            PrimaryKey::String(_) => 0,
            PrimaryKey::I32(_) => 1,
            PrimaryKey::I64(_) => 2,
            PrimaryKey::UUID(_) => 3,
            PrimaryKey::Composite(_) => 4,
        }
    }
}

impl Clone for PrimaryKey {
    fn clone(&self) -> (r: PrimaryKey)
        ensures
            key_cmp(*self, r) == Ordering::Equal,
        decreases self,
    {
        match self {
            PrimaryKey::String(s) => {
                proof {
                    lemma_key_cmp_refl(*self);
                }
                PrimaryKey::String(s.clone())
            },
            PrimaryKey::I32(i) => PrimaryKey::I32(*i),
            PrimaryKey::I64(i) => PrimaryKey::I64(*i),
            PrimaryKey::UUID(u) => PrimaryKey::UUID(*u),
            PrimaryKey::Composite(parts) => {
                let mut copies: Vec<PrimaryKey> = Vec::new();
                let mut i: usize = 0;
                while i < parts.len()
                    invariant
                        *self == PrimaryKey::Composite(*parts),
                        i <= parts@.len(),
                        copies@.len() == i,
                        forall|j: int| 0 <= j < i ==> key_cmp(parts@[j], #[trigger] copies@[j])
                            == Ordering::Equal,
                    decreases parts@.len() - i,
                {
                    proof {
                        assert(decreases_to!(*self => self->Composite_0));
                        assert(decreases_to!(*parts => parts@));
                        assert(decreases_to!(parts@ => parts@[i as int]));
                    }
                    copies.push(parts[i].clone());
                    i = i + 1;
                }
                proof {
                    lemma_keys_cmp_equal(parts@, copies@, 0);
                }
                PrimaryKey::Composite(copies)
            },
        }
    }
}

impl From<String> for PrimaryKey {
    fn from(s: String) -> (r: PrimaryKey) {
        PrimaryKey::String(s)
    }
}

impl vstd::std_specs::convert::FromSpecImpl<String> for PrimaryKey {
    open spec fn obeys_from_spec() -> bool {
        true
    }

    open spec fn from_spec(s: String) -> PrimaryKey {
        PrimaryKey::String(s)
    }
}

impl From<Vec<PrimaryKey>> for PrimaryKey {
    fn from(parts: Vec<PrimaryKey>) -> (r: PrimaryKey) {
        if parts.len() == 1 {
            let mut parts = parts;
            parts.pop().unwrap()
        } else {
            PrimaryKey::Composite(parts)
        }
    }
}

impl vstd::std_specs::convert::FromSpecImpl<Vec<PrimaryKey>> for PrimaryKey {
    open spec fn obeys_from_spec() -> bool {
        true
    }

    open spec fn from_spec(parts: Vec<PrimaryKey>) -> PrimaryKey {
        if parts@.len() == 1 {
            parts@[0]
        } else {
            PrimaryKey::Composite(parts)
        }
    }
}

impl From<i32> for PrimaryKey {
    fn from(i: i32) -> (r: PrimaryKey) {
        PrimaryKey::I32(i)
    }
}

impl vstd::std_specs::convert::FromSpecImpl<i32> for PrimaryKey {
    open spec fn obeys_from_spec() -> bool {
        true
    }

    open spec fn from_spec(i: i32) -> PrimaryKey {
        PrimaryKey::I32(i)
    }
}

impl From<i64> for PrimaryKey {
    fn from(i: i64) -> (r: PrimaryKey) {
        PrimaryKey::I64(i)
    }
}

impl vstd::std_specs::convert::FromSpecImpl<i64> for PrimaryKey {
    open spec fn obeys_from_spec() -> bool {
        true
    }

    open spec fn from_spec(i: i64) -> PrimaryKey {
        PrimaryKey::I64(i)
    }
}

} // verus!
