//! Decoding of one column value, as the database sends it, into a key.
use crate::errors::Error;
use crate::primary_key::PrimaryKey;
use crate::text::utf8_string;
use vstd::prelude::*;
use vstd::utf8::{encode_utf8, valid_utf8};

verus! {

/// The object identifier of the `varchar` type.
pub const VARCHAR_OID: u32 = 1043;

/// The object identifier of the `text` type.
pub const TEXT_OID: u32 = 25;

/// The object identifier of the `integer` type.
pub const INTEGER_OID: u32 = 23;

/// The object identifier of the `bigint` type.
pub const BIGINT_OID: u32 = 20;

/// The object identifier of the `uuid` type.
pub const UUID_OID: u32 = 2950;

/// `256` to the power `n`.
pub open spec fn pow256(n: nat) -> nat
    decreases n,
{
    if n == 0 {
        1
    } else {
        256 * pow256((n - 1) as nat)
    }
}

/// The unsigned big-endian value of `b`.
pub open spec fn be_value(b: Seq<u8>) -> nat
    decreases b.len(),
{
    if b.len() == 0 {
        0
    } else {
        be_value(b.drop_last()) * 256 + b.last() as nat
    }
}

/// The two's complement big-endian value of `b`.
pub open spec fn be_signed(b: Seq<u8>) -> int {
    if be_value(b) * 2 >= pow256(b.len()) {
        be_value(b) - pow256(b.len())
    } else {
        be_value(b) as int
    }
}

/// Relies on `uuid::Uuid::from_slice` and `uuid::Uuid::as_u128`: a UUID is
/// read from exactly 16 bytes, in big-endian order.
#[verifier::external_body]
fn uuid_value(b: &[u8]) -> (r: Option<u128>)
    ensures
        r is Some <==> b@.len() == 16,
        r matches Some(v) ==> v as nat == be_value(b@),
{
    uuid::Uuid::from_slice(b).ok().map(|u| u.as_u128())
}

/// The unsigned big-endian value of at most eight bytes.
fn read_be(b: &[u8]) -> (r: u64)
    requires
        b@.len() <= 8,
    ensures
        r as nat == be_value(b@),
        (r as nat) < pow256(b@.len()),
{
    let mut acc: u64 = 0;
    let mut i: usize = 0;
    proof {
        reveal_with_fuel(pow256, 9);
    }
    while i < b.len()
        invariant
            b@.len() <= 8,
            i <= b@.len(),
            acc as nat == be_value(b@.subrange(0, i as int)),
            (acc as nat) < pow256(i as nat),
            pow256(8) == 18446744073709551616,
        decreases b@.len() - i,
    {
        proof {
            assert(b@.subrange(0, i + 1).drop_last() =~= b@.subrange(0, i as int));
            lemma_pow256_mono(i as nat, 7);
            assert(acc * 256 + 255 < pow256((i + 1) as nat)) by (nonlinear_arith)
                requires
                    (acc as nat) < pow256(i as nat),
                    pow256((i + 1) as nat) == 256 * pow256(i as nat),
            ;
        }
        acc = acc * 256 + b[i] as u64;
        i = i + 1;
    }
    proof {
        assert(b@.subrange(0, i as int) =~= b@);
    }
    acc
}

proof fn lemma_pow256_mono(i: nat, j: nat)
    requires
        i <= j,
    ensures
        pow256(i) <= pow256(j),
    decreases j - i,
{
    if i < j {
        lemma_pow256_mono(i, (j - 1) as nat);
    }
}

impl PrimaryKey {
    /// Decodes one column value from the database's binary form, by the
    /// object identifier of its type: `text` and `varchar` as text,
    /// `integer` as a 32-bit and `bigint` as a 64-bit big-endian two's
    /// complement integer, `uuid` as 16 big-endian bytes. Another type is an
    /// `UnknownType` error; bytes that are not a value of the type are an
    /// `InvalidValue` error.
    pub fn from_sql(oid: u32, bytes: &[u8]) -> (r: Result<PrimaryKey, Error>)
        ensures
            oid == TEXT_OID || oid == VARCHAR_OID ==> match r {
                Ok(k) => valid_utf8(bytes@) && (k matches PrimaryKey::String(s) && encode_utf8(s@)
                    == bytes@),
                Err(e) => !valid_utf8(bytes@) && e == Error::InvalidValue(oid),
            },
            oid == INTEGER_OID ==> match r {
                Ok(k) => bytes@.len() == 4 && (k matches PrimaryKey::I32(x) && x as int == be_signed(
                    bytes@,
                )),
                Err(e) => bytes@.len() != 4 && e == Error::InvalidValue(oid),
            },
            oid == BIGINT_OID ==> match r {
                Ok(k) => bytes@.len() == 8 && (k matches PrimaryKey::I64(x) && x as int == be_signed(
                    bytes@,
                )),
                Err(e) => bytes@.len() != 8 && e == Error::InvalidValue(oid),
            },
            oid == UUID_OID ==> match r {
                Ok(k) => bytes@.len() == 16 && (k matches PrimaryKey::UUID(v) && v as nat
                    == be_value(bytes@)),
                Err(e) => bytes@.len() != 16 && e == Error::InvalidValue(oid),
            },
            oid != TEXT_OID && oid != VARCHAR_OID && oid != INTEGER_OID && oid != BIGINT_OID && oid
                != UUID_OID ==> r == Err::<PrimaryKey, Error>(Error::UnknownType(oid)),
    {
        proof {
            reveal_with_fuel(pow256, 9);
        }
        if oid == TEXT_OID || oid == VARCHAR_OID {
            match utf8_string(bytes) {
                Some(s) => Ok(PrimaryKey::String(s)),
                None => Err(Error::InvalidValue(oid)),
            }
        } else if oid == INTEGER_OID {
            if bytes.len() != 4 {
                return Err(Error::InvalidValue(oid));
            }
            let v = read_be(bytes);
            if v >= 2147483648 {
                Ok(PrimaryKey::I32((v as i64 - 4294967296) as i32))
            } else {
                Ok(PrimaryKey::I32(v as i32))
            }
        } else if oid == BIGINT_OID {
            if bytes.len() != 8 {
                return Err(Error::InvalidValue(oid));
            }
            let v = read_be(bytes);
            if v >= 9223372036854775808 {
                Ok(PrimaryKey::I64((v as i128 - 18446744073709551616) as i64))
            } else {
                Ok(PrimaryKey::I64(v as i64))
            }
        } else if oid == UUID_OID {
            match uuid_value(bytes) {
                Some(v) => Ok(PrimaryKey::UUID(v)),
                None => Err(Error::InvalidValue(oid)),
            }
        } else {
            Err(Error::UnknownType(oid))
        }
    }
}

} // verus!
