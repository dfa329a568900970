use std::cmp::Ordering;

use sql_to_kg::decode::{BIGINT_OID, INTEGER_OID, TEXT_OID, UUID_OID, VARCHAR_OID};
use sql_to_kg::errors::Error;
use sql_to_kg::primary_key::PrimaryKey;

fn composite(parts: Vec<PrimaryKey>) -> PrimaryKey {
    PrimaryKey::from_parts(parts)
}

#[test]
fn variant_order_precedes_value_order() {
    let text = PrimaryKey::String("zzz".to_string());
    let small = PrimaryKey::I32(i32::MIN);
    let big = PrimaryKey::I64(i64::MIN);
    let uuid = PrimaryKey::UUID(0);
    let comp = composite(vec![PrimaryKey::I32(0), PrimaryKey::I32(0)]);
    let keys = [text, small, big, uuid, comp];
    for i in 0..keys.len() {
        for j in 0..keys.len() {
            assert_eq!(keys[i].compare(&keys[j]), i.cmp(&j));
        }
    }
}

#[test]
fn values_of_one_variant_order_naturally() {
    assert_eq!(PrimaryKey::I32(-5).compare(&PrimaryKey::I32(3)), Ordering::Less);
    assert_eq!(PrimaryKey::I64(7).compare(&PrimaryKey::I64(7)), Ordering::Equal);
    assert_eq!(PrimaryKey::UUID(u128::MAX).compare(&PrimaryKey::UUID(1)), Ordering::Greater);
    let a = PrimaryKey::String("Z".to_string());
    let b = PrimaryKey::String("a".to_string());
    assert_eq!(a.compare(&b), Ordering::Less);
    let e = PrimaryKey::String("\u{e9}".to_string());
    let z = PrimaryKey::String("z".to_string());
    assert_eq!(e.compare(&z), Ordering::Greater);
    let short = PrimaryKey::String("ab".to_string());
    let long = PrimaryKey::String("abc".to_string());
    assert_eq!(short.compare(&long), Ordering::Less);
}

#[test]
fn composites_order_element_by_element() {
    let a = composite(vec![PrimaryKey::I32(1), PrimaryKey::String("a".to_string())]);
    let b = composite(vec![PrimaryKey::I32(1), PrimaryKey::String("b".to_string())]);
    let c = composite(vec![PrimaryKey::I32(0), PrimaryKey::String("z".to_string())]);
    let d = composite(vec![
        PrimaryKey::I32(1),
        PrimaryKey::String("a".to_string()),
        PrimaryKey::I32(0),
    ]);
    assert_eq!(a.compare(&b), Ordering::Less);
    assert_eq!(c.compare(&a), Ordering::Less);
    assert_eq!(a.compare(&d), Ordering::Less);
    assert_eq!(b.compare(&d), Ordering::Greater);
    assert_eq!(a.compare(&a.clone()), Ordering::Equal);
}

#[test]
fn order_matches_derived_ord() {
    let keys = vec![
        PrimaryKey::String(String::new()),
        PrimaryKey::String("b".to_string()),
        PrimaryKey::I32(-1),
        PrimaryKey::I32(4),
        PrimaryKey::I64(-9),
        PrimaryKey::UUID(12),
        composite(vec![PrimaryKey::I32(1), PrimaryKey::I32(2)]),
        composite(vec![PrimaryKey::I32(1), PrimaryKey::I32(2), PrimaryKey::I32(0)]),
    ];
    for a in &keys {
        for b in &keys {
            assert_eq!(a.compare(b), a.cmp(b));
        }
    }
}

#[test]
fn single_part_is_not_wrapped() {
    let k = composite(vec![PrimaryKey::I32(9)]);
    assert_eq!(k, PrimaryKey::I32(9));
    let k = composite(vec![PrimaryKey::I32(9), PrimaryKey::I32(8)]);
    assert_eq!(k, PrimaryKey::Composite(vec![PrimaryKey::I32(9), PrimaryKey::I32(8)]));
}

#[test]
fn conversion_from_parts() {
    assert_eq!(PrimaryKey::from(vec![PrimaryKey::I32(9)]), PrimaryKey::I32(9));
    assert_eq!(
        PrimaryKey::from(vec![PrimaryKey::I32(9), PrimaryKey::UUID(1)]),
        PrimaryKey::Composite(vec![PrimaryKey::I32(9), PrimaryKey::UUID(1)])
    );
}

#[test]
fn conversions_pick_the_variant() {
    assert_eq!(PrimaryKey::from("x".to_string()), PrimaryKey::String("x".to_string()));
    assert_eq!(PrimaryKey::from(3i32), PrimaryKey::I32(3));
    assert_eq!(PrimaryKey::from(3i64), PrimaryKey::I64(3));
}

#[test]
fn display_forms() {
    assert_eq!(PrimaryKey::String("ab c".to_string()).to_display(), "ab c");
    assert_eq!(PrimaryKey::I32(-42).to_display(), "-42");
    assert_eq!(PrimaryKey::I64(1234567890123).to_display(), "1234567890123");
    assert_eq!(
        PrimaryKey::UUID(0x0123456789abcdef0123456789abcdef).to_display(),
        "01234567-89ab-cdef-0123-456789abcdef"
    );
    assert_eq!(PrimaryKey::UUID(0).to_display(), "00000000-0000-0000-0000-000000000000");
    let k = composite(vec![
        PrimaryKey::UUID(0x3995db4d2b2d4c0e8c5feeeb1efbd315),
        PrimaryKey::UUID(0x8b1756b758b840cc81b346ba68c8e964),
    ]);
    assert_eq!(
        k.to_display(),
        "3995db4d-2b2d-4c0e-8c5f-eeeb1efbd315, 8b1756b7-58b8-40cc-81b3-46ba68c8e964"
    );
}

#[test]
fn decodes_integers_big_endian() {
    assert_eq!(PrimaryKey::from_sql(INTEGER_OID, &[0, 0, 1, 0]), Ok(PrimaryKey::I32(256)));
    assert_eq!(PrimaryKey::from_sql(INTEGER_OID, &[0xff, 0xff, 0xff, 0xfe]), Ok(PrimaryKey::I32(-2)));
    assert_eq!(
        PrimaryKey::from_sql(BIGINT_OID, &[0x80, 0, 0, 0, 0, 0, 0, 0]),
        Ok(PrimaryKey::I64(i64::MIN))
    );
    assert_eq!(
        PrimaryKey::from_sql(BIGINT_OID, &[0, 0, 0, 0, 0, 0, 0x30, 0x39]),
        Ok(PrimaryKey::I64(12345))
    );
    assert_eq!(PrimaryKey::from_sql(INTEGER_OID, &[0, 1, 0]), Err(Error::InvalidValue(INTEGER_OID)));
    assert_eq!(PrimaryKey::from_sql(BIGINT_OID, &[0, 0, 0, 1]), Err(Error::InvalidValue(BIGINT_OID)));
}

#[test]
fn decodes_uuids_and_text() {
    let bytes: Vec<u8> = (1u8..=16).collect();
    assert_eq!(
        PrimaryKey::from_sql(UUID_OID, &bytes),
        Ok(PrimaryKey::UUID(0x0102030405060708090a0b0c0d0e0f10))
    );
    assert_eq!(PrimaryKey::from_sql(UUID_OID, &bytes[..15]), Err(Error::InvalidValue(UUID_OID)));
    assert_eq!(
        PrimaryKey::from_sql(TEXT_OID, "h\u{e9}llo".as_bytes()),
        Ok(PrimaryKey::String("h\u{e9}llo".to_string()))
    );
    assert_eq!(
        PrimaryKey::from_sql(VARCHAR_OID, b"abc"),
        Ok(PrimaryKey::String("abc".to_string()))
    );
    assert_eq!(PrimaryKey::from_sql(TEXT_OID, &[0xff, 0x41]), Err(Error::InvalidValue(TEXT_OID)));
}

#[test]
fn rejects_unknown_types() {
    assert_eq!(PrimaryKey::from_sql(16, &[1]), Err(Error::UnknownType(16)));
}
