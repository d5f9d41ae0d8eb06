use syncbot::guid::{read_uuid, reread};
use syncbot::key::ct_eq_bytes;
use syncbot::text::{decimal, lower, read_integer, trim};
use syncbot::{version, ClaimId, Key, KeyError, KeyVerifier, LeaseId, MissionId, ResourceRef, RobotId};

#[test]
fn roundtrip() {
    let r = RobotId::from(42);
    assert_eq!(r.raw(), 42);
    assert_eq!(u64::from(r), 42);
    assert_eq!(r.to_text(), "42");
}

#[test]
fn distinct_types_share_repr() {
    let a = ClaimId::new(7);
    let b = LeaseId::new(7);
    assert_eq!(a.raw(), b.raw());
}

#[test]
fn identifiers_default_to_zero() {
    assert_eq!(RobotId::default().raw(), 0);
    assert_eq!(MissionId::default(), MissionId::from(0));
    assert_eq!(ClaimId::default().to_text(), "0");
    assert_eq!(u64::from(LeaseId::default()), 0);
    assert_eq!(LeaseId::new(u64::MAX).to_text(), "18446744073709551615");
}

#[test]
fn version_is_string() {
    assert_eq!(version(), "0.0.2");
}

#[test]
fn parses_numeric() {
    assert_eq!(Key::parse("1234", None), Ok(Key::Numeric(1234)));
    assert_eq!(Key::parse("  42 ", None), Ok(Key::Numeric(42)));
}

#[test]
fn parses_a_password() {
    assert_eq!(Key::parse("pass:secret", None), Ok(Key::Pass("secret".into())));
    for secret in ["a=b", "with space", "sym!bol", "colon:s", "did:pass=legacy"] {
        assert_eq!(
            Key::parse(&format!("pass:{secret}"), None),
            Ok(Key::Pass(secret.into())),
            "pass: must carry {secret:?} verbatim"
        );
    }
    assert_eq!(Key::parse("pass:", None), Err(KeyError::Malformed));
}

#[test]
fn the_old_did_pass_form_is_gone() {
    // Colons part a decentralized identifier, so this one does not parse.
    assert_eq!(Key::did_text("did:pass=secret"), Some("did:pass=secret"));
    assert_eq!(Key::parse("did:pass=secret", None), Err(KeyError::Malformed));
}

#[test]
fn rejects_did_key_and_unknown_methods() {
    assert_eq!(
        Key::parse(
            "did:key:z6MkhaXgBZDvotDkL5257faiztiGiC2QtKLGpbnnEGta2doK",
            Some("key")
        ),
        Err(KeyError::Unsupported("did:key".into()))
    );
    assert_eq!(
        Key::parse("did:whatever:x", Some("whatever")),
        Err(KeyError::Unsupported("did:whatever".into()))
    );
    assert_eq!(Key::parse("did:key=z6Mk", None), Err(KeyError::Malformed));
    assert_eq!(Key::parse("did:", None), Err(KeyError::Malformed));
}

#[test]
fn rejects_malformed() {
    assert_eq!(Key::parse("hunter2", None), Err(KeyError::Malformed));
    assert_eq!(Key::parse("did:pass", None), Err(KeyError::Malformed));
    assert_eq!(Key::parse("pass", None), Err(KeyError::Malformed));
    assert_eq!(Key::parse("", None), Err(KeyError::Malformed));
}

#[test]
fn matches_is_exact() {
    assert!(Key::Numeric(1).matches(&Key::Numeric(1)));
    assert!(!Key::Numeric(1).matches(&Key::Numeric(2)));
    assert!(Key::Pass("x".into()).matches(&Key::Pass("x".into())));
    assert_eq!(Key::Pass("x".into()).to_text(), "pass:x");
    assert!(!Key::Numeric(1).matches(&Key::Pass("1".into())));
}

#[test]
fn constant_time_matches_correct_for_all_cases() {
    assert!(Key::Pass("s3cret".into()).matches(&Key::Pass("s3cret".into())));
    assert!(!Key::Pass("s3cret".into()).matches(&Key::Pass("s3creX".into())));
    assert!(!Key::Pass("short".into()).matches(&Key::Pass("longer-pass".into())));
    assert!(!Key::Pass("".into()).matches(&Key::Pass("x".into())));
    assert!(Key::Numeric(u64::MAX).matches(&Key::Numeric(u64::MAX)));
    assert!(!Key::Numeric(0).matches(&Key::Numeric(u64::MAX)));
}

#[test]
fn only_did_texts_are_handed_on() {
    assert_eq!(Key::did_text(" did:web:x "), Some("did:web:x"));
    assert_eq!(Key::did_text("12"), None);
    assert_eq!(Key::did_text("pass:did:web:x"), None);
}

#[test]
fn key_material_is_tagged_by_kind() {
    assert_eq!(Key::Numeric(0x0102).material(), vec![b'n', 2, 1, 0, 0, 0, 0, 0, 0]);
    assert_eq!(Key::Pass("ab".into()).material(), vec![b'p', b'a', b'b']);
    assert_ne!(Key::Numeric(1234).material(), Key::Pass("1234".into()).material());
    assert!(ct_eq_bytes(&[1, 2], &[1, 2]));
    assert!(!ct_eq_bytes(&[1, 2], &[1, 3]));
    assert!(!ct_eq_bytes(&[1], &[1, 2]));
}

#[test]
fn a_key_that_is_written_is_read_back() {
    for key in [Key::Numeric(0), Key::Numeric(u64::MAX), Key::Pass("a b".into())] {
        assert_eq!(Key::parse(&key.to_text(), None), Ok(key.clone()));
    }
    // A trailing blank is trimmed away.
    assert_eq!(Key::parse(&Key::Pass("a ".into()).to_text(), None), Ok(Key::Pass("a".into())));
}

#[test]
fn a_verifier_keeps_the_hash() {
    let hash = |m: Vec<u8>| if m.len() > 2 { Some(format!("{m:?}")) } else { None };
    let v = KeyVerifier::derive(&Key::Pass("abc".into()), hash).unwrap();
    assert_eq!(v, KeyVerifier("[112, 97, 98, 99]".into()));
    let check = |stored: String, m: Vec<u8>| stored == format!("{m:?}");
    assert!(v.verify(&Key::Pass("abc".into()), check));
    assert!(!v.verify(&Key::Pass("abd".into()), check));
    assert_eq!(KeyVerifier::derive(&Key::Pass("a".into()), hash), Err(KeyError::Malformed));
}

#[test]
fn resource_references_are_read_and_written() {
    let id = 0x550e8400_e29b_41d4_a716_446655440000u128;
    let text = "550e8400-e29b-41d4-a716-446655440000";
    assert_eq!(ResourceRef::from_text(&format!("  {text} ")), Some(ResourceRef::Uuid(id)));
    assert_eq!(ResourceRef::Uuid(id).to_text(), text);
    assert_eq!(ResourceRef::from_text("{550E8400-E29B-41D4-A716-446655440000}"), Some(ResourceRef::Uuid(id)));
    assert_eq!(ResourceRef::from_text("550e8400e29b41d4a716446655440000"), Some(ResourceRef::Uuid(id)));
    assert_eq!(ResourceRef::from_text(" 205 "), Some(ResourceRef::Numeric(205)));
    assert_eq!(ResourceRef::Numeric(205).to_text(), "205");
    assert_eq!(ResourceRef::from_text(&ResourceRef::Numeric(u64::MAX).to_text()), Some(ResourceRef::Numeric(u64::MAX)));
    assert_eq!(ResourceRef::from_text("-1"), None);
    assert_eq!(ResourceRef::from_text("zone"), None);
    assert_eq!(ResourceRef::from_number(7), Some(ResourceRef::Numeric(7)));
    assert_eq!(ResourceRef::from_number(-7), None);
}

#[test]
fn an_identifier_that_is_written_is_read_back() {
    for id in [0u128, 1, u128::MAX, 0x0123456789abcdef_fedcba9876543210] {
        assert_eq!(reread(id), Some(id));
    }
    assert_eq!(ResourceRef::Uuid(1).to_text(), "00000000-0000-0000-0000-000000000001");
}

#[test]
fn texts_are_trimmed_lowered_and_read() {
    assert_eq!(trim(" \t a b\u{3000}\r\n"), "a b");
    assert_eq!(trim("   "), "");
    for c in ['\u{85}', '\u{a0}', '\u{1680}', '\u{2000}', '\u{200a}', '\u{2028}', '\u{202f}'] {
        assert_eq!(trim(&format!("{c}a{c}")), "a");
    }
    assert_eq!(trim("\u{200b}a"), "\u{200b}a");
    assert_eq!(lower("AbC-Ä"), "abc-Ä");
    assert_eq!(read_integer("+12"), Some(12));
    assert_eq!(read_integer("18446744073709551615"), Some(u64::MAX));
    assert_eq!(read_integer("18446744073709551616"), None);
    assert_eq!(read_integer("+"), None);
    assert_eq!(read_integer(""), None);
    assert_eq!(read_integer("1_000"), None);
    assert_eq!(decimal(0), "0");
    assert_eq!(decimal(1205), "1205");
}

#[test]
fn every_character_is_space_or_not_as_listed() {
    let listed = |n: u32| {
        matches!(
            n,
            0x9..=0xd
                | 0x20
                | 0x85
                | 0xa0
                | 0x1680
                | 0x2000..=0x200a
                | 0x2028
                | 0x2029
                | 0x202f
                | 0x205f
                | 0x3000
        )
    };
    for n in 0..=0x10ffffu32 {
        if let Some(c) = char::from_u32(n) {
            assert_eq!(c.is_whitespace(), listed(n), "{n:x}");
        }
    }
}

#[test]
fn the_case_of_letters_does_not_matter() {
    let text = "67e55044-10b1-426f-9247-bb680e5fe0c8";
    let id = Some(0x67e5504410b1426f9247bb680e5fe0c8u128);
    assert_eq!(read_uuid(text), id);
    assert_eq!(read_uuid(&text.to_uppercase()), id);
    assert_eq!(read_uuid(&format!("URN:UUID:{}", text.to_uppercase())), id);
    assert_eq!(read_uuid(&format!("{{{text}}}")), id);
    assert_eq!(read_uuid("no identifier"), None);
    assert_eq!(
        ResourceRef::from_text(&text.to_uppercase()),
        ResourceRef::from_text(text)
    );
}
