use biver::biver_result::{error, warning, BiverErrorSeverity};
use biver::hash::xxh3_128;
use biver::nickname::{max_length, new_nickname};
use biver::strutil::{dec_string, join_with, pad_left, pad_right, spaces};
use biver::version_id::VersionId;

#[test]
fn file_name_is_the_hyphenated_hex_form() {
    let id = VersionId { bits: 0x0123456789abcdef0123456789abcdef };
    assert_eq!(id.to_file_name(), "01234567-89ab-cdef-0123-456789abcdef");
    let zero = VersionId { bits: 0 };
    assert_eq!(zero.to_file_name(), "00000000-0000-0000-0000-000000000000");
}

#[test]
fn display_form_matches_known_encodings() {
    assert_eq!(VersionId { bits: 1 }.bs58(), "1111111111111112");
    assert_eq!(
        VersionId { bits: 0x0123456789abcdef0123456789abcdef }.bs58(),
        "99dn6s7bZoVpjzYciVNgN"
    );
}

#[test]
fn display_form_round_trips() {
    for bits in [0u128, 1, 57, 58, 0x0123456789abcdef0123456789abcdef, u128::MAX] {
        let id = VersionId { bits };
        assert_eq!(VersionId::from_bs58(&id.bs58()), Some(id));
    }
}

#[test]
fn display_form_rejects_other_text() {
    assert!(VersionId::from_bs58("not base58 at all!").is_none());
    // Valid base58, but not sixteen bytes.
    assert!(VersionId::from_bs58("2").is_none());
}

#[test]
fn fresh_identifiers_differ() {
    let a = VersionId::new();
    let b = VersionId::new();
    assert_ne!(a.bits, b.bits);
}

#[test]
fn nicknames_are_deterministic_and_fixed_width() {
    assert_eq!(new_nickname(0), "babababa");
    assert_eq!(new_nickname(0xfeedbeef), (new_nickname(0xfeedbeef)));
    assert_ne!(new_nickname(1), new_nickname(2));
    assert_eq!(max_length(), 8);
    for fp in [0u128, 1, 0xffff_ffff, u128::MAX] {
        assert_eq!(new_nickname(fp).chars().count(), 8);
    }
}

#[test]
fn nickname_reads_the_low_bytes() {
    // Low byte 0x01: consonant 'd', vowel 'a'; the three high bytes are zero.
    assert_eq!(new_nickname(1), "dabababa");
}

#[test]
fn fingerprint_agrees_with_the_hash_crate() {
    for input in [&b""[..], b"a", b"hello world", &[0u8; 1024][..]] {
        assert_eq!(xxh3_128(input), xxhash_rust::xxh3::xxh3_128(input));
    }
}

#[test]
fn fingerprint_separates_different_content() {
    assert_ne!(xxh3_128(b"one"), xxh3_128(b"two"));
}

#[test]
fn errors_carry_their_severity_and_message() {
    let e = error::<()>("disk gone").unwrap_err();
    assert!(matches!(e.severity, BiverErrorSeverity::Error));
    assert_eq!(e.error_message, "disk gone");
    assert_eq!(e.to_message(), "ERROR: disk gone");
    let w = warning::<()>("odd but fine").unwrap_err();
    assert!(matches!(w.severity, BiverErrorSeverity::Warning));
    assert_eq!(w.to_message(), "WARNING: odd but fine");
}

#[test]
fn string_utilities_behave() {
    assert_eq!(spaces(0), "");
    assert_eq!(spaces(3), "   ");
    assert_eq!(pad_left("ab", 5), "   ab");
    assert_eq!(pad_left("abcdef", 3), "abcdef");
    assert_eq!(pad_right("ab", 5), "ab   ");
    assert_eq!(dec_string(0), "0");
    assert_eq!(dec_string(7), "7");
    assert_eq!(dec_string(12345), "12345");
    assert_eq!(dec_string(u64::MAX), "18446744073709551615");
    let names = vec![String::from("alpha"), String::from("beta"), String::from("gamma")];
    assert_eq!(join_with(&names, ", "), "alpha, beta, gamma");
    assert_eq!(join_with(&vec![String::from("solo")], ", "), "solo");
    assert_eq!(join_with(&Vec::new(), ", "), "");
}
