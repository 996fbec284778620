//! Text utilities: the stored-list codec, decimal numerals, addresses, and
//! display-unit arithmetic.

use wallet_core::address::Address;
use wallet_core::address::StringRepresentation;
use wallet_core::chain::displayed_amount;
use wallet_core::text::{decode_list, encode_list, u64_to_string};

#[test]
fn list_codec_round_trips() {
    let items = vec![
        "http://a.example".to_string(),
        "http://b.example".to_string(),
        "http://c.example".to_string(),
    ];
    let encoded = encode_list(&items);
    assert_eq!(encoded, "http://a.example;http://b.example;http://c.example".to_string());
    let decoded = decode_list(encoded.as_str());
    assert_eq!(decoded, items);
}

#[test]
fn list_decode_drops_empty_segments() {
    let decoded = decode_list(";;a;;b;");
    assert_eq!(decoded, vec!["a".to_string(), "b".to_string()]);
    let decoded = decode_list("");
    assert_eq!(decoded, Vec::<String>::new());
}

#[test]
fn decimal_numerals_are_exact() {
    assert_eq!(u64_to_string(0), "0".to_string());
    assert_eq!(u64_to_string(7), "7".to_string());
    assert_eq!(u64_to_string(42), "42".to_string());
    assert_eq!(u64_to_string(1000), "1000".to_string());
    assert_eq!(u64_to_string(u64::MAX), "18446744073709551615".to_string());
}

#[test]
fn address_prints_and_parses_back() {
    let text = "0x9858effd232b4033e47d90003d41ec34ecaeda94";
    let address = Address::parse(text).expect("a well-formed address must parse");
    assert_eq!(address.string_representation(), text.to_string());
}

#[test]
fn address_parsing_accepts_uppercase_but_prints_lowercase() {
    let address = Address::parse("0x9858EfFD232B4033E47d90003D41EC34EcaEda94")
        .expect("mixed case digits must parse");
    assert_eq!(
        address.string_representation(),
        "0x9858effd232b4033e47d90003d41ec34ecaeda94".to_string()
    );
}

#[test]
fn address_parsing_rejects_malformed_text() {
    assert!(Address::parse("").is_none());
    assert!(Address::parse("9858effd232b4033e47d90003d41ec34ecaeda94").is_none());
    assert!(Address::parse("0x9858effd232b4033e47d90003d41ec34ecaeda9").is_none());
    assert!(Address::parse("0x9858effd232b4033e47d90003d41ec34ecaeda9400").is_none());
    assert!(Address::parse("0x9858effd232b4033e47d90003d41ec34ecaeda9g").is_none());
}

#[test]
fn displayed_amount_divides_by_ten_to_the_decimals() {
    // decimals = 18, raw = 10^18: displayed amount is exactly 1.0.
    let (whole, frac) = displayed_amount(1_000_000_000_000_000_000u128, 18);
    assert_eq!(whole, 1);
    assert_eq!(frac, 0);

    let (whole, frac) = displayed_amount(1_500_000u128, 6);
    assert_eq!(whole, 1);
    assert_eq!(frac, 500_000);

    let (whole, frac) = displayed_amount(42u128, 0);
    assert_eq!(whole, 42);
    assert_eq!(frac, 0);
}
