use snapcoin_db_inspector::amounts::{atomic_to_snap_string, signed_growth, signed_snap_string};
use snapcoin_db_inspector::codec::{parse_key_spec, text_from_utf8, text_in_hex, HexFault};
use snapcoin_db_inspector::index::NameIndex;
use snapcoin_db_inspector::keys::{Address, TxId};
use snapcoin_db_inspector::outputs::{decode_outputs, DecodeFault};
use snapcoin_db_inspector::rank::rank_descending;
use snapcoin_db_inspector::rules::format_atomic_8;
use snapcoin_db_inspector::text::{
    ascii_lowercase, chars_of, decimal_text, fixed_text, grouped_text, has_prefix, is_control,
    is_white_space, text_of, trimmed, trimmed_fixed_text,
};

fn key_of(last: u8) -> [u8; 32] {
    let mut key = [0u8; 32];
    key[31] = last;
    key
}

#[test]
fn decimals_are_rendered() {
    assert_eq!(decimal_text(0), "0");
    assert_eq!(decimal_text(9), "9");
    assert_eq!(decimal_text(10), "10");
    assert_eq!(decimal_text(u64::MAX), "18446744073709551615");
    assert_eq!(fixed_text(42, 8), "00000042");
    assert_eq!(fixed_text(123456789, 8), "23456789");
    assert_eq!(fixed_text(7, 0), "");
    assert_eq!(grouped_text(999), "999");
    assert_eq!(grouped_text(1000), "1,000");
    assert_eq!(grouped_text(1234567), "1,234,567");
    assert_eq!(trimmed_fixed_text(50_000_000, 8, 2), "50");
    assert_eq!(trimmed_fixed_text(0, 8, 2), "00");
    assert_eq!(trimmed_fixed_text(1, 8, 2), "00000001");
}

#[test]
fn character_classes_agree_with_std() {
    for u in 0..=0x10ffffu32 {
        if let Some(c) = char::from_u32(u) {
            assert_eq!(is_white_space(c), c.is_whitespace(), "{u:x}");
            assert_eq!(is_control(c), c.is_control(), "{u:x}");
        }
    }
}

#[test]
fn texts_are_cut_and_folded() {
    let chars = chars_of(" \u{a0}a b\t");
    assert_eq!(trimmed(&chars, 0, chars.len()), " \u{a0}a b\t".trim());
    assert_eq!(text_of(&chars, 2, 5), "a b");
    assert_eq!(ascii_lowercase("RULE-\u{c4}-001"), "rule-\u{c4}-001");
    assert!(has_prefix(&chars_of("hex:00"), &chars_of("hex:")));
    assert!(!has_prefix(&chars_of("he"), &chars_of("hex:")));
    assert!(!has_prefix(&chars_of("hey:"), &chars_of("hex:")));
}

#[test]
fn amounts_are_rendered_in_coins() {
    assert_eq!(atomic_to_snap_string(0), "0.00");
    assert_eq!(atomic_to_snap_string(1), "0.00000001");
    assert_eq!(atomic_to_snap_string(10_000_000), "0.10");
    assert_eq!(atomic_to_snap_string(150_000_000), "1.50");
    assert_eq!(atomic_to_snap_string(123_456_789_000_000), "1,234,567.89");
    assert_eq!(atomic_to_snap_string(u64::MAX), "184,467,440,737.09551615");
    assert_eq!(format_atomic_8(0), "0.00000000");
    assert_eq!(format_atomic_8(1), "0.00000001");
    assert_eq!(format_atomic_8(100_000_000), "1.00000000");
    assert_eq!(format_atomic_8(u64::MAX), "184467440737.09551615");
}

#[test]
fn different_amounts_have_different_texts() {
    let amounts = [0u64, 1, 10, 100, 99_999_999, 100_000_000, 100_000_001, u64::MAX];
    for a in amounts {
        for b in amounts {
            assert_eq!(a == b, atomic_to_snap_string(a) == atomic_to_snap_string(b));
            assert_eq!(a == b, format_atomic_8(a) == format_atomic_8(b));
        }
    }
}

#[test]
fn growth_is_held_within_its_type() {
    let pairs = [(0u64, 0u64), (5, 3), (3, 5), (0, u64::MAX), (u64::MAX, 0), (1 << 63, 1), (1, 1 << 63)];
    for (from, to) in pairs {
        let difference = to as i128 - from as i128;
        let held = difference.clamp(i64::MIN as i128, i64::MAX as i128);
        assert_eq!(signed_growth(from, to) as i128, held);
    }
    assert_eq!(signed_growth(1, 1 << 63), i64::MAX);
    assert_eq!(signed_growth(0, 1 << 63), i64::MAX);
    assert_eq!(signed_growth(u64::MAX, 0), i64::MIN);
    assert_eq!(signed_snap_string(150_000_000), "+1.50");
    assert_eq!(signed_snap_string(-1), "-0.00000001");
    assert_eq!(signed_snap_string(0), "+0.00");
    assert_eq!(signed_snap_string(i64::MIN), "-92,233,720,368.54775808");
}

#[test]
fn keys_are_named_in_base_36() {
    let a = Address { key: key_of(37) };
    assert_eq!(a.dump_base36(), "11");
    assert_eq!(Address::new_from_base36("11").unwrap().key, key_of(37));
    assert_eq!(Address::new_from_base36("+1_1").unwrap().key, key_of(37));
    assert_eq!(Address::new_from_base36("00Z").unwrap().key, key_of(35));
    assert!(Address::new_from_base36("").is_none());
    assert!(Address::new_from_base36("_1").is_none());
    assert!(Address::new_from_base36("1:1").is_none());
    assert!(Address::new_from_base36(&"z".repeat(60)).is_none());
    let t = TxId { hash: [0xff; 32] };
    assert_eq!(TxId::new_from_base36(&t.dump_base36()).unwrap().hash, [0xff; 32]);
    assert_eq!(TxId { hash: [0; 32] }.dump_base36(), "0");
    assert!(TxId::new_from_base36("no-id").is_none());
    assert!(a.same(&Address { key: key_of(37) }));
    assert!(!a.same(&Address { key: key_of(38) }));
}

#[test]
fn key_texts_name_their_keys() {
    for seed in 0..50u8 {
        let mut key = [0u8; 32];
        for (i, b) in key.iter_mut().enumerate() {
            *b = seed.wrapping_mul(31).wrapping_add((i as u8).wrapping_mul(seed));
        }
        let text = Address { key }.dump_base36();
        assert_eq!(Address::new_from_base36(&text).unwrap().key, key);
    }
}

#[test]
fn utf8_is_told_from_other_bytes() {
    assert_eq!(text_from_utf8("gr\u{fc}n".as_bytes()).unwrap(), "gr\u{fc}n");
    assert!(text_from_utf8(&[0xff, 0x00]).is_none());
    assert_eq!(text_from_utf8(&[]).unwrap(), "");
}

#[test]
fn key_specs_are_read() {
    assert_eq!(parse_key_spec("hex: 00fF ").unwrap(), vec![0x00, 0xff]);
    assert_eq!(parse_key_spec("hex:").unwrap(), Vec::<u8>::new());
    assert_eq!(parse_key_spec("utf8: a").unwrap(), b" a".to_vec());
    assert_eq!(parse_key_spec("abc").unwrap(), b"abc".to_vec());
    assert_eq!(parse_key_spec("HEX:00").unwrap(), b"HEX:00".to_vec());
    let odd = parse_key_spec("hex:0").unwrap_err();
    assert_eq!(odd.spec, "hex:0");
    assert_eq!(odd.cause, HexFault::OddLength);
    let bad = parse_key_spec("hex:00g0").unwrap_err();
    assert_eq!(bad.cause, HexFault::InvalidCharacter { c: 'g', index: 2 });
    let second = parse_key_spec("hex:0-").unwrap_err();
    assert_eq!(second.cause, HexFault::InvalidCharacter { c: '-', index: 1 });
    let wide = parse_key_spec("hex:\u{e9}").unwrap_err();
    assert_eq!(wide.cause, HexFault::InvalidCharacter { c: '\u{c3}', index: 0 });
}

#[test]
fn hexadecimal_texts_read_back() {
    let bytes: Vec<u8> = (0..=255).collect();
    let text = text_in_hex(&bytes);
    assert!(text.starts_with("000102"));
    assert!(text.ends_with("fdfeff"));
    assert_eq!(parse_key_spec(&format!("hex:{text}")).unwrap(), bytes);
}

#[test]
fn stored_outputs_are_decoded() {
    let mut bytes = vec![3u8, 0, 1, 250];
    bytes.extend_from_slice(&key_of(9));
    bytes.extend_from_slice(&[1, 251, 0x10, 0x27]);
    bytes.extend_from_slice(&key_of(8));
    bytes.push(77);
    let outputs = decode_outputs(&bytes).unwrap();
    assert_eq!(outputs.len(), 3);
    assert!(outputs[0].is_none());
    assert_eq!(outputs[1].unwrap().amount, 250);
    assert_eq!(outputs[1].unwrap().receiver.key, key_of(9));
    assert_eq!(outputs[2].unwrap().amount, 10_000);
    assert_eq!(outputs[2].unwrap().receiver.key, key_of(8));
    assert_eq!(decode_outputs(&[0]).unwrap().len(), 0);
}

#[test]
fn stored_amounts_take_every_width() {
    let heads: [(&[u8], u64); 5] = [
        (&[252, 1, 0, 1, 0], 65_537),
        (&[253, 0xff, 0xff, 0xff, 0xff, 0xff, 0xff, 0xff, 0xff], u64::MAX),
        (&[251, 5, 0], 5),
        (&[252, 5, 0, 0, 0], 5),
        (&[250], 250),
    ];
    for (head, amount) in heads {
        let mut bytes = vec![1u8, 1];
        bytes.extend_from_slice(head);
        bytes.extend_from_slice(&key_of(1));
        assert_eq!(decode_outputs(&bytes).unwrap()[0].unwrap().amount, amount);
    }
}

#[test]
fn malformed_outputs_are_refused() {
    for bytes in [&[][..], &[1][..], &[1, 2][..], &[254, 0][..], &[255][..], &[251, 1][..], &[1, 1, 254][..]] {
        match decode_outputs(bytes) {
            Err(DecodeFault::Malformed(text)) => assert!(!text.is_empty()),
            _ => panic!("{bytes:?}"),
        }
    }
    let mut short = vec![1u8, 1, 5];
    short.extend_from_slice(&[0; 31]);
    assert!(matches!(decode_outputs(&short), Err(DecodeFault::Malformed(_))));
}

#[test]
fn absurd_numbers_of_outputs_are_refused() {
    let huge = [253u8, 0xff, 0xff, 0xff, 0xff, 0xff, 0xff, 0xff, 0xff];
    assert!(matches!(decode_outputs(&huge), Err(DecodeFault::TooManyOutputs)));
    let many = [252u8, 1, 0, 1, 0];
    assert!(matches!(decode_outputs(&many), Err(DecodeFault::Malformed(_))));
    let few = [251u8, 0xff, 0xff];
    assert!(matches!(decode_outputs(&few), Err(DecodeFault::Malformed(_))));
    let mut enough = vec![252u8, 1, 0, 1, 0];
    enough.extend(std::iter::repeat(0u8).take(65_537));
    assert_eq!(decode_outputs(&enough).unwrap().len(), 65_537);
}

#[test]
fn places_are_ranked_by_value_then_place() {
    assert_eq!(rank_descending(&vec![]), Vec::<usize>::new());
    assert_eq!(rank_descending(&vec![5, 9, 5, 0, 9]), vec![1, 4, 0, 2, 3]);
}

#[test]
fn names_keep_their_places() {
    let mut index = NameIndex::new();
    assert_eq!(index.place_of("b"), 0);
    assert_eq!(index.place_of("a"), 1);
    assert_eq!(index.place_of("b"), 0);
    assert_eq!(index.len(), 2);
    assert_eq!(index.name_at(1), "a");
}
