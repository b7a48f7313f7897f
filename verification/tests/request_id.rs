//! Request identifiers: tags, round trips and refusals.

use bits::request_id::{
    decode, decode_crockford_base32, encode, encode_crockford_base32, encode_with_fixed_random,
    pack_tag, unpack_tag, DecodeError, DecodedId, EncodeError,
};
use bits::time::Timestamp;

const EPOCH_SECS: i64 = 1_735_689_600;

fn at(secs: i64) -> Timestamp {
    Timestamp { secs, nanos: 0 }
}

fn epoch() -> Timestamp {
    at(EPOCH_SECS)
}

#[test]
fn base37_roundtrips_representative_tags() {
    for tag in ["0", "a", "z", "00", "az", "zz", "000", "abc", "zzz"] {
        let packed = pack_tag(tag).unwrap();
        assert_eq!(unpack_tag(packed).unwrap(), tag);
    }
}

#[test]
fn base37_rejects_empty_tag() {
    assert_eq!(pack_tag(""), Err(EncodeError::EmptyTag));
}

#[test]
fn base37_rejects_too_long_tag() {
    assert_eq!(pack_tag("abcd"), Err(EncodeError::TagTooLong { actual: 4 }));
}

#[test]
fn base37_rejects_uppercase_tag() {
    assert_eq!(
        pack_tag("AB"),
        Err(EncodeError::InvalidTagCharacter { ch: 'A' })
    );
}

#[test]
fn base37_rejects_non_alphanumeric_tag() {
    assert_eq!(
        pack_tag("a-b"),
        Err(EncodeError::InvalidTagCharacter { ch: '-' })
    );
}

#[test]
fn base37_rejects_out_of_range_packed_value() {
    assert_eq!(
        unpack_tag(50_653),
        Err(DecodeError::TagPackedValueOutOfRange { value: 50_653 })
    );
}

#[test]
fn base37_rejects_embedded_sentinel() {
    let packed = 10 * 37 * 37 + 36 * 37 + 12;
    assert_eq!(unpack_tag(packed), Err(DecodeError::EmbeddedSentinel));
}

#[test]
fn base37_rejects_all_sentinels() {
    assert_eq!(unpack_tag(37 * 37 * 37 - 1), Err(DecodeError::EmptyTag));
}

#[test]
fn base37_packs_exact_values() {
    assert_eq!(pack_tag("000"), Ok(0));
    assert_eq!(pack_tag("a"), Ok(10 * 37 * 37 + 36 * 37 + 36));
    assert_eq!(pack_tag("zzz"), Ok(35 * 37 * 37 + 35 * 37 + 35));
}

#[test]
fn roundtrip_known_vector() {
    // 2025-01-02T03:04:05Z
    let timestamp = at(EPOCH_SECS + 86_400 + 3 * 3600 + 4 * 60 + 5);
    let id =
        encode_with_fixed_random("bol", "dev", 42, timestamp, [0x01, 0x23, 0x45, 0x67, 0x89])
            .unwrap();
    assert_eq!(id, "017sg4fag005yaa01a04hmasw9");

    let decoded = decode(&id).unwrap();
    assert_eq!(
        decoded,
        DecodedId {
            version: 1,
            site: "bol".to_string(),
            env: "dev".to_string(),
            timestamp,
            broker_slot: 42,
            random: [0x01, 0x23, 0x45, 0x67, 0x89],
        }
    );
}

#[test]
fn roundtrip_epoch_timestamp() {
    let id = encode_with_fixed_random("b", "d", 0, epoch(), [0, 1, 2, 3, 4]).unwrap();
    assert_eq!(decode(&id).unwrap().timestamp, epoch());
}

#[test]
fn roundtrip_timestamp_u32_ceiling() {
    let timestamp = at(EPOCH_SECS + u32::MAX as i64);
    let id = encode_with_fixed_random("b", "d", 0, timestamp, [4, 3, 2, 1, 0]).unwrap();
    assert_eq!(decode(&id).unwrap().timestamp, timestamp);
}

#[test]
fn roundtrip_broker_slot_boundaries() {
    for broker_slot in [0, u16::MAX] {
        let id = encode_with_fixed_random("b", "d", broker_slot, epoch(), [9, 8, 7, 6, 5]).unwrap();
        assert_eq!(decode(&id).unwrap().broker_slot, broker_slot);
    }
}

#[test]
fn rejects_wrong_length() {
    assert_eq!(
        decode("017sg4fag00000001a04hmasw"),
        Err(DecodeError::WrongLength { actual: 25 })
    );
    assert_eq!(
        decode("017sg4fag00000001a04hmasw90"),
        Err(DecodeError::WrongLength { actual: 27 })
    );
}

#[test]
fn rejects_disallowed_crockford_characters() {
    for ch in ['i', 'l', 'o', 'u', 'A', '!'] {
        let mut id = "017sg4fag00000001a04hmasw9".to_string();
        id.replace_range(0..1, &ch.to_string());
        assert_eq!(
            decode(&id),
            Err(DecodeError::DisallowedCrockfordCharacter { ch })
        );
    }
}

#[test]
fn rejects_base32_values_beyond_sixteen_bytes() {
    assert_eq!(
        decode("z17sg4fag00000001a04hmasw9"),
        Err(DecodeError::Base32ValueOutOfRange)
    );
}

#[test]
fn rejects_unknown_version_with_offending_byte() {
    let mut id =
        encode_with_fixed_random("bol", "dev", 42, epoch(), [0x01, 0x23, 0x45, 0x67, 0x89])
            .unwrap();
    id.replace_range(0..2, "02");
    assert_eq!(decode(&id), Err(DecodeError::UnknownVersion { version: 2 }));
}

#[test]
fn encode_rejects_timestamp_before_custom_epoch() {
    let timestamp = at(EPOCH_SECS - 1);
    assert_eq!(
        encode_with_fixed_random("b", "d", 0, timestamp, [0, 0, 0, 0, 0]),
        Err(EncodeError::TimestampBeforeCustomEpoch)
    );
}

#[test]
fn encode_rejects_timestamp_beyond_the_ceiling() {
    assert_eq!(
        encode_with_fixed_random("b", "d", 0, at(EPOCH_SECS + u32::MAX as i64 + 1), [0; 5]),
        Err(EncodeError::TimestampTooLarge)
    );
}

#[test]
fn random_ids_keep_their_fields() {
    let first = encode("bol", "dev", 42, epoch()).unwrap();
    let second = encode("bol", "dev", 42, epoch()).unwrap();
    let a = decode(&first).unwrap();
    let b = decode(&second).unwrap();
    assert_eq!((a.site.as_str(), a.env.as_str(), a.broker_slot), ("bol", "dev", 42));
    assert_eq!(a.timestamp, b.timestamp);
    assert_ne!(a.random, b.random);
}

#[test]
fn every_packed_tag_reads_back() {
    for value in 0..u16::MAX {
        if let Ok(tag) = unpack_tag(value) {
            assert_eq!(pack_tag(&tag), Ok(value));
        }
    }
}

#[test]
fn id_errors_read_as_sentences() {
    assert_eq!(
        DecodeError::WrongLength { actual: 25 }.to_text(),
        "request ID must be exactly 26 characters, got 25"
    );
    assert_eq!(
        DecodeError::DisallowedCrockfordCharacter { ch: '\'' }.to_text(),
        "request ID contains disallowed Crockford base32 character '\\''"
    );
    assert_eq!(
        DecodeError::TagPackedValueOutOfRange { value: 50_653 }.to_text(),
        "packed tag value 50653 is outside the base37 range"
    );
    assert_eq!(
        DecodeError::UnknownVersion { version: 2 }.to_text(),
        "unknown request ID version byte 2"
    );
    assert_eq!(
        EncodeError::InvalidTagCharacter { ch: 'A' }.to_text(),
        "tag contains invalid character 'A'"
    );
    assert_eq!(
        EncodeError::TagTooLong { actual: 4 }.to_text(),
        "tag must be at most 3 characters, got 4"
    );
}

#[test]
fn texts_sort_as_their_bytes_do() {
    let mut ids: Vec<String> = Vec::new();
    for secs in [0, 1, 31, 32, 86_400, 1_000_000_000] {
        for slot in [0, 1, 300] {
            for random in [[0; 5], [0, 0, 0, 0, 31], [0xff; 5]] {
                ids.push(
                    encode_with_fixed_random("bol", "dev", slot, at(EPOCH_SECS + secs), random)
                        .unwrap(),
                );
            }
        }
    }
    assert!(ids.windows(2).all(|w| w[0] < w[1]));
    for id in &ids {
        assert_eq!(id.len(), 26);
        assert!(id.starts_with('0'));
        assert!(id.chars().all(|c| "0123456789abcdefghjkmnpqrstvwxyz".contains(c)));
    }
}

#[test]
fn sixteen_bytes_keep_their_value_and_order_as_text() {
    let samples = [
        [0u8; 16],
        [0, 0, 0, 0, 0, 0, 0, 0, 0, 0, 0, 0, 0, 0, 0, 31],
        [0, 0, 0, 0, 0, 0, 0, 0, 0, 0, 0, 0, 0, 0, 0, 32],
        [0x7f; 16],
        [0x80; 16],
        [0xff; 16],
    ];
    let texts: Vec<String> = samples.iter().map(encode_crockford_base32).collect();
    assert_eq!(texts[1], "0000000000000000000000000z");
    assert_eq!(texts[5], "7zzzzzzzzzzzzzzzzzzzzzzzzz");
    for (bytes, text) in samples.iter().zip(&texts) {
        assert_eq!(decode_crockford_base32(text).as_ref(), Ok(bytes));
    }
    assert!(texts.windows(2).all(|w| w[0] < w[1]));
}
