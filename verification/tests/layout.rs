use escrow_core::escrow::EscrowRecord;
use escrow_core::layout::RECORD_LEN;
use escrow_core::layout::decode_record;
use escrow_core::layout::encode_record;

fn sample_record() -> EscrowRecord {
    EscrowRecord {
        seed: 123,
        maker: 1,
        mint_a: 100,
        mint_b: 200,
        receive: 40,
        unlock_time: 400,
        bump: 255,
    }
}

#[test]
fn record_round_trips_through_bytes() {
    let rec = sample_record();
    let bytes = encode_record(&rec);
    assert_eq!(bytes.len(), RECORD_LEN);
    assert_eq!(decode_record(&bytes), Some(rec));
}

#[test]
fn negative_unlock_time_round_trips() {
    let mut rec = sample_record();
    rec.unlock_time = -5;
    let bytes = encode_record(&rec);
    assert_eq!(decode_record(&bytes), Some(rec));
}

#[test]
fn decode_rejects_wrong_length() {
    let rec = sample_record();
    let mut bytes = encode_record(&rec);
    bytes.pop();
    assert_eq!(decode_record(&bytes), None);
}

#[test]
fn decode_rejects_wrong_discriminator() {
    let rec = sample_record();
    let mut bytes = encode_record(&rec);
    let first = bytes[0];
    bytes[0] = first.wrapping_add(1);
    assert_eq!(decode_record(&bytes), None);
}

#[test]
fn decode_rejects_nonzero_address_padding() {
    let rec = sample_record();
    let mut bytes = encode_record(&rec);
    // The upper bytes of the maker's 32-byte address field must be zero.
    bytes[30] = 7;
    assert_eq!(decode_record(&bytes), None);
}

#[test]
fn encoding_is_stable_for_equal_records() {
    let a = encode_record(&sample_record());
    let b = encode_record(&sample_record());
    assert_eq!(a, b);
}
