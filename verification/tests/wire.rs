use ledger_snapshot::key::Key;
use ledger_snapshot::reader::{read_record, Value};
use ledger_snapshot::scalar::{get_bounded, get_flag, signed_from_wire, signed_to_wire};
use ledger_snapshot::varint::{put_varint, read_varint};
use ledger_snapshot::writer::{
    put_bool_field, put_bytes, put_bytes_field, put_fixed64_field, put_opt_varint_field,
    put_varint_field,
};

fn varint(v: u64) -> Vec<u8> {
    let mut out: Vec<u8> = Vec::new();
    put_varint(&mut out, v);
    out
}

fn sample_values() -> Vec<u64> {
    vec![
        0,
        1,
        127,
        128,
        300,
        16383,
        16384,
        u32::MAX as u64,
        (u32::MAX as u64) + 1,
        1 << 56,
        (1 << 63) - 1,
        1 << 63,
        u64::MAX,
    ]
}

#[test]
fn varint_of_300_is_two_bytes() {
    assert_eq!(varint(300), vec![0xac, 0x02]);
    assert_eq!(read_varint(&[0xac, 0x02], 0), Some((300, 2)));
}

#[test]
fn varint_of_small_values_is_one_byte() {
    assert_eq!(varint(0), vec![0x00]);
    assert_eq!(varint(1), vec![0x01]);
    assert_eq!(varint(127), vec![0x7f]);
    assert_eq!(varint(128), vec![0x80, 0x01]);
}

#[test]
fn varint_of_max_is_ten_bytes() {
    let mut expected = vec![0xffu8; 9];
    expected.push(0x01);
    assert_eq!(varint(u64::MAX), expected);
    assert_eq!(read_varint(&expected, 0), Some((u64::MAX, 10)));
}

#[test]
fn varint_appends_and_keeps_what_was_there() {
    let mut out: Vec<u8> = vec![9, 9];
    put_varint(&mut out, 300);
    assert_eq!(out, vec![9, 9, 0xac, 0x02]);
}

#[test]
fn varint_agrees_with_prost() {
    for v in sample_values() {
        let mut theirs: Vec<u8> = Vec::new();
        prost::encoding::encode_varint(v, &mut theirs);
        assert_eq!(varint(v), theirs);
        assert_eq!(theirs.len(), prost::encoding::encoded_len_varint(v));
        let mut rest: &[u8] = &theirs;
        assert_eq!(prost::encoding::decode_varint(&mut rest).ok(), Some(v));
        assert_eq!(read_varint(&theirs, 0), Some((v, theirs.len())));
    }
}

#[test]
fn varint_round_trips_with_trailing_bytes() {
    for v in sample_values() {
        let mut bytes = varint(v);
        let len = bytes.len();
        bytes.push(0xff);
        bytes.push(0x00);
        assert_eq!(read_varint(&bytes, 0), Some((v, len)));
    }
}

#[test]
fn varint_is_read_at_a_position() {
    let bytes = vec![0xff, 0xac, 0x02, 0x05];
    assert_eq!(read_varint(&bytes, 1), Some((300, 3)));
    assert_eq!(read_varint(&bytes, 3), Some((5, 4)));
    assert_eq!(read_varint(&bytes, 4), None);
}

#[test]
fn varint_refuses_empty_and_truncated_input() {
    assert_eq!(read_varint(&[], 0), None);
    assert_eq!(read_varint(&[0x80], 0), None);
    assert_eq!(read_varint(&[0xff, 0xff, 0xff], 0), None);
}

#[test]
fn varint_refuses_more_than_64_bits() {
    let mut tenth_is_two = vec![0xffu8; 9];
    tenth_is_two.push(0x02);
    assert_eq!(read_varint(&tenth_is_two, 0), None);
    let mut eleven = vec![0x80u8; 10];
    eleven.push(0x01);
    assert_eq!(read_varint(&eleven, 0), None);
}

#[test]
fn varint_accepts_padded_encodings() {
    assert_eq!(read_varint(&[0x80, 0x00], 0), Some((0, 2)));
    assert_eq!(read_varint(&[0x81, 0x80, 0x00], 0), Some((1, 3)));
}

#[test]
fn varint_field_has_key_then_value() {
    let mut out: Vec<u8> = Vec::new();
    put_varint_field(&mut out, 1, 150);
    assert_eq!(out, vec![0x08, 0x96, 0x01]);
}

#[test]
fn bytes_field_has_key_length_and_payload() {
    let mut out: Vec<u8> = Vec::new();
    put_bytes_field(&mut out, 2, b"testing");
    assert_eq!(out, vec![0x12, 0x07, 0x74, 0x65, 0x73, 0x74, 0x69, 0x6e, 0x67]);
}

#[test]
fn fixed64_field_is_little_endian() {
    let mut out: Vec<u8> = Vec::new();
    put_fixed64_field(&mut out, 3, 0x0102_0304_0506_0708);
    assert_eq!(out, vec![0x19, 0x08, 0x07, 0x06, 0x05, 0x04, 0x03, 0x02, 0x01]);
}

#[test]
fn bool_field_is_zero_or_one() {
    let mut out: Vec<u8> = Vec::new();
    put_bool_field(&mut out, 4, true);
    put_bool_field(&mut out, 5, false);
    assert_eq!(out, vec![0x20, 0x01, 0x28, 0x00]);
}

#[test]
fn optional_field_is_written_only_when_present() {
    let mut out: Vec<u8> = Vec::new();
    put_opt_varint_field(&mut out, 1, None);
    assert!(out.is_empty());
    put_opt_varint_field(&mut out, 1, Some(0));
    assert_eq!(out, vec![0x08, 0x00]);
}

#[test]
fn large_field_number_takes_a_longer_key() {
    let mut out: Vec<u8> = Vec::new();
    put_varint_field(&mut out, 16, 1);
    assert_eq!(out, vec![0x80, 0x01, 0x01]);
    let rec = read_record(&out).unwrap();
    assert_eq!(rec.varint(16), Some(1));
}

#[test]
fn put_bytes_appends() {
    let mut out: Vec<u8> = vec![1];
    put_bytes(&mut out, &[2, 3]);
    assert_eq!(out, vec![1, 2, 3]);
}

#[test]
fn record_is_split_into_fields() {
    let mut out: Vec<u8> = Vec::new();
    put_varint_field(&mut out, 1, 150);
    put_bytes_field(&mut out, 2, b"ab");
    put_fixed64_field(&mut out, 3, 7);
    let rec = read_record(&out).unwrap();
    assert_eq!(rec.entries.len(), 3);
    assert_eq!(rec.entries[0].number, 1);
    assert!(matches!(rec.entries[0].value, Value::Varint(150)));
    assert_eq!(rec.entries[1].number, 2);
    assert!(matches!(rec.entries[1].value, Value::Bytes(b) if b == b"ab"));
    assert_eq!(rec.entries[2].number, 3);
    assert!(matches!(rec.entries[2].value, Value::Fixed64(7)));
    assert_eq!(rec.varint(1), Some(150));
    assert_eq!(rec.bytes(2), Some(&b"ab"[..]));
    assert_eq!(rec.fixed64(3), Some(7));
}

#[test]
fn empty_input_is_an_empty_record() {
    let rec = read_record(&[]).unwrap();
    assert!(rec.entries.is_empty());
    assert_eq!(rec.varint(1), None);
}

#[test]
fn last_occurrence_of_a_scalar_wins() {
    let mut out: Vec<u8> = Vec::new();
    put_varint_field(&mut out, 1, 5);
    put_varint_field(&mut out, 2, 6);
    put_varint_field(&mut out, 1, 7);
    let rec = read_record(&out).unwrap();
    assert_eq!(rec.varint(1), Some(7));
    assert_eq!(rec.all_varints(1), vec![5, 7]);
    assert_eq!(rec.all_varints(3), Vec::<u64>::new());
}

#[test]
fn repeated_fields_keep_wire_order() {
    let mut out: Vec<u8> = Vec::new();
    put_bytes_field(&mut out, 4, b"one");
    put_varint_field(&mut out, 1, 5);
    put_bytes_field(&mut out, 4, b"two");
    put_bytes_field(&mut out, 5, b"other");
    let rec = read_record(&out).unwrap();
    assert_eq!(rec.all_bytes(4), vec![&b"one"[..], &b"two"[..]]);
    assert_eq!(rec.bytes(4), Some(&b"two"[..]));
}

#[test]
fn field_of_another_wire_type_is_not_found() {
    let mut out: Vec<u8> = Vec::new();
    put_bytes_field(&mut out, 1, b"x");
    put_fixed64_field(&mut out, 2, 1);
    let rec = read_record(&out).unwrap();
    assert_eq!(rec.varint(1), None);
    assert_eq!(rec.varint(2), None);
    assert_eq!(rec.fixed64(1), None);
    assert_eq!(rec.bytes(2), None);
}

#[test]
fn four_byte_fields_are_read() {
    let bytes = vec![0x0d, 0x78, 0x56, 0x34, 0x12, 0x10, 0x01];
    let rec = read_record(&bytes).unwrap();
    assert_eq!(rec.entries.len(), 2);
    assert!(matches!(rec.entries[0].value, Value::Fixed32(0x1234_5678)));
    assert_eq!(rec.varint(2), Some(1));
}

#[test]
fn ill_formed_records_are_refused() {
    // field number 0
    assert!(read_record(&[0x00, 0x01]).is_none());
    // group wire types
    assert!(read_record(&[0x0b]).is_none());
    assert!(read_record(&[0x0c]).is_none());
    // wire types 6 and 7
    assert!(read_record(&[0x0e, 0x00]).is_none());
    assert!(read_record(&[0x0f, 0x00]).is_none());
    // key without value
    assert!(read_record(&[0x08]).is_none());
    // length beyond the input
    assert!(read_record(&[0x12, 0x03, 0x01, 0x02]).is_none());
    // eight bytes promised, seven there
    assert!(read_record(&[0x19, 1, 2, 3, 4, 5, 6, 7]).is_none());
    // four bytes promised, three there
    assert!(read_record(&[0x0d, 1, 2, 3]).is_none());
    // key above 32 bits
    assert!(read_record(&[0x88, 0x80, 0x80, 0x80, 0x10, 0x00]).is_none());
}

#[test]
fn largest_key_is_accepted() {
    // field number 2^29 - 1, varint
    let bytes = vec![0xf8, 0xff, 0xff, 0xff, 0x0f, 0x2a];
    let rec = read_record(&bytes).unwrap();
    assert_eq!(rec.entries[0].number, 0x1fff_ffff);
    assert_eq!(rec.varint(0x1fff_ffff), Some(42));
}

#[test]
fn flags_and_bounds_are_checked() {
    let mut out: Vec<u8> = Vec::new();
    put_varint_field(&mut out, 1, 0);
    put_varint_field(&mut out, 2, 1);
    put_varint_field(&mut out, 3, 2);
    let rec = read_record(&out).unwrap();
    assert_eq!(get_flag(&rec, 1), Some(false));
    assert_eq!(get_flag(&rec, 2), Some(true));
    assert_eq!(get_flag(&rec, 3), None);
    assert_eq!(get_flag(&rec, 4), None);
    assert_eq!(get_bounded(&rec, 3, 2), Some(2));
    assert_eq!(get_bounded(&rec, 3, 1), None);
}

#[test]
fn signed_numbers_use_twos_complement() {
    assert_eq!(signed_to_wire(0), 0);
    assert_eq!(signed_to_wire(5), 5);
    assert_eq!(signed_to_wire(-1), u64::MAX);
    assert_eq!(signed_to_wire(i64::MIN), 1 << 63);
    assert_eq!(signed_to_wire(i64::MAX), (1 << 63) - 1);
    for t in [0, 1, -1, 42, -42, i64::MIN, i64::MAX, i64::MIN + 1] {
        assert_eq!(signed_from_wire(signed_to_wire(t)), t);
        assert_eq!(signed_to_wire(t), t as u64);
    }
}

#[test]
fn key_keeps_its_bytes() {
    let mut bytes = [0u8; 32];
    for i in 0..32 {
        bytes[i] = (i as u8) * 3 + 1;
    }
    let k = Key::from_array(&bytes);
    assert_eq!(k.to_array(), bytes);
    assert_eq!(k.to_vec(), bytes.to_vec());
    assert_eq!(Key::from_slice(&bytes), Some(k));
}

#[test]
fn key_halves_are_little_endian() {
    let mut bytes = [0u8; 32];
    bytes[0] = 1;
    bytes[16] = 2;
    let k = Key::from_array(&bytes);
    assert_eq!(k.lo, 1);
    assert_eq!(k.hi, 2);
    assert_eq!(Key::from_number(7), Key { lo: 7, hi: 0 });
}

#[test]
fn key_of_wrong_length_is_refused() {
    assert_eq!(Key::from_slice(&[0u8; 31]), None);
    assert_eq!(Key::from_slice(&[0u8; 33]), None);
    assert_eq!(Key::from_slice(&[]), None);
    assert!(Key::from_slice(&[0u8; 32]).is_some());
}

#[test]
fn different_bytes_give_different_keys() {
    let a = Key::from_array(&[1u8; 32]);
    let mut other = [1u8; 32];
    other[31] = 2;
    let b = Key::from_array(&other);
    assert_ne!(a, b);
}
