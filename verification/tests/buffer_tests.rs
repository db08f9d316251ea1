use minebuffer::bigint::{bigint_value, BigInt};
use minebuffer::buffer::MineBuffer;
use minebuffer::error::BufferError;
use minebuffer::position::Position;

fn big(v: i64) -> BigInt {
    if v < 0 {
        BigInt { sign_bit: true, words: vec![v.unsigned_abs()] }
    } else {
        BigInt { sign_bit: false, words: vec![v as u64] }
    }
}

fn written(buf: &MineBuffer) -> Vec<u8> {
    buf.get_buffer().to_vec()
}

#[test]
fn new_without_bytes_is_empty() {
    let buf = MineBuffer::new(None);
    assert_eq!(buf.remaining(), 0);
    assert_eq!(buf.read_offset(), 0);
    assert_eq!(buf.write_offset(), 0);
    assert!(buf.get_buffer().is_empty());
}

#[test]
fn new_with_bytes_puts_write_cursor_at_end() {
    let buf = MineBuffer::new(Some(vec![1, 2, 3]));
    assert_eq!(buf.read_offset(), 0);
    assert_eq!(buf.write_offset(), 3);
    assert_eq!(buf.remaining(), 3);
    assert_eq!(buf.get_buffer(), &[1u8, 2, 3][..]);
}

#[test]
fn reserve_changes_nothing_observable() {
    let mut buf = MineBuffer::new(Some(vec![9, 8]));
    buf.reserve(1024);
    buf.reserve_js(64);
    buf.reserve_js(0);
    assert_eq!(written(&buf), vec![9, 8]);
    assert_eq!(buf.write_offset(), 2);
    assert_eq!(buf.read_offset(), 0);
}

#[test]
fn reset_clears_bytes_and_cursors() {
    let mut buf = MineBuffer::new(Some(vec![1, 2, 3]));
    assert_eq!(buf.read_u8(), Ok(1));
    buf.reset();
    assert_eq!(buf.read_offset(), 0);
    assert_eq!(buf.write_offset(), 0);
    assert_eq!(buf.remaining(), 0);
    assert_eq!(buf.read_u8(), Err(BufferError::Underflow));
}

#[test]
fn peek_does_not_advance() {
    let buf = MineBuffer::new(Some(vec![0xAB, 0xCD]));
    assert_eq!(buf.peek_u8(), Ok(0xAB));
    assert_eq!(buf.peek_u8(), Ok(0xAB));
    assert_eq!(buf.read_offset(), 0);
}

#[test]
fn peek_on_empty_underflows() {
    let buf = MineBuffer::new(None);
    assert_eq!(buf.peek_u8(), Err(BufferError::Underflow));
}

#[test]
fn varint_reference_vectors() {
    let cases: Vec<(i32, Vec<u8>)> = vec![
        (0, vec![0x00]),
        (1, vec![0x01]),
        (127, vec![0x7F]),
        (128, vec![0x80, 0x01]),
        (255, vec![0xFF, 0x01]),
        (25565, vec![0xDD, 0xC7, 0x01]),
        (2097151, vec![0xFF, 0xFF, 0x7F]),
        (i32::MAX, vec![0xFF, 0xFF, 0xFF, 0xFF, 0x07]),
        (-1, vec![0xFF, 0xFF, 0xFF, 0xFF, 0x0F]),
        (i32::MIN, vec![0x80, 0x80, 0x80, 0x80, 0x08]),
    ];
    for (value, bytes) in cases {
        let mut buf = MineBuffer::new(None);
        buf.write_var_int(value);
        assert_eq!(written(&buf), bytes);
        assert_eq!(buf.read_var_int(), Ok(value));
        assert_eq!(buf.remaining(), 0);
    }
}

#[test]
fn varlong_reference_vectors() {
    let cases: Vec<(i64, Vec<u8>)> = vec![
        (0, vec![0x00]),
        (127, vec![0x7F]),
        (128, vec![0x80, 0x01]),
        (2147483647, vec![0xFF, 0xFF, 0xFF, 0xFF, 0x07]),
        (i64::MAX, vec![0xFF, 0xFF, 0xFF, 0xFF, 0xFF, 0xFF, 0xFF, 0xFF, 0x7F]),
        (-1, vec![0xFF, 0xFF, 0xFF, 0xFF, 0xFF, 0xFF, 0xFF, 0xFF, 0xFF, 0x01]),
        (i64::MIN, vec![0x80, 0x80, 0x80, 0x80, 0x80, 0x80, 0x80, 0x80, 0x80, 0x01]),
    ];
    for (value, bytes) in cases {
        let mut buf = MineBuffer::new(None);
        buf.write_var_long(big(value));
        assert_eq!(written(&buf), bytes);
        assert_eq!(buf.read_var_long(), Ok(value));
        assert_eq!(buf.remaining(), 0);
    }
}

#[test]
fn varint_underflow_mid_sequence_keeps_cursor() {
    let mut buf = MineBuffer::new(Some(vec![0x05, 0x80, 0x80]));
    assert_eq!(buf.read_u8(), Ok(5));
    assert_eq!(buf.read_var_int(), Err(BufferError::Underflow));
    assert_eq!(buf.read_offset(), 1);
    assert_eq!(buf.read_var_long(), Err(BufferError::Underflow));
    assert_eq!(buf.read_offset(), 1);
}

#[test]
fn varint_groups_beyond_the_word_are_dropped() {
    let mut buf = MineBuffer::new(Some(vec![0x81, 0x80, 0x80, 0x80, 0x80, 0x7F, 0x2A]));
    assert_eq!(buf.read_var_int(), Ok(1));
    assert_eq!(buf.read_offset(), 6);
    assert_eq!(buf.read_u8(), Ok(0x2A));
}

#[test]
fn varint_fifth_byte_high_bits_are_cut() {
    let mut buf = MineBuffer::new(Some(vec![0xFF, 0xFF, 0xFF, 0xFF, 0x7F]));
    assert_eq!(buf.read_var_int(), Ok(-1));
}

#[test]
fn read_bytes_of_zero_always_underflows() {
    let mut empty = MineBuffer::new(None);
    assert_eq!(empty.read_bytes(0), Err(BufferError::Underflow));
    let mut full = MineBuffer::new(Some(vec![1, 2, 3]));
    assert_eq!(full.read_bytes(0), Err(BufferError::Underflow));
    assert_eq!(full.read_offset(), 0);
}

#[test]
fn read_bytes_takes_exactly_len() {
    let mut buf = MineBuffer::new(Some(vec![1, 2, 3, 4]));
    assert_eq!(buf.read_bytes(3), Ok(vec![1, 2, 3]));
    assert_eq!(buf.read_offset(), 3);
    assert_eq!(buf.read_bytes(2), Err(BufferError::Underflow));
    assert_eq!(buf.read_offset(), 3);
    assert_eq!(buf.read_bytes(1), Ok(vec![4]));
}

#[test]
fn read_remaining_on_empty_buffer_fails() {
    let mut buf = MineBuffer::new(None);
    assert_eq!(buf.read_remaining(), Err(BufferError::Underflow));
    let mut drained = MineBuffer::new(Some(vec![7]));
    assert_eq!(drained.read_u8(), Ok(7));
    assert_eq!(drained.read_remaining(), Err(BufferError::Underflow));
    assert_eq!(drained.read_offset(), 1);
}

#[test]
fn read_remaining_takes_all() {
    let mut buf = MineBuffer::new(Some(vec![1, 2, 3]));
    assert_eq!(buf.read_u8(), Ok(1));
    assert_eq!(buf.read_remaining(), Ok(vec![2, 3]));
    assert_eq!(buf.remaining(), 0);
}

#[test]
fn byte_round_trips() {
    for v in [0u8, 1, 127, 128, 255] {
        let mut buf = MineBuffer::new(None);
        buf.write_u8(v);
        assert_eq!(written(&buf), vec![v]);
        assert_eq!(buf.read_u8(), Ok(v));
    }
    for v in [0i8, 1, -1, i8::MIN, i8::MAX] {
        let mut buf = MineBuffer::new(None);
        buf.write_i8(v);
        assert_eq!(written(&buf), vec![v as u8]);
        assert_eq!(buf.read_i8(), Ok(v));
    }
}

#[test]
fn bool_round_trips() {
    let mut buf = MineBuffer::new(None);
    buf.write_bool(true);
    buf.write_bool(false);
    assert_eq!(written(&buf), vec![1, 0]);
    assert_eq!(buf.read_bool(), Ok(true));
    assert_eq!(buf.read_bool(), Ok(false));
    assert_eq!(buf.read_bool(), Err(BufferError::Underflow));
}

#[test]
fn any_nonzero_byte_reads_as_true() {
    let mut buf = MineBuffer::new(Some(vec![2, 0xFF, 0]));
    assert_eq!(buf.read_bool(), Ok(true));
    assert_eq!(buf.read_bool(), Ok(true));
    assert_eq!(buf.read_bool(), Ok(false));
}

#[test]
fn sixteen_bit_round_trips() {
    for v in [0i16, 1, -1, i16::MIN, i16::MAX, 0x1234] {
        let mut buf = MineBuffer::new(None);
        buf.write_i16(v);
        assert_eq!(written(&buf), v.to_be_bytes().to_vec());
        assert_eq!(buf.read_i16(), Ok(v));
    }
    for v in [0u16, 1, u16::MAX, 0xABCD] {
        let mut buf = MineBuffer::new(None);
        buf.write_u16(v);
        assert_eq!(written(&buf), v.to_be_bytes().to_vec());
        assert_eq!(buf.read_u16(), Ok(v));
    }
}

#[test]
fn thirty_two_bit_round_trips() {
    for v in [0i32, 1, -1, i32::MIN, i32::MAX, 0x1234_5678] {
        let mut buf = MineBuffer::new(None);
        buf.write_i32(v);
        assert_eq!(written(&buf), v.to_be_bytes().to_vec());
        assert_eq!(buf.read_i32(), Ok(v));
    }
    for v in [0u32, 1, u32::MAX, 0xDEAD_BEEF] {
        let mut buf = MineBuffer::new(None);
        buf.write_u32(v);
        assert_eq!(written(&buf), v.to_be_bytes().to_vec());
        assert_eq!(buf.read_u32(), Ok(v));
    }
}

#[test]
fn big_endian_exact_bytes() {
    let mut buf = MineBuffer::new(None);
    buf.write_u16(0x0102);
    buf.write_i32(-2);
    buf.write_u32(0x0A0B0C0D);
    assert_eq!(
        written(&buf),
        vec![0x01, 0x02, 0xFF, 0xFF, 0xFF, 0xFE, 0x0A, 0x0B, 0x0C, 0x0D]
    );
}

#[test]
fn sixty_four_bit_round_trips() {
    for v in [0i64, 1, -1, i64::MIN, i64::MAX, 0x0102_0304_0506_0708] {
        let mut buf = MineBuffer::new(None);
        buf.write_i64(big(v));
        assert_eq!(written(&buf), v.to_be_bytes().to_vec());
        assert_eq!(buf.read_i64(), Ok(v));
    }
}

#[test]
fn unsigned_sixty_four_bit_reads() {
    let mut buf = MineBuffer::new(Some(vec![0xFF; 8]));
    assert_eq!(buf.read_u64(), Ok(u64::MAX as i128));
    let mut small = MineBuffer::new(Some(vec![0, 0, 0, 0, 0, 0, 1, 2]));
    assert_eq!(small.read_u64(), Ok(258));
    assert_eq!(small.read_u64(), Err(BufferError::Underflow));
}

#[test]
fn float_bit_patterns_round_trip() {
    for v in [0.0f32, -0.0, 1.0, -1.0, f32::MIN, f32::MAX, f32::INFINITY, f32::NEG_INFINITY, f32::NAN] {
        let mut buf = MineBuffer::new(None);
        buf.write_u32(v.to_bits());
        assert_eq!(written(&buf), v.to_be_bytes().to_vec());
        assert_eq!(buf.read_u32().map(f32::from_bits).map(f32::to_bits), Ok(v.to_bits()));
    }
    for v in [0.0f64, -0.0, 1.0, -1.0, f64::MIN, f64::MAX, f64::INFINITY, f64::NEG_INFINITY, f64::NAN] {
        let mut buf = MineBuffer::new(None);
        buf.write_i64(BigInt { sign_bit: false, words: vec![v.to_bits()] });
        assert_eq!(written(&buf), v.to_be_bytes().to_vec());
        assert_eq!(buf.read_u64().map(|b| f64::from_bits(b as u64).to_bits()), Ok(v.to_bits()));
    }
}

#[test]
fn bigint_reduction_to_64_bits() {
    assert_eq!(bigint_value(&BigInt { sign_bit: false, words: vec![] }), 0);
    assert_eq!(bigint_value(&BigInt { sign_bit: true, words: vec![] }), 0);
    assert_eq!(bigint_value(&BigInt { sign_bit: false, words: vec![5] }), 5);
    assert_eq!(bigint_value(&BigInt { sign_bit: true, words: vec![5] }), -5);
    assert_eq!(bigint_value(&BigInt { sign_bit: true, words: vec![0] }), 0);
    assert_eq!(bigint_value(&BigInt { sign_bit: false, words: vec![u64::MAX] }), -1);
    assert_eq!(bigint_value(&BigInt { sign_bit: true, words: vec![u64::MAX] }), 1);
    assert_eq!(bigint_value(&BigInt { sign_bit: true, words: vec![1 << 63] }), i64::MIN);
    assert_eq!(bigint_value(&BigInt { sign_bit: false, words: vec![1 << 63] }), i64::MIN);
    assert_eq!(bigint_value(&BigInt { sign_bit: false, words: vec![7, 9, 11] }), 7);
    assert_eq!(bigint_value(&BigInt { sign_bit: true, words: vec![(1 << 63) + 1] }), i64::MAX);
}

#[test]
fn position_round_trips_within_field_ranges() {
    let cases = [
        Position { x: 0, y: 0, z: 0 },
        Position { x: 1, y: 2, z: 3 },
        Position { x: 0x3FF_FFFF, y: 0xFFF, z: 0x3FF_FFFF },
        Position { x: 18357644, y: 831, z: 20882616 },
    ];
    for p in cases {
        let mut buf = MineBuffer::new(None);
        buf.write_position(&p);
        assert_eq!(buf.remaining(), 8);
        assert_eq!(buf.read_position(), Ok(p));
    }
}

#[test]
fn position_exact_word() {
    let mut buf = MineBuffer::new(None);
    buf.write_position(&Position { x: 1, y: 2, z: 3 });
    let word: u64 = (1u64 << 38) | (2u64 << 26) | 3;
    assert_eq!(written(&buf), word.to_be_bytes().to_vec());
    assert_eq!(Position { x: 1, y: 2, z: 3 }.pack(), word);
    assert_eq!(Position::unpack(word), Position { x: 1, y: 2, z: 3 });
}

#[test]
fn position_fields_are_masked_and_read_unsigned() {
    let mut buf = MineBuffer::new(None);
    buf.write_position(&Position { x: -1, y: -1, z: -1 });
    assert_eq!(written(&buf), vec![0xFF; 8]);
    assert_eq!(
        buf.read_position(),
        Ok(Position { x: 0x3FF_FFFF, y: 0xFFF, z: 0x3FF_FFFF })
    );
    let mut over = MineBuffer::new(None);
    over.write_position(&Position { x: 0x400_0001, y: 0x1002, z: 0x400_0003 });
    assert_eq!(over.read_position(), Ok(Position { x: 1, y: 2, z: 3 }));
}

#[test]
fn position_underflow() {
    let mut buf = MineBuffer::new(Some(vec![0; 7]));
    assert_eq!(buf.read_position(), Err(BufferError::Underflow));
    assert_eq!(buf.read_offset(), 0);
}

#[test]
fn string_round_trip() {
    let mut buf = MineBuffer::new(None);
    buf.write_string("hello");
    assert_eq!(written(&buf), vec![5, b'h', b'e', b'l', b'l', b'o']);
    assert_eq!(buf.read_string(), Ok(String::from("hello")));
    assert_eq!(buf.remaining(), 0);
}

#[test]
fn empty_string_is_a_single_zero_byte() {
    let mut buf = MineBuffer::new(None);
    buf.write_string("");
    assert_eq!(written(&buf), vec![0x00]);
    assert_eq!(buf.read_string(), Ok(String::new()));
    assert_eq!(buf.remaining(), 0);
}

#[test]
fn string_with_multibyte_characters() {
    let text = "gr\u{fc}\u{df}e \u{4e16}\u{754c} \u{1f600}";
    let mut buf = MineBuffer::new(None);
    buf.write_string(text);
    assert_eq!(buf.peek_u8(), Ok(text.len() as u8));
    assert_eq!(buf.read_string(), Ok(String::from(text)));
}

#[test]
fn long_string_has_two_byte_prefix() {
    let text = "a".repeat(300);
    let mut buf = MineBuffer::new(None);
    buf.write_string(&text);
    assert_eq!(&written(&buf)[..2], &[0xAC, 0x02]);
    assert_eq!(buf.read_string(), Ok(text));
}

#[test]
fn string_underflow_keeps_cursor() {
    let mut buf = MineBuffer::new(Some(vec![9, 5, b'h', b'i']));
    assert_eq!(buf.read_u8(), Ok(9));
    assert_eq!(buf.read_string(), Err(BufferError::Underflow));
    assert_eq!(buf.read_offset(), 1);
    let mut none = MineBuffer::new(None);
    assert_eq!(none.read_string(), Err(BufferError::Underflow));
}

#[test]
fn string_with_negative_length_underflows() {
    let mut buf = MineBuffer::new(Some(vec![0xFF, 0xFF, 0xFF, 0xFF, 0x0F, b'a']));
    assert_eq!(buf.read_string(), Err(BufferError::Underflow));
    assert_eq!(buf.read_offset(), 0);
}

#[test]
fn string_with_invalid_utf8_is_malformed() {
    let mut buf = MineBuffer::new(Some(vec![2, 0xC3, 0x28, 7]));
    assert_eq!(buf.read_string(), Err(BufferError::Malformed));
    assert_eq!(buf.read_offset(), 0);
    let mut lone = MineBuffer::new(Some(vec![1, 0xFF]));
    assert_eq!(lone.read_string(), Err(BufferError::Malformed));
}

#[test]
fn uuid_round_trip() {
    let text = "550e8400-e29b-41d4-a716-446655440000";
    let mut buf = MineBuffer::new(None);
    assert_eq!(buf.write_uuid(String::from(text)), Ok(()));
    assert_eq!(
        written(&buf),
        vec![
            0x55, 0x0e, 0x84, 0x00, 0xe2, 0x9b, 0x41, 0xd4, 0xa7, 0x16, 0x44, 0x66, 0x55, 0x44,
            0x00, 0x00
        ]
    );
    assert_eq!(buf.read_uuid(), Ok(String::from(text)));
    assert_eq!(buf.remaining(), 0);
}

#[test]
fn uuid_text_is_lower_case_hyphenated() {
    let mut buf = MineBuffer::new(Some(vec![
        0x00, 0x01, 0x0A, 0xAB, 0xCD, 0xEF, 0x10, 0x9F, 0xF0, 0xFF, 0x12, 0x34, 0x56, 0x78, 0x9A,
        0xBC,
    ]));
    assert_eq!(
        buf.read_uuid(),
        Ok(String::from("00010aab-cdef-109f-f0ff-123456789abc"))
    );
}

#[test]
fn uuid_boundary_values_round_trip() {
    for text in [
        "00000000-0000-0000-0000-000000000000",
        "ffffffff-ffff-ffff-ffff-ffffffffffff",
        "01234567-89ab-cdef-0123-456789abcdef",
    ] {
        let mut buf = MineBuffer::new(None);
        assert_eq!(buf.write_uuid(String::from(text)), Ok(()));
        assert_eq!(buf.remaining(), 16);
        assert_eq!(buf.read_uuid(), Ok(String::from(text)));
    }
}

#[test]
fn uuid_with_bad_text_is_malformed_and_writes_nothing() {
    let mut buf = MineBuffer::new(Some(vec![1]));
    assert_eq!(buf.write_uuid(String::from("not a uuid")), Err(BufferError::Malformed));
    assert_eq!(buf.write_uuid(String::from("")), Err(BufferError::Malformed));
    assert_eq!(
        buf.write_uuid(String::from("550e8400-e29b-41d4-a716-44665544000g")),
        Err(BufferError::Malformed)
    );
    assert_eq!(written(&buf), vec![1]);
    assert_eq!(buf.write_offset(), 1);
}

#[test]
fn uuid_underflow_keeps_cursor() {
    let mut buf = MineBuffer::new(Some(vec![0; 15]));
    assert_eq!(buf.read_uuid(), Err(BufferError::Underflow));
    assert_eq!(buf.read_offset(), 0);
}

#[test]
fn failed_reads_leave_read_cursor() {
    let mut buf = MineBuffer::new(Some(vec![1, 2, 3]));
    assert_eq!(buf.read_u8(), Ok(1));
    assert_eq!(buf.read_i32(), Err(BufferError::Underflow));
    assert_eq!(buf.read_u32(), Err(BufferError::Underflow));
    assert_eq!(buf.read_i64(), Err(BufferError::Underflow));
    assert_eq!(buf.read_u64(), Err(BufferError::Underflow));
    assert_eq!(buf.read_bytes(3), Err(BufferError::Underflow));
    assert_eq!(buf.read_uuid(), Err(BufferError::Underflow));
    assert_eq!(buf.read_position(), Err(BufferError::Underflow));
    assert_eq!(buf.seek_delta(3), Err(BufferError::Underflow));
    assert_eq!(buf.read_offset(), 1);
    assert_eq!(buf.write_offset(), 3);
    assert_eq!(buf.read_i16(), Ok(0x0203));
    assert_eq!(buf.read_i16(), Err(BufferError::Underflow));
    assert_eq!(buf.read_u16(), Err(BufferError::Underflow));
    assert_eq!(buf.read_u8(), Err(BufferError::Underflow));
    assert_eq!(buf.read_i8(), Err(BufferError::Underflow));
    assert_eq!(buf.read_offset(), 3);
}

#[test]
fn seek_moves_forwards_and_backwards() {
    let mut buf = MineBuffer::new(Some(vec![10, 20, 30, 40]));
    assert_eq!(buf.seek_delta(3), Ok(()));
    assert_eq!(buf.read_u8(), Ok(40));
    assert_eq!(buf.seek_delta(-4), Ok(()));
    assert_eq!(buf.read_u8(), Ok(10));
    assert_eq!(buf.seek_delta(3), Ok(()));
    assert_eq!(buf.read_offset(), 4);
    assert_eq!(buf.seek_delta(1), Err(BufferError::Underflow));
    assert_eq!(buf.seek_delta(-5), Err(BufferError::Underflow));
    assert_eq!(buf.seek_delta(i64::MIN), Err(BufferError::Underflow));
    assert_eq!(buf.seek_delta(i64::MAX), Err(BufferError::Underflow));
    assert_eq!(buf.read_offset(), 4);
    assert_eq!(buf.seek_delta(0), Ok(()));
}

#[test]
fn clone_is_independent() {
    let mut first = MineBuffer::new(Some(vec![1, 2, 3]));
    assert_eq!(first.read_u8(), Ok(1));
    let mut copy = first.clone();
    assert_eq!(copy.read_offset(), 1);
    assert_eq!(copy.write_offset(), 3);
    assert_eq!(written(&copy), vec![2, 3]);
    copy.write_u8(4);
    assert_eq!(copy.read_u8(), Ok(2));
    copy.reset();
    assert_eq!(first.read_offset(), 1);
    assert_eq!(first.write_offset(), 3);
    assert_eq!(written(&first), vec![2, 3]);
    first.write_u8(9);
    assert_eq!(copy.remaining(), 0);
}

#[test]
fn write_appends_and_advances() {
    let mut buf = MineBuffer::new(Some(vec![1]));
    buf.write(&[2, 3]);
    buf.write(&[]);
    assert_eq!(buf.write_offset(), 3);
    assert_eq!(written(&buf), vec![1, 2, 3]);
    assert!(buf.fits(1000));
}

#[test]
fn cursor_setters_are_unchecked_and_reads_revalidate() {
    let mut buf = MineBuffer::new(Some(vec![1, 2, 3]));
    buf.set_read_offset(10);
    assert_eq!(buf.read_offset(), 10);
    assert_eq!(buf.remaining(), 0);
    assert_eq!(buf.read_u8(), Err(BufferError::Underflow));
    assert_eq!(buf.peek_u8(), Err(BufferError::Underflow));
    assert!(buf.get_buffer().is_empty());
    buf.set_read_offset(2);
    buf.set_write_offset(100);
    assert_eq!(buf.write_offset(), 100);
    assert_eq!(buf.remaining(), 98);
    assert_eq!(buf.read_u16(), Err(BufferError::Underflow));
    assert_eq!(buf.read_remaining(), Err(BufferError::Underflow));
    assert_eq!(buf.get_buffer(), &[3u8][..]);
    assert_eq!(buf.read_u8(), Ok(3));
    assert_eq!(buf.read_u8(), Err(BufferError::Underflow));
    buf.set_write_offset(1);
    buf.set_read_offset(0);
    assert_eq!(buf.read_u8(), Ok(1));
    assert_eq!(buf.read_u8(), Err(BufferError::Underflow));
}

#[test]
fn reads_follow_write_order() {
    let mut buf = MineBuffer::new(None);
    buf.write_bool(true);
    buf.write_i16(-300);
    buf.write_var_int(300);
    buf.write_string("ab");
    buf.write_u32(7);
    assert_eq!(buf.read_bool(), Ok(true));
    assert_eq!(buf.read_i16(), Ok(-300));
    assert_eq!(buf.read_var_int(), Ok(300));
    assert_eq!(buf.read_string(), Ok(String::from("ab")));
    assert_eq!(buf.read_u32(), Ok(7));
    assert_eq!(buf.remaining(), 0);
}

#[test]
fn error_messages() {
    assert_eq!(BufferError::Underflow.message(), "Buffer underflow");
    assert_eq!(BufferError::Malformed.message(), "Malformed input");
    assert_ne!(BufferError::Underflow, BufferError::Malformed);
}

#[test]
fn uuid_other_spellings_are_read_as_the_same_bytes() {
    let canonical = "550e8400-e29b-41d4-a716-446655440000";
    for text in [
        "550E8400-E29B-41D4-A716-446655440000",
        "550e8400e29b41d4a716446655440000",
        "{550e8400-e29b-41d4-a716-446655440000}",
        "urn:uuid:550e8400-e29b-41d4-a716-446655440000",
    ] {
        let mut buf = MineBuffer::new(None);
        assert_eq!(buf.write_uuid(String::from(text)), Ok(()));
        assert_eq!(buf.remaining(), 16);
        assert_eq!(buf.read_uuid(), Ok(String::from(canonical)));
    }
}

#[test]
fn boundary_variants_widen_and_truncate() {
    let mut buf = MineBuffer::new(None);
    buf.write_byte_js(0x1FF);
    buf.write_byte_js(-1);
    buf.write_i8_js(-2);
    buf.write_i8_js(0x17F);
    buf.write_i16_js(-2);
    buf.write_i16_js(0x1_8001);
    buf.write_u16_js(0xABCD_1234);
    assert_eq!(
        buf.get_buffer_js(),
        vec![0xFF, 0xFF, 0xFE, 0x7F, 0xFF, 0xFE, 0x80, 0x01, 0x12, 0x34]
    );
    assert_eq!(buf.remaining_js(), 10);
    assert_eq!(buf.peek_u8_js(), Ok(255));
    assert_eq!(buf.read_u8_js(), Ok(255));
    assert_eq!(buf.read_i8_js(), Ok(-1));
    assert_eq!(buf.read_i8_js(), Ok(-2));
    assert_eq!(buf.read_i8_js(), Ok(127));
    assert_eq!(buf.read_i16_js(), Ok(-2));
    assert_eq!(buf.read_i16_js(), Ok(-32767));
    assert_eq!(buf.read_u16_js(), Ok(0x1234));
    assert_eq!(buf.read_u16_js(), Err(BufferError::Underflow));
    assert_eq!(buf.read_i16_js(), Err(BufferError::Underflow));
    assert_eq!(buf.read_u8_js(), Err(BufferError::Underflow));
    assert_eq!(buf.read_i8_js(), Err(BufferError::Underflow));
    assert_eq!(buf.peek_u8_js(), Err(BufferError::Underflow));
    assert!(buf.get_buffer_js().is_empty());
}

#[test]
fn parsed_uuid_bytes_are_appended_or_refused() {
    let mut buf = MineBuffer::new(Some(vec![7]));
    let bytes: Vec<u8> = (1u8..=16).collect();
    assert_eq!(buf.write_parsed_uuid(Some(bytes.clone())), Ok(()));
    assert_eq!(buf.write_offset(), 17);
    assert_eq!(buf.write_parsed_uuid(None), Err(BufferError::Malformed));
    assert_eq!(buf.write_offset(), 17);
    assert_eq!(buf.read_u8(), Ok(7));
    assert_eq!(buf.read_bytes(16), Ok(bytes));
}
