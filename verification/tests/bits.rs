use validity_bitmap::bits::{get_bit, load_word, word_to_bytes};
use validity_bitmap::buffer::MutableBuffer;

#[test]
fn get_bit_counts_from_the_low_end_of_each_byte() {
    let bytes = [0b0000_0001u8, 0b1000_0000];
    assert!(get_bit(&bytes, 0));
    for i in 1..15 {
        assert!(!get_bit(&bytes, i), "bit {}", i);
    }
    assert!(get_bit(&bytes, 15));
}

#[test]
fn load_word_reads_across_a_byte_boundary() {
    // bits 4..12: the high half of 0xff, then the low half of 0x01
    assert_eq!(load_word(&[0xff, 0x01], 4, 8), 0x1f);
}

#[test]
fn load_word_is_little_endian_on_aligned_input() {
    let bytes = [0x08u8, 0x07, 0x06, 0x05, 0x04, 0x03, 0x02, 0x01];
    assert_eq!(load_word(&bytes, 0, 64), 0x0102_0304_0506_0708);
    assert_eq!(load_word(&bytes, 0, 32), 0x0506_0708);
    assert_eq!(load_word(&bytes, 32, 32), 0x0102_0304);
}

#[test]
fn load_word_clears_what_lies_past_the_bits_asked_for() {
    assert_eq!(load_word(&[0xff], 0, 0), 0);
    assert_eq!(load_word(&[0xff], 0, 1), 1);
    assert_eq!(load_word(&[0xff], 0, 3), 0b111);
    assert_eq!(load_word(&[0xff], 5, 3), 0b111);
    assert_eq!(load_word(&[0xff, 0xff], 7, 2), 0b11);
}

#[test]
fn load_word_takes_nine_bytes_where_the_window_is_not_aligned() {
    let bytes = [0xaau8; 9];
    // 0xaa is 1010_1010: from bit 1 on the bits alternate 1, 0, 1, 0, ...
    assert_eq!(load_word(&bytes, 1, 64), 0x5555_5555_5555_5555);
    assert_eq!(load_word(&bytes, 8, 64), 0xaaaa_aaaa_aaaa_aaaa);
    // the last bit of the window is the last bit of the slice
    let mut last = [0u8; 9];
    last[8] = 0x80;
    assert_eq!(load_word(&last, 8, 64), 0x8000_0000_0000_0000);
    assert_eq!(load_word(&last, 7, 64), 0);
    assert_eq!(load_word(&last, 71, 1), 1);
}

#[test]
fn load_word_agrees_with_get_bit() {
    let bytes: Vec<u8> = (0..24u32).map(|i| (i.wrapping_mul(151).wrapping_add(77) % 256) as u8).collect();
    for pos in 0..64usize {
        for n in 0..=64usize {
            let w = load_word(&bytes, pos, n);
            for j in 0..64usize {
                let expected = j < n && get_bit(&bytes, pos + j);
                assert_eq!((w >> j) & 1 == 1, expected, "pos {} n {} j {}", pos, n, j);
            }
        }
    }
}

#[test]
fn word_to_bytes_puts_the_low_byte_first() {
    assert_eq!(word_to_bytes(0x0102_0304_0506_0708), [8, 7, 6, 5, 4, 3, 2, 1]);
    assert_eq!(word_to_bytes(1), [1, 0, 0, 0, 0, 0, 0, 0]);
    assert_eq!(word_to_bytes(u64::MAX), [0xff; 8]);
}

#[test]
fn mutable_buffer_appends_in_order() {
    let mut buffer = MutableBuffer::with_capacity(16);
    assert!(buffer.is_empty());
    assert_eq!(buffer.len(), 0);
    buffer.push(7);
    buffer.extend_from_slice(&[1, 2, 3]);
    buffer.push_word(0x1122_3344_5566_7788);
    assert_eq!(buffer.len(), 12);
    assert_eq!(
        buffer.as_slice(),
        &[7, 1, 2, 3, 0x88, 0x77, 0x66, 0x55, 0x44, 0x33, 0x22, 0x11]
    );
    assert_eq!(buffer.into_vec(), vec![7, 1, 2, 3, 0x88, 0x77, 0x66, 0x55, 0x44, 0x33, 0x22, 0x11]);
}

#[test]
fn mutable_buffer_constructors() {
    assert_eq!(MutableBuffer::new().len(), 0);
    assert_eq!(MutableBuffer::from_slice(&[9, 8]).as_slice(), &[9, 8]);
    assert_eq!(MutableBuffer::from_vec(vec![1, 2, 3]).as_slice(), &[1, 2, 3]);
}
