use arrow_buffer::{BooleanBuffer, Buffer, NullBuffer};
use arrow_data::ArrayDataBuilder;
use validity_bitmap::array::binary::data::null_count;
use validity_bitmap::array::binary::{check_offsets, ArrayError, BinaryArray};
use validity_bitmap::bitmap::Bitmap;
use validity_bitmap::buffer::MutableBuffer;
use validity_bitmap::datatypes::DataType;
use validity_bitmap::offset::{push_entry, read_entry};

fn validity_of(bits: &[bool]) -> Bitmap {
    let mut bytes = vec![0u8; (bits.len() + 7) / 8];
    for (i, bit) in bits.iter().enumerate() {
        if *bit {
            bytes[i / 8] |= 1 << (i % 8);
        }
    }
    Bitmap::from_buffer(MutableBuffer::from_vec(bytes), bits.len())
}

fn rows_of(a: &BinaryArray) -> Vec<Option<Vec<u8>>> {
    (0..a.len())
        .map(|i| if a.is_valid(i) { Some(a.value(i).to_vec()) } else { None })
        .collect()
}

fn sample(data_type: DataType) -> BinaryArray {
    BinaryArray::try_new(
        data_type,
        vec![0, 2, 2, 5],
        b"abcde".to_vec(),
        Some(validity_of(&[true, false, true])),
    )
    .unwrap()
}

#[test]
fn data_type_widths() {
    assert_eq!(DataType::Binary.width(), 4);
    assert_eq!(DataType::LargeBinary.width(), 8);
    assert!(!DataType::Binary.is_large());
    assert!(DataType::LargeBinary.is_large());
}

#[test]
fn check_offsets_accepts_what_cuts_the_values() {
    assert!(check_offsets(DataType::Binary, &[0], 0));
    assert!(check_offsets(DataType::Binary, &[0, 0, 3, 3, 5], 5));
    assert!(check_offsets(DataType::Binary, &[2, 3], 5));
    assert!(check_offsets(DataType::LargeBinary, &[0, 5], 5));
}

#[test]
fn check_offsets_refuses_the_rest() {
    assert!(!check_offsets(DataType::Binary, &[], 0));
    assert!(!check_offsets(DataType::Binary, &[-1, 2], 5));
    assert!(!check_offsets(DataType::Binary, &[0, 3, 2], 5));
    assert!(!check_offsets(DataType::Binary, &[0, 6], 5));
    assert!(!check_offsets(DataType::LargeBinary, &[0, 6], 5));
    assert!(!check_offsets(DataType::Binary, &[i64::MIN, 0], 5));
}

#[test]
fn check_offsets_holds_binary_to_32_bits() {
    let limit = i32::MAX as i64;
    assert!(check_offsets(DataType::Binary, &[0, limit], usize::MAX));
    assert!(!check_offsets(DataType::Binary, &[0, limit + 1], usize::MAX));
    assert!(check_offsets(DataType::LargeBinary, &[0, limit + 1], usize::MAX));
}

#[test]
fn try_new_gives_the_rows() {
    let a = sample(DataType::Binary);
    assert_eq!(a.len(), 3);
    assert!(!a.is_empty());
    assert_eq!(a.data_type(), DataType::Binary);
    assert_eq!(a.offsets(), &[0, 2, 2, 5]);
    assert_eq!(a.values(), b"abcde");
    assert_eq!(a.validity().unwrap().len(), 3);
    assert_eq!(a.value(0), b"ab");
    assert_eq!(a.value(1), b"");
    assert_eq!(a.value(2), b"cde");
    assert!(a.is_valid(0));
    assert!(!a.is_valid(1));
    assert!(a.is_valid(2));
    assert_eq!(
        rows_of(&a),
        vec![Some(b"ab".to_vec()), None, Some(b"cde".to_vec())]
    );
}

#[test]
fn try_new_without_validity_has_every_row() {
    let a = BinaryArray::try_new(DataType::LargeBinary, vec![1, 3], b"xyz".to_vec(), None).unwrap();
    assert_eq!(a.len(), 1);
    assert!(a.validity().is_none());
    assert!(a.is_valid(0));
    assert_eq!(a.value(0), b"yz");
}

#[test]
fn try_new_refuses_invalid_offsets() {
    let r = BinaryArray::try_new(DataType::Binary, vec![0, 9], b"abc".to_vec(), None);
    assert_eq!(r.unwrap_err(), ArrayError::InvalidOffsets);
    let r = BinaryArray::try_new(DataType::Binary, vec![], Vec::new(), None);
    assert_eq!(r.unwrap_err(), ArrayError::InvalidOffsets);
    let r = BinaryArray::try_new(DataType::Binary, vec![2, 1], b"abc".to_vec(), None);
    assert_eq!(r.unwrap_err(), ArrayError::InvalidOffsets);
    // invalid offsets are reported before a validity of the wrong length
    let r = BinaryArray::try_new(
        DataType::Binary,
        vec![2, 1],
        b"abc".to_vec(),
        Some(validity_of(&[true, true])),
    );
    assert_eq!(r.unwrap_err(), ArrayError::InvalidOffsets);
}

#[test]
fn try_new_refuses_a_validity_of_another_length() {
    let r = BinaryArray::try_new(
        DataType::Binary,
        vec![0, 1, 3],
        b"abc".to_vec(),
        Some(validity_of(&[true, true, true])),
    );
    assert_eq!(r.unwrap_err(), ArrayError::ValidityMismatch);
}

#[test]
fn new_empty_has_one_offset() {
    let a = BinaryArray::new_empty(DataType::LargeBinary);
    assert_eq!(a.len(), 0);
    assert!(a.is_empty());
    assert_eq!(a.offsets(), &[0]);
    assert_eq!(a.values(), b"");
    assert!(a.validity().is_none());
    assert_eq!(a.data_type(), DataType::LargeBinary);
}

#[test]
fn entries_are_little_endian() {
    let mut out = Vec::new();
    push_entry(&mut out, DataType::Binary, 0x0102_0304);
    assert_eq!(out, vec![4, 3, 2, 1]);
    push_entry(&mut out, DataType::LargeBinary, 0x0102_0304_0506_0708);
    assert_eq!(out, vec![4, 3, 2, 1, 8, 7, 6, 5, 4, 3, 2, 1]);
    assert_eq!(read_entry(&out, DataType::Binary, 0), 0x0102_0304);
    assert_eq!(read_entry(&out, DataType::Binary, 1), 0x0506_0708);
    assert_eq!(read_entry(&out, DataType::Binary, 2), 0x0102_0304);
    assert_eq!(read_entry(&out[4..], DataType::LargeBinary, 0), 0x0102_0304_0506_0708);
}

#[test]
fn entries_are_signed() {
    assert_eq!(read_entry(&[0xff, 0xff, 0xff, 0xff], DataType::Binary, 0), -1);
    assert_eq!(read_entry(&[0, 0, 0, 0x80], DataType::Binary, 0), i32::MIN as i64);
    assert_eq!(read_entry(&[0xff, 0xff, 0xff, 0x7f], DataType::Binary, 0), i32::MAX as i64);
    assert_eq!(read_entry(&[0xff; 8], DataType::LargeBinary, 0), -1);
    assert_eq!(read_entry(&[0, 0, 0, 0, 0, 0, 0, 0x80], DataType::LargeBinary, 0), i64::MIN);
    assert_eq!(
        read_entry(&[0xff, 0xff, 0xff, 0xff, 0xff, 0xff, 0xff, 0x7f], DataType::LargeBinary, 0),
        i64::MAX
    );
    // as the platform reads them
    for v in [0i32, 1, -1, 255, 256, -256, i32::MAX, i32::MIN, 0x1234_5678] {
        assert_eq!(read_entry(&v.to_le_bytes(), DataType::Binary, 0), v as i64);
    }
    for v in [0i64, 1, -1, i64::MAX, i64::MIN, 0x1234_5678_9abc_def0] {
        assert_eq!(read_entry(&v.to_le_bytes(), DataType::LargeBinary, 0), v);
    }
}

#[test]
fn offsets_buffer_holds_each_offset_in_the_width_of_the_type() {
    assert_eq!(
        sample(DataType::Binary).offsets_buffer(),
        vec![0, 0, 0, 0, 2, 0, 0, 0, 2, 0, 0, 0, 5, 0, 0, 0]
    );
    assert_eq!(
        sample(DataType::LargeBinary).offsets_buffer(),
        vec![
            0, 0, 0, 0, 0, 0, 0, 0, 2, 0, 0, 0, 0, 0, 0, 0, 2, 0, 0, 0, 0, 0, 0, 0, 5, 0, 0, 0, 0,
            0, 0, 0
        ]
    );
    assert_eq!(BinaryArray::new_empty(DataType::Binary).offsets_buffer(), vec![0, 0, 0, 0]);
}

#[test]
fn from_buffers_reads_the_rows() {
    let offsets: Vec<u8> = [0i32, 1, 3, 6].iter().flat_map(|o| o.to_le_bytes()).collect();
    let a = BinaryArray::from_buffers(DataType::Binary, 3, 0, &offsets, b"abcdef".to_vec(), None)
        .unwrap();
    assert_eq!(a.offsets(), &[0, 1, 3, 6]);
    assert_eq!(
        rows_of(&a),
        vec![Some(b"a".to_vec()), Some(b"bc".to_vec()), Some(b"def".to_vec())]
    );
    assert_eq!(a.data_type(), DataType::Binary);
}

#[test]
fn from_buffers_starts_at_the_slice_offset() {
    let offsets: Vec<u8> = [0i64, 1, 3, 6].iter().flat_map(|o| o.to_le_bytes()).collect();
    let a = BinaryArray::from_buffers(
        DataType::LargeBinary,
        2,
        1,
        &offsets,
        b"abcdef".to_vec(),
        Some(validity_of(&[false, true])),
    )
    .unwrap();
    assert_eq!(a.offsets(), &[1, 3, 6]);
    assert_eq!(a.values(), b"abcdef");
    assert_eq!(rows_of(&a), vec![None, Some(b"def".to_vec())]);
    // fewer rows than the buffer has: the entries after the last are not read
    let a = BinaryArray::from_buffers(DataType::LargeBinary, 1, 1, &offsets, b"abcdef".to_vec(), None)
        .unwrap();
    assert_eq!(a.offsets(), &[1, 3]);
    assert_eq!(rows_of(&a), vec![Some(b"bc".to_vec())]);
}

#[test]
fn from_buffers_without_rows_is_the_empty_array() {
    let a = BinaryArray::from_buffers(
        DataType::Binary,
        0,
        7,
        &[1, 2, 3],
        b"abc".to_vec(),
        Some(validity_of(&[true])),
    )
    .unwrap();
    assert_eq!(a.len(), 0);
    assert_eq!(a.offsets(), &[0]);
    assert_eq!(a.values(), b"");
    assert!(a.validity().is_none());
}

#[test]
fn from_buffers_refuses_a_short_offsets_buffer() {
    let offsets: Vec<u8> = [0i32, 1, 3, 6].iter().flat_map(|o| o.to_le_bytes()).collect();
    let short = |len, offset, bytes: &[u8]| {
        BinaryArray::from_buffers(DataType::Binary, len, offset, bytes, b"abcdef".to_vec(), None)
    };
    assert!(short(3, 0, &offsets).is_ok());
    assert_eq!(short(4, 0, &offsets).unwrap_err(), ArrayError::OffsetsTooShort);
    assert_eq!(short(3, 1, &offsets).unwrap_err(), ArrayError::OffsetsTooShort);
    assert_eq!(short(3, 0, &offsets[..15]).unwrap_err(), ArrayError::OffsetsTooShort);
    assert_eq!(short(1, 0, &[]).unwrap_err(), ArrayError::OffsetsTooShort);
    assert_eq!(short(usize::MAX, 0, &offsets).unwrap_err(), ArrayError::OffsetsTooShort);
    assert_eq!(short(1, usize::MAX, &offsets).unwrap_err(), ArrayError::OffsetsTooShort);
    assert_eq!(short(usize::MAX, usize::MAX, &offsets).unwrap_err(), ArrayError::OffsetsTooShort);
    // the same bytes hold only two 64-bit entries
    let r = BinaryArray::from_buffers(DataType::LargeBinary, 2, 0, &offsets, Vec::new(), None);
    assert_eq!(r.unwrap_err(), ArrayError::OffsetsTooShort);
}

#[test]
fn from_buffers_refuses_invalid_offsets() {
    let read = |entries: &[i32], values: &[u8]| {
        let offsets: Vec<u8> = entries.iter().flat_map(|o| o.to_le_bytes()).collect();
        BinaryArray::from_buffers(
            DataType::Binary,
            entries.len() - 1,
            0,
            &offsets,
            values.to_vec(),
            None,
        )
    };
    assert!(read(&[0, 3], b"abc").is_ok());
    assert_eq!(read(&[0, 4], b"abc").unwrap_err(), ArrayError::InvalidOffsets);
    assert_eq!(read(&[-1, 2], b"abc").unwrap_err(), ArrayError::InvalidOffsets);
    assert_eq!(read(&[0, 2, 1], b"abc").unwrap_err(), ArrayError::InvalidOffsets);
    assert_eq!(read(&[0, i32::MIN], b"abc").unwrap_err(), ArrayError::InvalidOffsets);
}

#[test]
fn from_buffers_refuses_a_validity_of_another_length() {
    let offsets: Vec<u8> = [0i32, 1, 3].iter().flat_map(|o| o.to_le_bytes()).collect();
    let r = BinaryArray::from_buffers(
        DataType::Binary,
        2,
        0,
        &offsets,
        b"abc".to_vec(),
        Some(validity_of(&[true, false, true])),
    );
    assert_eq!(r.unwrap_err(), ArrayError::ValidityMismatch);
}

#[test]
fn to_data_hands_over_type_length_buffers_and_nulls() {
    let data = sample(DataType::Binary).to_data();
    assert_eq!(data.data_type(), &arrow_schema::DataType::Binary);
    assert_eq!(data.len(), 3);
    assert_eq!(data.offset(), 0);
    assert_eq!(data.buffers().len(), 2);
    assert_eq!(data.buffers()[0].typed_data::<i32>(), &[0, 2, 2, 5]);
    assert_eq!(data.buffers()[1].as_slice(), b"abcde");
    assert_eq!(data.null_count(), 1);
    let nulls = data.nulls().unwrap();
    assert_eq!(nulls.len(), 3);
    assert!(nulls.is_valid(0));
    assert!(nulls.is_null(1));
    assert!(nulls.is_valid(2));
    assert!(data.validate_full().is_ok());
}

#[test]
fn to_data_of_a_large_array_has_64_bit_offsets() {
    let data = sample(DataType::LargeBinary).to_data();
    assert_eq!(data.data_type(), &arrow_schema::DataType::LargeBinary);
    assert_eq!(data.buffers()[0].typed_data::<i64>(), &[0, 2, 2, 5]);
    assert_eq!(data.buffers()[1].as_slice(), b"abcde");
}

#[test]
fn to_data_keeps_the_window_of_a_sliced_validity() {
    let validity = validity_of(&[false, false, true, false, true, true]).slice(2, 3);
    let a = BinaryArray::try_new(DataType::Binary, vec![0, 1, 2, 3], b"xyz".to_vec(), Some(validity))
        .unwrap();
    let data = a.to_data();
    let nulls = data.nulls().unwrap();
    assert_eq!(nulls.offset(), 2);
    assert_eq!(nulls.len(), 3);
    assert_eq!(nulls.null_count(), 1);
    assert!(nulls.is_valid(0));
    assert!(nulls.is_null(1));
    assert!(nulls.is_valid(2));
    let back = BinaryArray::from_data(&data, a.data_type()).unwrap();
    assert_eq!(rows_of(&back), rows_of(&a));
    assert_eq!(back.validity().unwrap().offset(), 2);
}

#[test]
fn to_data_drops_a_validity_without_nulls() {
    let a = BinaryArray::try_new(
        DataType::Binary,
        vec![0, 1, 2],
        b"xy".to_vec(),
        Some(validity_of(&[true, true])),
    )
    .unwrap();
    let data = a.to_data();
    assert!(data.nulls().is_none());
    assert_eq!(data.null_count(), 0);
    let back = BinaryArray::from_data(&data, a.data_type()).unwrap();
    assert!(back.validity().is_none());
    assert_eq!(rows_of(&back), rows_of(&a));
}

#[test]
fn to_data_of_offsets_that_do_not_start_at_zero() {
    let a = BinaryArray::try_new(DataType::Binary, vec![2, 3, 5], b"abcde".to_vec(), None).unwrap();
    let data = a.to_data();
    assert_eq!(data.buffers()[0].typed_data::<i32>(), &[2, 3, 5]);
    let back = BinaryArray::from_data(&data, a.data_type()).unwrap();
    assert_eq!(rows_of(&back), vec![Some(b"c".to_vec()), Some(b"de".to_vec())]);
}

#[test]
fn export_then_import_gives_the_rows_back() {
    for data_type in [DataType::Binary, DataType::LargeBinary] {
        let a = sample(data_type);
        let back = BinaryArray::from_data(&a.to_data(), data_type).unwrap();
        assert_eq!(back.data_type(), data_type);
        assert_eq!(back.len(), 3);
        assert_eq!(back.offsets(), a.offsets());
        assert_eq!(back.values(), a.values());
        assert_eq!(rows_of(&back), rows_of(&a));
        assert_eq!(back.validity().unwrap(), a.validity().unwrap());

        let e = BinaryArray::new_empty(data_type);
        let back = BinaryArray::from_data(&e.to_data(), data_type).unwrap();
        assert_eq!(back.len(), 0);
        assert_eq!(back.data_type(), data_type);
    }
}

#[test]
fn from_data_reads_what_the_builder_made() {
    let data = ArrayDataBuilder::new(arrow_schema::DataType::Binary)
        .len(3)
        .buffers(vec![
            Buffer::from_vec(vec![0i32, 1, 3, 6]),
            Buffer::from_vec(b"abcdef".to_vec()),
        ])
        .nulls(Some(NullBuffer::new(BooleanBuffer::new(
            Buffer::from_vec(vec![0b0000_0101u8]),
            0,
            3,
        ))))
        .build()
        .unwrap();
    let a = BinaryArray::from_data(&data, DataType::Binary).unwrap();
    assert_eq!(a.data_type(), DataType::Binary);
    assert_eq!(a.len(), 3);
    assert_eq!(a.offsets(), &[0, 1, 3, 6]);
    assert_eq!(a.values(), b"abcdef");
    assert_eq!(
        rows_of(&a),
        vec![Some(b"a".to_vec()), None, Some(b"def".to_vec())]
    );
}

#[test]
fn from_data_applies_the_slice_offset_to_the_offsets() {
    let data = ArrayDataBuilder::new(arrow_schema::DataType::LargeBinary)
        .len(2)
        .offset(1)
        .buffers(vec![
            Buffer::from_vec(vec![0i64, 1, 3, 6]),
            Buffer::from_vec(b"abcdef".to_vec()),
        ])
        .nulls(Some(NullBuffer::new(BooleanBuffer::new(
            Buffer::from_vec(vec![0b0000_1010u8]),
            2,
            2,
        ))))
        .build()
        .unwrap();
    let a = BinaryArray::from_data(&data, DataType::LargeBinary).unwrap();
    assert_eq!(a.data_type(), DataType::LargeBinary);
    assert_eq!(a.offsets(), &[1, 3, 6]);
    assert_eq!(rows_of(&a), vec![None, Some(b"def".to_vec())]);
    let validity = a.validity().unwrap();
    assert_eq!(validity.offset(), 2);
    assert_eq!(validity.len(), 2);
}

#[test]
fn from_data_of_a_sliced_array_data() {
    let whole = sample(DataType::Binary).to_data();
    let part = whole.slice(1, 2);
    let a = BinaryArray::from_data(&part, DataType::Binary).unwrap();
    assert_eq!(a.len(), 2);
    assert_eq!(a.offsets(), &[2, 2, 5]);
    assert_eq!(rows_of(&a), vec![None, Some(b"cde".to_vec())]);
}

#[test]
fn from_data_without_rows_is_the_empty_array() {
    let data = ArrayDataBuilder::new(arrow_schema::DataType::Binary)
        .len(0)
        .buffers(vec![Buffer::from_vec(vec![3i32]), Buffer::from_vec(b"abc".to_vec())])
        .build()
        .unwrap();
    let a = BinaryArray::from_data(&data, DataType::Binary).unwrap();
    assert_eq!(a.len(), 0);
    assert_eq!(a.data_type(), DataType::Binary);
    assert_eq!(a.offsets(), &[0]);
    assert_eq!(a.values(), b"");
}

#[test]
fn try_from_data_looks_at_the_type_first() {
    let data = ArrayDataBuilder::new(arrow_schema::DataType::Int32)
        .len(2)
        .buffers(vec![Buffer::from_vec(vec![1i32, 2])])
        .build()
        .unwrap();
    assert!(BinaryArray::try_from_data(&data, DataType::Binary).is_none());
    assert!(BinaryArray::try_from_data(&data, DataType::LargeBinary).is_none());
    let text = ArrayDataBuilder::new(arrow_schema::DataType::Utf8)
        .len(1)
        .buffers(vec![Buffer::from_vec(vec![0i32, 1]), Buffer::from_vec(b"a".to_vec())])
        .build()
        .unwrap();
    assert!(BinaryArray::try_from_data(&text, DataType::Binary).is_none());
    // the other binary type is another type, with rows or without
    let binary = sample(DataType::Binary).to_data();
    assert!(BinaryArray::try_from_data(&binary, DataType::LargeBinary).is_none());
    let large = sample(DataType::LargeBinary).to_data();
    assert!(BinaryArray::try_from_data(&large, DataType::Binary).is_none());
    let empty = BinaryArray::new_empty(DataType::Binary).to_data();
    assert!(BinaryArray::try_from_data(&empty, DataType::LargeBinary).is_none());
    assert_eq!(
        BinaryArray::try_from_data(&empty, DataType::Binary).unwrap().unwrap().len(),
        0
    );
}

#[test]
fn try_from_data_of_the_right_type_is_from_data() {
    for data_type in [DataType::Binary, DataType::LargeBinary] {
        let a = sample(data_type);
        let data = a.to_data();
        let tried = BinaryArray::try_from_data(&data, data_type).unwrap().unwrap();
        let read = BinaryArray::from_data(&data, data_type).unwrap();
        assert_eq!(tried.data_type(), data_type);
        assert_eq!(tried.offsets(), read.offsets());
        assert_eq!(tried.values(), read.values());
        assert_eq!(rows_of(&tried), rows_of(&a));
        assert_eq!(rows_of(&read), rows_of(&a));
    }
}

#[test]
fn null_count_is_the_number_of_zero_bits_of_the_validity() {
    let data = sample(DataType::Binary).to_data();
    assert_eq!(null_count(&data), 1);
    assert_eq!(data.null_count(), 1);
    // no validity, and a validity without a zero bit
    let a = BinaryArray::try_new(DataType::Binary, vec![0, 1, 2], b"xy".to_vec(), None).unwrap();
    assert_eq!(null_count(&a.to_data()), 0);
    let a = BinaryArray::try_new(
        DataType::Binary,
        vec![0, 1, 2],
        b"xy".to_vec(),
        Some(validity_of(&[true, true])),
    )
    .unwrap();
    assert_eq!(null_count(&a.to_data()), 0);
    // only the bits of the window count: the buffer has zero bits beside it
    let validity = validity_of(&[false, false, true, false, true, true, false, false]).slice(2, 4);
    let a = BinaryArray::try_new(
        DataType::LargeBinary,
        vec![0, 1, 2, 3, 4],
        b"wxyz".to_vec(),
        Some(validity),
    )
    .unwrap();
    let data = a.to_data();
    assert_eq!(null_count(&data), 1);
    assert_eq!(data.nulls().unwrap().len(), 4);
    // every row null
    let a = BinaryArray::try_new(
        DataType::Binary,
        vec![0, 0, 0, 0],
        Vec::new(),
        Some(validity_of(&[false, false, false])),
    )
    .unwrap();
    assert_eq!(null_count(&a.to_data()), 3);
}

#[test]
fn to_data_succeeds_on_every_shape_of_array() {
    for data_type in [DataType::Binary, DataType::LargeBinary] {
        // no rows
        let data = BinaryArray::new_empty(data_type).to_data();
        assert_eq!(data.len(), 0);
        assert!(data.validate_full().is_ok());
        // no rows, offsets that do not start at zero, values that nothing points into
        let a = BinaryArray::try_new(data_type, vec![2], b"abc".to_vec(), None).unwrap();
        let data = a.to_data();
        assert_eq!(data.len(), 0);
        assert!(data.validate_full().is_ok());
        // empty rows only
        let a = BinaryArray::try_new(data_type, vec![0, 0, 0], Vec::new(), None).unwrap();
        let data = a.to_data();
        assert_eq!(data.len(), 2);
        assert!(data.validate_full().is_ok());
        // many rows, a validity that starts inside a byte
        let n = 200usize;
        let offsets: Vec<i64> = (0..=n as i64).map(|i| 3 * i).collect();
        let values = vec![7u8; 3 * n + 5];
        let bits: Vec<bool> = (0..n + 9).map(|i| i % 3 != 0).collect();
        let validity = validity_of(&bits).slice(5, n);
        let a = BinaryArray::try_new(data_type, offsets.clone(), values.clone(), Some(validity))
            .unwrap();
        let data = a.to_data();
        assert_eq!(data.len(), n);
        assert_eq!(data.offset(), 0);
        assert_eq!(data.buffers().len(), 2);
        assert_eq!(data.buffers()[0].as_slice(), &a.offsets_buffer()[..]);
        assert_eq!(data.buffers()[1].as_slice(), &values[..]);
        assert!(data.validate_full().is_ok());
        let nulls = (0..n).filter(|i| !bits[5 + i]).count();
        assert_eq!(null_count(&data), nulls);
        let back = BinaryArray::from_data(&data, data_type).unwrap();
        assert_eq!(back.offsets(), &offsets[..]);
        assert_eq!(rows_of(&back), rows_of(&a));
    }
}

#[test]
fn from_parts_without_rows_is_the_empty_array() {
    let a = BinaryArray::from_parts(DataType::LargeBinary, 0, 3, None, None, None).unwrap();
    assert_eq!(a.len(), 0);
    assert_eq!(a.data_type(), DataType::LargeBinary);
    assert_eq!(a.offsets(), &[0]);
    let a = BinaryArray::from_parts(
        DataType::Binary,
        0,
        0,
        Some(vec![1, 2, 3]),
        None,
        Some((vec![0xff], 7, 9)),
    )
    .unwrap();
    assert_eq!(a.len(), 0);
    assert!(a.validity().is_none());
}

#[test]
fn from_parts_asks_for_both_buffers() {
    let offsets: Vec<u8> = [0i32, 1].iter().flat_map(|o| o.to_le_bytes()).collect();
    let t = DataType::Binary;
    let r = BinaryArray::from_parts(t, 1, 0, None, None, None);
    assert_eq!(r.unwrap_err(), ArrayError::MissingBuffer);
    let r = BinaryArray::from_parts(t, 1, 0, Some(offsets.clone()), None, None);
    assert_eq!(r.unwrap_err(), ArrayError::MissingBuffer);
    let r = BinaryArray::from_parts(t, 1, 0, None, Some(b"a".to_vec()), None);
    assert_eq!(r.unwrap_err(), ArrayError::MissingBuffer);
    // a missing buffer is reported before nulls that do not fit
    let r = BinaryArray::from_parts(t, 1, 0, None, Some(b"a".to_vec()), Some((vec![0], 8, 1)));
    assert_eq!(r.unwrap_err(), ArrayError::MissingBuffer);
    let r = BinaryArray::from_parts(t, 1, 0, Some(offsets), Some(b"a".to_vec()), None);
    assert_eq!(r.unwrap().value(0), b"a");
}

#[test]
fn from_parts_asks_for_nulls_inside_their_bytes() {
    let offsets: Vec<u8> = [0i32, 1, 3].iter().flat_map(|o| o.to_le_bytes()).collect();
    let read = |nulls| {
        BinaryArray::from_parts(
            DataType::Binary,
            2,
            0,
            Some(offsets.clone()),
            Some(b"abc".to_vec()),
            nulls,
        )
    };
    let a = read(Some((vec![0b0100_0000], 6, 2))).unwrap();
    assert_eq!(rows_of(&a), vec![Some(b"a".to_vec()), None]);
    assert_eq!(read(Some((vec![0b0100_0000], 7, 2))).unwrap_err(), ArrayError::ValidityMismatch);
    assert_eq!(read(Some((Vec::new(), 0, 2))).unwrap_err(), ArrayError::ValidityMismatch);
    assert_eq!(
        read(Some((vec![0xff], usize::MAX, 2))).unwrap_err(),
        ArrayError::ValidityMismatch
    );
    // nulls of another length than the array
    assert_eq!(read(Some((vec![0xff], 0, 3))).unwrap_err(), ArrayError::ValidityMismatch);
    // nulls that do not fit are reported before offsets that are too short
    let r = BinaryArray::from_parts(
        DataType::Binary,
        5,
        0,
        Some(offsets.clone()),
        Some(b"abc".to_vec()),
        Some((vec![0xff], 7, 5)),
    );
    assert_eq!(r.unwrap_err(), ArrayError::ValidityMismatch);
    let r = BinaryArray::from_parts(
        DataType::Binary,
        5,
        0,
        Some(offsets.clone()),
        Some(b"abc".to_vec()),
        Some((vec![0xff], 0, 5)),
    );
    assert_eq!(r.unwrap_err(), ArrayError::OffsetsTooShort);
}

#[test]
fn from_parts_reads_the_rows_from_the_slice_offset_on() {
    let offsets: Vec<u8> = [9i64, 0, 1, 3, 6].iter().flat_map(|o| o.to_le_bytes()).collect();
    let a = BinaryArray::from_parts(
        DataType::LargeBinary,
        3,
        1,
        Some(offsets),
        Some(b"abcdef".to_vec()),
        Some((vec![0b0001_0100], 2, 3)),
    )
    .unwrap();
    assert_eq!(a.offsets(), &[0, 1, 3, 6]);
    assert_eq!(
        rows_of(&a),
        vec![Some(b"a".to_vec()), None, Some(b"def".to_vec())]
    );
}

#[test]
fn from_data_reads_no_more_rows_than_the_length_says() {
    // the offsets buffer has four entries, the data two rows from row 0 on
    let whole = sample(DataType::Binary).to_data();
    let part = whole.slice(0, 2);
    assert_eq!(part.offset(), 0);
    let a = BinaryArray::from_data(&part, DataType::Binary).unwrap();
    assert_eq!(a.len(), 2);
    assert_eq!(a.offsets(), &[0, 2, 2]);
    assert_eq!(rows_of(&a), vec![Some(b"ab".to_vec()), None]);
    assert_eq!(a.validity().unwrap().len(), 2);
}
