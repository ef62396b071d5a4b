use blp1::cursor::{ByteReader, ByteWriter, InputTruncated};
use blp1::error::BlpError;
use blp1::header::{Blp1Header, BLP1_MAGIC, JPEG_HEADER_OFFSET, JPEG_SIZE_OFFSET};
use blp1::mip::{
    exact_level_count, half, level_count, mip_axis, mip_dims, table_consistent, MAX_MIPS,
};
use blp1::spans::{count_covered, Span};
use blp1::texture::file_spans;

fn sample_header() -> Blp1Header {
    let mut mip_offsets = [0u32; 16];
    let mut mip_sizes = [0u32; 16];
    mip_offsets[0] = 165;
    mip_sizes[0] = 10;
    mip_offsets[1] = 175;
    mip_sizes[1] = 4;
    Blp1Header {
        compression: 0,
        alpha_bits: 8,
        width: 640,
        height: 480,
        alpha_type: 8,
        has_mips: 1,
        mip_offsets,
        mip_sizes,
        jpeg_header_size: 5,
    }
}

#[test]
fn header_is_laid_out_field_by_field() {
    let h = sample_header();
    let bytes = h.serialize(&[1, 2, 3, 4, 5]);
    assert_eq!(bytes.len(), 165);
    assert_eq!(&bytes[0..4], b"BLP1");
    assert_eq!(&bytes[4..8], &[0, 0, 0, 0]);
    assert_eq!(&bytes[8..12], &[8, 0, 0, 0]);
    assert_eq!(&bytes[12..16], &[0x80, 0x02, 0, 0]);
    assert_eq!(&bytes[16..20], &[0xE0, 0x01, 0, 0]);
    assert_eq!(&bytes[20..24], &[8, 0, 0, 0]);
    assert_eq!(&bytes[24..28], &[1, 0, 0, 0]);
    assert_eq!(&bytes[28..32], &[165, 0, 0, 0]);
    assert_eq!(&bytes[32..36], &[175, 0, 0, 0]);
    assert_eq!(&bytes[92..96], &[10, 0, 0, 0]);
    assert_eq!(&bytes[96..100], &[4, 0, 0, 0]);
    assert_eq!(&bytes[156..160], &[5, 0, 0, 0]);
    assert_eq!(&bytes[160..165], &[1, 2, 3, 4, 5]);
    assert_eq!(JPEG_SIZE_OFFSET, 156);
    assert_eq!(JPEG_HEADER_OFFSET, 160);
    assert_eq!(BLP1_MAGIC, 0x424C5031);
}

#[test]
fn header_reads_back_what_was_written() {
    let h = sample_header();
    let mut bytes = h.serialize(&[1, 2, 3, 4, 5]);
    bytes.extend_from_slice(&[0u8; 14]);
    let back = Blp1Header::parse(&bytes).expect("parse");
    assert_eq!(back.compression, 0);
    assert_eq!(back.alpha_bits, 8);
    assert_eq!(back.width, 640);
    assert_eq!(back.height, 480);
    assert_eq!(back.alpha_type, 8);
    assert_eq!(back.has_mips, 1);
    assert_eq!(back.mip_offsets, h.mip_offsets);
    assert_eq!(back.mip_sizes, h.mip_sizes);
    assert_eq!(back.jpeg_header_size, 5);
    assert!(back.tables_consistent(bytes.len()));
    assert!(!back.tables_consistent(bytes.len() - 1));
}

#[test]
fn header_errors_are_told_apart() {
    let h = sample_header();
    let good = h.serialize(&[1, 2, 3, 4, 5]);
    assert!(matches!(Blp1Header::parse(&[]), Err(BlpError::InvalidHeader)));
    assert!(matches!(Blp1Header::parse(b"BLP"), Err(BlpError::InvalidHeader)));
    assert!(matches!(Blp1Header::parse(b"BLP1"), Err(BlpError::InvalidHeader)));
    assert!(matches!(Blp1Header::parse(&good[..159]), Err(BlpError::InvalidHeader)));
    let mut wrong_magic = good.clone();
    wrong_magic[3] = b'2';
    assert!(matches!(Blp1Header::parse(&wrong_magic), Err(BlpError::InvalidHeader)));
    let mut no_width = good.clone();
    no_width[12..16].copy_from_slice(&[0; 4]);
    assert!(matches!(Blp1Header::parse(&no_width), Err(BlpError::InvalidHeader)));
    let mut no_height = good.clone();
    no_height[16..20].copy_from_slice(&[0; 4]);
    assert!(matches!(Blp1Header::parse(&no_height), Err(BlpError::InvalidHeader)));
    let mut palette = good.clone();
    palette[4] = 1;
    assert!(matches!(Blp1Header::parse(&palette), Err(BlpError::UnsupportedCompression)));
    let mut palette_no_width = palette.clone();
    palette_no_width[12..16].copy_from_slice(&[0; 4]);
    assert!(matches!(Blp1Header::parse(&palette_no_width), Err(BlpError::InvalidHeader)));
    assert!(matches!(Blp1Header::parse(&good[..164]), Err(BlpError::Truncated)));
    assert!(matches!(Blp1Header::parse(&good[..160]), Err(BlpError::Truncated)));
    assert!(Blp1Header::parse(&good).is_ok());
}

#[test]
fn reader_reads_each_width_and_order() {
    let data = [0x12, 0x34, 0x56, 0x78, 0x9A, 0xBC, 0xDE, 0xF0, 0x11, 0x22, 0x33];
    let mut rd = ByteReader::new(&data);
    assert_eq!(rd.position(), 0);
    assert_eq!(rd.remaining(), 11);
    assert_eq!(rd.read_u32_le(), Ok(0x78563412));
    assert_eq!(rd.position(), 4);
    assert_eq!(rd.read_u16_be(), Ok(0x9ABC));
    assert_eq!(rd.read_u8(), Ok(0xDE));
    assert_eq!(rd.remaining(), 4);
    assert_eq!(rd.read_u32_be(), Ok(0xF0112233));
    assert_eq!(rd.remaining(), 0);
    assert_eq!(rd.read_u8(), Err(InputTruncated { offset: 11, need: 1, have: 0 }));
    let mut rd = ByteReader::new(&data);
    assert_eq!(rd.read_bytes(3), Ok(&data[0..3]));
    assert_eq!(rd.read_bytes(0), Ok(&data[3..3]));
    assert_eq!(rd.read_bytes(9), Err(InputTruncated { offset: 3, need: 9, have: 8 }));
    assert_eq!(rd.position(), 3);
    assert_eq!(rd.read_bytes(8), Ok(&data[3..11]));
    assert_eq!(rd.read_u32_le(), Err(InputTruncated { offset: 11, need: 4, have: 0 }));
    let mut short = ByteReader::new(&data[..3]);
    assert_eq!(short.read_u32_be(), Err(InputTruncated { offset: 0, need: 4, have: 3 }));
    assert_eq!(short.read_u16_be(), Ok(0x1234));
    assert_eq!(short.read_u16_be(), Err(InputTruncated { offset: 2, need: 2, have: 1 }));
}

#[test]
fn writer_appends_each_width_and_order() {
    let mut w = ByteWriter::new();
    assert_eq!(w.position(), 0);
    w.write_u32_le(0x78563412);
    w.write_u32_be(0x01020304);
    w.write_u16_be(0xABCD);
    w.write_u8(0x7F);
    w.write_bytes(&[9, 8, 7]);
    assert_eq!(w.position(), 14);
    assert_eq!(
        w.into_bytes(),
        vec![0x12, 0x34, 0x56, 0x78, 1, 2, 3, 4, 0xAB, 0xCD, 0x7F, 9, 8, 7]
    );
    let mut w = ByteWriter::new();
    w.write_u32_le(u32::MAX);
    w.write_u32_le(0);
    w.write_u16_be(0);
    let bytes = w.into_bytes();
    let mut rd = ByteReader::new(&bytes);
    assert_eq!(rd.read_u32_le(), Ok(u32::MAX));
    assert_eq!(rd.read_u32_le(), Ok(0));
    assert_eq!(rd.read_u16_be(), Ok(0));
}

#[test]
fn level_dimensions_halve_with_a_floor_of_one() {
    assert_eq!(mip_dims(256, 128, 0), (256, 128));
    assert_eq!(mip_dims(256, 128, 3), (32, 16));
    assert_eq!(mip_dims(256, 128, 7), (2, 1));
    assert_eq!(mip_dims(256, 128, 8), (1, 1));
    assert_eq!(mip_dims(256, 128, 15), (1, 1));
    assert_eq!(mip_dims(7, 5, 1), (3, 2));
    assert_eq!(mip_dims(7, 5, 2), (1, 1));
    assert_eq!(mip_dims(1, 1, 5), (1, 1));
    assert_eq!(mip_dims(2048, 1, 11), (1, 1));
    assert_eq!(mip_dims(2048, 1, 10), (2, 1));
    assert_eq!(mip_dims(u32::MAX, 3, 31), (1, 1));
    assert_eq!(mip_dims(u32::MAX, 3, 40), (1, 1));
    for level in 0..16usize {
        let (w, h) = mip_dims(1000, 37, level);
        assert_eq!(w, (1000u32 >> level).max(1));
        assert_eq!(h, (37u32 >> level).max(1));
    }
    assert_eq!(mip_axis(640, 0), 640);
    assert_eq!(mip_axis(640, 9), 1);
    assert_eq!(mip_axis(640, 10), 1);
    assert_eq!(mip_axis(u32::MAX, 31), 1);
    assert_eq!(mip_axis(u32::MAX, 30), 3);
    assert_eq!(mip_axis(u32::MAX, 32), 1);
    assert_eq!(half(1), 1);
    assert_eq!(half(0), 1);
    assert_eq!(half(9), 4);
}

#[test]
fn level_counts_follow_the_chain() {
    assert_eq!(MAX_MIPS, 16);
    assert_eq!(level_count(1, 1, true), 1);
    assert_eq!(level_count(1, 1, false), 1);
    assert_eq!(level_count(256, 128, true), 9);
    assert_eq!(level_count(256, 128, false), 1);
    assert_eq!(level_count(2048, 1, true), 12);
    assert_eq!(level_count(7, 5, true), 3);
    assert_eq!(level_count(65535, 65535, true), 16);
    assert_eq!(level_count(1 << 20, 1, true), 16);
    assert_eq!(exact_level_count(1, 1), 1);
    assert_eq!(exact_level_count(256, 128), 9);
    assert_eq!(exact_level_count(2048, 1), 12);
    assert_eq!(exact_level_count(7, 5), 1);
    assert_eq!(exact_level_count(6, 4), 2);
    assert_eq!(exact_level_count(12, 8), 3);
    assert_eq!(exact_level_count(1 << 20, 1 << 20), 16);
}

#[test]
fn covered_positions_are_counted_once() {
    let spans = vec![
        Span { start: 0, end: 10 },
        Span { start: 5, end: 20 },
        Span { start: 30, end: 40 },
        Span { start: 0, end: 0 },
        Span { start: 35, end: 36 },
        Span { start: 50, end: 45 },
    ];
    assert_eq!(count_covered(&spans, 100), 30);
    assert_eq!(count_covered(&spans, 35), 25);
    assert_eq!(count_covered(&spans, 7), 7);
    assert_eq!(count_covered(&spans, 0), 0);
    assert_eq!(count_covered(&Vec::new(), 12), 0);
    assert_eq!(count_covered(&vec![Span { start: 3, end: 1000 }], 12), 9);
}

#[test]
fn file_spans_follow_the_tables() {
    let h = sample_header();
    let spans = file_spans(&h, 179);
    assert_eq!(spans.len(), 17);
    assert_eq!(spans[0], Span { start: 0, end: 165 });
    assert_eq!(spans[1], Span { start: 165, end: 175 });
    assert_eq!(spans[2], Span { start: 175, end: 179 });
    assert_eq!(spans[3], Span { start: 0, end: 0 });
    let cut = file_spans(&h, 178);
    assert_eq!(cut[2], Span { start: 0, end: 0 });
    assert_eq!(count_covered(&cut, 178), 175);
}

#[test]
fn table_consistency_is_checked() {
    let h = sample_header();
    assert!(table_consistent(&h.mip_offsets, &h.mip_sizes, 165, 179));
    assert!(!table_consistent(&h.mip_offsets, &h.mip_sizes, 166, 179));
    assert!(!table_consistent(&h.mip_offsets, &h.mip_sizes, 165, 178));
    let mut overlapping = h.mip_offsets;
    overlapping[1] = 174;
    assert!(!table_consistent(&overlapping, &h.mip_sizes, 165, 179));
    let mut swapped = h.mip_offsets;
    swapped[0] = 169;
    swapped[1] = 165;
    assert!(table_consistent(&swapped, &h.mip_sizes, 165, 179));
    assert!(table_consistent(&[0; 16], &[0; 16], 500, 10));
    assert!(h.tables_consistent(179));
}
