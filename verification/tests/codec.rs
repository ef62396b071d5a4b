use blp1::assemble::{assemble, assemble_with};
use blp1::codec::{accept_decoded, decode_jpeg, export_png};
use blp1::decoder::{
    covered_bytes, decode_all, decode_into, decode_mip, decode_with, export_jpg, level_jpeg,
    parse_header,
};
use blp1::downsample::{downsample, to_rgb};
use blp1::encoder::{
    copy_image, encode, encode_jpeg, header_eq_except_hw, level_problem, pack,
};
use blp1::error::{BlpError, ScanError};
use blp1::rgba::{sample_count, swap_red_blue, RgbaImage};
use blp1::scan::parse_jpeg_header_info;

fn gradient(width: u32, height: u32) -> RgbaImage {
    let mut pixels = Vec::with_capacity((width * height * 4) as usize);
    for y in 0..height {
        for x in 0..width {
            let r = if width > 1 { x * 255 / (width - 1) } else { 128 };
            let g = if height > 1 { y * 255 / (height - 1) } else { 128 };
            pixels.push(r as u8);
            pixels.push(g as u8);
            pixels.push(128);
            pixels.push(255);
        }
    }
    RgbaImage::new(width, height, pixels).expect("buffer fits")
}

fn put_u32_le(bytes: &mut [u8], at: usize, value: u32) {
    bytes[at..at + 4].copy_from_slice(&value.to_le_bytes());
}

fn get_u32_le(bytes: &[u8], at: usize) -> u32 {
    u32::from_le_bytes([bytes[at], bytes[at + 1], bytes[at + 2], bytes[at + 3]])
}

fn plain_jpeg(width: u32, height: u32, quality: u8) -> Vec<u8> {
    let rgb = vec![90u8; (width * height * 3) as usize];
    let mut out = Vec::new();
    image::codecs::jpeg::JpegEncoder::new_with_quality(&mut out, quality)
        .encode(&rgb, width, height, image::ExtendedColorType::Rgb8)
        .expect("jpeg");
    out
}

fn slots(levels: Vec<(usize, Vec<u8>)>) -> Vec<Option<Vec<u8>>> {
    let mut out: Vec<Option<Vec<u8>>> = vec![None; 16];
    for (i, j) in levels {
        out[i] = Some(j);
    }
    out
}

#[test]
fn solid_red_survives_encode_and_decode() {
    let img = RgbaImage::solid(8, 8, [255, 0, 0, 255]);
    let bytes = encode(&img, 85, &[]).expect("encode");
    let decoded = decode_all(&bytes).expect("decode");
    assert_eq!(decoded.width, 8);
    assert_eq!(decoded.height, 8);
    let level0 = decoded.mipmaps[0].image.as_ref().expect("level 0 pixels");
    assert_eq!(level0.len(), 8 * 8 * 4);
    for px in level0.chunks(4) {
        assert!(px[0] >= 250, "red {}", px[0]);
        assert!(px[1] <= 5, "green {}", px[1]);
        assert!(px[2] <= 5, "blue {}", px[2]);
        assert_eq!(px[3], 255);
    }
    assert_eq!(decoded.holes, 0);
}

#[test]
fn magic_alone_is_an_invalid_header() {
    let r = parse_header(b"BLP1");
    assert!(matches!(r, Err(BlpError::InvalidHeader)));
    assert!(matches!(decode_all(b"BLP1"), Err(BlpError::InvalidHeader)));
    assert!(matches!(covered_bytes(b"BLP1"), Err(BlpError::InvalidHeader)));
}

#[test]
fn nine_levels_of_256_by_128() {
    let img = gradient(256, 128);
    let bytes = encode(&img, 85, &[]).expect("encode");
    let decoded = decode_all(&bytes).expect("decode");
    assert_eq!(decoded.mipmaps.len(), 16);
    assert_eq!(decoded.mip_count(), 9);
    assert_eq!(decoded.has_mips, 1);
    assert_eq!(decoded.compression, 0);
    assert_eq!(decoded.alpha_bits, 0);
    assert_eq!(decoded.alpha_type, 0);
    let m0 = &decoded.mipmaps[0];
    assert_eq!((m0.width, m0.height), (256, 128));
    assert_eq!(m0.image.as_ref().expect("level 0").len(), 256 * 128 * 4);
    let m8 = &decoded.mipmaps[8];
    assert_eq!((m8.width, m8.height), (1, 1));
    assert_eq!(m8.image.as_ref().expect("level 8").len(), 4);
    for i in 0..9 {
        let m = &decoded.mipmaps[i];
        assert_eq!(m.index, i);
        assert_eq!(m.width, (256u32 >> i).max(1));
        assert_eq!(m.height, (128u32 >> i).max(1));
        assert!(m.diagnostic.is_none());
        assert!(m.image.is_some());
    }
    for i in 9..16 {
        assert_eq!(decoded.mipmaps[i].length, 0);
        assert!(decoded.mipmaps[i].image.is_none());
        assert!(decoded.mipmaps[i].diagnostic.is_none());
    }
    assert_eq!(decoded.holes, 0);
    assert_eq!(covered_bytes(&bytes).expect("covered"), bytes.len());
}

#[test]
fn frame_header_is_rewritten_for_a_lower_level() {
    let img = gradient(128, 64);
    let bytes = encode(&img, 85, &[]).expect("encode");
    let before = bytes.clone();
    let meta = parse_header(&bytes).expect("header");
    let shared = &bytes[160..160 + meta.jpeg_header_size as usize];
    let info = parse_jpeg_header_info(shared).expect("shared header walks");
    assert_eq!((info.sof_w, info.sof_h), (128, 64));
    let level2 = export_jpg(&bytes, &meta, 2).expect("level 2 stream");
    let info2 = parse_jpeg_header_info(&level2).expect("level 2 walks");
    assert_eq!((info2.sof_w, info2.sof_h), (32, 16));
    assert_eq!(info2.sof_w_offset, info.sof_w_offset);
    assert_eq!(info2.sof_h_offset, info.sof_h_offset);
    let decoded = decode_all(&bytes).expect("decode");
    assert!(decoded.mipmaps[2].patched);
    assert!(!decoded.mipmaps[0].patched);
    assert_eq!(decoded.mipmaps[2].image.as_ref().expect("pixels").len(), 32 * 16 * 4);
    let px = decode_mip(&bytes, &meta, 2).expect("level 2 pixels");
    assert_eq!((px.width, px.height), (32, 16));
    assert_eq!(bytes, before);
}

#[test]
fn strict_mode_refuses_to_rewrite() {
    let img = gradient(16, 16);
    let bytes = encode(&img, 85, &[]).expect("encode");
    let decoded = decode_with(&bytes, true).expect("decode");
    assert!(decoded.mipmaps[0].image.is_some());
    assert!(decoded.mipmaps[0].diagnostic.is_none());
    for i in 1..5 {
        assert!(decoded.mipmaps[i].image.is_none());
        assert_eq!(decoded.mipmaps[i].diagnostic, Some(BlpError::MipDimsMismatch));
    }
    let lenient = decode_with(&bytes, false).expect("decode");
    for i in 0..5 {
        assert!(lenient.mipmaps[i].image.is_some());
    }
}

#[test]
fn offset_past_the_end_is_reported_on_the_level() {
    let img = gradient(8, 8);
    let mut bytes = encode(&img, 85, &[]).expect("encode");
    let size0 = get_u32_le(&bytes, 92);
    let len = bytes.len() as u32;
    put_u32_le(&mut bytes, 28, len + 1);
    let decoded = decode_all(&bytes).expect("the header is still good");
    assert!(decoded.mipmaps[0].image.is_none());
    assert_eq!(decoded.mipmaps[0].diagnostic, Some(BlpError::Truncated));
    assert!(decoded.mipmaps[1].image.is_some());
    assert_eq!(decoded.holes, size0 as usize);
    let listed = parse_header(&bytes).expect("header");
    assert_eq!(listed.mipmaps[0].diagnostic, Some(BlpError::Truncated));
    assert!(matches!(decode_mip(&bytes, &listed, 0), Err(BlpError::Truncated)));
}

#[test]
fn odd_dimensions_give_a_single_level() {
    let img = gradient(7, 5);
    let bytes = encode(&img, 85, &[]).expect("encode");
    let decoded = decode_all(&bytes).expect("decode");
    assert_eq!(decoded.mip_count(), 1);
    assert_eq!(decoded.has_mips, 0);
    assert_eq!((decoded.width, decoded.height), (7, 5));
    let m0 = &decoded.mipmaps[0];
    assert_eq!((m0.width, m0.height), (7, 5));
    assert_eq!(m0.image.as_ref().expect("pixels").len(), 7 * 5 * 4);
}

#[test]
fn single_pixel_has_one_level() {
    let img = RgbaImage::solid(1, 1, [10, 200, 30, 255]);
    let bytes = encode(&img, 90, &[]).expect("encode");
    let decoded = decode_all(&bytes).expect("decode");
    assert_eq!(decoded.mip_count(), 1);
    assert_eq!(decoded.has_mips, 0);
    assert_eq!(decoded.mipmaps[0].image.as_ref().expect("pixels").len(), 4);
}

#[test]
fn flat_image_halves_the_long_axis_alone() {
    let img = gradient(2048, 1);
    let bytes = encode(&img, 85, &[]).expect("encode");
    let decoded = decode_all(&bytes).expect("decode");
    assert_eq!(decoded.mip_count(), 12);
    for i in 0..12 {
        let m = &decoded.mipmaps[i];
        assert_eq!((m.width, m.height), (2048 >> i, 1));
        assert_eq!(m.image.as_ref().expect("pixels").len(), ((2048 >> i) * 4) as usize);
    }
    assert_eq!(decoded.mipmaps[11].width, 1);
    assert_eq!(decoded.mipmaps[12].length, 0);
}

#[test]
fn truncated_file_keeps_the_earlier_levels() {
    let img = gradient(64, 64);
    let bytes = encode(&img, 85, &[]).expect("encode");
    let full = parse_header(&bytes).expect("header");
    assert_eq!(full.mip_count(), 7);
    let cut = full.mipmaps[3].offset as usize + full.mipmaps[3].length as usize / 2;
    let short = &bytes[..cut];
    let decoded = decode_all(short).expect("the header is whole");
    for i in 0..3 {
        assert!(decoded.mipmaps[i].image.is_some(), "level {i}");
        assert!(decoded.mipmaps[i].diagnostic.is_none());
    }
    for i in 3..7 {
        assert!(decoded.mipmaps[i].image.is_none(), "level {i}");
        assert_eq!(decoded.mipmaps[i].diagnostic, Some(BlpError::Truncated));
    }
    assert_eq!(decoded.holes + covered_bytes(short).expect("covered"), short.len());
    assert_eq!(decoded.holes, full.mipmaps[3].length as usize / 2);
}

#[test]
fn holes_and_covered_bytes_add_up() {
    let img = gradient(16, 8);
    let mut bytes = encode(&img, 85, &[]).expect("encode");
    let clean = bytes.len();
    bytes.extend_from_slice(&[0xAA; 37]);
    let decoded = decode_all(&bytes).expect("decode");
    assert_eq!(decoded.holes, 37);
    assert_eq!(covered_bytes(&bytes).expect("covered"), clean);
    assert_eq!(decoded.holes + covered_bytes(&bytes).expect("covered"), bytes.len());
    assert!(decoded.mipmaps[0].image.is_some());
}

#[test]
fn overlapping_levels_are_counted_once() {
    let img = gradient(16, 8);
    let mut bytes = encode(&img, 85, &[]).expect("encode");
    let off0 = get_u32_le(&bytes, 28);
    let size1 = get_u32_le(&bytes, 96);
    put_u32_le(&mut bytes, 32, off0);
    let decoded = parse_header(&bytes).expect("header");
    assert_eq!(decoded.holes + covered_bytes(&bytes).expect("covered"), bytes.len());
    assert_eq!(decoded.holes, size1 as usize);
}

#[test]
fn encoded_header_declares_the_image() {
    for (w, h) in [(8u32, 8u32), (7, 5), (64, 2), (1, 1), (100, 60)] {
        let img = gradient(w, h);
        let bytes = encode(&img, 70, &[]).expect("encode");
        let meta = parse_header(&bytes).expect("header");
        assert_eq!((meta.width, meta.height), (w, h));
        assert!(meta.width > 0 && meta.height > 0);
        assert_eq!(meta.holes, 0);
        assert_eq!(&bytes[0..4], b"BLP1");
    }
}

#[test]
fn gradient_round_trip_stays_close() {
    let img = gradient(64, 64);
    for quality in [50u8, 85, 100] {
        let bytes = encode(&img, quality, &[]).expect("encode");
        let decoded = decode_all(&bytes).expect("decode");
        let got = decoded.mipmaps[0].image.as_ref().expect("pixels");
        let mut total: u64 = 0;
        let mut count: u64 = 0;
        for (a, b) in got.chunks(4).zip(img.pixels.chunks(4)) {
            for c in 0..3 {
                total += (a[c] as i32 - b[c] as i32).unsigned_abs() as u64;
                count += 1;
            }
            assert_eq!(a[3], 255);
        }
        let mean = total as f64 / count as f64;
        assert!(mean < 8.0, "quality {quality}: mean error {mean}");
    }
}

#[test]
fn levels_share_the_marker_prefix() {
    let img = gradient(32, 32);
    let bytes = encode(&img, 85, &[]).expect("encode");
    let meta = parse_header(&bytes).expect("header");
    let first = export_jpg(&bytes, &meta, 0).expect("level 0");
    let info0 = parse_jpeg_header_info(&first).expect("walk");
    assert_eq!(info0.header_end, meta.jpeg_header_size as usize);
    for i in 1..6 {
        let other = export_jpg(&bytes, &meta, i).expect("level");
        let info = parse_jpeg_header_info(&other).expect("walk");
        assert_eq!(info.header_end, info0.header_end);
        assert!(header_eq_except_hw(
            &other[..info.header_end],
            &first[..info0.header_end],
            &info,
            &info0
        ));
        assert_ne!(&other[..info.header_end], &first[..info0.header_end]);
        let mut differing = 0;
        for k in 0..info.header_end {
            if other[k] != first[k] {
                differing += 1;
                assert!(k >= info0.sof_h_offset && k < info0.sof_w_offset + 2);
            }
        }
        assert!(differing >= 1 && differing <= 4);
        assert_eq!(info.quant_table_ids, info0.quant_table_ids);
        assert_eq!(info.huffman_table_ids, info0.huffman_table_ids);
    }
}

#[test]
fn assembling_twice_changes_nothing() {
    let img = gradient(32, 16);
    let bytes = encode(&img, 85, &[]).expect("encode");
    let meta = parse_header(&bytes).expect("header");
    let n = meta.jpeg_header_size as usize;
    let shared = &bytes[160..160 + n];
    let e = &meta.mipmaps[1];
    let scan = &bytes[e.offset as usize..(e.offset + e.length) as usize];
    let once = assemble(shared, scan, 16, 8).expect("assemble");
    let twice = assemble(&once[..n], &once[n..], 16, 8).expect("assemble again");
    assert_eq!(once, twice);
    let again = assemble_with(&once[..n], &once[n..], 16, 8, true).expect("strict");
    assert!(!again.patched);
    assert_eq!(again.jpeg, once);
    let first = assemble_with(shared, scan, 16, 8, false).expect("lenient");
    assert!(first.patched);
    assert!(matches!(
        assemble_with(shared, scan, 16, 8, true),
        Err(BlpError::MipDimsMismatch)
    ));
    assert!(matches!(assemble(shared, scan, 70000, 8), Err(BlpError::MipDimsMismatch)));
}

#[test]
fn assembly_appends_the_closing_marker() {
    let jpeg = plain_jpeg(8, 8, 80);
    let info = parse_jpeg_header_info(&jpeg).expect("walk");
    let cut = info.header_end;
    assert_eq!(&jpeg[jpeg.len() - 2..], &[0xFF, 0xD9]);
    let whole = assemble(&jpeg[..cut], &jpeg[cut..], 8, 8).expect("assemble");
    assert_eq!(whole, jpeg);
    let open_end = &jpeg[cut..jpeg.len() - 2];
    let closed = assemble(&jpeg[..cut], open_end, 8, 8).expect("assemble");
    assert_eq!(closed, jpeg);
    assert!(matches!(
        assemble(&jpeg[2..cut], &jpeg[cut..], 8, 8),
        Err(BlpError::JpegParse(ScanError::MissingSoi))
    ));
}

#[test]
fn export_gives_the_packed_streams_back() {
    let a = plain_jpeg(4, 4, 80);
    let b = plain_jpeg(2, 2, 80);
    let c = plain_jpeg(1, 1, 80);
    let levels = slots(vec![(0, a.clone()), (1, b.clone()), (2, c.clone())]);
    let bytes = pack(4, 4, &levels).expect("pack");
    let meta = parse_header(&bytes).expect("header");
    assert_eq!(meta.has_mips, 1);
    assert_eq!(meta.holes, 0);
    assert_eq!(export_jpg(&bytes, &meta, 0).expect("level 0"), a);
    assert_eq!(export_jpg(&bytes, &meta, 1).expect("level 1"), b);
    assert_eq!(export_jpg(&bytes, &meta, 2).expect("level 2"), c);
    assert!(matches!(export_jpg(&bytes, &meta, 3), Err(BlpError::AbsentLevel)));
    assert!(matches!(export_jpg(&bytes, &meta, 16), Err(BlpError::AbsentLevel)));
    assert!(matches!(decode_mip(&bytes, &meta, 99), Err(BlpError::AbsentLevel)));
    let header = blp1::header::Blp1Header::parse(&bytes).expect("header");
    assert!(header.tables_consistent(bytes.len()));
    let info = parse_jpeg_header_info(&a).expect("walk");
    assert_eq!(header.jpeg_header_size as usize, info.header_end);
    assert_eq!(header.mip_offsets[0] as usize, 160 + info.header_end);
    assert_eq!(header.mip_sizes[0] as usize, a.len() - info.header_end);
    assert_eq!(header.mip_offsets[1], header.mip_offsets[0] + header.mip_sizes[0]);
    assert_eq!(header.mip_offsets[2], header.mip_offsets[1] + header.mip_sizes[1]);
    assert_eq!(header.mip_offsets[3], 0);
    assert_eq!(
        (header.mip_offsets[2] + header.mip_sizes[2]) as usize,
        bytes.len()
    );
}

#[test]
fn pack_names_what_is_wrong() {
    let a = plain_jpeg(4, 4, 80);
    let b = plain_jpeg(2, 2, 80);
    assert!(matches!(pack(4, 4, &slots(vec![])), Err(BlpError::EmptyMipSet)));
    assert!(matches!(
        pack(0, 4, &slots(vec![(0, a.clone())])),
        Err(BlpError::InvalidHeader)
    ));
    assert!(matches!(
        pack(4, 4, &slots(vec![(0, a.clone()), (1, plain_jpeg(2, 2, 30))])),
        Err(BlpError::SharedHeaderMismatch)
    ));
    assert!(matches!(
        pack(4, 4, &slots(vec![(0, a.clone()), (1, a.clone())])),
        Err(BlpError::MipDimsMismatch)
    ));
    assert!(matches!(
        pack(8, 8, &slots(vec![(0, a.clone())])),
        Err(BlpError::MipDimsMismatch)
    ));
    assert!(matches!(
        pack(4, 4, &slots(vec![(0, vec![1, 2, 3])])),
        Err(BlpError::JpegParse(ScanError::MissingSoi))
    ));
    let info = parse_jpeg_header_info(&a).expect("walk");
    assert!(matches!(
        pack(4, 4, &slots(vec![(0, a[..info.header_end].to_vec())])),
        Err(BlpError::JpegParse(ScanError::Truncated))
    ));
    let only_second = pack(4, 4, &slots(vec![(1, b.clone())])).expect("pack");
    let meta = parse_header(&only_second).expect("header");
    assert_eq!(meta.has_mips, 0);
    assert_eq!(meta.mip_count(), 1);
    assert_eq!(meta.mipmaps[0].length, 0);
    assert_eq!(export_jpg(&only_second, &meta, 1).expect("level 1"), b);
    assert_eq!(
        level_problem(&b, 2, 2, &a[..info.header_end], &info),
        None
    );
    assert_eq!(
        level_problem(&b, 3, 2, &a[..info.header_end], &info),
        Some(BlpError::MipDimsMismatch)
    );
}

#[test]
fn mask_leaves_levels_out() {
    let img = gradient(16, 16);
    let bytes = encode(&img, 85, &[true, false, true]).expect("encode");
    let decoded = decode_all(&bytes).expect("decode");
    assert_eq!(decoded.mip_count(), 4);
    assert!(decoded.mipmaps[0].image.is_some());
    assert_eq!(decoded.mipmaps[1].length, 0);
    assert_eq!(decoded.mipmaps[1].offset, 0);
    assert!(decoded.mipmaps[1].image.is_none());
    assert!(decoded.mipmaps[2].image.is_some());
    assert!(decoded.mipmaps[3].image.is_some());
    assert!(decoded.mipmaps[4].image.is_some());
    assert_eq!(decoded.holes, 0);
    let one = encode(&img, 85, &[true, false, false, false, false]).expect("encode");
    let meta = parse_header(&one).expect("header");
    assert_eq!(meta.mip_count(), 1);
    assert_eq!(meta.has_mips, 0);
    assert!(matches!(
        encode(&img, 85, &[false, false, false, false, false]),
        Err(BlpError::EmptyMipSet)
    ));
}

#[test]
fn encoder_refuses_impossible_dimensions() {
    let empty = RgbaImage::new(0, 0, Vec::new()).expect("empty buffer fits");
    assert!(matches!(encode(&empty, 85, &[]), Err(BlpError::JpegEncode)));
    let wide = RgbaImage::solid(70000, 1, [1, 2, 3, 255]);
    assert!(matches!(encode(&wide, 85, &[]), Err(BlpError::JpegEncode)));
}

#[test]
fn box_filter_takes_the_rounded_mean() {
    let img = RgbaImage::new(
        2,
        2,
        vec![10, 0, 255, 255, 20, 0, 255, 255, 30, 1, 255, 255, 41, 1, 254, 255],
    )
    .expect("buffer fits");
    let half = downsample(&img);
    assert_eq!((half.width, half.height), (1, 1));
    assert_eq!(half.pixels, vec![25, 1, 255, 255]);
    let row = RgbaImage::new(4, 1, vec![0, 0, 0, 255, 3, 0, 0, 255, 8, 0, 0, 255, 9, 0, 0, 255])
        .expect("buffer fits");
    let half_row = downsample(&row);
    assert_eq!((half_row.width, half_row.height), (2, 1));
    assert_eq!(half_row.pixels, vec![2, 0, 0, 255, 9, 0, 0, 255]);
    let odd = gradient(7, 5);
    let half_odd = downsample(&odd);
    assert_eq!((half_odd.width, half_odd.height), (3, 2));
    assert_eq!(half_odd.pixels.len(), 3 * 2 * 4);
    let one = RgbaImage::solid(1, 1, [7, 8, 9, 10]);
    assert_eq!(downsample(&one).pixels, vec![7, 8, 9, 10]);
}

#[test]
fn alpha_is_dropped_for_the_encoder() {
    let img = RgbaImage::new(2, 1, vec![1, 2, 3, 4, 5, 6, 7, 8]).expect("buffer fits");
    assert_eq!(to_rgb(&img), vec![1, 2, 3, 5, 6, 7]);
    let copy = copy_image(&img);
    assert_eq!(copy.pixels, img.pixels);
    assert_eq!((copy.width, copy.height), (2, 1));
}

#[test]
fn image_buffers_are_checked() {
    assert!(RgbaImage::new(2, 2, vec![0; 16]).is_some());
    assert!(RgbaImage::new(2, 2, vec![0; 15]).is_none());
    assert!(RgbaImage::new(0, 5, vec![]).is_some());
    assert_eq!(sample_count(3, 5, 4), Some(60));
    assert_eq!(sample_count(3, 5, 3), Some(45));
    assert_eq!(sample_count(0, 5, 1), Some(0));
    let img = RgbaImage::new(2, 2, (0u8..16).collect()).expect("buffer fits");
    assert_eq!(img.pixel(1, 0), [4, 5, 6, 7]);
    assert_eq!(img.pixel(0, 1), [8, 9, 10, 11]);
    assert_eq!(RgbaImage::solid(2, 1, [9, 8, 7, 6]).pixels, vec![9, 8, 7, 6, 9, 8, 7, 6]);
}

#[test]
fn decoded_pixels_must_fit_the_level() {
    let jpeg = plain_jpeg(8, 4, 80);
    let ok = decode_jpeg(&jpeg, 8, 4).expect("decode");
    assert_eq!((ok.width, ok.height), (8, 4));
    assert_eq!(ok.pixels.len(), 8 * 4 * 4);
    assert_ne!(ok.pixels, jpeg);
    assert!(matches!(decode_jpeg(&jpeg, 4, 8), Err(BlpError::JpegDecode)));
    assert!(matches!(decode_jpeg(b"not a jpeg", 8, 4), Err(BlpError::JpegDecode)));
    let raw = RgbaImage { width: 2, height: 2, pixels: vec![0; 16] };
    assert!(accept_decoded(raw, 2, 2).is_ok());
    let short = RgbaImage { width: 2, height: 2, pixels: vec![0; 12] };
    assert!(matches!(accept_decoded(short, 2, 2), Err(BlpError::JpegDecode)));
    let other = RgbaImage { width: 2, height: 2, pixels: vec![0; 16] };
    assert!(matches!(accept_decoded(other, 2, 1), Err(BlpError::JpegDecode)));
}

#[test]
fn broken_scan_is_reported_on_its_level() {
    let img = gradient(16, 16);
    let mut bytes = encode(&img, 85, &[]).expect("encode");
    let meta = parse_header(&bytes).expect("header");
    put_u32_le(&mut bytes, 160, 0);
    let decoded = decode_all(&bytes).expect("the container header is good");
    for i in 0..5 {
        assert!(decoded.mipmaps[i].image.is_none());
        assert_eq!(
            decoded.mipmaps[i].diagnostic,
            Some(BlpError::JpegParse(ScanError::MissingSoi))
        );
    }
    assert_eq!(meta.width, decoded.width);
    assert!(matches!(
        level_jpeg(&bytes, meta.jpeg_header_size, 0, 0, 16, 16, false),
        Err(BlpError::AbsentLevel)
    ));
}

#[test]
fn png_export_writes_a_png() {
    let img = gradient(5, 3);
    let png = export_png(&img).expect("png");
    assert_eq!(&png[..8], &[0x89, b'P', b'N', b'G', 0x0D, 0x0A, 0x1A, 0x0A]);
    let back = image::load_from_memory_with_format(&png, image::ImageFormat::Png)
        .expect("png decodes")
        .into_rgba8();
    assert_eq!((back.width(), back.height()), (5, 3));
    assert_eq!(back.into_raw(), img.pixels);
    assert_eq!(export_png(&img).expect("png"), png);
    assert_ne!(png, img.pixels);
    let nothing = RgbaImage::new(0, 0, Vec::new()).expect("empty buffer fits");
    assert!(matches!(export_png(&nothing), Err(BlpError::PngEncode)));
}

#[test]
fn error_kinds_have_keys() {
    assert_eq!(BlpError::InvalidHeader.key(), "blp-invalid-header");
    assert_eq!(BlpError::Truncated.key(), "blp-truncated");
    assert_eq!(BlpError::UnsupportedCompression.key(), "blp-unsupported-compression");
    assert_eq!(BlpError::JpegParse(ScanError::Truncated).key(), "blp-jpeg-parse");
    assert_eq!(BlpError::JpegDecode.key(), "blp-jpeg-decode");
    assert_eq!(BlpError::JpegEncode.key(), "blp-jpeg-encode");
    assert_eq!(BlpError::PngEncode.key(), "blp-png-encode");
    assert_eq!(BlpError::SharedHeaderMismatch.key(), "blp-shared-header-mismatch");
    assert_eq!(BlpError::MipDimsMismatch.key(), "blp-mip-dims-mismatch");
    assert_eq!(BlpError::AbsentLevel.key(), "blp-absent-level");
    assert_eq!(BlpError::EmptyMipSet.key(), "blp-empty-mip-set");
    assert_eq!(BlpError::OutputTooLarge.key(), "blp-output-too-large");
    assert_eq!(ScanError::MissingSoi.name(), "missing-soi");
    assert_eq!(ScanError::Truncated.name(), "truncated");
    assert_eq!(ScanError::InvalidSegmentLength.name(), "invalid-segment-length");
    assert_eq!(ScanError::UnsupportedMarker.name(), "unsupported-marker");
    assert_eq!(ScanError::UnsupportedPrecision.name(), "unsupported-precision");
}

#[test]
fn levels_can_be_decoded_one_at_a_time() {
    let img = gradient(16, 16);
    let bytes = encode(&img, 85, &[]).expect("encode");
    let mut meta = parse_header(&bytes).expect("header");
    assert!(meta.mipmaps.iter().all(|m| m.image.is_none()));
    decode_into(&bytes, &mut meta, 2);
    assert!(meta.mipmaps[0].image.is_none());
    assert!(meta.mipmaps[1].image.is_none());
    assert_eq!(meta.mipmaps[2].image.as_ref().expect("pixels").len(), 4 * 4 * 4);
    assert!(meta.mipmaps[2].patched);
    assert!(meta.mipmaps[2].diagnostic.is_none());
    decode_into(&bytes, &mut meta, 9);
    assert!(meta.mipmaps[9].image.is_none());
    assert!(meta.mipmaps[9].diagnostic.is_none());
    decode_into(&bytes, &mut meta, 40);
    assert_eq!(meta.mipmaps.len(), 16);
    let whole = decode_all(&bytes).expect("decode");
    assert_eq!(whole.mipmaps[2].image, meta.mipmaps[2].image);
    let short = &bytes[..bytes.len() - 1];
    let mut cut = parse_header(short).expect("header");
    decode_into(short, &mut cut, 4);
    assert_eq!(cut.mipmaps[4].diagnostic, Some(BlpError::Truncated));
    let top = blp1::decode_mip(&bytes, &meta, 0).expect("level 0");
    assert_eq!((top.width, top.height), (16, 16));
}

#[test]
fn header_of_a_read_texture_writes_the_same_bytes() {
    let img = gradient(32, 8);
    let mut bytes = encode(&img, 60, &[true, true, false]).expect("encode");
    bytes[8] = 8;
    bytes[20] = 3;
    let meta = parse_header(&bytes).expect("header");
    assert_eq!(meta.alpha_bits, 8);
    assert_eq!(meta.alpha_type, 3);
    assert_eq!(meta.mipmaps.len(), 16);
    let n = meta.jpeg_header_size as usize;
    let again = meta.header().serialize(&bytes[160..160 + n]);
    assert_eq!(again, &bytes[..160 + n]);
}

#[test]
fn damaged_files_are_read_without_surprise() {
    let img = gradient(16, 16);
    let clean = encode(&img, 85, &[]).expect("encode");
    let mut seed: u32 = 0x2545F491;
    let mut next = move || {
        seed ^= seed << 13;
        seed ^= seed >> 17;
        seed ^= seed << 5;
        seed
    };
    for round in 0..400 {
        let mut bytes = clean.clone();
        let flips = 1 + (next() % 4) as usize;
        for _ in 0..flips {
            let at = (next() as usize) % bytes.len();
            bytes[at] = (next() & 0xFF) as u8;
        }
        if round % 5 == 0 {
            let keep = (next() as usize) % (bytes.len() + 1);
            bytes.truncate(keep);
        }
        match decode_all(&bytes) {
            Ok(decoded) => {
                assert_eq!(decoded.mipmaps.len(), 16);
                assert!(decoded.width > 0 && decoded.height > 0);
                assert_eq!(
                    decoded.holes + covered_bytes(&bytes).expect("covered"),
                    bytes.len()
                );
                for (i, m) in decoded.mipmaps.iter().enumerate() {
                    assert_eq!(m.index, i);
                    assert_eq!(m.width, (decoded.width >> i).max(1));
                    assert_eq!(m.height, (decoded.height >> i).max(1));
                    match &m.image {
                        Some(px) => {
                            assert!(m.length > 0);
                            assert!(m.diagnostic.is_none());
                            assert_eq!(px.len() as u64, 4 * m.width as u64 * m.height as u64);
                        }
                        None => assert!(m.length == 0 || m.diagnostic.is_some()),
                    }
                }
            }
            Err(e) => {
                assert!(parse_header(&bytes).is_err());
                assert!(matches!(
                    e,
                    BlpError::InvalidHeader | BlpError::UnsupportedCompression | BlpError::Truncated
                ));
            }
        }
    }
}

#[test]
fn single_images_encode_as_plain_jpeg() {
    let img = gradient(12, 9);
    let jpeg = encode_jpeg(&img, 85).expect("jpeg");
    assert_eq!(&jpeg[..2], &[0xFF, 0xD8]);
    assert_eq!(&jpeg[jpeg.len() - 2..], &[0xFF, 0xD9]);
    let info = parse_jpeg_header_info(&jpeg).expect("walk");
    assert_eq!((info.sof_w, info.sof_h), (12, 9));
    let back = decode_jpeg(&jpeg, 12, 9).expect("decode");
    assert_eq!(back.pixels.len(), 12 * 9 * 4);
    let bytes = encode(&img, 85, &[]).expect("encode");
    let meta = parse_header(&bytes).expect("header");
    assert_eq!(export_jpg(&bytes, &meta, 0).expect("level 0"), jpeg);
    let nothing = RgbaImage::new(0, 0, Vec::new()).expect("empty buffer fits");
    assert!(matches!(encode_jpeg(&nothing, 85), Err(BlpError::JpegEncode)));
}

#[test]
fn red_and_blue_are_exchanged() {
    let mut px = vec![1, 2, 3, 4, 5, 6, 7, 8, 9, 10];
    swap_red_blue(&mut px);
    assert_eq!(px, vec![3, 2, 1, 4, 7, 6, 5, 8, 9, 10]);
    swap_red_blue(&mut px);
    assert_eq!(px, vec![1, 2, 3, 4, 5, 6, 7, 8, 9, 10]);
    let mut short = vec![1, 2, 3];
    swap_red_blue(&mut short);
    assert_eq!(short, vec![1, 2, 3]);
}
