use blp1::encoder::encode;
use blp1::rgba::RgbaImage;
use blp1::survey::{bytes_equal, common_prefix_len, survey, FileSummary};

fn checkerboard(width: u32, height: u32) -> RgbaImage {
    let mut pixels = Vec::new();
    for y in 0..height {
        for x in 0..width {
            let v = if (x / 2 + y / 2) % 2 == 0 { 220 } else { 40 };
            pixels.extend_from_slice(&[v, (x * 7 % 256) as u8, (y * 5 % 256) as u8, 255]);
        }
    }
    RgbaImage::new(width, height, pixels).expect("buffer fits")
}

#[test]
fn survey_of_an_encoded_file() {
    let bytes = encode(&checkerboard(32, 16), 85, &[]).expect("encode");
    let (rows, summary) = survey(&bytes).expect("survey");
    assert_eq!(rows.len(), 6);
    let shared_len = u32::from_le_bytes([bytes[156], bytes[157], bytes[158], bytes[159]]) as usize;
    for (i, row) in rows.iter().enumerate() {
        assert_eq!(row.idx, i);
        assert_eq!(row.blp_w, (32u32 >> i).max(1));
        assert_eq!(row.blp_h, (16u32 >> i).max(1));
        assert_eq!((row.sof_w, row.sof_h), (32, 16));
        assert_eq!(row.header_len, shared_len);
        assert!(row.header_eq_mip0);
        assert!(row.header_eq_mip0_except_hw);
        assert!(row.lcp_to_mip0 >= shared_len);
    }
    assert_eq!(rows[0].lcp_to_mip0, shared_len);
    assert_eq!(
        summary,
        FileSummary {
            mips: 6,
            all_equal_headers: true,
            all_equal_headers_except_hw: true,
            mismatched_sof_dims: 5,
            header_len_ref: shared_len,
            lcp_min: rows.iter().map(|r| r.lcp_to_mip0).min().expect("rows"),
            lcp_max: rows.iter().map(|r| r.lcp_to_mip0).max().expect("rows"),
        }
    );
}

#[test]
fn survey_stops_at_the_first_gap() {
    let bytes = encode(&checkerboard(16, 16), 85, &[true, true, false, true]).expect("encode");
    let (rows, summary) = survey(&bytes).expect("survey");
    assert_eq!(rows.len(), 2);
    assert_eq!(summary.mips, 2);
    assert_eq!(summary.mismatched_sof_dims, 1);
    let single = encode(&checkerboard(7, 5), 85, &[]).expect("encode");
    let (rows, summary) = survey(&single).expect("survey");
    assert_eq!(rows.len(), 1);
    assert_eq!(summary.mismatched_sof_dims, 0);
    assert_eq!(summary.lcp_min, summary.header_len_ref);
    assert_eq!(summary.lcp_max, summary.header_len_ref);
}

#[test]
fn survey_reports_nothing_for_what_it_cannot_read() {
    assert!(survey(b"BLP1").is_none());
    assert!(survey(&[]).is_none());
    let bytes = encode(&checkerboard(8, 8), 85, &[false, true]).expect("encode");
    assert!(survey(&bytes).is_none());
    let mut broken = encode(&checkerboard(8, 8), 85, &[]).expect("encode");
    broken[160] = 0;
    assert!(survey(&broken).is_none());
    let whole = encode(&checkerboard(8, 8), 85, &[]).expect("encode");
    let cut = whole.len() - 1;
    let (rows, _) = survey(&whole[..cut]).expect("survey");
    assert_eq!(rows.len(), 3);
}

#[test]
fn common_prefixes_and_equality() {
    assert_eq!(common_prefix_len(b"abcdef", b"abcxef"), 3);
    assert_eq!(common_prefix_len(b"abc", b"abcdef"), 3);
    assert_eq!(common_prefix_len(b"", b"abc"), 0);
    assert_eq!(common_prefix_len(b"xbc", b"abc"), 0);
    assert_eq!(common_prefix_len(b"same", b"same"), 4);
    assert!(bytes_equal(b"same", b"same"));
    assert!(!bytes_equal(b"same", b"sane"));
    assert!(!bytes_equal(b"same", b"sam"));
    assert!(bytes_equal(b"", b""));
}
