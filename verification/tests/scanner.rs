use blp1::error::ScanError;
use blp1::scan::{
    byte_sum, dht_ids, dqt_ids, list_segments, parse_jpeg_header_info, skip_fill, Segment,
};

fn segment(marker: u8, payload: &[u8]) -> Vec<u8> {
    let len = (payload.len() + 2) as u16;
    let mut out = vec![0xFF, marker, (len >> 8) as u8, (len & 0xFF) as u8];
    out.extend_from_slice(payload);
    out
}

fn sof(marker: u8, precision: u8, height: u16, width: u16) -> Vec<u8> {
    let mut payload = vec![precision];
    payload.extend_from_slice(&height.to_be_bytes());
    payload.extend_from_slice(&width.to_be_bytes());
    payload.extend_from_slice(&[1, 1, 0x11, 0]);
    segment(marker, &payload)
}

fn dqt(id: u8) -> Vec<u8> {
    let mut payload = vec![id];
    payload.extend_from_slice(&[1u8; 64]);
    segment(0xDB, &payload)
}

fn dht(class_and_id: u8, values: u8) -> Vec<u8> {
    let mut payload = vec![class_and_id];
    let mut counts = [0u8; 16];
    counts[1] = values;
    payload.extend_from_slice(&counts);
    payload.extend(0..values);
    segment(0xC4, &payload)
}

fn sos() -> Vec<u8> {
    segment(0xDA, &[1, 1, 0, 0, 63, 0])
}

fn stream(parts: &[Vec<u8>]) -> Vec<u8> {
    let mut out = vec![0xFF, 0xD8];
    for p in parts {
        out.extend_from_slice(p);
    }
    out
}

#[test]
fn walk_records_frame_header_and_tables() {
    let app0 = segment(0xE0, b"JFIF\0\x01\x02\0\0\x01\0\x01\0\0");
    let com = segment(0xFE, b"made by hand");
    let buf = stream(&[
        app0.clone(),
        com.clone(),
        dqt(0),
        dqt(1),
        sof(0xC0, 8, 64, 128),
        dht(0x00, 3),
        dht(0x11, 5),
        sos(),
        vec![0x12, 0x34, 0xFF, 0xD9],
    ]);
    let info = parse_jpeg_header_info(&buf).expect("walk");
    let sof_at = 2 + app0.len() + com.len() + 2 * dqt(0).len();
    assert_eq!(info.sof_pos, sof_at);
    assert_eq!(info.sof_marker, 0xC0);
    assert_eq!(info.sof_h_offset, sof_at + 5);
    assert_eq!(info.sof_w_offset, sof_at + 7);
    assert_eq!(info.sof_h, 64);
    assert_eq!(info.sof_w, 128);
    assert_eq!(info.header_end, buf.len() - 4);
    assert_eq!(info.quant_table_ids, 0b11);
    assert_eq!(info.huffman_table_ids, (1 << 0) | (1 << 17));
    assert_eq!(buf[info.sof_h_offset], 0);
    assert_eq!(buf[info.sof_h_offset + 1], 64);
    assert_eq!(buf[info.sof_w_offset + 1], 128);
}

#[test]
fn walk_takes_the_progressive_frame_header() {
    let buf = stream(&[sof(0xC2, 8, 3, 700), sos()]);
    let info = parse_jpeg_header_info(&buf).expect("walk");
    assert_eq!(info.sof_marker, 0xC2);
    assert_eq!((info.sof_w, info.sof_h), (700, 3));
    assert_eq!(info.sof_pos, 2);
    assert_eq!(info.header_end, buf.len());
}

#[test]
fn walk_without_frame_header_records_none() {
    let buf = stream(&[segment(0xE1, b"Exif"), sos(), vec![0]]);
    let info = parse_jpeg_header_info(&buf).expect("walk");
    assert_eq!(info.sof_marker, 0);
    assert_eq!(info.sof_pos, 0);
    assert_eq!((info.sof_w, info.sof_h), (0, 0));
    assert_eq!((info.sof_w_offset, info.sof_h_offset), (0, 0));
    assert_eq!(info.header_end, buf.len() - 1);
}

#[test]
fn walk_keeps_the_last_frame_header() {
    let buf = stream(&[sof(0xC0, 8, 1, 2), sof(0xC0, 8, 30, 40), sos()]);
    let info = parse_jpeg_header_info(&buf).expect("walk");
    assert_eq!((info.sof_w, info.sof_h), (40, 30));
    assert_eq!(info.sof_pos, 2 + sof(0xC0, 8, 1, 2).len());
}

#[test]
fn walk_treats_other_frame_markers_as_plain_segments() {
    let buf = stream(&[sof(0xC1, 12, 9, 9), sof(0xC0, 8, 5, 6), sos()]);
    let info = parse_jpeg_header_info(&buf).expect("walk");
    assert_eq!(info.sof_marker, 0xC0);
    assert_eq!((info.sof_w, info.sof_h), (6, 5));
}

#[test]
fn fill_bytes_and_lone_markers_are_passed_over() {
    let mut buf = vec![0xFF, 0xD8];
    buf.extend_from_slice(&[0xFF, 0xFF, 0xFF]);
    buf.extend_from_slice(&sof(0xC0, 8, 7, 9)[1..]);
    buf.extend_from_slice(&[0xFF, 0xD0]);
    buf.extend_from_slice(&[0xFF, 0x01]);
    buf.extend_from_slice(&[0xFF, 0xD8]);
    buf.extend_from_slice(&sos());
    let info = parse_jpeg_header_info(&buf).expect("walk");
    assert_eq!((info.sof_w, info.sof_h), (9, 7));
    assert_eq!(info.sof_pos, 4);
    assert_eq!(info.sof_h_offset, 9);
    assert_eq!(info.header_end, buf.len());
    assert_eq!(skip_fill(&buf, 2), 5);
    assert_eq!(skip_fill(&buf, 5), 5);
    assert_eq!(skip_fill(&[0xFF, 0xFF], 0), 2);
}

#[test]
fn walk_fails_as_documented() {
    assert_eq!(parse_jpeg_header_info(&[]), Err(ScanError::MissingSoi));
    assert_eq!(parse_jpeg_header_info(&[0xFF]), Err(ScanError::MissingSoi));
    assert_eq!(parse_jpeg_header_info(&[0xFF, 0xD9, 0, 0]), Err(ScanError::MissingSoi));
    assert_eq!(parse_jpeg_header_info(&[0x00, 0xD8, 0xFF, 0xDA]), Err(ScanError::MissingSoi));
    assert_eq!(parse_jpeg_header_info(&[0xFF, 0xD8]), Err(ScanError::Truncated));
    assert_eq!(parse_jpeg_header_info(&[0xFF, 0xD8, 0xFF]), Err(ScanError::Truncated));
    assert_eq!(
        parse_jpeg_header_info(&[0xFF, 0xD8, 0xFF, 0xFF, 0xFF]),
        Err(ScanError::Truncated)
    );
    assert_eq!(
        parse_jpeg_header_info(&[0xFF, 0xD8, 0x12, 0x34]),
        Err(ScanError::UnsupportedMarker)
    );
    assert_eq!(
        parse_jpeg_header_info(&[0xFF, 0xD8, 0xFF, 0xD9]),
        Err(ScanError::UnsupportedMarker)
    );
    assert_eq!(
        parse_jpeg_header_info(&[0xFF, 0xD8, 0xFF, 0xE0, 0x00]),
        Err(ScanError::Truncated)
    );
    assert_eq!(
        parse_jpeg_header_info(&[0xFF, 0xD8, 0xFF, 0xE0, 0x00, 0x01]),
        Err(ScanError::InvalidSegmentLength)
    );
    assert_eq!(
        parse_jpeg_header_info(&[0xFF, 0xD8, 0xFF, 0xE0, 0x00, 0x09, 1, 2]),
        Err(ScanError::Truncated)
    );
    assert_eq!(
        parse_jpeg_header_info(&stream(&[segment(0xC0, &[8, 0, 1, 0, 1])])),
        Err(ScanError::InvalidSegmentLength)
    );
    assert_eq!(
        parse_jpeg_header_info(&stream(&[sof(0xC0, 12, 4, 4), sos()])),
        Err(ScanError::UnsupportedPrecision)
    );
    assert_eq!(
        parse_jpeg_header_info(&stream(&[sof(0xC0, 8, 4, 4)])),
        Err(ScanError::Truncated)
    );
    let mut cut_sos = stream(&[sof(0xC0, 8, 4, 4), sos()]);
    cut_sos.pop();
    assert_eq!(parse_jpeg_header_info(&cut_sos), Err(ScanError::Truncated));
}

#[test]
fn unknown_application_segments_are_let_through() {
    for marker in [0xE0u8, 0xE7, 0xEF, 0xFE, 0xDD, 0x00] {
        let buf = stream(&[segment(marker, &[1, 2, 3]), sof(0xC0, 8, 2, 2), sos()]);
        let info = parse_jpeg_header_info(&buf).expect("walk");
        assert_eq!(info.header_end, buf.len());
        assert_eq!((info.sof_w, info.sof_h), (2, 2));
    }
}

#[test]
fn table_identifiers_are_collected() {
    let mut two = vec![0x02];
    two.extend_from_slice(&[0u8; 64]);
    two.push(0x13);
    two.extend_from_slice(&[0u8; 128]);
    assert_eq!(dqt_ids(&two, 0, two.len(), 0), (1 << 2) | (1 << 3));
    assert_eq!(dqt_ids(&two, 0, two.len() - 1, 0), 1 << 2);
    assert_eq!(dqt_ids(&two, 0, 0, 5), 5);
    assert_eq!(dqt_ids(&two, 0, 64, 0), 0);
    let mut table = vec![0x12];
    let mut counts = [0u8; 16];
    counts[0] = 2;
    counts[15] = 1;
    table.extend_from_slice(&counts);
    table.extend_from_slice(&[7, 8, 9]);
    assert_eq!(byte_sum(&table, 1, 16), 3);
    assert_eq!(byte_sum(&table, 1, 0), 0);
    assert_eq!(dht_ids(&table, 0, table.len(), 0), 1 << 18);
    assert_eq!(dht_ids(&table, 0, table.len() - 1, 0), 0);
    assert_eq!(dht_ids(&table, 0, 10, 9), 9);
    let mut both = table.clone();
    both.extend_from_slice(&[0x01]);
    both.extend_from_slice(&[0u8; 16]);
    assert_eq!(dht_ids(&both, 0, both.len(), 0), (1 << 18) | (1 << 1));
}

#[test]
fn segments_are_listed_in_order() {
    let app0 = segment(0xE0, b"JFIF");
    let buf = stream(&[app0.clone(), vec![0xFF, 0xD0], sof(0xC0, 8, 1, 1), sos(), vec![9, 9]]);
    let list = list_segments(&buf);
    let a = 2 + app0.len();
    let b = a + 2;
    let c = b + sof(0xC0, 8, 1, 1).len();
    assert_eq!(
        list,
        vec![
            Segment { marker: 0xD8, start: 0, end: 2 },
            Segment { marker: 0xE0, start: 2, end: a },
            Segment { marker: 0xD0, start: a, end: b },
            Segment { marker: 0xC0, start: b, end: c },
            Segment { marker: 0xDA, start: c, end: buf.len() - 2 },
        ]
    );
    let info = parse_jpeg_header_info(&buf).expect("walk");
    assert_eq!(list.last().expect("not empty").end, info.header_end);
    assert_eq!(list_segments(&[1, 2, 3]), vec![]);
    assert_eq!(
        list_segments(&[0xFF, 0xD8, 0xFF, 0xD9]),
        vec![Segment { marker: 0xD8, start: 0, end: 2 }]
    );
    let broken = stream(&[app0.clone(), sof(0xC0, 16, 1, 1), sos()]);
    assert_eq!(list_segments(&broken).len(), 2);
}

#[test]
fn real_encoder_output_walks() {
    let rgb = vec![200u8; 16 * 8 * 3];
    let mut jpeg = Vec::new();
    image::codecs::jpeg::JpegEncoder::new_with_quality(&mut jpeg, 85)
        .encode(&rgb, 16, 8, image::ExtendedColorType::Rgb8)
        .expect("jpeg");
    let info = parse_jpeg_header_info(&jpeg).expect("walk");
    assert_eq!((info.sof_w, info.sof_h), (16, 8));
    assert_eq!(info.sof_marker, 0xC0);
    assert_eq!(info.quant_table_ids, 0b11);
    assert_eq!(info.huffman_table_ids, 0b11 | (0b11 << 16));
    assert!(info.header_end < jpeg.len());
    let list = list_segments(&jpeg);
    assert_eq!(list.first().expect("not empty").marker, 0xD8);
    assert_eq!(list.last().expect("not empty").marker, 0xDA);
    assert_eq!(list.last().expect("not empty").end, info.header_end);
    for pair in list.windows(2) {
        assert_eq!(pair[0].end, pair[1].start);
    }
}
