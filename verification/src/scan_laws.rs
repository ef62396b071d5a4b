//! Facts about the walk over a marker stream.
use crate::scan::{
    lemma_byte_sum_nonneg, lemma_skip_fill_bounds, spec_dht_ids, spec_dqt_ids, spec_empty_info,
    spec_is_standalone, spec_scan, spec_scan_from, spec_skip_fill, spec_with_sof, JpegHeaderInfo,
    MARKER_DHT, MARKER_DQT, MARKER_SOF0, MARKER_SOF2, MARKER_SOS,
};
use vstd::prelude::*;

verus! {

/// What a record says of the stream it was taken from: the scan header ends
/// inside the stream, and a recorded frame header lies whole before that end,
/// with height and width at the fourth and sixth byte behind its marker.
pub open spec fn spec_info_in_bounds(info: JpegHeaderInfo, limit: int) -> bool {
    &&& info.header_end <= limit
    &&& info.sof_marker != 0 ==> {
        &&& info.sof_marker == MARKER_SOF0 || info.sof_marker == MARKER_SOF2
        &&& info.sof_h_offset == info.sof_pos + 5
        &&& info.sof_w_offset == info.sof_pos + 7
        &&& info.sof_pos >= 2
        &&& info.sof_w_offset + 2 <= limit
    }
    &&& info.sof_marker == 0 ==> info.sof_pos == 0 && info.sof_h_offset == 0 && info.sof_w_offset
        == 0 && info.sof_h == 0 && info.sof_w == 0
}

/// The frame-header part of `spec_info_in_bounds`, for a walk under way.
pub open spec fn spec_sof_in_bounds(st: JpegHeaderInfo, limit: int) -> bool {
    &&& st.sof_marker != 0 ==> {
        &&& st.sof_marker == MARKER_SOF0 || st.sof_marker == MARKER_SOF2
        &&& st.sof_h_offset == st.sof_pos + 5
        &&& st.sof_w_offset == st.sof_pos + 7
        &&& st.sof_pos >= 2
        &&& st.sof_w_offset + 2 <= limit
    }
    &&& st.sof_marker == 0 ==> st.sof_pos == 0 && st.sof_h_offset == 0 && st.sof_w_offset == 0
        && st.sof_h == 0 && st.sof_w == 0
}

/// A walk that starts with an in-bounds record ends with one.
pub proof fn lemma_scan_from_bounds(buf: Seq<u8>, i: int, st: JpegHeaderInfo)
    requires
        2 <= i <= buf.len() <= usize::MAX,
        spec_sof_in_bounds(st, i),
        spec_scan_from(buf, i, st) is Ok,
    ensures
        spec_info_in_bounds(spec_scan_from(buf, i, st)->Ok_0, buf.len() as int),
        spec_scan_from(buf, i, st)->Ok_0.header_end > i,
        spec_scan_from(buf, i, st)->Ok_0.sof_marker != 0 ==> spec_scan_from(
            buf,
            i,
            st,
        )->Ok_0.sof_w_offset + 2 <= spec_scan_from(buf, i, st)->Ok_0.header_end,
    decreases buf.len() - i,
{
    lemma_skip_fill_bounds(buf, i + 1);
    let m = spec_skip_fill(buf, i + 1);
    let marker = buf[m];
    let p = m + 1;
    if spec_is_standalone(marker) {
        lemma_scan_from_bounds(buf, p, st);
    } else {
        let l = crate::cursor::spec_u16_be(buf, p) as int;
        if marker == MARKER_SOS {
        } else if marker == MARKER_SOF0 || marker == MARKER_SOF2 {
            lemma_scan_from_bounds(buf, p + l, spec_with_sof(st, buf, marker, p));
        } else if marker == MARKER_DQT {
            lemma_scan_from_bounds(
                buf,
                p + l,
                JpegHeaderInfo {
                    quant_table_ids: spec_dqt_ids(buf, p + 2, p + l, st.quant_table_ids),
                    ..st
                },
            );
        } else if marker == MARKER_DHT {
            lemma_scan_from_bounds(
                buf,
                p + l,
                JpegHeaderInfo {
                    huffman_table_ids: spec_dht_ids(buf, p + 2, p + l, st.huffman_table_ids),
                    ..st
                },
            );
        } else {
            lemma_scan_from_bounds(buf, p + l, st);
        }
    }
}

/// Every successful walk yields an in-bounds record.
pub proof fn lemma_scan_bounds(buf: Seq<u8>)
    requires
        buf.len() <= usize::MAX,
    ensures
        spec_scan(buf) is Ok ==> spec_info_in_bounds(spec_scan(buf)->Ok_0, buf.len() as int),
        spec_scan(buf) is Ok ==> spec_scan(buf)->Ok_0.header_end > 2,
        spec_scan(buf) is Ok && spec_scan(buf)->Ok_0.sof_marker != 0 ==> spec_scan(
            buf,
        )->Ok_0.sof_w_offset + 2 <= spec_scan(buf)->Ok_0.header_end,
{
    if spec_scan(buf) is Ok {
        lemma_scan_from_bounds(buf, 2, spec_empty_info());
    }
}

/// Two buffers hold the same bytes at every position of `[lo, hi)`.
pub open spec fn spec_agree_on(a: Seq<u8>, b: Seq<u8>, lo: int, hi: int) -> bool {
    forall|k: int| lo <= k < hi ==> #[trigger] a[k] == b[k]
}

/// Skipping fill bytes reads only up to the byte on which it stops.
pub proof fn lemma_skip_fill_agree(a: Seq<u8>, b: Seq<u8>, i: int)
    requires
        0 <= i <= a.len(),
        spec_skip_fill(a, i) < a.len(),
        spec_skip_fill(a, i) < b.len(),
        spec_agree_on(a, b, i, spec_skip_fill(a, i) + 1),
    ensures
        spec_skip_fill(b, i) == spec_skip_fill(a, i),
    decreases a.len() - i,
{
    lemma_skip_fill_bounds(a, i);
    if i < a.len() && a[i] == 0xFF {
        lemma_skip_fill_bounds(a, i + 1);
        assert(a[i] == b[i]);
        lemma_skip_fill_agree(a, b, i + 1);
    } else {
        assert(a[i] == b[i]);
    }
}

/// A sum of bytes depends only on the bytes that it adds.
pub proof fn lemma_byte_sum_agree(a: Seq<u8>, b: Seq<u8>, p: int, n: nat)
    requires
        spec_agree_on(a, b, p, p + n),
    ensures
        crate::scan::spec_byte_sum(a, p, n) == crate::scan::spec_byte_sum(b, p, n),
    decreases n,
{
    if n > 0 {
        lemma_byte_sum_agree(a, b, p, (n - 1) as nat);
        assert(a[p + n - 1] == b[p + n - 1]);
    }
}

/// The quantization tables found in a range depend only on that range.
pub proof fn lemma_dqt_ids_agree(a: Seq<u8>, b: Seq<u8>, p: int, end: int, mask: u16)
    requires
        0 <= p,
        spec_agree_on(a, b, p, end),
    ensures
        spec_dqt_ids(a, p, end, mask) == spec_dqt_ids(b, p, end, mask),
    decreases end - p,
{
    if p < end {
        assert(a[p] == b[p]);
        if p + crate::scan::spec_dqt_entry_len(a, p) <= end {
            lemma_dqt_ids_agree(
                a,
                b,
                p + crate::scan::spec_dqt_entry_len(a, p),
                end,
                mask | (1u16 << ((a[p] % 16) as u16)),
            );
        }
    }
}

/// The Huffman tables found in a range depend only on that range.
pub proof fn lemma_dht_ids_agree(a: Seq<u8>, b: Seq<u8>, p: int, end: int, mask: u32)
    requires
        0 <= p,
        spec_agree_on(a, b, p, end),
    ensures
        spec_dht_ids(a, p, end, mask) == spec_dht_ids(b, p, end, mask),
    decreases end - p,
{
    if p + 17 <= end {
        assert(a[p] == b[p]);
        lemma_byte_sum_agree(a, b, p + 1, 16);
        lemma_byte_sum_nonneg(a, p + 1, 16);
        if p + crate::scan::spec_dht_entry_len(a, p) <= end {
            lemma_dht_ids_agree(
                a,
                b,
                p + crate::scan::spec_dht_entry_len(a, p),
                end,
                mask | (1u32 << crate::scan::spec_dht_bit(a[p])),
            );
        }
    }
}

/// The frame header of a finished walk is the one that was known when the
/// walk set out from `i`, or one that lies behind `i` and whose height and
/// width are the bytes of the buffer at the recorded offsets.
pub proof fn lemma_sof_origin(buf: Seq<u8>, i: int, st: JpegHeaderInfo)
    requires
        2 <= i <= buf.len() <= usize::MAX,
        spec_sof_in_bounds(st, i),
        spec_scan_from(buf, i, st) is Ok,
    ensures
        ({
            let info = spec_scan_from(buf, i, st)->Ok_0;
            ||| (info.sof_marker == st.sof_marker && info.sof_pos == st.sof_pos
                && info.sof_h_offset == st.sof_h_offset && info.sof_w_offset == st.sof_w_offset
                && info.sof_h == st.sof_h && info.sof_w == st.sof_w)
            ||| (info.sof_marker != 0 && info.sof_h_offset >= i + 3 && info.sof_h
                == crate::cursor::spec_u16_be(buf, info.sof_h_offset as int) && info.sof_w
                == crate::cursor::spec_u16_be(buf, info.sof_w_offset as int))
        }),
    decreases buf.len() - i,
{
    lemma_skip_fill_bounds(buf, i + 1);
    let m = spec_skip_fill(buf, i + 1);
    let marker = buf[m];
    let p = m + 1;
    if spec_is_standalone(marker) {
        lemma_sof_origin(buf, p, st);
    } else {
        let l = crate::cursor::spec_u16_be(buf, p) as int;
        if marker == MARKER_SOS {
        } else if marker == MARKER_SOF0 || marker == MARKER_SOF2 {
            lemma_sof_origin(buf, p + l, spec_with_sof(st, buf, marker, p));
        } else if marker == MARKER_DQT {
            lemma_sof_origin(
                buf,
                p + l,
                JpegHeaderInfo {
                    quant_table_ids: spec_dqt_ids(buf, p + 2, p + l, st.quant_table_ids),
                    ..st
                },
            );
        } else if marker == MARKER_DHT {
            lemma_sof_origin(
                buf,
                p + l,
                JpegHeaderInfo {
                    huffman_table_ids: spec_dht_ids(buf, p + 2, p + l, st.huffman_table_ids),
                    ..st
                },
            );
        } else {
            lemma_sof_origin(buf, p + l, st);
        }
    }
}

/// Two records are equal but for the height and width that they hold.
pub open spec fn spec_same_but_dims(x: JpegHeaderInfo, y: JpegHeaderInfo) -> bool {
    y == (JpegHeaderInfo { sof_h: y.sof_h, sof_w: y.sof_w, ..x })
}

/// Whether position `k` is one of the four bytes of height and width of the
/// frame header that `info` records.
pub open spec fn spec_is_dim_position(info: JpegHeaderInfo, k: int) -> bool {
    info.sof_marker != 0 && info.sof_h_offset <= k < info.sof_w_offset + 2
}

/// Two buffers hold the same bytes below `limit`, but for the height and
/// width of the frame header that `info` records.
pub open spec fn spec_agree_but_dims(a: Seq<u8>, b: Seq<u8>, info: JpegHeaderInfo, limit: int) -> bool {
    forall|k: int| 0 <= k < limit && !spec_is_dim_position(info, k) ==> #[trigger] a[k] == b[k]
}

/// A walk depends on nothing but the bytes before the end of the scan header,
/// and on the bytes of height and width only for the height and width that
/// it records.
///
/// Let the walk over `a` from `i` end with the record `info`, and let `b`
/// hold the same bytes as `a` up to `info.header_end`, but for the height
/// and width of the frame header in `info`. Then the walk over `b` from `i`
/// ends too, with the same record but for height and width; these are the
/// ones known at the start when the frame header lies before `i`, and the
/// bytes of `b` at the recorded offsets when it lies behind.
#[verifier::rlimit(40)]
pub proof fn lemma_scan_from_agree(
    a: Seq<u8>,
    b: Seq<u8>,
    i: int,
    st_a: JpegHeaderInfo,
    st_b: JpegHeaderInfo,
)
    requires
        2 <= i <= a.len() <= usize::MAX,
        b.len() <= usize::MAX,
        spec_sof_in_bounds(st_a, i),
        spec_same_but_dims(st_a, st_b),
        spec_scan_from(a, i, st_a) is Ok,
        spec_scan_from(a, i, st_a)->Ok_0.header_end <= b.len(),
        spec_agree_but_dims(
            a,
            b,
            spec_scan_from(a, i, st_a)->Ok_0,
            spec_scan_from(a, i, st_a)->Ok_0.header_end as int,
        ),
    ensures
        spec_scan_from(b, i, st_b) is Ok,
        spec_same_but_dims(spec_scan_from(a, i, st_a)->Ok_0, spec_scan_from(b, i, st_b)->Ok_0),
        ({
            let ia = spec_scan_from(a, i, st_a)->Ok_0;
            let ib = spec_scan_from(b, i, st_b)->Ok_0;
            if ia.sof_marker != 0 && ia.sof_h_offset >= i {
                ib.sof_h == crate::cursor::spec_u16_be(b, ia.sof_h_offset as int) && ib.sof_w
                    == crate::cursor::spec_u16_be(b, ia.sof_w_offset as int)
            } else {
                ib.sof_h == st_b.sof_h && ib.sof_w == st_b.sof_w
            }
        }),
    decreases a.len() - i,
{
    let ia = spec_scan_from(a, i, st_a)->Ok_0;
    let end = ia.header_end as int;
    lemma_skip_fill_bounds(a, i + 1);
    lemma_scan_from_bounds(a, i, st_a);
    lemma_sof_origin(a, i, st_a);
    let m = spec_skip_fill(a, i + 1);
    let marker = a[m];
    let p = m + 1;
    if spec_is_standalone(marker) {
        lemma_scan_from_bounds(a, p, st_a);
        lemma_sof_origin(a, p, st_a);
        assert(spec_agree_on(a, b, i, p)) by {
            assert forall|k: int| i <= k < p implies #[trigger] a[k] == b[k] by {
                assert(!spec_is_dim_position(ia, k));
            }
        }
        assert(a[i] == b[i]);
        lemma_skip_fill_agree(a, b, i + 1);
        assert(a[m] == b[m]);
        lemma_scan_from_agree(a, b, p, st_a, st_b);
    } else {
        let l = crate::cursor::spec_u16_be(a, p) as int;
        let e = p + l;
        if marker == MARKER_SOS {
            assert(end == e);
            assert(spec_agree_on(a, b, i, p + 2)) by {
                assert forall|k: int| i <= k < p + 2 implies #[trigger] a[k] == b[k] by {
                    assert(!spec_is_dim_position(ia, k));
                }
            }
            assert(a[i] == b[i]);
            lemma_skip_fill_agree(a, b, i + 1);
            assert(a[m] == b[m]);
            assert(a[p] == b[p]);
            assert(a[p + 1] == b[p + 1]);
        } else if marker == MARKER_SOF0 || marker == MARKER_SOF2 {
            let st2 = spec_with_sof(st_a, a, marker, p);
            let st2b = spec_with_sof(st_b, b, marker, p);
            lemma_scan_from_bounds(a, e, st2);
            lemma_sof_origin(a, e, st2);
            assert(spec_agree_on(a, b, i, p + 3)) by {
                assert forall|k: int| i <= k < p + 3 implies #[trigger] a[k] == b[k] by {
                    assert(!spec_is_dim_position(ia, k));
                }
            }
            assert(a[i] == b[i]);
            lemma_skip_fill_agree(a, b, i + 1);
            assert(a[m] == b[m]);
            assert(a[p] == b[p]);
            assert(a[p + 1] == b[p + 1]);
            assert(a[p + 2] == b[p + 2]);
            lemma_scan_from_agree(a, b, e, st2, st2b);
        } else if marker == MARKER_DQT {
            let st2 = JpegHeaderInfo {
                quant_table_ids: spec_dqt_ids(a, p + 2, e, st_a.quant_table_ids),
                ..st_a
            };
            let st2b = JpegHeaderInfo {
                quant_table_ids: spec_dqt_ids(b, p + 2, e, st_b.quant_table_ids),
                ..st_b
            };
            lemma_scan_from_bounds(a, e, st2);
            lemma_sof_origin(a, e, st2);
            assert(spec_agree_on(a, b, i, e)) by {
                assert forall|k: int| i <= k < e implies #[trigger] a[k] == b[k] by {
                    assert(!spec_is_dim_position(ia, k));
                }
            }
            assert(a[i] == b[i]);
            lemma_skip_fill_agree(a, b, i + 1);
            assert(a[m] == b[m]);
            assert(a[p] == b[p]);
            assert(a[p + 1] == b[p + 1]);
            lemma_dqt_ids_agree(a, b, p + 2, e, st_a.quant_table_ids);
            lemma_scan_from_agree(a, b, e, st2, st2b);
        } else if marker == MARKER_DHT {
            let st2 = JpegHeaderInfo {
                huffman_table_ids: spec_dht_ids(a, p + 2, e, st_a.huffman_table_ids),
                ..st_a
            };
            let st2b = JpegHeaderInfo {
                huffman_table_ids: spec_dht_ids(b, p + 2, e, st_b.huffman_table_ids),
                ..st_b
            };
            lemma_scan_from_bounds(a, e, st2);
            lemma_sof_origin(a, e, st2);
            assert(spec_agree_on(a, b, i, e)) by {
                assert forall|k: int| i <= k < e implies #[trigger] a[k] == b[k] by {
                    assert(!spec_is_dim_position(ia, k));
                }
            }
            assert(a[i] == b[i]);
            lemma_skip_fill_agree(a, b, i + 1);
            assert(a[m] == b[m]);
            assert(a[p] == b[p]);
            assert(a[p + 1] == b[p + 1]);
            lemma_dht_ids_agree(a, b, p + 2, e, st_a.huffman_table_ids);
            lemma_scan_from_agree(a, b, e, st2, st2b);
        } else {
            lemma_scan_from_bounds(a, e, st_a);
            lemma_sof_origin(a, e, st_a);
            assert(spec_agree_on(a, b, i, p + 2)) by {
                assert forall|k: int| i <= k < p + 2 implies #[trigger] a[k] == b[k] by {
                    assert(!spec_is_dim_position(ia, k));
                }
            }
            assert(a[i] == b[i]);
            lemma_skip_fill_agree(a, b, i + 1);
            assert(a[m] == b[m]);
            assert(a[p] == b[p]);
            assert(a[p + 1] == b[p + 1]);
            lemma_scan_from_agree(a, b, e, st_a, st_b);
        }
    }
}

/// The walk over a whole stream depends on nothing but the marker prefix,
/// and on the bytes of height and width only for what it records of them.
///
/// Let the walk over `a` end with the record `info`, and let `b` hold the
/// same bytes as `a` up to `info.header_end`, but for the height and width
/// of the frame header. Then the walk over `b` ends with the same record,
/// but that its height and width are the ones that `b` holds.
pub proof fn lemma_scan_agree(a: Seq<u8>, b: Seq<u8>)
    requires
        a.len() <= usize::MAX,
        b.len() <= usize::MAX,
        spec_scan(a) is Ok,
        spec_scan(a)->Ok_0.header_end <= b.len(),
        spec_agree_but_dims(a, b, spec_scan(a)->Ok_0, spec_scan(a)->Ok_0.header_end as int),
    ensures
        spec_scan(b) is Ok,
        spec_same_but_dims(spec_scan(a)->Ok_0, spec_scan(b)->Ok_0),
        spec_scan(a)->Ok_0.sof_marker != 0 ==> spec_scan(b)->Ok_0.sof_h
            == crate::cursor::spec_u16_be(b, spec_scan(a)->Ok_0.sof_h_offset as int)
            && spec_scan(b)->Ok_0.sof_w == crate::cursor::spec_u16_be(
            b,
            spec_scan(a)->Ok_0.sof_w_offset as int,
        ),
        spec_scan(a)->Ok_0.sof_marker == 0 ==> spec_scan(b) == spec_scan(a),
{
    let ia = spec_scan(a)->Ok_0;
    lemma_scan_from_bounds(a, 2, spec_empty_info());
    lemma_sof_origin(a, 2, spec_empty_info());
    assert(!spec_is_dim_position(ia, 0));
    assert(!spec_is_dim_position(ia, 1));
    assert(a[0] == b[0]);
    assert(a[1] == b[1]);
    lemma_scan_from_agree(a, b, 2, spec_empty_info(), spec_empty_info());
}

/// The height and width that a walk records are the bytes of the stream at
/// the recorded offsets.
pub proof fn lemma_scan_dims(buf: Seq<u8>)
    requires
        buf.len() <= usize::MAX,
        spec_scan(buf) is Ok,
        spec_scan(buf)->Ok_0.sof_marker != 0,
    ensures
        spec_scan(buf)->Ok_0.sof_h == crate::cursor::spec_u16_be(
            buf,
            spec_scan(buf)->Ok_0.sof_h_offset as int,
        ),
        spec_scan(buf)->Ok_0.sof_w == crate::cursor::spec_u16_be(
            buf,
            spec_scan(buf)->Ok_0.sof_w_offset as int,
        ),
{
    lemma_sof_origin(buf, 2, spec_empty_info());
}

/// `lemma_scan_dims` for any successful walk, with or without frame header.
pub proof fn lemma_scan_dims_or_none(buf: Seq<u8>)
    requires
        buf.len() <= usize::MAX,
    ensures
        spec_scan(buf) is Ok && spec_scan(buf)->Ok_0.sof_marker != 0 ==> spec_scan(buf)->Ok_0.sof_h
            == crate::cursor::spec_u16_be(buf, spec_scan(buf)->Ok_0.sof_h_offset as int)
            && spec_scan(buf)->Ok_0.sof_w == crate::cursor::spec_u16_be(
            buf,
            spec_scan(buf)->Ok_0.sof_w_offset as int,
        ),
{
    if spec_scan(buf) is Ok && spec_scan(buf)->Ok_0.sof_marker != 0 {
        lemma_scan_dims(buf);
    }
}

/// Where the walk succeeds, the list of segments is not empty, its last
/// entry is the scan header, and that entry ends where the entropy-coded
/// bytes begin.
pub proof fn lemma_segments_reach_scan(buf: Seq<u8>, i: int, st: JpegHeaderInfo)
    requires
        2 <= i <= buf.len() <= usize::MAX,
        spec_scan_from(buf, i, st) is Ok,
    ensures
        crate::scan::spec_segments_from(buf, i).len() > 0,
        crate::scan::spec_segments_from(buf, i).last().marker == MARKER_SOS,
        crate::scan::spec_segments_from(buf, i).last().end == spec_scan_from(
            buf,
            i,
            st,
        )->Ok_0.header_end,
    decreases buf.len() - i,
{
    lemma_skip_fill_bounds(buf, i + 1);
    let m = spec_skip_fill(buf, i + 1);
    let marker = buf[m];
    let p = m + 1;
    if spec_is_standalone(marker) {
        lemma_segments_reach_scan(buf, p, st);
    } else {
        let l = crate::cursor::spec_u16_be(buf, p) as int;
        if marker == MARKER_SOS {
        } else if marker == MARKER_SOF0 || marker == MARKER_SOF2 {
            lemma_segments_reach_scan(buf, p + l, spec_with_sof(st, buf, marker, p));
        } else if marker == MARKER_DQT {
            lemma_segments_reach_scan(
                buf,
                p + l,
                JpegHeaderInfo {
                    quant_table_ids: spec_dqt_ids(buf, p + 2, p + l, st.quant_table_ids),
                    ..st
                },
            );
        } else if marker == MARKER_DHT {
            lemma_segments_reach_scan(
                buf,
                p + l,
                JpegHeaderInfo {
                    huffman_table_ids: spec_dht_ids(buf, p + 2, p + l, st.huffman_table_ids),
                    ..st
                },
            );
        } else {
            lemma_segments_reach_scan(buf, p + l, st);
        }
    }
}

/// Of a stream that walks, the list of segments opens with the
/// start-of-image marker and closes with the scan header, which ends where
/// the entropy-coded bytes begin.
pub proof fn lemma_segments_of_walk(buf: Seq<u8>)
    requires
        buf.len() <= usize::MAX,
        spec_scan(buf) is Ok,
    ensures
        crate::scan::spec_segments(buf).len() >= 2,
        crate::scan::spec_segments(buf)[0] == (crate::scan::Segment {
            marker: crate::scan::MARKER_SOI,
            start: 0,
            end: 2,
        }),
        crate::scan::spec_segments(buf).last().marker == MARKER_SOS,
        crate::scan::spec_segments(buf).last().end == spec_scan(buf)->Ok_0.header_end,
{
    lemma_segments_reach_scan(buf, 2, spec_empty_info());
}

} // verus!
