//! Surveying how the levels of a container use the shared JPEG header: for
//! each level what its frame header declares and how far its marker prefix
//! agrees with that of level 0, and for the file whether the prefixes are
//! equal outright or but for the bytes of height and width.
use crate::assemble::append_bytes;
use crate::encoder::{header_eq_except_hw, spec_header_eq_except_hw};
use crate::header::{spec_header_error, Blp1Header, JPEG_HEADER_OFFSET};
use crate::mip::{mip_dims, spec_mip_axis, MAX_MIPS};
use crate::scan::{parse_jpeg_header_info, spec_scan, JpegHeaderInfo};
use crate::texture::{spec_mip_payload, spec_mip_usable, spec_shared_header};
use vstd::prelude::*;

verus! {

/// What the survey found for one level.
#[derive(Clone, Copy, Debug, PartialEq, Eq, Structural)]
pub struct MipRow {
    /// Index of the level.
    pub idx: usize,
    /// Width of the level by the dimensions of the container.
    pub blp_w: u32,
    /// Height of the level by the dimensions of the container.
    pub blp_h: u32,
    /// Width that the frame header of the level declares.
    pub sof_w: u16,
    /// Height that the frame header of the level declares.
    pub sof_h: u16,
    /// Length of the marker prefix of the level.
    pub header_len: usize,
    /// Number of leading bytes that the stream of the level has in common
    /// with the stream of level 0; for level 0 the length of its prefix.
    pub lcp_to_mip0: usize,
    /// The marker prefix is that of level 0, byte for byte.
    pub header_eq_mip0: bool,
    /// The marker prefix is that of level 0 but for height and width.
    pub header_eq_mip0_except_hw: bool,
}

/// What the survey found for a file.
#[derive(Clone, Copy, Debug, PartialEq, Eq, Structural)]
pub struct FileSummary {
    /// Number of levels surveyed.
    pub mips: usize,
    /// Every marker prefix is that of level 0.
    pub all_equal_headers: bool,
    /// Every marker prefix is that of level 0 but for height and width.
    pub all_equal_headers_except_hw: bool,
    /// Number of levels whose frame header declares other dimensions than
    /// the level has.
    pub mismatched_sof_dims: usize,
    /// Length of the marker prefix of level 0.
    pub header_len_ref: usize,
    /// Smallest `lcp_to_mip0` of all levels.
    pub lcp_min: usize,
    /// Largest `lcp_to_mip0` of all levels.
    pub lcp_max: usize,
}

/// Number of leading positions from `k` on at which `a` and `b` hold the
/// same byte, added to `k`.
pub open spec fn spec_common_prefix_from(a: Seq<u8>, b: Seq<u8>, k: int) -> int
    decreases a.len() - k,
{
    if 0 <= k < a.len() && k < b.len() && a[k] == b[k] {
        spec_common_prefix_from(a, b, k + 1)
    } else {
        k
    }
}

/// Length of the longest common prefix of two byte strings.
pub open spec fn spec_common_prefix(a: Seq<u8>, b: Seq<u8>) -> int {
    spec_common_prefix_from(a, b, 0)
}

/// Length of the longest common prefix of two byte strings.
pub fn common_prefix_len(a: &[u8], b: &[u8]) -> (r: usize)
    ensures
        r == spec_common_prefix(a@, b@),
        r <= a@.len(),
        r <= b@.len(),
{
    let mut k: usize = 0;
    while k < a.len() && k < b.len() && a[k] == b[k]
        invariant
            k <= a@.len(),
            k <= b@.len(),
            spec_common_prefix_from(a@, b@, k as int) == spec_common_prefix(a@, b@),
        decreases a@.len() - k,
    {
        k = k + 1;
    }
    k
}

/// Whether two byte strings are equal.
pub fn bytes_equal(a: &[u8], b: &[u8]) -> (r: bool)
    ensures
        r == (a@ == b@),
{
    if a.len() != b.len() {
        return false;
    }
    let mut k: usize = 0;
    while k < a.len()
        invariant
            k <= a@.len(),
            a@.len() == b@.len(),
            forall|j: int| 0 <= j < k ==> a@[j] == b@[j],
        decreases a@.len() - k,
    {
        if a[k] != b[k] {
            return false;
        }
        k = k + 1;
    }
    assert(a@ =~= b@);
    true
}

/// Number of levels to survey: the slots from `k` on up to the first that
/// is empty or reaches past the end of the file.
pub open spec fn spec_survey_count(bytes: Seq<u8>, k: int) -> int
    decreases MAX_MIPS - k,
{
    if 0 <= k < MAX_MIPS && spec_mip_usable(bytes, k) {
        1 + spec_survey_count(bytes, k + 1)
    } else {
        0
    }
}

/// The stream of level `i`: the shared header with the payload behind it,
/// nothing rewritten.
pub open spec fn spec_full(bytes: Seq<u8>, i: int) -> Seq<u8> {
    spec_shared_header(bytes) + spec_mip_payload(bytes, i)
}

/// The marker prefix of a stream that can be walked.
pub open spec fn spec_prefix(full: Seq<u8>) -> Seq<u8> {
    full.subrange(0, spec_scan(full)->Ok_0.header_end as int)
}

/// The row of a level of `w` by `h` whose stream is `full`, in a file whose
/// level 0 has the stream `full0`.
pub open spec fn spec_row_of(full0: Seq<u8>, full: Seq<u8>, i: int, w: u32, h: u32) -> MipRow {
    let info = spec_scan(full)->Ok_0;
    let info0 = spec_scan(full0)->Ok_0;
    MipRow {
        idx: i as usize,
        blp_w: w,
        blp_h: h,
        sof_w: info.sof_w,
        sof_h: info.sof_h,
        header_len: info.header_end,
        lcp_to_mip0: if i == 0 {
            info0.header_end
        } else {
            spec_common_prefix(full0, full) as usize
        },
        header_eq_mip0: spec_prefix(full) == spec_prefix(full0),
        header_eq_mip0_except_hw: spec_header_eq_except_hw(
            spec_prefix(full),
            spec_prefix(full0),
            info,
            info0,
        ),
    }
}

/// The row of level `i` of a container.
pub open spec fn spec_row(bytes: Seq<u8>, i: int) -> MipRow {
    spec_row_of(
        spec_full(bytes, 0),
        spec_full(bytes, i),
        i,
        spec_mip_axis(crate::cursor::spec_u32_le(bytes, 12), i as nat),
        spec_mip_axis(crate::cursor::spec_u32_le(bytes, 16), i as nat),
    )
}

/// Whether the frame header of a row declares other dimensions than the
/// level has.
pub open spec fn spec_row_mismatch(r: MipRow) -> bool {
    r.sof_w != r.blp_w || r.sof_h != r.blp_h
}

/// The summary of a single row.
pub open spec fn spec_summary_start(r: MipRow) -> FileSummary {
    FileSummary {
        mips: 1,
        all_equal_headers: true,
        all_equal_headers_except_hw: true,
        mismatched_sof_dims: if spec_row_mismatch(r) {
            1
        } else {
            0
        },
        header_len_ref: r.header_len,
        lcp_min: r.lcp_to_mip0,
        lcp_max: r.lcp_to_mip0,
    }
}

/// The summary `s` of some rows, taken on by the row `r`.
pub open spec fn spec_summary_step(s: FileSummary, r: MipRow) -> FileSummary {
    FileSummary {
        mips: (s.mips + 1) as usize,
        all_equal_headers: s.all_equal_headers && r.header_eq_mip0,
        all_equal_headers_except_hw: s.all_equal_headers_except_hw && r.header_eq_mip0_except_hw,
        mismatched_sof_dims: if spec_row_mismatch(r) {
            (s.mismatched_sof_dims + 1) as usize
        } else {
            s.mismatched_sof_dims
        },
        header_len_ref: s.header_len_ref,
        lcp_min: if r.lcp_to_mip0 < s.lcp_min {
            r.lcp_to_mip0
        } else {
            s.lcp_min
        },
        lcp_max: if r.lcp_to_mip0 > s.lcp_max {
            r.lcp_to_mip0
        } else {
            s.lcp_max
        },
    }
}

/// The summary of the first `n` rows, for `n` of at least one.
pub open spec fn spec_summary(rows: Seq<MipRow>, n: int) -> FileSummary
    decreases n,
{
    if n <= 1 {
        spec_summary_start(rows[0])
    } else {
        spec_summary_step(spec_summary(rows, n - 1), rows[n - 1])
    }
}

/// Whether a file can be surveyed: its header is good, its first slot holds
/// a usable level, and the stream of every level to survey fits the machine
/// and can be walked.
pub open spec fn spec_surveyable(bytes: Seq<u8>) -> bool {
    &&& spec_header_error(bytes) is None
    &&& spec_survey_count(bytes, 0) > 0
    &&& forall|i: int|
        0 <= i < spec_survey_count(bytes, 0) ==> spec_full(bytes, i).len() <= usize::MAX && (
        #[trigger] spec_scan(spec_full(bytes, i))) is Ok
}

/// The counting of levels stops within the sixteen slots, and every level
/// counted is usable.
pub proof fn lemma_survey_count(bytes: Seq<u8>, k: int, i: int)
    requires
        0 <= k <= MAX_MIPS,
    ensures
        0 <= spec_survey_count(bytes, k) <= MAX_MIPS - k,
        k <= i < k + spec_survey_count(bytes, k) ==> spec_mip_usable(bytes, i),
    decreases MAX_MIPS - k,
{
    if k < MAX_MIPS && spec_mip_usable(bytes, k) {
        lemma_survey_count(bytes, k + 1, i);
    }
}

/// The summary of the first `n` rows does not depend on the rows behind
/// them.
pub proof fn lemma_summary_ignores_later(a: Seq<MipRow>, b: Seq<MipRow>, n: int)
    requires
        1 <= n <= a.len(),
        n <= b.len(),
        forall|j: int| 0 <= j < n ==> a[j] == b[j],
    ensures
        spec_summary(a, n) == spec_summary(b, n),
    decreases n,
{
    if n > 1 {
        lemma_summary_ignores_later(a, b, n - 1);
    }
}

/// Whether slot `i` declares a payload that lies whole inside the file.
fn slot_usable(bytes: &[u8], h: &Blp1Header, i: usize) -> (r: bool)
    requires
        i < MAX_MIPS,
        crate::header::spec_reads_as(bytes@, *h),
    ensures
        r == spec_mip_usable(bytes@, i as int),
{
    let off: u64 = h.mip_offsets[i] as u64;
    let size: u64 = h.mip_sizes[i] as u64;
    assert(h.mip_offsets[i as int] == crate::texture::spec_mip_offset(bytes@, i as int));
    assert(h.mip_sizes[i as int] == crate::texture::spec_mip_size(bytes@, i as int));
    size > 0 && off + size <= bytes.len() as u64
}

/// The stream of level `i`, or nothing where it would not fit the machine.
fn level_stream(bytes: &[u8], h: &Blp1Header, i: usize) -> (r: Option<Vec<u8>>)
    requires
        i < MAX_MIPS,
        spec_header_error(bytes@) is None,
        crate::header::spec_reads_as(bytes@, *h),
        spec_mip_usable(bytes@, i as int),
    ensures
        spec_full(bytes@, i as int).len() <= usize::MAX ==> r is Some && r->Some_0@ == spec_full(
            bytes@,
            i as int,
        ),
        spec_full(bytes@, i as int).len() > usize::MAX ==> r is None,
{
    let off: usize = h.mip_offsets[i] as usize;
    let size: usize = h.mip_sizes[i] as usize;
    let shared_len: usize = h.jpeg_header_size as usize;
    assert(h.mip_offsets[i as int] == crate::texture::spec_mip_offset(bytes@, i as int));
    assert(h.mip_sizes[i as int] == crate::texture::spec_mip_size(bytes@, i as int));
    let len: usize = bytes.len();
    if size > usize::MAX - shared_len {
        return None;
    }
    let shared = vstd::slice::slice_subrange(
        bytes,
        JPEG_HEADER_OFFSET,
        JPEG_HEADER_OFFSET + shared_len,
    );
    let scan = vstd::slice::slice_subrange(bytes, off, off + size);
    let mut full: Vec<u8> = Vec::new();
    append_bytes(&mut full, shared);
    append_bytes(&mut full, scan);
    Some(full)
}

/// The row of a level from its stream and the stream of level 0.
#[verifier::rlimit(40)]
fn row_of(full0: &[u8], info0: &JpegHeaderInfo, full: &[u8], info: &JpegHeaderInfo, i: usize, w:
    u32, h: u32) -> (r: MipRow)
    requires
        spec_scan(full0@) == Ok::<JpegHeaderInfo, crate::error::ScanError>(*info0),
        spec_scan(full@) == Ok::<JpegHeaderInfo, crate::error::ScanError>(*info),
        i == 0 ==> full@ == full0@,
    ensures
        r == spec_row_of(full0@, full@, i as int, w, h),
{
    let len: usize = full.len();
    let len0: usize = full0.len();
    proof {
        crate::scan_laws::lemma_scan_bounds(full@);
        crate::scan_laws::lemma_scan_bounds(full0@);
    }
    let prefix = vstd::slice::slice_subrange(full, 0, info.header_end);
    let prefix0 = vstd::slice::slice_subrange(full0, 0, info0.header_end);
    MipRow {
        idx: i,
        blp_w: w,
        blp_h: h,
        sof_w: info.sof_w,
        sof_h: info.sof_h,
        header_len: info.header_end,
        lcp_to_mip0: if i == 0 {
            info0.header_end
        } else {
            common_prefix_len(full0, full)
        },
        header_eq_mip0: bytes_equal(prefix, prefix0),
        header_eq_mip0_except_hw: header_eq_except_hw(prefix, prefix0, info, info0),
    }
}

/// Takes one more row into a summary.
fn summary_step(s: &FileSummary, r: &MipRow) -> (out: FileSummary)
    requires
        s.mips < MAX_MIPS,
        s.mismatched_sof_dims <= s.mips,
    ensures
        out == spec_summary_step(*s, *r),
        out.mismatched_sof_dims <= out.mips,
{
    let mismatch: bool = r.sof_w as u32 != r.blp_w || r.sof_h as u32 != r.blp_h;
    FileSummary {
        mips: s.mips + 1,
        all_equal_headers: s.all_equal_headers && r.header_eq_mip0,
        all_equal_headers_except_hw: s.all_equal_headers_except_hw && r.header_eq_mip0_except_hw,
        mismatched_sof_dims: if mismatch {
            s.mismatched_sof_dims + 1
        } else {
            s.mismatched_sof_dims
        },
        header_len_ref: s.header_len_ref,
        lcp_min: if r.lcp_to_mip0 < s.lcp_min {
            r.lcp_to_mip0
        } else {
            s.lcp_min
        },
        lcp_max: if r.lcp_to_mip0 > s.lcp_max {
            r.lcp_to_mip0
        } else {
            s.lcp_max
        },
    }
}

/// The summary of a single row.
fn summary_start(r: &MipRow) -> (out: FileSummary)
    ensures
        out == spec_summary_start(*r),
        out.mips == 1,
        out.mismatched_sof_dims <= 1,
{
    let mismatch: bool = r.sof_w as u32 != r.blp_w || r.sof_h as u32 != r.blp_h;
    FileSummary {
        mips: 1,
        all_equal_headers: true,
        all_equal_headers_except_hw: true,
        mismatched_sof_dims: if mismatch { 1 } else { 0 },
        header_len_ref: r.header_len,
        lcp_min: r.lcp_to_mip0,
        lcp_max: r.lcp_to_mip0,
    }
}

/// Whether the stream of level `i` fits the machine and can be walked.
pub open spec fn spec_level_walks(bytes: Seq<u8>, i: int) -> bool {
    spec_full(bytes, i).len() <= usize::MAX && spec_scan(spec_full(bytes, i)) is Ok
}

/// What the loop of the survey knows of the header that it read.
pub open spec fn spec_survey_header(bytes: Seq<u8>, h: Blp1Header) -> bool {
    spec_header_error(bytes) is None && crate::header::spec_reads_as(bytes, h)
}

/// The row of level `i`, or nothing where its stream does not fit the
/// machine or cannot be walked.
#[verifier::rlimit(40)]
fn survey_level(bytes: &[u8], h: &Blp1Header, full0: &[u8], info0: &JpegHeaderInfo, i: usize) -> (r:
    Option<MipRow>)
    requires
        1 <= i < MAX_MIPS,
        spec_survey_header(bytes@, *h),
        spec_mip_usable(bytes@, i as int),
        full0@ == spec_full(bytes@, 0),
        spec_scan(full0@) == Ok::<JpegHeaderInfo, crate::error::ScanError>(*info0),
    ensures
        r is Some <==> spec_level_walks(bytes@, i as int),
        r matches Some(row) ==> row == spec_row(bytes@, i as int),
{
    let full = match level_stream(bytes, h, i) {
        Some(f) => f,
        None => { return None; },
    };
    let info = match parse_jpeg_header_info(full.as_slice()) {
        Ok(info) => info,
        Err(_) => { return None; },
    };
    let (mw, mh) = mip_dims(h.width, h.height, i);
    Some(row_of(full0, info0, full.as_slice(), &info, i, mw, mh))
}

/// Whether slot `i` is there to survey.
fn survey_goes_on(bytes: &[u8], h: &Blp1Header, i: usize) -> (r: bool)
    requires
        i <= MAX_MIPS,
        spec_survey_header(bytes@, *h),
    ensures
        r == (i < MAX_MIPS && spec_mip_usable(bytes@, i as int)),
        r ==> spec_survey_count(bytes@, i as int) == 1 + spec_survey_count(bytes@, i + 1),
        !r ==> spec_survey_count(bytes@, i as int) == 0,
{
    i < MAX_MIPS && slot_usable(bytes, h, i)
}

/// Surveys a container: one row for each level up to the first slot that is
/// empty or reaches past the end of the file, and the summary of the rows.
/// Nothing is reported for a file whose header is bad, whose first slot holds
/// no usable level, or in which the stream of a level cannot be walked.
#[verifier::rlimit(40)]
pub fn survey(bytes: &[u8]) -> (r: Option<(Vec<MipRow>, FileSummary)>)
    ensures
        r is Some <==> spec_surveyable(bytes@),
        r matches Some(p) ==> {
            &&& p.0@.len() == spec_survey_count(bytes@, 0)
            &&& forall|i: int| 0 <= i < p.0@.len() ==> #[trigger] p.0@[i] == spec_row(bytes@, i)
            &&& p.1 == spec_summary(p.0@, p.0@.len() as int)
        },
{
    let h = match Blp1Header::parse(bytes) {
        Ok(h) => h,
        Err(_) => { return None; },
    };
    if !survey_goes_on(bytes, &h, 0) {
        return None;
    }
    let full0 = match level_stream(bytes, &h, 0) {
        Some(f) => f,
        None => {
            assert(!spec_level_walks(bytes@, 0));
            assert(!(spec_full(bytes@, 0).len() <= usize::MAX && spec_scan(spec_full(bytes@, 0))
                is Ok));
            return None;
        },
    };
    let info0 = match parse_jpeg_header_info(full0.as_slice()) {
        Ok(info) => info,
        Err(_) => {
            assert(!(spec_full(bytes@, 0).len() <= usize::MAX && spec_scan(spec_full(bytes@, 0))
                is Ok));
            return None;
        },
    };
    let (w0, h0) = mip_dims(h.width, h.height, 0);
    let row0 = row_of(full0.as_slice(), &info0, full0.as_slice(), &info0, 0, w0, h0);
    let mut summary = summary_start(&row0);
    let mut rows: Vec<MipRow> = Vec::new();
    rows.push(row0);
    assert(spec_level_walks(bytes@, 0));
    let mut i: usize = 1;
    while survey_goes_on(bytes, &h, i)
        invariant
            1 <= i <= MAX_MIPS,
            spec_survey_header(bytes@, h),
            full0@ == spec_full(bytes@, 0),
            spec_scan(full0@) == Ok::<JpegHeaderInfo, crate::error::ScanError>(info0),
            rows@.len() == i,
            spec_survey_count(bytes@, 0) == i + spec_survey_count(bytes@, i as int),
            forall|j: int| 0 <= j < i ==> #[trigger] spec_level_walks(bytes@, j),
            forall|j: int| 0 <= j < i ==> #[trigger] rows@[j] == spec_row(bytes@, j),
            summary == spec_summary(rows@, i as int),
            summary.mips == i,
            summary.mismatched_sof_dims <= i,
        decreases MAX_MIPS - i,
    {
        let row = match survey_level(bytes, &h, full0.as_slice(), &info0, i) {
            Some(row) => row,
            None => {
                proof {
                    lemma_survey_count(bytes@, i + 1, 0);
                    lemma_not_surveyable(bytes@, i as int);
                }
                return None;
            },
        };
        summary = summary_step(&summary, &row);
        let ghost before = rows@;
        rows.push(row);
        proof {
            lemma_summary_ignores_later(before, rows@, i as int);
        }
        i = i + 1;
    }
    proof {
        lemma_surveyable(bytes@);
    }
    Some((rows, summary))
}

/// A file with a level to survey that does not walk cannot be surveyed.
pub proof fn lemma_not_surveyable(bytes: Seq<u8>, i: int)
    requires
        0 <= i < spec_survey_count(bytes, 0),
        !spec_level_walks(bytes, i),
    ensures
        !spec_surveyable(bytes),
{
    if spec_surveyable(bytes) {
        assert(spec_scan(spec_full(bytes, i)) is Ok);
    }
}

/// A file with a good header can be surveyed when it has a level to survey
/// and all such levels walk.
pub proof fn lemma_surveyable(bytes: Seq<u8>)
    requires
        spec_header_error(bytes) is None,
        spec_survey_count(bytes, 0) > 0,
        forall|j: int| 0 <= j < spec_survey_count(bytes, 0) ==> #[trigger] spec_level_walks(bytes, j),
    ensures
        spec_surveyable(bytes),
{
    assert forall|i: int| 0 <= i < spec_survey_count(bytes, 0) implies spec_full(bytes, i).len()
        <= usize::MAX && (#[trigger] spec_scan(spec_full(bytes, i))) is Ok by {
        assert(spec_level_walks(bytes, i));
    }
}

} // verus!
