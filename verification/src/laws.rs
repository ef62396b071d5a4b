//! What holds of every container that `pack` and `encode` write.
use crate::assemble::{
    lemma_patch_sof, lemma_with_eoi_closed, spec_assemble_with, spec_patch_sof, spec_sof_differs,
    spec_with_eoi,
};
use crate::cursor::{spec_u16_be, spec_u32_be_bytes, spec_u32_le};
use crate::decoder::spec_level_jpeg;
use crate::encoder::{
    lemma_level_without_problem, spec_bodies, spec_body, spec_encode, spec_encoded_levels,
    spec_first_level, spec_first_problem, spec_is_dim_byte, spec_level_problem, spec_level_total,
    spec_pack, spec_pack_words, spec_placed_offset, spec_placed_size,
};
use crate::error::BlpError;
use crate::header::{
    lemma_words_le_read, spec_header_error, spec_words_le, BLP1_MAGIC, JPEG_HEADER_OFFSET,
};
use crate::mip::{spec_mip_axis, MAX_MIPS};
use crate::scan::{spec_scan, JpegHeaderInfo};
use crate::scan_laws::{
    lemma_scan_agree, lemma_scan_bounds, lemma_scan_dims, spec_agree_but_dims,
    spec_is_dim_position,
};
use crate::spans::{spec_count_in, spec_in_any, Span};
use crate::texture::{
    spec_covered_bytes, spec_file_spans, spec_mip_offset, spec_mip_payload, spec_mip_size,
    spec_mip_usable, spec_shared_header, spec_shared_len,
};
use vstd::prelude::*;

verus! {

/// The record of the first level that is there.
pub open spec fn spec_pack_info(jpegs: Seq<Option<Seq<u8>>>) -> JpegHeaderInfo {
    spec_scan(jpegs[spec_first_level(jpegs, 0)]->Some_0)->Ok_0
}

/// Length of the marker prefix that the levels share.
pub open spec fn spec_pack_cut(jpegs: Seq<Option<Seq<u8>>>) -> int {
    spec_pack_info(jpegs).header_end as int
}

/// The marker prefix that the levels share.
pub open spec fn spec_pack_shared(jpegs: Seq<Option<Seq<u8>>>) -> Seq<u8> {
    jpegs[spec_first_level(jpegs, 0)]->Some_0.subrange(0, spec_pack_cut(jpegs))
}

/// Sixteen slots, none of them longer than the machine can address.
pub open spec fn spec_levels_fit(jpegs: Seq<Option<Seq<u8>>>) -> bool {
    &&& jpegs.len() == MAX_MIPS
    &&& forall|i: int|
        0 <= i < jpegs.len() && (#[trigger] jpegs[i]) is Some ==> jpegs[i]->Some_0.len()
            <= usize::MAX
}

/// The first level that is there is there.
pub proof fn lemma_first_level(jpegs: Seq<Option<Seq<u8>>>, k: int)
    requires
        0 <= k <= jpegs.len(),
    ensures
        k <= spec_first_level(jpegs, k) <= jpegs.len(),
        spec_first_level(jpegs, k) < jpegs.len() ==> jpegs[spec_first_level(jpegs, k)] is Some,
    decreases jpegs.len() - k,
{
    if k < jpegs.len() && jpegs[k] is None {
        lemma_first_level(jpegs, k + 1);
    }
}

/// Where no level from `k` on has a problem, level `i` has none.
pub proof fn lemma_no_problem(
    jpegs: Seq<Option<Seq<u8>>>,
    w: u32,
    h: u32,
    shared: Seq<u8>,
    base: JpegHeaderInfo,
    k: int,
    i: int,
)
    requires
        0 <= k <= i < jpegs.len(),
        jpegs[i] is Some,
        spec_first_problem(jpegs, w, h, shared, base, k) is None,
    ensures
        spec_level_problem(
            jpegs[i]->Some_0,
            spec_mip_axis(w, i as nat),
            spec_mip_axis(h, i as nat),
            shared,
            base,
        ) is None,
    decreases i - k,
{
    if k < i {
        lemma_no_problem(jpegs, w, h, shared, base, k + 1, i);
    }
}

/// What a successful `pack` has checked: there is a first level, its marker
/// stream can be walked, no level has a problem, and everything fits.
#[verifier::rlimit(40)]
pub proof fn lemma_pack_checked(w: u32, h: u32, jpegs: Seq<Option<Seq<u8>>>)
    requires
        spec_levels_fit(jpegs),
        spec_pack(w, h, jpegs) is Ok,
    ensures
        w > 0,
        h > 0,
        0 <= spec_first_level(jpegs, 0) < MAX_MIPS,
        jpegs[spec_first_level(jpegs, 0)] is Some,
        spec_scan(jpegs[spec_first_level(jpegs, 0)]->Some_0) is Ok,
        0 <= spec_pack_cut(jpegs) < jpegs[spec_first_level(jpegs, 0)]->Some_0.len(),
        spec_pack_shared(jpegs).len() == spec_pack_cut(jpegs),
        spec_pack_info(jpegs).sof_marker != 0,
        forall|i: int|
            0 <= i < MAX_MIPS && (#[trigger] jpegs[i]) is Some ==> spec_level_problem(
                jpegs[i]->Some_0,
                spec_mip_axis(w, i as nat),
                spec_mip_axis(h, i as nat),
                spec_pack_shared(jpegs),
                spec_pack_info(jpegs),
            ) is None,
        JPEG_HEADER_OFFSET + spec_pack_cut(jpegs) + spec_bodies(
            jpegs,
            spec_pack_cut(jpegs),
            MAX_MIPS as int,
        ).len() <= u32::MAX,
        spec_pack(w, h, jpegs)->Ok_0 == spec_u32_be_bytes(BLP1_MAGIC) + spec_words_le(
            spec_pack_words(w, h, jpegs, spec_pack_cut(jpegs)),
        ) + spec_pack_shared(jpegs) + spec_bodies(jpegs, spec_pack_cut(jpegs), MAX_MIPS as int),
{
    lemma_first_level(jpegs, 0);
    let first = spec_first_level(jpegs, 0);
    let fj = jpegs[first]->Some_0;
    lemma_scan_bounds(fj);
    let base = spec_pack_info(jpegs);
    let shared = spec_pack_shared(jpegs);
    assert forall|i: int| 0 <= i < MAX_MIPS && (#[trigger] jpegs[i]) is Some implies spec_level_problem(
        jpegs[i]->Some_0,
        spec_mip_axis(w, i as nat),
        spec_mip_axis(h, i as nat),
        shared,
        base,
    ) is None by {
        lemma_no_problem(jpegs, w, h, shared, base, 0, i);
    }
    assert(spec_level_problem(
        fj,
        spec_mip_axis(w, first as nat),
        spec_mip_axis(h, first as nat),
        shared,
        base,
    ) is None);
    lemma_level_without_problem(
        fj,
        spec_mip_axis(w, first as nat),
        spec_mip_axis(h, first as nat),
        shared,
        base,
    );
}

/// Where each field stands among the words of a packed header.
pub proof fn lemma_pack_words_index(w: u32, h: u32, jpegs: Seq<Option<Seq<u8>>>, cut: int)
    ensures
        spec_pack_words(w, h, jpegs, cut).len() == 39,
        spec_pack_words(w, h, jpegs, cut)[0] == 0,
        spec_pack_words(w, h, jpegs, cut)[1] == 0,
        spec_pack_words(w, h, jpegs, cut)[2] == w,
        spec_pack_words(w, h, jpegs, cut)[3] == h,
        spec_pack_words(w, h, jpegs, cut)[4] == 0,
        spec_pack_words(w, h, jpegs, cut)[5] == if spec_level_total(jpegs, MAX_MIPS as int)
            > 1 {
            1u32
        } else {
            0u32
        },
        forall|i: int|
            0 <= i < 16 ==> #[trigger] spec_pack_words(w, h, jpegs, cut)[6 + i]
                == spec_placed_offset(jpegs, cut, i),
        forall|i: int|
            0 <= i < 16 ==> #[trigger] spec_pack_words(w, h, jpegs, cut)[22 + i]
                == spec_placed_size(jpegs, cut, i),
        spec_pack_words(w, h, jpegs, cut)[38] == cut as u32,
{
}

/// Word `j` of a packed header can be read back at byte `4 + 4 * j`.
pub proof fn lemma_packed_word(w: u32, h: u32, jpegs: Seq<Option<Seq<u8>>>, j: int)
    requires
        spec_levels_fit(jpegs),
        spec_pack(w, h, jpegs) is Ok,
        0 <= j < 39,
    ensures
        spec_u32_le(spec_pack(w, h, jpegs)->Ok_0, 4 + 4 * j) == spec_pack_words(
            w,
            h,
            jpegs,
            spec_pack_cut(jpegs),
        )[j],
{
    lemma_pack_checked(w, h, jpegs);
    let cut = spec_pack_cut(jpegs);
    let words = spec_pack_words(w, h, jpegs, cut);
    let magic = spec_u32_be_bytes(BLP1_MAGIC);
    let rest = spec_pack_shared(jpegs) + spec_bodies(jpegs, cut, MAX_MIPS as int);
    lemma_pack_words_index(w, h, jpegs, cut);
    assert(spec_pack(w, h, jpegs)->Ok_0 =~= magic + spec_words_le(words) + rest);
    lemma_words_le_read(magic, words, rest, j);
}

/// The header of a packed container reads back as it was meant: JPEG
/// content, no alpha, the dimensions of the image, the mip flag set for more
/// than one level, the tables as placed, and the shared marker prefix behind
/// them.
#[verifier::rlimit(40)]
pub proof fn lemma_pack_header(w: u32, h: u32, jpegs: Seq<Option<Seq<u8>>>)
    requires
        spec_levels_fit(jpegs),
        spec_pack(w, h, jpegs) is Ok,
    ensures
        ({
            let y = spec_pack(w, h, jpegs)->Ok_0;
            let cut = spec_pack_cut(jpegs);
            &&& y.len() == JPEG_HEADER_OFFSET + cut + spec_bodies(jpegs, cut, MAX_MIPS as int).len()
            &&& spec_header_error(y) is None
            &&& spec_u32_le(y, 4) == 0
            &&& spec_u32_le(y, 8) == 0
            &&& spec_u32_le(y, 12) == w
            &&& spec_u32_le(y, 16) == h
            &&& spec_u32_le(y, 20) == 0
            &&& spec_u32_le(y, 24) == if spec_level_total(jpegs, MAX_MIPS as int) > 1 {
                1u32
            } else {
                0u32
            }
            &&& spec_shared_len(y) == cut
            &&& spec_shared_header(y) == spec_pack_shared(jpegs)
            &&& forall|i: int|
                0 <= i < MAX_MIPS ==> #[trigger] spec_mip_offset(y, i) == spec_placed_offset(
                    jpegs,
                    cut,
                    i,
                )
            &&& forall|i: int|
                0 <= i < MAX_MIPS ==> #[trigger] spec_mip_size(y, i) == spec_placed_size(
                    jpegs,
                    cut,
                    i,
                )
        }),
{
    lemma_pack_checked(w, h, jpegs);
    let y = spec_pack(w, h, jpegs)->Ok_0;
    let cut = spec_pack_cut(jpegs);
    let words = spec_pack_words(w, h, jpegs, cut);
    let magic = spec_u32_be_bytes(BLP1_MAGIC);
    let shared = spec_pack_shared(jpegs);
    let bodies = spec_bodies(jpegs, cut, MAX_MIPS as int);
    lemma_pack_words_index(w, h, jpegs, cut);
    assert(y.len() == 160 + cut + bodies.len());
    assert(crate::cursor::spec_u32_be(y, 0) == BLP1_MAGIC) by {
        crate::cursor::lemma_u32_be_round_trip(
            BLP1_MAGIC,
            Seq::<u8>::empty(),
            spec_words_le(words) + (shared + bodies),
        );
        assert(y =~= Seq::<u8>::empty() + magic + (spec_words_le(words) + (shared + bodies)));
    }
    lemma_packed_word(w, h, jpegs, 0);
    lemma_packed_word(w, h, jpegs, 1);
    lemma_packed_word(w, h, jpegs, 2);
    lemma_packed_word(w, h, jpegs, 3);
    lemma_packed_word(w, h, jpegs, 4);
    lemma_packed_word(w, h, jpegs, 5);
    lemma_packed_word(w, h, jpegs, 38);
    assert forall|i: int| 0 <= i < MAX_MIPS implies #[trigger] spec_mip_offset(y, i)
        == spec_placed_offset(jpegs, cut, i) by {
        lemma_packed_word(w, h, jpegs, 6 + i);
        assert(words[6 + i] == spec_placed_offset(jpegs, cut, i));
    }
    assert forall|i: int| 0 <= i < MAX_MIPS implies #[trigger] spec_mip_size(y, i)
        == spec_placed_size(jpegs, cut, i) by {
        lemma_packed_word(w, h, jpegs, 22 + i);
        assert(words[22 + i] == spec_placed_size(jpegs, cut, i));
    }
    assert(spec_shared_header(y) =~= shared);
}

/// A level that was checked against the marker prefix of `first` is walked
/// like `first`: the records differ in height and width alone.
#[verifier::rlimit(40)]
pub proof fn lemma_checked_level_scan(first: Seq<u8>, j: Seq<u8>, w: u32, h: u32)
    requires
        first.len() <= usize::MAX,
        j.len() <= usize::MAX,
        spec_scan(first) is Ok,
        spec_level_problem(
            j,
            w,
            h,
            first.subrange(0, spec_scan(first)->Ok_0.header_end as int),
            spec_scan(first)->Ok_0,
        ) is None,
    ensures
        spec_scan(j) is Ok,
        crate::scan_laws::spec_same_but_dims(spec_scan(first)->Ok_0, spec_scan(j)->Ok_0),
        spec_scan(first)->Ok_0.sof_marker != 0,
        spec_scan(j)->Ok_0.sof_w == w,
        spec_scan(j)->Ok_0.sof_h == h,
        spec_scan(first)->Ok_0.header_end < j.len(),
        forall|k: int|
            0 <= k < spec_scan(first)->Ok_0.header_end && !spec_is_dim_position(
                spec_scan(first)->Ok_0,
                k,
            ) ==> #[trigger] j[k] == first[k],
{
    let base = spec_scan(first)->Ok_0;
    let cut = base.header_end as int;
    let shared = first.subrange(0, cut);
    lemma_scan_bounds(first);
    lemma_level_without_problem(j, w, h, shared, base);
    let info = spec_scan(j)->Ok_0;
    let prefix = j.subrange(0, cut);
    assert forall|k: int| 0 <= k < cut && !spec_is_dim_position(base, k) implies #[trigger] j[k]
        == first[k] by {
        assert(shared[k] == first[k]);
        assert(prefix[k] == j[k]);
        assert((base.sof_marker != 0 && info.sof_marker != 0 && spec_is_dim_byte(base, k))
            || prefix[k] == shared[k]);
    }
    assert(spec_agree_but_dims(first, j, base, cut));
    lemma_scan_agree(first, j);
}

/// A marker prefix with any scan body behind it is walked like the stream
/// that the prefix was cut from.
pub proof fn lemma_prefix_scan(first: Seq<u8>, body: Seq<u8>)
    requires
        first.len() <= usize::MAX,
        spec_scan(first) is Ok,
        spec_scan(first)->Ok_0.header_end + body.len() <= usize::MAX,
    ensures
        spec_scan(first.subrange(0, spec_scan(first)->Ok_0.header_end as int) + body) == spec_scan(
            first,
        ),
{
    let base = spec_scan(first)->Ok_0;
    let cut = base.header_end as int;
    let joined = first.subrange(0, cut) + body;
    lemma_scan_bounds(first);
    assert(spec_agree_but_dims(first, joined, base, cut)) by {
        assert forall|k: int| 0 <= k < cut && !spec_is_dim_position(base, k) implies #[trigger] first[k]
            == joined[k] by {
            assert(joined[k] == first.subrange(0, cut)[k]);
        }
    }
    lemma_scan_agree(first, joined);
    if base.sof_marker != 0 {
        lemma_scan_dims(first);
        let ho = base.sof_h_offset as int;
        let wo = base.sof_w_offset as int;
        assert(joined[ho] == first.subrange(0, cut)[ho]);
        assert(joined[ho + 1] == first.subrange(0, cut)[ho + 1]);
        assert(joined[wo] == first.subrange(0, cut)[wo]);
        assert(joined[wo + 1] == first.subrange(0, cut)[wo + 1]);
    }
}

/// Two bytes are determined by the big-endian value that they spell.
pub proof fn lemma_u16_be_bytes(s: Seq<u8>, i: int, v: u16)
    requires
        spec_u16_be(s, i) == v,
    ensures
        s[i] == crate::cursor::spec_u16_be_bytes(v)[0],
        s[i + 1] == crate::cursor::spec_u16_be_bytes(v)[1],
{
}

/// A stream `j` is put together from a prefix `shared` of `cut` bytes and
/// its own tail when the two agree before `cut`, but for four bytes at `ho`
/// that are written anew with the values that `j` holds there.
#[verifier::rlimit(40)]
pub proof fn lemma_restored_bytes(
    shared: Seq<u8>,
    j: Seq<u8>,
    cut: int,
    ho: int,
    w: u16,
    h: u16,
    rewrite: bool,
)
    requires
        0 <= ho,
        ho + 4 <= cut,
        cut == shared.len(),
        cut <= j.len(),
        forall|k: int| 0 <= k < cut && !(ho <= k < ho + 4) ==> #[trigger] j[k] == shared[k],
        spec_u16_be(j, ho) == h,
        spec_u16_be(j, ho + 2) == w,
        !rewrite ==> spec_u16_be(shared, ho) == h && spec_u16_be(shared, ho + 2) == w,
    ensures
        (if rewrite {
            spec_patch_sof(shared + j.subrange(cut, j.len() as int), ho + 2, ho, w, h)
        } else {
            shared + j.subrange(cut, j.len() as int)
        }) == j,
{
    let joined = shared + j.subrange(cut, j.len() as int);
    lemma_u16_be_bytes(j, ho, h);
    lemma_u16_be_bytes(j, ho + 2, w);
    if rewrite {
        lemma_patch_sof(joined, ho + 2, ho, w, h);
        let patched = spec_patch_sof(joined, ho + 2, ho, w, h);
        assert(patched =~= j) by {
            assert forall|k: int| 0 <= k < j.len() implies patched[k] == j[k] by {
                if ho <= k < ho + 4 {
                } else if k < cut {
                    assert(patched[k] == joined[k]);
                    assert(joined[k] == shared[k]);
                } else {
                    assert(patched[k] == joined[k]);
                    assert(joined[k] == j.subrange(cut, j.len() as int)[k - cut]);
                }
            }
        }
    } else {
        lemma_u16_be_bytes(shared, ho, h);
        lemma_u16_be_bytes(shared, ho + 2, w);
        assert(joined =~= j) by {
            assert forall|k: int| 0 <= k < j.len() implies joined[k] == j[k] by {
                if k < cut {
                    assert(joined[k] == shared[k]);
                } else {
                    assert(joined[k] == j.subrange(cut, j.len() as int)[k - cut]);
                }
            }
        }
    }
}

/// Splitting an encoded level at the shared prefix and assembling it again
/// gives the level back, closed with the end-of-image marker.
///
/// `first` is the level whose marker prefix is shared; `j` is a level that
/// was checked against that prefix for the dimensions `w` by `h`. Whatever
/// the frame header of the shared prefix declares, assembly brings it to the
/// dimensions of `j`, and reports a rewrite exactly when the shared prefix
/// declared others.
#[verifier::rlimit(40)]
pub proof fn lemma_assemble_restores(first: Seq<u8>, j: Seq<u8>, w: u32, h: u32)
    requires
        first.len() <= usize::MAX,
        j.len() + 2 <= usize::MAX,
        spec_scan(first) is Ok,
        spec_level_problem(
            j,
            w,
            h,
            first.subrange(0, spec_scan(first)->Ok_0.header_end as int),
            spec_scan(first)->Ok_0,
        ) is None,
    ensures
        ({
            let base = spec_scan(first)->Ok_0;
            let cut = base.header_end as int;
            spec_assemble_with(
                first.subrange(0, cut),
                j.subrange(cut, j.len() as int),
                w,
                h,
                false,
            ) == Ok::<(Seq<u8>, bool), BlpError>((spec_with_eoi(j), spec_sof_differs(base, w, h)))
        }),
{
    let base = spec_scan(first)->Ok_0;
    let cut = base.header_end as int;
    let shared = first.subrange(0, cut);
    let body = j.subrange(cut, j.len() as int);
    lemma_scan_bounds(first);
    lemma_checked_level_scan(first, j, w, h);
    lemma_prefix_scan(first, body);
    lemma_scan_dims(first);
    lemma_scan_dims(j);
    let ho = base.sof_h_offset as int;
    assert(base.sof_w_offset == ho + 2);
    let rewrite = spec_sof_differs(base, w, h);
    assert(spec_u16_be(shared, ho) == spec_u16_be(first, ho)) by {
        assert(shared[ho] == first[ho] && shared[ho + 1] == first[ho + 1]);
    }
    assert(spec_u16_be(shared, ho + 2) == spec_u16_be(first, ho + 2)) by {
        assert(shared[ho + 2] == first[ho + 2] && shared[ho + 3] == first[ho + 3]);
    }
    assert forall|k: int| 0 <= k < cut && !(ho <= k < ho + 4) implies #[trigger] j[k]
        == shared[k] by {
        assert(!spec_is_dim_position(base, k));
        assert(shared[k] == first[k]);
    }
    lemma_restored_bytes(shared, j, cut, ho, w as u16, h as u16, rewrite);
}

/// The scan body of slot `i` stands in the run of all bodies right behind
/// the bodies of the slots before it.
pub proof fn lemma_bodies_slice(jpegs: Seq<Option<Seq<u8>>>, cut: int, i: int, n: int)
    requires
        0 <= i < n,
    ensures
        spec_bodies(jpegs, cut, i + 1).len() <= spec_bodies(jpegs, cut, n).len(),
        spec_bodies(jpegs, cut, i + 1).len() == spec_bodies(jpegs, cut, i).len() + spec_body(
            jpegs[i],
            cut,
        ).len(),
        spec_bodies(jpegs, cut, n).subrange(
            spec_bodies(jpegs, cut, i).len() as int,
            spec_bodies(jpegs, cut, i + 1).len() as int,
        ) == spec_body(jpegs[i], cut),
    decreases n - i,
{
    if i + 1 == n {
        assert(spec_bodies(jpegs, cut, n).subrange(
            spec_bodies(jpegs, cut, i).len() as int,
            spec_bodies(jpegs, cut, i + 1).len() as int,
        ) =~= spec_body(jpegs[i], cut));
    } else {
        lemma_bodies_slice(jpegs, cut, i, n - 1);
        assert(spec_bodies(jpegs, cut, n).subrange(
            spec_bodies(jpegs, cut, i).len() as int,
            spec_bodies(jpegs, cut, i + 1).len() as int,
        ) =~= spec_bodies(jpegs, cut, n - 1).subrange(
            spec_bodies(jpegs, cut, i).len() as int,
            spec_bodies(jpegs, cut, i + 1).len() as int,
        ));
    }
}

/// A slice of a run that stands behind a head is a slice of the run.
pub proof fn lemma_slice_behind_head(head: Seq<u8>, run: Seq<u8>, lo: int, hi: int)
    requires
        0 <= lo <= hi <= run.len(),
    ensures
        (head + run).subrange(head.len() + lo, head.len() + hi) == run.subrange(lo, hi),
{
    assert((head + run).subrange(head.len() + lo, head.len() + hi) =~= run.subrange(lo, hi));
}

/// In a packed container the payload of every level that was packed lies
/// whole inside the file and is the scan body of that level.
#[verifier::rlimit(40)]
pub proof fn lemma_packed_payload(w: u32, h: u32, jpegs: Seq<Option<Seq<u8>>>, i: int)
    requires
        spec_levels_fit(jpegs),
        spec_pack(w, h, jpegs) is Ok,
        0 <= i < MAX_MIPS,
        jpegs[i] is Some,
    ensures
        ({
            let y = spec_pack(w, h, jpegs)->Ok_0;
            let cut = spec_pack_cut(jpegs);
            &&& spec_mip_usable(y, i)
            &&& spec_mip_offset(y, i) == JPEG_HEADER_OFFSET + cut + spec_bodies(jpegs, cut, i).len()
            &&& spec_mip_size(y, i) == jpegs[i]->Some_0.len() - cut
            &&& spec_mip_payload(y, i) == spec_body(jpegs[i], cut)
        }),
{
    lemma_pack_checked(w, h, jpegs);
    lemma_pack_header(w, h, jpegs);
    let y = spec_pack(w, h, jpegs)->Ok_0;
    let cut = spec_pack_cut(jpegs);
    let shared = spec_pack_shared(jpegs);
    let bodies = spec_bodies(jpegs, cut, MAX_MIPS as int);
    let head = spec_u32_be_bytes(BLP1_MAGIC) + spec_words_le(spec_pack_words(w, h, jpegs, cut))
        + shared;
    lemma_level_without_problem(
        jpegs[i]->Some_0,
        spec_mip_axis(w, i as nat),
        spec_mip_axis(h, i as nat),
        shared,
        spec_pack_info(jpegs),
    );
    lemma_bodies_slice(jpegs, cut, i, MAX_MIPS as int);
    let lo = spec_bodies(jpegs, cut, i).len() as int;
    let hi = spec_bodies(jpegs, cut, i + 1).len() as int;
    assert(spec_body(jpegs[i], cut).len() == jpegs[i]->Some_0.len() - cut);
    assert(spec_mip_offset(y, i) == spec_placed_offset(jpegs, cut, i));
    assert(spec_mip_size(y, i) == spec_placed_size(jpegs, cut, i));
    assert(y == head + bodies);
    assert(head.len() == JPEG_HEADER_OFFSET + cut);
    lemma_slice_behind_head(head, bodies, lo, hi);
}

/// What a packed container hands to the JPEG decoder for a level is the
/// stream that was packed for that level, closed with the end-of-image
/// marker. The frame header counts as rewritten exactly when the level has
/// other dimensions than the level whose prefix is shared.
#[verifier::rlimit(40)]
pub proof fn lemma_packed_level(w: u32, h: u32, jpegs: Seq<Option<Seq<u8>>>, i: int)
    requires
        spec_levels_fit(jpegs),
        spec_pack(w, h, jpegs) is Ok,
        0 <= i < MAX_MIPS,
        jpegs[i] is Some,
    ensures
        ({
            let y = spec_pack(w, h, jpegs)->Ok_0;
            spec_level_stream(y, w, h, i) == Ok::<(Seq<u8>, bool), BlpError>(
                (
                    spec_with_eoi(jpegs[i]->Some_0),
                    spec_sof_differs(
                        spec_pack_info(jpegs),
                        spec_mip_axis(w, i as nat),
                        spec_mip_axis(h, i as nat),
                    ),
                ),
            )
        }),
{
    lemma_pack_checked(w, h, jpegs);
    lemma_pack_header(w, h, jpegs);
    lemma_packed_payload(w, h, jpegs, i);
    let y = spec_pack(w, h, jpegs)->Ok_0;
    let cut = spec_pack_cut(jpegs);
    let first = jpegs[spec_first_level(jpegs, 0)]->Some_0;
    let j = jpegs[i]->Some_0;
    lemma_bodies_slice(jpegs, cut, i, MAX_MIPS as int);
    lemma_assemble_restores(first, j, spec_mip_axis(w, i as nat), spec_mip_axis(h, i as nat));
    assert(y.subrange(JPEG_HEADER_OFFSET as int, JPEG_HEADER_OFFSET + spec_shared_len(y))
        == spec_pack_shared(jpegs));
    assert(y.subrange(
        spec_mip_offset(y, i) as int,
        spec_mip_offset(y, i) + spec_mip_size(y, i),
    ) == spec_body(jpegs[i], cut));
}

/// Two levels that were checked against the marker prefix of `first` have,
/// once closed, marker prefixes of the length of that prefix, which hold the
/// same bytes everywhere but at the bytes of height and width.
#[verifier::rlimit(40)]
pub proof fn lemma_checked_pair(
    first: Seq<u8>,
    ji: Seq<u8>,
    wi: u32,
    hi: u32,
    jk: Seq<u8>,
    wk: u32,
    hk: u32,
)
    requires
        first.len() <= usize::MAX,
        ji.len() + 2 <= usize::MAX,
        jk.len() + 2 <= usize::MAX,
        spec_scan(first) is Ok,
        spec_level_problem(
            ji,
            wi,
            hi,
            first.subrange(0, spec_scan(first)->Ok_0.header_end as int),
            spec_scan(first)->Ok_0,
        ) is None,
        spec_level_problem(
            jk,
            wk,
            hk,
            first.subrange(0, spec_scan(first)->Ok_0.header_end as int),
            spec_scan(first)->Ok_0,
        ) is None,
    ensures
        spec_scan(spec_with_eoi(ji)) is Ok,
        spec_scan(spec_with_eoi(jk)) is Ok,
        spec_scan(spec_with_eoi(ji))->Ok_0.header_end == spec_scan(first)->Ok_0.header_end,
        spec_scan(spec_with_eoi(jk))->Ok_0.header_end == spec_scan(first)->Ok_0.header_end,
        crate::scan_laws::spec_same_but_dims(
            spec_scan(spec_with_eoi(ji))->Ok_0,
            spec_scan(spec_with_eoi(jk))->Ok_0,
        ),
        forall|p: int|
            0 <= p < spec_scan(first)->Ok_0.header_end && !spec_is_dim_position(
                spec_scan(spec_with_eoi(ji))->Ok_0,
                p,
            ) ==> #[trigger] spec_with_eoi(ji)[p] == spec_with_eoi(jk)[p],
{
    let base = spec_scan(first)->Ok_0;
    let cut = base.header_end as int;
    lemma_scan_bounds(first);
    lemma_checked_level_scan(first, ji, wi, hi);
    lemma_checked_level_scan(first, jk, wk, hk);
    lemma_closed_scan(ji);
    lemma_closed_scan(jk);
    lemma_with_eoi_closed(ji);
    lemma_with_eoi_closed(jk);
    let ai = spec_with_eoi(ji);
    let ak = spec_with_eoi(jk);
    assert forall|p: int| 0 <= p < cut && !spec_is_dim_position(spec_scan(ai)->Ok_0, p) implies #[trigger] ai[p]
        == ak[p] by {
        assert(!spec_is_dim_position(base, p));
        assert(ai[p] == ji[p]);
        assert(ak[p] == jk[p]);
        assert(ji[p] == first[p]);
        assert(jk[p] == first[p]);
    }
}

/// The length of the shared header that a packed container declares is the
/// length of the marker prefix of its first level.
pub proof fn lemma_pack_shared_len(w: u32, h: u32, jpegs: Seq<Option<Seq<u8>>>)
    requires
        spec_levels_fit(jpegs),
        spec_pack(w, h, jpegs) is Ok,
    ensures
        spec_shared_len(spec_pack(w, h, jpegs)->Ok_0) == spec_pack_cut(jpegs),
{
    lemma_pack_header(w, h, jpegs);
}

/// The stand-alone stream of level `i` of a container, with frame headers
/// rewritten where they disagree.
pub open spec fn spec_level_stream(y: Seq<u8>, w: u32, h: u32, i: int) -> Result<
    (Seq<u8>, bool),
    BlpError,
> {
    spec_level_jpeg(
        y,
        spec_shared_len(y),
        spec_mip_offset(y, i),
        spec_mip_size(y, i),
        spec_mip_axis(w, i as nat),
        spec_mip_axis(h, i as nat),
        false,
    )
}

/// The shared-header law: in a packed container, the stand-alone streams of
/// any two levels have marker prefixes of the same length, and these hold
/// the same bytes everywhere but at the four bytes of height and width in
/// the frame header.
#[verifier::rlimit(40)]
pub proof fn lemma_shared_prefix(w: u32, h: u32, jpegs: Seq<Option<Seq<u8>>>, i: int, k: int)
    requires
        spec_levels_fit(jpegs),
        spec_pack(w, h, jpegs) is Ok,
        0 <= i < MAX_MIPS,
        0 <= k < MAX_MIPS,
        jpegs[i] is Some,
        jpegs[k] is Some,
    ensures
        ({
            let y = spec_pack(w, h, jpegs)->Ok_0;
            let a = spec_level_stream(y, w, h, i);
            let b = spec_level_stream(y, w, h, k);
            &&& a is Ok
            &&& b is Ok
            &&& spec_scan(a->Ok_0.0) is Ok
            &&& spec_scan(b->Ok_0.0) is Ok
            &&& spec_scan(a->Ok_0.0)->Ok_0.header_end == spec_shared_len(y)
            &&& spec_scan(b->Ok_0.0)->Ok_0.header_end == spec_shared_len(y)
            &&& crate::scan_laws::spec_same_but_dims(
                spec_scan(a->Ok_0.0)->Ok_0,
                spec_scan(b->Ok_0.0)->Ok_0,
            )
            &&& forall|p: int|
                0 <= p < spec_shared_len(y) && !spec_is_dim_position(spec_scan(a->Ok_0.0)->Ok_0, p)
                    ==> #[trigger] a->Ok_0.0[p] == b->Ok_0.0[p]
        }),
{
    lemma_pack_checked(w, h, jpegs);
    lemma_pack_shared_len(w, h, jpegs);
    lemma_packed_level(w, h, jpegs, i);
    lemma_packed_level(w, h, jpegs, k);
    let first = jpegs[spec_first_level(jpegs, 0)]->Some_0;
    let cut = spec_pack_cut(jpegs);
    let ji = jpegs[i]->Some_0;
    let jk = jpegs[k]->Some_0;
    lemma_packed_fits(w, h, jpegs, i);
    lemma_packed_fits(w, h, jpegs, k);
    lemma_checked_pair(
        first,
        ji,
        spec_mip_axis(w, i as nat),
        spec_mip_axis(h, i as nat),
        jk,
        spec_mip_axis(w, k as nat),
        spec_mip_axis(h, k as nat),
    );
}

/// A level of a packed container, closed with two more bytes, still fits the
/// machine.
pub proof fn lemma_packed_fits(w: u32, h: u32, jpegs: Seq<Option<Seq<u8>>>, i: int)
    requires
        spec_levels_fit(jpegs),
        spec_pack(w, h, jpegs) is Ok,
        0 <= i < MAX_MIPS,
        jpegs[i] is Some,
    ensures
        jpegs[i]->Some_0.len() + 2 <= usize::MAX,
{
    lemma_pack_checked(w, h, jpegs);
    lemma_packed_payload(w, h, jpegs, i);
    lemma_bodies_slice(jpegs, spec_pack_cut(jpegs), i, MAX_MIPS as int);
}

/// Closing a stream with the end-of-image marker does not change its walk.
pub proof fn lemma_closed_scan(j: Seq<u8>)
    requires
        j.len() + 2 <= usize::MAX,
        spec_scan(j) is Ok,
    ensures
        spec_scan(spec_with_eoi(j)) == spec_scan(j),
{
    let c = spec_with_eoi(j);
    let info = spec_scan(j)->Ok_0;
    lemma_scan_bounds(j);
    lemma_with_eoi_closed(j);
    assert(spec_agree_but_dims(j, c, info, info.header_end as int));
    lemma_scan_agree(j, c);
    if info.sof_marker != 0 {
        lemma_scan_dims(j);
        let ho = info.sof_h_offset as int;
        let wo = info.sof_w_offset as int;
        assert(c[ho] == j[ho] && c[ho + 1] == j[ho + 1]);
        assert(c[wo] == j[wo] && c[wo + 1] == j[wo + 1]);
    }
}

/// Where every position below `n` is covered, `n` positions are covered.
pub proof fn lemma_count_all(spans: Seq<Span>, n: nat)
    requires
        forall|p: int| 0 <= p < n ==> spec_in_any(spans, p),
    ensures
        spec_count_in(spans, n) == n,
    decreases n,
{
    if n > 0 {
        lemma_count_all(spans, (n - 1) as nat);
    }
}

/// Every position of the run of bodies lies in the body of one slot.
pub proof fn lemma_body_of_position(jpegs: Seq<Option<Seq<u8>>>, cut: int, n: int, q: int) -> (i:
    int)
    requires
        0 <= n,
        0 <= q < spec_bodies(jpegs, cut, n).len(),
    ensures
        0 <= i < n,
        jpegs[i] is Some,
        spec_bodies(jpegs, cut, i).len() <= q < spec_bodies(jpegs, cut, i + 1).len(),
    decreases n,
{
    if q < spec_bodies(jpegs, cut, n - 1).len() {
        lemma_body_of_position(jpegs, cut, n - 1, q)
    } else {
        n - 1
    }
}

/// A packed container has no holes: every byte of it belongs to the header,
/// to the shared marker prefix or to the payload of a level.
#[verifier::rlimit(40)]
pub proof fn lemma_packed_no_holes(w: u32, h: u32, jpegs: Seq<Option<Seq<u8>>>)
    requires
        spec_levels_fit(jpegs),
        spec_pack(w, h, jpegs) is Ok,
    ensures
        spec_covered_bytes(spec_pack(w, h, jpegs)->Ok_0) == spec_pack(w, h, jpegs)->Ok_0.len(),
{
    lemma_pack_checked(w, h, jpegs);
    lemma_pack_header(w, h, jpegs);
    let y = spec_pack(w, h, jpegs)->Ok_0;
    let cut = spec_pack_cut(jpegs);
    let spans = spec_file_spans(y);
    let head = JPEG_HEADER_OFFSET + cut;
    assert forall|p: int| 0 <= p < y.len() implies spec_in_any(spans, p) by {
        if p < head {
            assert(spans[0].start <= p < spans[0].end);
        } else {
            let i = lemma_body_of_position(jpegs, cut, MAX_MIPS as int, p - head);
            lemma_packed_payload(w, h, jpegs, i);
            lemma_bodies_slice(jpegs, cut, i, MAX_MIPS as int);
            assert(spans[i + 1].start <= p < spans[i + 1].end);
        }
    }
    lemma_count_all(spans, y.len());
}

/// A container that `encode` wrote declares the dimensions of the image
/// that was encoded, and parses without error.
pub proof fn lemma_encode_keeps_dimensions(
    px: Seq<u8>,
    w: u32,
    h: u32,
    quality: u8,
    mask: Seq<bool>,
)
    requires
        spec_encode(px, w, h, quality, mask) is Ok,
        spec_encoding_fits(px, w, h, quality, mask),
    ensures
        spec_header_error(spec_encode(px, w, h, quality, mask)->Ok_0) is None,
        spec_u32_le(spec_encode(px, w, h, quality, mask)->Ok_0, 12) == w,
        spec_u32_le(spec_encode(px, w, h, quality, mask)->Ok_0, 16) == h,
        spec_covered_bytes(spec_encode(px, w, h, quality, mask)->Ok_0) == spec_encode(
            px,
            w,
            h,
            quality,
            mask,
        )->Ok_0.len(),
{
    let jpegs = spec_encoded_levels(px, w, h, quality, mask);
    lemma_pack_header(w, h, jpegs);
    lemma_packed_no_holes(w, h, jpegs);
}

/// The mip table that a container declares, as two runs of sixteen words.
pub open spec fn spec_declared_offsets(y: Seq<u8>) -> Seq<u32> {
    Seq::new(MAX_MIPS as nat, |i: int| spec_mip_offset(y, i))
}

/// The sizes that a container declares for its sixteen slots.
pub open spec fn spec_declared_sizes(y: Seq<u8>) -> Seq<u32> {
    Seq::new(MAX_MIPS as nat, |i: int| spec_mip_size(y, i))
}

/// The mip table of a packed container is consistent: every payload lies
/// behind the shared header and inside the file, and the payloads follow one
/// another in slot order without overlap.
#[verifier::rlimit(40)]
pub proof fn lemma_packed_consistent(w: u32, h: u32, jpegs: Seq<Option<Seq<u8>>>)
    requires
        spec_levels_fit(jpegs),
        spec_pack(w, h, jpegs) is Ok,
    ensures
        crate::mip::spec_table_consistent(
            spec_declared_offsets(spec_pack(w, h, jpegs)->Ok_0),
            spec_declared_sizes(spec_pack(w, h, jpegs)->Ok_0),
            JPEG_HEADER_OFFSET + spec_shared_len(spec_pack(w, h, jpegs)->Ok_0),
            spec_pack(w, h, jpegs)->Ok_0.len() as int,
        ),
{
    lemma_pack_checked(w, h, jpegs);
    lemma_pack_header(w, h, jpegs);
    let y = spec_pack(w, h, jpegs)->Ok_0;
    let cut = spec_pack_cut(jpegs);
    let offs = spec_declared_offsets(y);
    let sizes = spec_declared_sizes(y);
    let start = JPEG_HEADER_OFFSET + spec_shared_len(y);
    assert forall|i: int| 0 <= i < MAX_MIPS implies #[trigger] crate::mip::spec_slot_inside(
        offs,
        sizes,
        start,
        y.len() as int,
        i,
    ) by {
        if jpegs[i] is Some {
            lemma_packed_payload(w, h, jpegs, i);
        } else {
            assert(spec_mip_size(y, i) == spec_placed_size(jpegs, cut, i));
        }
    }
    assert forall|i: int, j: int| 0 <= i < j < MAX_MIPS implies #[trigger] crate::mip::spec_slots_apart(
        offs,
        sizes,
        i,
        j,
    ) by {
        if jpegs[i] is Some && jpegs[j] is Some {
            lemma_packed_payload(w, h, jpegs, i);
            lemma_packed_payload(w, h, jpegs, j);
            lemma_bodies_slice(jpegs, cut, i, j);
        } else if jpegs[i] is None {
            assert(spec_mip_size(y, i) == spec_placed_size(jpegs, cut, i));
        } else {
            assert(spec_mip_size(y, j) == spec_placed_size(jpegs, cut, j));
        }
    }
}

/// Every encoded level fits the machine.
pub open spec fn spec_encoding_fits(
    px: Seq<u8>,
    w: u32,
    h: u32,
    quality: u8,
    mask: Seq<bool>,
) -> bool {
    forall|i: int|
        0 <= i < MAX_MIPS && (#[trigger] spec_encoded_levels(px, w, h, quality, mask)[i]) is Some
            ==> spec_encoded_levels(px, w, h, quality, mask)[i]->Some_0.len() <= usize::MAX
}

/// Encoding and reading back meet at the JPEG coder: for every level that
/// `encode` stored, the stream that a reader of the container hands to the
/// JPEG decoder is the stream that the JPEG encoder wrote for that level of
/// the image, closed with the end-of-image marker. No byte of a table or of
/// entropy-coded data is lost or changed on the way through the container.
pub proof fn lemma_encoded_level(
    px: Seq<u8>,
    w: u32,
    h: u32,
    quality: u8,
    mask: Seq<bool>,
    i: int,
)
    requires
        spec_encode(px, w, h, quality, mask) is Ok,
        spec_encoding_fits(px, w, h, quality, mask),
        crate::encoder::spec_level_wanted(w, h, mask, i),
    ensures
        crate::encoder::spec_level_encoding(px, w, h, quality, i as nat) is Some,
        spec_level_stream(spec_encode(px, w, h, quality, mask)->Ok_0, w, h, i) is Ok,
        spec_level_stream(spec_encode(px, w, h, quality, mask)->Ok_0, w, h, i)->Ok_0.0
            == spec_with_eoi(
            crate::encoder::spec_level_encoding(px, w, h, quality, i as nat)->Some_0,
        ),
{
    let jpegs = spec_encoded_levels(px, w, h, quality, mask);
    assert(0 <= i < MAX_MIPS) by {
        crate::mip::lemma_exact_chain_bounded(w, h, MAX_MIPS as nat);
    }
    assert(jpegs[i] == crate::encoder::spec_level_encoding(px, w, h, quality, i as nat));
    lemma_packed_level(w, h, jpegs, i);
}

} // verus!
