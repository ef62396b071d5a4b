//! Mip-level geometry: the dimensions of each level and the length of a chain.
use vstd::prelude::*;

verus! {

/// Number of slots in the mip tables of a container.
pub const MAX_MIPS: usize = 16;

/// One axis of a level: the base size shifted right by the level, never
/// below 1.
pub open spec fn spec_mip_axis(base: u32, level: nat) -> u32 {
    if level < 32 && (base >> (level as u32)) >= 1 {
        base >> (level as u32)
    } else {
        1
    }
}

/// Dimensions of a level as a pair (width, height).
pub open spec fn spec_mip_dims(w: u32, h: u32, level: nat) -> (u32, u32) {
    (spec_mip_axis(w, level), spec_mip_axis(h, level))
}

/// One axis of mip `level`.
pub fn mip_axis(base: u32, level: usize) -> (r: u32)
    ensures
        r == spec_mip_axis(base, level as nat),
        r >= 1,
{
    if level >= 32 {
        return 1;
    }
    let s: u32 = base >> (level as u32);
    if s >= 1 {
        s
    } else {
        1
    }
}

/// Dimensions of mip `level` of a texture whose level 0 is `w` by `h`.
pub fn mip_dims(w: u32, h: u32, level: usize) -> (r: (u32, u32))
    ensures
        r == spec_mip_dims(w, h, level as nat),
{
    (mip_axis(w, level), mip_axis(h, level))
}

/// Half of an axis, never below 1.
pub open spec fn spec_half(a: u32) -> u32 {
    if a / 2 >= 1 {
        (a / 2) as u32
    } else {
        1
    }
}

/// Half of an axis, never below 1.
pub fn half(a: u32) -> (r: u32)
    ensures
        r == spec_half(a),
{
    if a / 2 >= 1 {
        a / 2
    } else {
        1
    }
}

/// Level 0 of a positive axis is the axis itself.
pub proof fn lemma_mip_axis_zero(base: u32)
    requires
        base >= 1,
    ensures
        spec_mip_axis(base, 0) == base,
{
    assert(base >> 0u32 == base) by (bit_vector);
}

/// Each level is half of the level before it, never below 1.
pub proof fn lemma_mip_axis_step(base: u32, level: nat)
    ensures
        spec_mip_axis(base, level + 1) == spec_half(spec_mip_axis(base, level)),
{
    if level + 1 < 32 {
        let l: u32 = level as u32;
        let n: u32 = (level + 1) as u32;
        assert((base >> n) == (base >> l) / 2) by (bit_vector)
            requires
                n == l + 1,
                n < 32,
        ;
    } else if level == 31 {
        assert((base >> 31u32) <= 1) by (bit_vector);
    }
}

/// Length of the chain that starts at `w` by `h` and halves both axes until
/// both have reached 1, cut off after `budget` levels.
pub open spec fn spec_chain_len(w: u32, h: u32, budget: nat) -> nat
    decreases budget,
{
    if budget <= 1 || (w <= 1 && h <= 1) {
        1
    } else {
        1 + spec_chain_len(spec_half(w), spec_half(h), (budget - 1) as nat)
    }
}

/// Number of levels of a texture: one without mips, else the whole chain
/// down to 1 by 1, and never more than the tables have slots.
pub open spec fn spec_level_count(w: u32, h: u32, has_mips: bool) -> nat {
    if has_mips {
        spec_chain_len(w, h, MAX_MIPS as nat)
    } else {
        1
    }
}

/// Number of levels of a texture whose level 0 is `w` by `h`.
pub fn level_count(w: u32, h: u32, has_mips: bool) -> (n: usize)
    ensures
        n == spec_level_count(w, h, has_mips),
        1 <= n <= MAX_MIPS,
{
    if !has_mips {
        return 1;
    }
    let mut cw: u32 = w;
    let mut ch: u32 = h;
    let mut n: usize = 1;
    while n < MAX_MIPS && (cw > 1 || ch > 1)
        invariant
            1 <= n <= MAX_MIPS,
            spec_chain_len(w, h, MAX_MIPS as nat) == (n - 1) + spec_chain_len(
                cw,
                ch,
                (MAX_MIPS - (n - 1)) as nat,
            ),
        decreases MAX_MIPS - n,
    {
        cw = half(cw);
        ch = half(ch);
        n = n + 1;
    }
    n
}

/// Whether a level of `w` by `h` has a next level that is exactly half of
/// it: the level is not yet 1 by 1, and each axis is even or already 1.
pub open spec fn spec_halves_exactly(w: u32, h: u32) -> bool {
    (w > 1 || h > 1) && (w == 1 || w % 2 == 0) && (h == 1 || h % 2 == 0)
}

/// Length of the chain that starts at `w` by `h` and goes on while each
/// level is exactly half of the one before, cut off after `budget` levels.
pub open spec fn spec_exact_chain_len(w: u32, h: u32, budget: nat) -> nat
    decreases budget,
{
    if budget <= 1 || !spec_halves_exactly(w, h) {
        1
    } else {
        1 + spec_exact_chain_len(spec_half(w), spec_half(h), (budget - 1) as nat)
    }
}

/// Number of levels that an encoder can emit for `w` by `h` without cutting
/// a row or column: the chain stops before the first level that would drop
/// one. A power-of-two texture gets its whole chain; an odd axis above 1
/// leaves level 0 alone.
pub open spec fn spec_exact_level_count(w: u32, h: u32) -> nat {
    spec_exact_chain_len(w, h, MAX_MIPS as nat)
}

/// Number of levels that an encoder emits for `w` by `h`.
pub fn exact_level_count(w: u32, h: u32) -> (n: usize)
    ensures
        n == spec_exact_level_count(w, h),
        1 <= n <= MAX_MIPS,
{
    let mut cw: u32 = w;
    let mut ch: u32 = h;
    let mut n: usize = 1;
    while n < MAX_MIPS && (cw > 1 || ch > 1) && (cw == 1 || cw % 2 == 0) && (ch == 1 || ch % 2
        == 0)
        invariant
            1 <= n <= MAX_MIPS,
            spec_exact_chain_len(w, h, MAX_MIPS as nat) == (n - 1) + spec_exact_chain_len(
                cw,
                ch,
                (MAX_MIPS - (n - 1)) as nat,
            ),
        decreases MAX_MIPS - n,
    {
        cw = half(cw);
        ch = half(ch);
        n = n + 1;
    }
    n
}

/// A texture of 1 by 1 has exactly one level, with or without mips.
pub proof fn lemma_single_pixel_one_level(has_mips: bool)
    ensures
        spec_level_count(1, 1, has_mips) == 1,
        spec_exact_level_count(1, 1) == 1,
{
}

/// While one axis is already 1, the chain halves the other alone: the short
/// axis stays 1 on every level.
pub proof fn lemma_flat_axis_stays(level: nat)
    ensures
        spec_mip_axis(1, level) == 1,
{
    if level < 32 {
        let l: u32 = level as u32;
        assert((1u32 >> l) <= 1) by (bit_vector);
    }
}

/// Slot `i` declares a payload that lies in `[start, len)`.
pub open spec fn spec_slot_inside(offsets: Seq<u32>, sizes: Seq<u32>, start: int, len: int, i: int) -> bool {
    sizes[i] > 0 ==> start <= offsets[i] && offsets[i] + sizes[i] <= len
}

/// The payloads of slots `i` and `j` share no byte.
pub open spec fn spec_slots_apart(offsets: Seq<u32>, sizes: Seq<u32>, i: int, j: int) -> bool {
    sizes[i] > 0 && sizes[j] > 0 ==> offsets[i] + sizes[i] <= offsets[j] || offsets[j] + sizes[j]
        <= offsets[i]
}

/// A mip table is consistent for a file of `len` bytes whose headers end at
/// `start`: every payload that it declares lies behind the headers and
/// inside the file, and no two payloads overlap.
pub open spec fn spec_table_consistent(offsets: Seq<u32>, sizes: Seq<u32>, start: int, len: int) -> bool {
    &&& forall|i: int| 0 <= i < MAX_MIPS ==> #[trigger] spec_slot_inside(offsets, sizes, start, len, i)
    &&& forall|i: int, j: int|
        0 <= i < j < MAX_MIPS ==> #[trigger] spec_slots_apart(offsets, sizes, i, j)
}

/// Checks a mip table against the length of the file and the end of the
/// headers.
pub fn table_consistent(offsets: &[u32; 16], sizes: &[u32; 16], start: u64, len: u64) -> (r:
    bool)
    ensures
        r == spec_table_consistent(offsets@, sizes@, start as int, len as int),
{
    let mut i: usize = 0;
    while i < MAX_MIPS
        invariant
            i <= MAX_MIPS,
            forall|a: int|
                0 <= a < i ==> #[trigger] spec_slot_inside(
                    offsets@,
                    sizes@,
                    start as int,
                    len as int,
                    a,
                ),
            forall|a: int, b: int|
                0 <= a < b < MAX_MIPS && a < i ==> #[trigger] spec_slots_apart(
                    offsets@,
                    sizes@,
                    a,
                    b,
                ),
        decreases MAX_MIPS - i,
    {
        if sizes[i] > 0 {
            let lo: u64 = offsets[i] as u64;
            let hi: u64 = lo + sizes[i] as u64;
            if lo < start || hi > len {
                assert(!spec_slot_inside(offsets@, sizes@, start as int, len as int, i as int));
                return false;
            }
            let mut j: usize = i + 1;
            while j < MAX_MIPS
                invariant
                    i < j <= MAX_MIPS,
                    sizes[i as int] > 0,
                    lo == offsets[i as int],
                    hi == offsets[i as int] + sizes[i as int],
                    forall|b: int|
                        i < b < j ==> #[trigger] spec_slots_apart(offsets@, sizes@, i as int, b),
                decreases MAX_MIPS - j,
            {
                if sizes[j] > 0 {
                    let lo2: u64 = offsets[j] as u64;
                    let hi2: u64 = lo2 + sizes[j] as u64;
                    if !(hi <= lo2 || hi2 <= lo) {
                        assert(!spec_slots_apart(offsets@, sizes@, i as int, j as int));
                        return false;
                    }
                }
                j = j + 1;
            }
        }
        i = i + 1;
    }
    true
}

/// A chain is never longer than its budget allows.
pub proof fn lemma_exact_chain_bounded(w: u32, h: u32, budget: nat)
    requires
        budget >= 1,
    ensures
        1 <= spec_exact_chain_len(w, h, budget) <= budget,
    decreases budget,
{
    if budget > 1 && spec_halves_exactly(w, h) {
        lemma_exact_chain_bounded(spec_half(w), spec_half(h), (budget - 1) as nat);
    }
}

} // verus!
