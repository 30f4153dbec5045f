//! Copying a frame into packet RAM, which the CPU reaches only as 32-bit
//! words, and reading it back to check that the copy landed.

use vstd::prelude::*;

use crate::mmio::{rd32, trace_after, value_of, wr32, MacPipeMmio, MmioAccess};

verus! {

/// The little-endian word made of the four bytes of `s` at `offset`.
pub open spec fn le_word(s: Seq<u8>, offset: int) -> u32 {
    (s[offset] + s[offset + 1] * 0x100 + s[offset + 2] * 0x1_0000 + s[offset + 3] * 0x100_0000) as u32
}

/// The weight of the first byte past a trailing part of `remaining` bytes
/// (1 to 3).
pub open spec fn tail_base(remaining: int) -> int {
    if remaining == 1 {
        0x100
    } else if remaining == 2 {
        0x1_0000
    } else {
        0x100_0000
    }
}

/// The little-endian value of the `remaining` (1 to 3) bytes of `s` at
/// `offset`.
pub open spec fn tail_value(s: Seq<u8>, offset: int, remaining: int) -> int {
    if remaining == 1 {
        s[offset] as int
    } else if remaining == 2 {
        s[offset] + s[offset + 1] * 0x100
    } else {
        s[offset] + s[offset + 1] * 0x100 + s[offset + 2] * 0x1_0000
    }
}

/// `old` with its low bytes replaced by the trailing `remaining` bytes of `s`
/// at `offset`.
pub open spec fn merged_tail(old: u32, s: Seq<u8>, offset: int, remaining: int) -> u32 {
    (old - (old as int) % tail_base(remaining) + tail_value(s, offset, remaining)) as u32
}

/// Accesses of copying `source` to `destination`, given the values read:
/// one word write per whole word, then, for a trailing part, a read of the
/// last word and a write of it with its low bytes replaced.
pub open spec fn copy_accesses(destination: u32, source: Seq<u8>, s: Seq<MmioAccess>) -> Seq<MmioAccess> {
    let whole = source.len() / 4;
    let remaining = source.len() % 4;
    let words = Seq::new(whole, |i: int| wr32((destination + 4 * i) as u32, le_word(source, 4 * i)));
    if remaining == 0 {
        words
    } else {
        let at = (destination + 4 * whole) as u32;
        let old = value_of(s[whole as int]);
        words + seq![rd32(at, old), wr32(at, merged_tail(old, source, (4 * whole) as int, remaining as int))]
    }
}

fn byte_word(source: &[u8], offset: usize) -> (word: u32)
    requires
        offset + 4 <= source@.len(),
    ensures
        word == le_word(source@, offset as int),
{
    source[offset] as u32 + source[offset + 1] as u32 * 0x100 + source[offset + 2] as u32 * 0x1_0000
        + source[offset + 3] as u32 * 0x100_0000
}

fn tail_word(source: &[u8], offset: usize) -> (tail: (u32, u32))
    requires
        offset < source@.len() < offset + 4,
    ensures
        tail.0 == tail_value(source@, offset as int, source@.len() - offset),
        tail.1 == tail_base(source@.len() - offset),
{
    let remaining = source.len() - offset;
    if remaining == 1 {
        (source[offset] as u32, 0x100)
    } else if remaining == 2 {
        (source[offset] as u32 + source[offset + 1] as u32 * 0x100, 0x1_0000)
    } else {
        (
            source[offset] as u32 + source[offset + 1] as u32 * 0x100 + source[offset + 2] as u32
                * 0x1_0000,
            0x100_0000,
        )
    }
}

/// Copies `source` to packet RAM at `destination` a word at a time; a
/// trailing part shorter than a word is merged into the word already there,
/// keeping its upper bytes.
pub fn copy_to_packet_ram<M: MacPipeMmio>(mmio: &mut M, destination: u32, source: &[u8])
    requires
        destination + source@.len() + 3 <= u32::MAX,
    ensures
        final(mmio).accesses() == old(mmio).accesses() + copy_accesses(
            destination,
            source@,
            trace_after(final(mmio).accesses(), old(mmio).accesses().len() as int),
        ),
{
    let ghost before = mmio.accesses();
    let mut offset: usize = 0;
    while source.len() - offset >= 4
        invariant
            destination + source@.len() + 3 <= u32::MAX,
            offset % 4 == 0,
            offset <= source@.len(),
            mmio.accesses() == before + Seq::new(
                (offset / 4) as nat,
                |i: int| wr32((destination + 4 * i) as u32, le_word(source@, 4 * i)),
            ),
        decreases source@.len() - offset,
    {
        let word = byte_word(source, offset);
        mmio.write_u32(destination + offset as u32, word);
        offset = offset + 4;
        assert(mmio.accesses() =~= before + Seq::new(
            (offset / 4) as nat,
            |i: int| wr32((destination + 4 * i) as u32, le_word(source@, 4 * i)),
        ));
    }
    let ghost words = mmio.accesses();
    assert(offset / 4 == source@.len() / 4);
    if offset < source.len() {
        let at = destination + offset as u32;
        let old = mmio.read_u32(at);
        let (tail, base) = tail_word(source, offset);
        assert(old - old % base + tail <= u32::MAX) by (nonlinear_arith)
            requires
                base == 0x100 || base == 0x1_0000 || base == 0x100_0000,
                tail < base,
                old <= u32::MAX,
        {
            assert(old - old % base == base * (old / base));
            assert(old / base <= u32::MAX / base);
        }
        mmio.write_u32(at, old - old % base + tail);
        let ghost s = trace_after(mmio.accesses(), before.len() as int);
        assert(value_of(s[(offset / 4) as int]) == old);
    }
    assert(mmio.accesses() =~= before + copy_accesses(
        destination,
        source@,
        trace_after(mmio.accesses(), before.len() as int),
    ));
}

/// Accesses and result of comparing packet RAM at `destination` with
/// `source` from byte `offset` on, given the values read: whole words are
/// compared one at a time, stopping at the first that differs; a trailing
/// part is compared with the low bytes of the last word.
pub open spec fn matches_from(destination: u32, source: Seq<u8>, offset: int, s: Seq<MmioAccess>) -> (
    Seq<MmioAccess>,
    bool,
)
    decreases source.len() - offset,
{
    let at = (destination + offset) as u32;
    let observed = value_of(s[0]);
    if 0 <= offset && offset + 4 <= source.len() {
        if observed != le_word(source, offset) {
            (seq![rd32(at, observed)], false)
        } else {
            let rest = matches_from(destination, source, offset + 4, s.skip(1));
            (seq![rd32(at, observed)] + rest.0, rest.1)
        }
    } else if 0 <= offset < source.len() {
        let remaining = source.len() - offset;
        (
            seq![rd32(at, observed)],
            (observed as int) % tail_base(remaining) == tail_value(source, offset, remaining),
        )
    } else {
        (Seq::empty(), true)
    }
}

fn matches_from_offset<M: MacPipeMmio>(mmio: &mut M, destination: u32, source: &[u8], offset: usize) -> (matches:
    bool)
    requires
        destination + source@.len() + 3 <= u32::MAX,
        offset <= source@.len(),
    ensures
        ({
            let s = trace_after(final(mmio).accesses(), old(mmio).accesses().len() as int);
            let expected = matches_from(destination, source@, offset as int, s);
            &&& final(mmio).accesses() == old(mmio).accesses() + expected.0
            &&& matches == expected.1
        }),
    decreases source@.len() - offset,
{
    let ghost before = mmio.accesses();
    if offset == source.len() {
        assert(mmio.accesses() =~= before + Seq::empty());
        return true;
    }
    let observed = mmio.read_u32(destination + offset as u32);
    let ghost after_read = mmio.accesses();
    if source.len() - offset < 4 {
        let (tail, base) = tail_word(source, offset);
        let ghost s = trace_after(mmio.accesses(), before.len() as int);
        assert(value_of(s[0]) == observed);
        assert(mmio.accesses() =~= before + matches_from(destination, source@, offset as int, s).0);
        return observed % base == tail;
    }
    let word = byte_word(source, offset);
    if observed != word {
        let ghost s = trace_after(mmio.accesses(), before.len() as int);
        assert(value_of(s[0]) == observed);
        assert(mmio.accesses() =~= before + matches_from(destination, source@, offset as int, s).0);
        return false;
    }
    let matches = matches_from_offset(mmio, destination, source, offset + 4);
    proof {
        let s = trace_after(mmio.accesses(), before.len() as int);
        assert(value_of(s[0]) == observed);
        assert(s.skip(1) =~= trace_after(mmio.accesses(), after_read.len() as int));
        assert(mmio.accesses() =~= before + matches_from(destination, source@, offset as int, s).0);
    }
    matches
}

/// Reads packet RAM at `destination` back and says whether it holds
/// `source`: whole words must match exactly, and a trailing part must match
/// the low bytes of the last word. Stops at the first word that differs.
pub fn packet_ram_matches<M: MacPipeMmio>(mmio: &mut M, destination: u32, source: &[u8]) -> (matches: bool)
    requires
        destination + source@.len() + 3 <= u32::MAX,
    ensures
        ({
            let s = trace_after(final(mmio).accesses(), old(mmio).accesses().len() as int);
            let expected = matches_from(destination, source@, 0, s);
            &&& final(mmio).accesses() == old(mmio).accesses() + expected.0
            &&& matches == expected.1
        }),
{
    matches_from_offset(mmio, destination, source, 0)
}

proof fn lemma_merged_tail_matches(old: u32, source: Seq<u8>, offset: int, remaining: int)
    requires
        1 <= remaining <= 3,
        0 <= offset,
        offset + remaining <= source.len(),
    ensures
        (merged_tail(old, source, offset, remaining) as int) % tail_base(remaining) == tail_value(
            source,
            offset,
            remaining,
        ),
{
    let base = tail_base(remaining);
    let tail = tail_value(source, offset, remaining);
    assert(0 <= tail < base);
    let o = old as int;
    assert(o - o % base + tail <= u32::MAX && (o - o % base + tail) % base == tail) by (nonlinear_arith)
        requires
            base == 0x100 || base == 0x1_0000 || base == 0x100_0000,
            0 <= tail < base,
            0 <= o <= u32::MAX,
    {
        assert(o - o % base == base * (o / base));
        assert(o / base <= (u32::MAX as int) / base);
    }
}

proof fn lemma_matches_written_from(
    destination: u32,
    source: Seq<u8>,
    offset: int,
    old_tail: u32,
    s: Seq<MmioAccess>,
)
    requires
        0 <= offset <= source.len(),
        offset % 4 == 0,
        4 * s.len() >= source.len() - offset,
        forall|i: int|
            0 <= i && offset + 4 * i + 4 <= source.len() ==> value_of(#[trigger] s[i]) == le_word(
                source,
                offset + 4 * i,
            ),
        source.len() % 4 != 0 ==> value_of(s[(source.len() - offset) / 4]) == merged_tail(
            old_tail,
            source,
            source.len() - source.len() % 4,
            (source.len() % 4) as int,
        ),
    ensures
        matches_from(destination, source, offset, s).1,
    decreases source.len() - offset,
{
    if offset + 4 <= source.len() {
        assert(value_of(s[0]) == le_word(source, offset));
        let rest = s.skip(1);
        assert forall|i: int|
            0 <= i && offset + 4 + 4 * i + 4 <= source.len() implies value_of(#[trigger] rest[i])
            == le_word(source, offset + 4 + 4 * i) by {
            assert(rest[i] == s[i + 1]);
            assert(offset + 4 * (i + 1) == offset + 4 + 4 * i);
        }
        if source.len() % 4 != 0 {
            assert((source.len() - offset) / 4 == (source.len() - (offset + 4)) / 4 + 1);
            assert(rest[(source.len() - (offset + 4)) / 4] == s[(source.len() - offset) / 4]);
        }
        lemma_matches_written_from(destination, source, offset + 4, old_tail, rest);
    } else if offset < source.len() {
        assert(offset == source.len() - source.len() % 4);
        assert((source.len() - offset) / 4 == 0);
        lemma_merged_tail_matches(old_tail, source, offset, source.len() - offset);
    }
}

/// A packet RAM that reads back what was written matches the copied frame:
/// when each word read holds what `copy_to_packet_ram` wrote there (the
/// trailing word merged into `old_tail`), `packet_ram_matches` succeeds.
pub proof fn lemma_copy_reads_back(destination: u32, source: Seq<u8>, old_tail: u32, s: Seq<MmioAccess>)
    requires
        4 * s.len() >= source.len(),
        forall|i: int| 0 <= i < source.len() / 4 ==> value_of(#[trigger] s[i]) == le_word(source, 4 * i),
        source.len() % 4 != 0 ==> value_of(s[(source.len() / 4) as int]) == merged_tail(
            old_tail,
            source,
            source.len() - source.len() % 4,
            (source.len() % 4) as int,
        ),
    ensures
        matches_from(destination, source, 0, s).1,
{
    assert forall|i: int| 0 <= i && 0 + 4 * i + 4 <= source.len() implies value_of(#[trigger] s[i])
        == le_word(source, 0 + 4 * i) by {
        assert(i < source.len() / 4);
    }
    lemma_matches_written_from(destination, source, 0, old_tail, s);
}

} // verus!
