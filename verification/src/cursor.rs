//! Bounded reading and appending of integers and byte runs.
//!
//! A reader walks forward over a borrowed buffer and refuses any read that
//! would pass its end; a writer only ever appends.
use vstd::prelude::*;

verus! {

/// A read asked for more bytes than the buffer still holds.
#[derive(Clone, Copy, Debug, PartialEq, Eq, Structural)]
pub struct InputTruncated {
    /// Position of the reader when the read was refused.
    pub offset: usize,
    /// Number of bytes the read asked for.
    pub need: usize,
    /// Number of bytes that were left.
    pub have: usize,
}

/// Big-endian 16-bit value of the two bytes at `i`.
pub open spec fn spec_u16_be(s: Seq<u8>, i: int) -> u16 {
    (s[i] as int * 256 + s[i + 1] as int) as u16
}

/// Little-endian 32-bit value of the four bytes at `i`.
pub open spec fn spec_u32_le(s: Seq<u8>, i: int) -> u32 {
    (s[i] as int + s[i + 1] as int * 256 + s[i + 2] as int * 65536 + s[i + 3] as int
        * 16777216) as u32
}

/// Big-endian 32-bit value of the four bytes at `i`.
pub open spec fn spec_u32_be(s: Seq<u8>, i: int) -> u32 {
    (s[i + 3] as int + s[i + 2] as int * 256 + s[i + 1] as int * 65536 + s[i] as int
        * 16777216) as u32
}

/// The two bytes of `x`, most significant first.
pub open spec fn spec_u16_be_bytes(x: u16) -> Seq<u8> {
    seq![(x / 256) as u8, (x % 256) as u8]
}

/// The four bytes of `x`, least significant first.
pub open spec fn spec_u32_le_bytes(x: u32) -> Seq<u8> {
    seq![
        (x % 256) as u8,
        ((x / 256) % 256) as u8,
        ((x / 65536) % 256) as u8,
        (x / 16777216) as u8,
    ]
}

/// The four bytes of `x`, most significant first.
pub open spec fn spec_u32_be_bytes(x: u32) -> Seq<u8> {
    seq![
        (x / 16777216) as u8,
        ((x / 65536) % 256) as u8,
        ((x / 256) % 256) as u8,
        (x % 256) as u8,
    ]
}

/// Reading back what was written gives the value that was written, wherever
/// the bytes stand in a longer buffer.
pub proof fn lemma_u32_le_round_trip(x: u32, before: Seq<u8>, after: Seq<u8>)
    ensures
        spec_u32_le(before + spec_u32_le_bytes(x) + after, before.len() as int) == x,
{
    let s = before + spec_u32_le_bytes(x) + after;
    let i = before.len() as int;
    assert(s[i] == spec_u32_le_bytes(x)[0]);
    assert(s[i + 1] == spec_u32_le_bytes(x)[1]);
    assert(s[i + 2] == spec_u32_le_bytes(x)[2]);
    assert(s[i + 3] == spec_u32_le_bytes(x)[3]);
}

/// The big-endian counterpart of the little-endian round trip.
pub proof fn lemma_u32_be_round_trip(x: u32, before: Seq<u8>, after: Seq<u8>)
    ensures
        spec_u32_be(before + spec_u32_be_bytes(x) + after, before.len() as int) == x,
{
    let s = before + spec_u32_be_bytes(x) + after;
    let i = before.len() as int;
    assert(s[i] == spec_u32_be_bytes(x)[0]);
    assert(s[i + 1] == spec_u32_be_bytes(x)[1]);
    assert(s[i + 2] == spec_u32_be_bytes(x)[2]);
    assert(s[i + 3] == spec_u32_be_bytes(x)[3]);
}

/// A 16-bit value written big-endian reads back unchanged.
pub proof fn lemma_u16_be_round_trip(x: u16, before: Seq<u8>, after: Seq<u8>)
    ensures
        spec_u16_be(before + spec_u16_be_bytes(x) + after, before.len() as int) == x,
{
    let s = before + spec_u16_be_bytes(x) + after;
    let i = before.len() as int;
    assert(s[i] == spec_u16_be_bytes(x)[0]);
    assert(s[i + 1] == spec_u16_be_bytes(x)[1]);
}

/// A forward-only reader over a borrowed byte buffer.
pub struct ByteReader<'a> {
    data: &'a [u8],
    pos: usize,
}

impl<'a> ByteReader<'a> {
    /// The whole buffer the reader walks over.
    pub closed spec fn bytes(&self) -> Seq<u8> {
        self.data@
    }

    /// Number of bytes already consumed.
    pub closed spec fn spec_position(&self) -> int {
        self.pos as int
    }

    /// The position never passes the end of the buffer.
    pub closed spec fn wf(&self) -> bool {
        self.pos <= self.data@.len()
    }

    /// Number of bytes not yet consumed.
    pub open spec fn spec_remaining(&self) -> int {
        self.bytes().len() - self.spec_position()
    }

    /// A reader positioned at the start of `data`.
    pub fn new(data: &'a [u8]) -> (r: Self)
        ensures
            r.wf(),
            r.bytes() == data@,
            r.spec_position() == 0,
    {
        ByteReader { data, pos: 0 }
    }

    /// Number of bytes already consumed.
    pub fn position(&self) -> (p: usize)
        requires
            self.wf(),
        ensures
            p == self.spec_position(),
    {
        self.pos
    }

    /// Number of bytes not yet consumed.
    pub fn remaining(&self) -> (n: usize)
        requires
            self.wf(),
        ensures
            n == self.spec_remaining(),
    {
        self.data.len() - self.pos
    }

    /// Takes the next `n` bytes, or refuses and leaves the reader where it was.
    pub fn read_bytes(&mut self, n: usize) -> (r: Result<&'a [u8], InputTruncated>)
        requires
            old(self).wf(),
        ensures
            final(self).wf(),
            final(self).bytes() == old(self).bytes(),
            n <= old(self).spec_remaining() ==> r is Ok && final(self).spec_position() == old(
                self,
            ).spec_position() + n && r->Ok_0@ == old(self).bytes().subrange(
                old(self).spec_position(),
                old(self).spec_position() + n,
            ),
            n > old(self).spec_remaining() ==> final(self).spec_position() == old(
                self,
            ).spec_position() && r == Err::<&'a [u8], InputTruncated>(
                (InputTruncated {
                    offset: old(self).spec_position() as usize,
                    need: n,
                    have: old(self).spec_remaining() as usize,
                }),
            ),
    {
        let have: usize = self.data.len() - self.pos;
        if n > have {
            return Err(InputTruncated { offset: self.pos, need: n, have });
        }
        let start: usize = self.pos;
        let out = vstd::slice::slice_subrange(self.data, start, start + n);
        self.pos = start + n;
        Ok(out)
    }

    /// Reads one byte.
    pub fn read_u8(&mut self) -> (r: Result<u8, InputTruncated>)
        requires
            old(self).wf(),
        ensures
            final(self).wf(),
            final(self).bytes() == old(self).bytes(),
            1 <= old(self).spec_remaining() ==> final(self).spec_position() == old(
                self,
            ).spec_position() + 1 && r == Ok::<u8, InputTruncated>(
                old(self).bytes()[old(self).spec_position()],
            ),
            1 > old(self).spec_remaining() ==> final(self).spec_position() == old(
                self,
            ).spec_position() && r == Err::<u8, InputTruncated>(
                (InputTruncated { offset: old(self).spec_position() as usize, need: 1, have: 0 }),
            ),
    {
        match self.read_bytes(1) {
            Ok(b) => Ok(b[0]),
            Err(e) => Err(e),
        }
    }

    /// Reads a big-endian 16-bit value.
    pub fn read_u16_be(&mut self) -> (r: Result<u16, InputTruncated>)
        requires
            old(self).wf(),
        ensures
            final(self).wf(),
            final(self).bytes() == old(self).bytes(),
            2 <= old(self).spec_remaining() ==> final(self).spec_position() == old(
                self,
            ).spec_position() + 2 && r == Ok::<u16, InputTruncated>(
                spec_u16_be(old(self).bytes(), old(self).spec_position()),
            ),
            2 > old(self).spec_remaining() ==> final(self).spec_position() == old(
                self,
            ).spec_position() && r == Err::<u16, InputTruncated>(
                (InputTruncated {
                    offset: old(self).spec_position() as usize,
                    need: 2,
                    have: old(self).spec_remaining() as usize,
                }),
            ),
    {
        match self.read_bytes(2) {
            Ok(b) => Ok((b[0] as u16) * 256 + (b[1] as u16)),
            Err(e) => Err(e),
        }
    }

    /// Reads a little-endian 32-bit value.
    pub fn read_u32_le(&mut self) -> (r: Result<u32, InputTruncated>)
        requires
            old(self).wf(),
        ensures
            final(self).wf(),
            final(self).bytes() == old(self).bytes(),
            4 <= old(self).spec_remaining() ==> final(self).spec_position() == old(
                self,
            ).spec_position() + 4 && r == Ok::<u32, InputTruncated>(
                spec_u32_le(old(self).bytes(), old(self).spec_position()),
            ),
            4 > old(self).spec_remaining() ==> final(self).spec_position() == old(
                self,
            ).spec_position() && r == Err::<u32, InputTruncated>(
                (InputTruncated {
                    offset: old(self).spec_position() as usize,
                    need: 4,
                    have: old(self).spec_remaining() as usize,
                }),
            ),
    {
        match self.read_bytes(4) {
            Ok(b) => Ok(
                (b[0] as u32) + (b[1] as u32) * 256 + (b[2] as u32) * 65536 + (b[3] as u32)
                    * 16777216,
            ),
            Err(e) => Err(e),
        }
    }

    /// Reads a big-endian 32-bit value.
    pub fn read_u32_be(&mut self) -> (r: Result<u32, InputTruncated>)
        requires
            old(self).wf(),
        ensures
            final(self).wf(),
            final(self).bytes() == old(self).bytes(),
            4 <= old(self).spec_remaining() ==> final(self).spec_position() == old(
                self,
            ).spec_position() + 4 && r == Ok::<u32, InputTruncated>(
                spec_u32_be(old(self).bytes(), old(self).spec_position()),
            ),
            4 > old(self).spec_remaining() ==> final(self).spec_position() == old(
                self,
            ).spec_position() && r == Err::<u32, InputTruncated>(
                (InputTruncated {
                    offset: old(self).spec_position() as usize,
                    need: 4,
                    have: old(self).spec_remaining() as usize,
                }),
            ),
    {
        match self.read_bytes(4) {
            Ok(b) => Ok(
                (b[3] as u32) + (b[2] as u32) * 256 + (b[1] as u32) * 65536 + (b[0] as u32)
                    * 16777216,
            ),
            Err(e) => Err(e),
        }
    }
}

/// An append-only byte buffer.
pub struct ByteWriter {
    buf: Vec<u8>,
}

impl ByteWriter {
    /// Everything written so far.
    pub closed spec fn bytes(&self) -> Seq<u8> {
        self.buf@
    }

    /// An empty writer.
    pub fn new() -> (w: Self)
        ensures
            w.bytes() == Seq::<u8>::empty(),
    {
        ByteWriter { buf: Vec::new() }
    }

    /// Number of bytes written so far.
    pub fn position(&self) -> (p: usize)
        ensures
            p == self.bytes().len(),
    {
        self.buf.len()
    }

    /// Appends one byte.
    pub fn write_u8(&mut self, x: u8)
        ensures
            final(self).bytes() == old(self).bytes().push(x),
    {
        self.buf.push(x);
    }

    /// Appends `x` as two bytes, most significant first.
    pub fn write_u16_be(&mut self, x: u16)
        ensures
            final(self).bytes() == old(self).bytes() + spec_u16_be_bytes(x),
    {
        self.buf.push((x / 256) as u8);
        self.buf.push((x % 256) as u8);
        assert(self.buf@ =~= old(self).bytes() + spec_u16_be_bytes(x));
    }

    /// Appends `x` as four bytes, least significant first.
    pub fn write_u32_le(&mut self, x: u32)
        ensures
            final(self).bytes() == old(self).bytes() + spec_u32_le_bytes(x),
    {
        self.buf.push((x % 256) as u8);
        self.buf.push(((x / 256) % 256) as u8);
        self.buf.push(((x / 65536) % 256) as u8);
        self.buf.push((x / 16777216) as u8);
        assert(self.buf@ =~= old(self).bytes() + spec_u32_le_bytes(x));
    }

    /// Appends `x` as four bytes, most significant first.
    pub fn write_u32_be(&mut self, x: u32)
        ensures
            final(self).bytes() == old(self).bytes() + spec_u32_be_bytes(x),
    {
        self.buf.push((x / 16777216) as u8);
        self.buf.push(((x / 65536) % 256) as u8);
        self.buf.push(((x / 256) % 256) as u8);
        self.buf.push((x % 256) as u8);
        assert(self.buf@ =~= old(self).bytes() + spec_u32_be_bytes(x));
    }

    /// Appends a run of bytes.
    pub fn write_bytes(&mut self, data: &[u8])
        ensures
            final(self).bytes() == old(self).bytes() + data@,
    {
        let mut i: usize = 0;
        while i < data.len()
            invariant
                i <= data@.len(),
                self.buf@ == old(self).bytes() + data@.subrange(0, i as int),
            decreases data@.len() - i,
        {
            self.buf.push(data[i]);
            i = i + 1;
            assert(self.buf@ =~= old(self).bytes() + data@.subrange(0, i as int));
        }
        assert(data@.subrange(0, data@.len() as int) =~= data@);
    }

    /// Gives up the writer for the bytes it collected.
    pub fn into_bytes(self) -> (v: Vec<u8>)
        ensures
            v@ == self.bytes(),
    {
        self.buf
    }
}

} // verus!
