//! Little-endian integers and length-prefixed blobs.
use vstd::prelude::*;
use vstd::slice::{slice_subrange, slice_to_vec};

use crate::error::SonarError;

verus! {

/// The four bytes of `v`, least significant first.
pub open spec fn le_u32(v: u32) -> Seq<u8> {
    seq![
        (v % 0x100) as u8,
        (v / 0x100 % 0x100) as u8,
        (v / 0x1_0000 % 0x100) as u8,
        (v / 0x100_0000) as u8,
    ]
}

/// The integer whose four bytes, least significant first, are `s`.
pub open spec fn u32_of_le(s: Seq<u8>) -> u32 {
    (s[0] + 0x100 * s[1] + 0x1_0000 * s[2] + 0x100_0000 * s[3]) as u32
}

/// The eight bytes of `v`, least significant first.
pub open spec fn le_u64(v: u64) -> Seq<u8> {
    le_u32((v % 0x1_0000_0000) as u32) + le_u32((v / 0x1_0000_0000) as u32)
}

/// `data` behind its length. The length field has four bytes, so it holds the length
/// modulo 2^32.
pub open spec fn blob(data: Seq<u8>) -> Seq<u8> {
    le_u32((data.len() % 0x1_0000_0000) as u32) + data
}

/// Reads an integer off the front: the integer and what follows it.
pub open spec fn split_u32(s: Seq<u8>) -> Option<(u32, Seq<u8>)> {
    if s.len() < 4 {
        None
    } else {
        Some((u32_of_le(s.take(4)), s.skip(4)))
    }
}

/// Reads a blob off the front: its contents and what follows it.
pub open spec fn split_blob(s: Seq<u8>) -> Option<(Seq<u8>, Seq<u8>)> {
    match split_u32(s) {
        None => None,
        Some((n, rest)) => if rest.len() < n {
            None
        } else {
            Some((rest.take(n as int), rest.skip(n as int)))
        },
    }
}

/// Reading an integer back gives the integer that was written.
pub proof fn law_u32_read_back(v: u32, rest: Seq<u8>)
    ensures
        le_u32(v).len() == 4,
        u32_of_le(le_u32(v)) == v,
        split_u32(le_u32(v) + rest) == Some((v, rest)),
{
    let s = le_u32(v) + rest;
    assert(s.take(4) =~= le_u32(v));
    assert(s.skip(4) =~= rest);
}

/// Reading a blob back gives the bytes that were written, as long as their number fits the
/// length field.
pub proof fn law_blob_read_back(data: Seq<u8>, rest: Seq<u8>)
    requires
        data.len() < 0x1_0000_0000,
    ensures
        split_blob(blob(data) + rest) == Some((data, rest)),
{
    let n = (data.len() % 0x1_0000_0000) as u32;
    assert(blob(data) + rest =~= le_u32(n) + (data + rest));
    law_u32_read_back(n, data + rest);
    assert((data + rest).take(n as int) =~= data);
    assert((data + rest).skip(n as int) =~= rest);
}

/// Appends the bytes of `val`.
pub fn write_u32(buf: &mut Vec<u8>, val: u32)
    ensures
        final(buf)@ == old(buf)@ + le_u32(val),
{
    buf.push((val % 0x100) as u8);
    buf.push((val / 0x100 % 0x100) as u8);
    buf.push((val / 0x1_0000 % 0x100) as u8);
    buf.push((val / 0x100_0000) as u8);
    assert(buf@ =~= old(buf)@ + le_u32(val));
}

/// Appends the bytes of `val`.
pub fn write_u64(buf: &mut Vec<u8>, val: u64)
    ensures
        final(buf)@ == old(buf)@ + le_u64(val),
{
    write_u32(buf, (val % 0x1_0000_0000) as u32);
    write_u32(buf, (val / 0x1_0000_0000) as u32);
    assert(buf@ =~= old(buf)@ + le_u64(val));
}

/// Appends `data` as it is.
pub fn write_bytes(buf: &mut Vec<u8>, data: &[u8])
    ensures
        final(buf)@ == old(buf)@ + data@,
{
    buf.extend_from_slice(data);
    assert(buf@ =~= old(buf)@ + data@);
}

/// Appends `data` behind its length.
pub fn write_blob(buf: &mut Vec<u8>, data: &[u8])
    ensures
        final(buf)@ == old(buf)@ + blob(data@),
{
    let len: u64 = data.len() as u64;
    write_u32(buf, (len % 0x1_0000_0000) as u32);
    write_bytes(buf, data);
    assert(buf@ =~= old(buf)@ + blob(data@));
}

/// A position in a byte buffer; its view is what has not been read yet.
pub struct Reader<'a> {
    pub data: &'a [u8],
    pub pos: usize,
}

impl<'a> View for Reader<'a> {
    type V = Seq<u8>;

    open spec fn view(&self) -> Seq<u8> {
        self.data@.skip(self.pos as int)
    }
}

impl<'a> Reader<'a> {
    pub open spec fn wf(&self) -> bool {
        self.pos <= self.data@.len()
    }

    /// Starts at the first byte of `data`.
    pub fn new(data: &'a [u8]) -> (r: Self)
        ensures
            r.wf(),
            r@ == data@,
    {
        let r = Reader { data, pos: 0 };
        assert(r@ =~= data@);
        r
    }

    /// The number of bytes left.
    pub fn remaining(&self) -> (n: usize)
        requires
            self.wf(),
        ensures
            n == self@.len(),
    {
        self.data.len() - self.pos
    }

    /// Takes the next `n` bytes.
    pub fn take(&mut self, n: usize) -> (r: Vec<u8>)
        requires
            old(self).wf(),
            n <= old(self)@.len(),
        ensures
            final(self).wf(),
            r@ == old(self)@.take(n as int),
            final(self)@ == old(self)@.skip(n as int),
    {
        let left: usize = self.data.len() - self.pos;
        assert(n <= left);
        let end: usize = self.pos + n;
        let r = slice_to_vec(slice_subrange(self.data, self.pos, end));
        self.pos = end;
        assert(r@ =~= old(self)@.take(n as int));
        assert(self@ =~= old(self)@.skip(n as int));
        r
    }
}

/// Reads an integer.
pub fn read_u32(r: &mut Reader) -> (res: Result<u32, SonarError>)
    requires
        old(r).wf(),
    ensures
        final(r).wf(),
        match split_u32(old(r)@) {
            Some((v, rest)) => res == Ok::<u32, SonarError>(v) && final(r)@ == rest,
            None => res == Err::<u32, SonarError>(SonarError::Truncated) && *final(r) == *old(r),
        },
{
    if r.remaining() < 4 {
        return Err(SonarError::Truncated);
    }
    let b = r.take(4);
    let v: u32 = b[0] as u32 + 0x100 * (b[1] as u32) + 0x1_0000 * (b[2] as u32) + 0x100_0000 * (
    b[3] as u32);
    Ok(v)
}

/// Reads a blob.
pub fn read_blob(r: &mut Reader) -> (res: Result<Vec<u8>, SonarError>)
    requires
        old(r).wf(),
    ensures
        final(r).wf(),
        match split_blob(old(r)@) {
            Some((data, rest)) => res matches Ok(d) && d@ == data && final(r)@ == rest,
            None => res == Err::<Vec<u8>, SonarError>(SonarError::Truncated),
        },
{
    let len: u32 = match read_u32(r) {
        Ok(v) => v,
        Err(e) => {
            return Err(e);
        },
    };
    if (r.remaining() as u64) < (len as u64) {
        return Err(SonarError::Truncated);
    }
    Ok(r.take(len as usize))
}

} // verus!
