//! A bounds-checked little-endian cursor over a byte slice.
use vstd::prelude::*;
use vstd::bytes::*;
use crate::codec::error::{CodecError, CodecErrorV, Parsed, eof_offset, eof_bytes, res_plain, res_view, eof_offset_error, eof_bytes_error};
use crate::text::{sjis_decode, decode_sjis, trim_trailing_nul, trim_nul_chars, string_from_chars};

verus! {

/// The `n` bytes at position `p`, or the end-of-input error the reader reports.
pub open spec fn sp_take(d: Seq<u8>, p: int, n: int) -> Parsed<Seq<u8>> {
    if p + n > usize::MAX {
        (Err(eof_offset()), p)
    } else if p + n > d.len() {
        (Err(eof_bytes()), p)
    } else {
        (Ok(d.subrange(p, p + n)), p + n)
    }
}

pub open spec fn sp_skip(d: Seq<u8>, p: int, n: int) -> Parsed<()> {
    match sp_take(d, p, n) {
        (Ok(_), q) => (Ok(()), q),
        (Err(e), q) => (Err(e), q),
    }
}

pub open spec fn sp_u8(d: Seq<u8>, p: int) -> Parsed<u8> {
    match sp_take(d, p, 1) {
        (Ok(b), q) => (Ok(b[0]), q),
        (Err(e), q) => (Err(e), q),
    }
}

pub open spec fn sp_u16(d: Seq<u8>, p: int) -> Parsed<u16> {
    match sp_take(d, p, 2) {
        (Ok(b), q) => (Ok(spec_u16_from_le_bytes(b)), q),
        (Err(e), q) => (Err(e), q),
    }
}

pub open spec fn sp_u32(d: Seq<u8>, p: int) -> Parsed<u32> {
    match sp_take(d, p, 4) {
        (Ok(b), q) => (Ok(spec_u32_from_le_bytes(b)), q),
        (Err(e), q) => (Err(e), q),
    }
}

/// An IEEE-754 double read as its little-endian bit pattern.
pub open spec fn sp_f64(d: Seq<u8>, p: int) -> Parsed<u64> {
    match sp_take(d, p, 8) {
        (Ok(b), q) => (Ok(spec_u64_from_le_bytes(b)), q),
        (Err(e), q) => (Err(e), q),
    }
}

/// The length prefix of an MFC archive string: one byte below 0xff, else a
/// 16-bit word below 0xffff, else a 32-bit length.
pub open spec fn sp_cstring_len(d: Seq<u8>, p: int) -> Parsed<u32> {
    match sp_u8(d, p) {
        (Err(e), q) => (Err(e), q),
        (Ok(first), q) => if first < 0xff {
            (Ok(first as u32), q)
        } else {
            match sp_u16(d, q) {
                (Err(e), r) => (Err(e), r),
                (Ok(word), r) => if word < 0xffff {
                    (Ok(word as u32), r)
                } else {
                    sp_u32(d, r)
                },
            }
        },
    }
}

/// A CP932 archive string: its bytes decoded, trailing NULs removed; a
/// malformed byte sequence is an error.
pub open spec fn sp_cstring(d: Seq<u8>, p: int) -> Parsed<Seq<char>> {
    match sp_cstring_len(d, p) {
        (Err(e), q) => (Err(e), q),
        (Ok(len), q) => match sp_take(d, q, len as int) {
            (Err(e), r) => (Err(e), r),
            (Ok(bytes), r) => if sjis_decode(bytes).1 {
                (Err(CodecErrorV::InvalidTextEncoding), r)
            } else {
                (Ok(trim_trailing_nul(sjis_decode(bytes).0)), r)
            },
        },
    }
}

pub struct Reader<'a> {
    data: &'a [u8],
    pos: usize,
}

impl<'a> Reader<'a> {
    /// The bytes under the cursor.
    pub closed spec fn data(&self) -> Seq<u8> {
        self.data@
    }

    /// The number of bytes consumed so far.
    pub closed spec fn pos(&self) -> int {
        self.pos as int
    }

    pub closed spec fn wf(&self) -> bool {
        self.pos <= self.data@.len()
    }

    pub fn new(data: &'a [u8]) -> (reader: Self)
        ensures
            reader.data() == data@,
            reader.pos() == 0,
            reader.wf(),
    {
        Reader { data, pos: 0 }
    }

    pub fn bytes_read(&self) -> (n: usize)
        ensures
            n == self.pos(),
            self.wf() ==> n <= self.data().len(),
    {
        self.pos
    }

    pub fn skip(&mut self, len: usize) -> (res: Result<(), CodecError>)
        requires
            old(self).wf(),
        ensures
            final(self).wf(),
            final(self).data() == old(self).data(),
            (res_plain(res), final(self).pos()) == sp_skip(old(self).data(), old(self).pos(), len as int),
    {
        let end = match self.pos.checked_add(len) {
            Some(end) => end,
            None => return Err(eof_offset_error()),
        };
        if end > self.data.len() {
            return Err(eof_bytes_error());
        }
        self.pos = end;
        Ok(())
    }

    /// The next `n` bytes, advancing past them.
    fn take(&mut self, n: usize) -> (res: Result<&'a [u8], CodecError>)
        requires
            old(self).wf(),
        ensures
            final(self).wf(),
            final(self).data() == old(self).data(),
            ({
                let (r, q) = sp_take(old(self).data(), old(self).pos(), n as int);
                &&& final(self).pos() == q
                &&& match (res, r) {
                    (Ok(b), Ok(s)) => b@ == s,
                    (Err(e), Err(f)) => e@ == f,
                    _ => false,
                }
            }),
    {
        let end = match self.pos.checked_add(n) {
            Some(end) => end,
            None => return Err(eof_offset_error()),
        };
        if end > self.data.len() {
            return Err(eof_bytes_error());
        }
        let out = &self.data[self.pos..end];
        self.pos = end;
        Ok(out)
    }

    pub fn read_u8(&mut self) -> (res: Result<u8, CodecError>)
        requires
            old(self).wf(),
        ensures
            final(self).wf(),
            final(self).data() == old(self).data(),
            (res_plain(res), final(self).pos()) == sp_u8(old(self).data(), old(self).pos()),
    {
        let bytes = self.take(1)?;
        Ok(bytes[0])
    }

    pub fn read_u16(&mut self) -> (res: Result<u16, CodecError>)
        requires
            old(self).wf(),
        ensures
            final(self).wf(),
            final(self).data() == old(self).data(),
            (res_plain(res), final(self).pos()) == sp_u16(old(self).data(), old(self).pos()),
    {
        let bytes = self.take(2)?;
        Ok(u16_from_le_bytes(bytes))
    }

    pub fn read_u32(&mut self) -> (res: Result<u32, CodecError>)
        requires
            old(self).wf(),
        ensures
            final(self).wf(),
            final(self).data() == old(self).data(),
            (res_plain(res), final(self).pos()) == sp_u32(old(self).data(), old(self).pos()),
    {
        let bytes = self.take(4)?;
        Ok(u32_from_le_bytes(bytes))
    }

    /// Reads a little-endian IEEE-754 double and returns its bit pattern.
    pub fn read_f64(&mut self) -> (res: Result<u64, CodecError>)
        requires
            old(self).wf(),
        ensures
            final(self).wf(),
            final(self).data() == old(self).data(),
            (res_plain(res), final(self).pos()) == sp_f64(old(self).data(), old(self).pos()),
    {
        let bytes = self.take(8)?;
        Ok(u64_from_le_bytes(bytes))
    }

    pub fn read_bytes(&mut self, len: usize) -> (res: Result<Vec<u8>, CodecError>)
        requires
            old(self).wf(),
        ensures
            final(self).wf(),
            final(self).data() == old(self).data(),
            (res_view(res), final(self).pos()) == sp_take(old(self).data(), old(self).pos(), len as int),
    {
        let end = match self.pos.checked_add(len) {
            Some(end) => end,
            None => return Err(eof_offset_error()),
        };
        if end > self.data.len() {
            return Err(eof_bytes_error());
        }
        let mut value: Vec<u8> = Vec::new();
        let mut i: usize = 0;
        while i < len
            invariant
                i <= len,
                value@.len() == i,
            decreases len - i,
        {
            value.push(0);
            i = i + 1;
        }
        self.read_exact_into(&mut value)?;
        Ok(value)
    }

    /// Fills `value` with the next `value.len()` bytes.
    fn read_exact_into(&mut self, value: &mut Vec<u8>) -> (res: Result<(), CodecError>)
        requires
            old(self).wf(),
        ensures
            final(self).wf(),
            final(self).data() == old(self).data(),
            ({
                let (r, q) = sp_take(old(self).data(), old(self).pos(), old(value)@.len() as int);
                &&& final(self).pos() == q
                &&& match r {
                    Ok(s) => res is Ok && final(value)@ == s,
                    Err(f) => res matches Err(e) && e@ == f && final(value)@ == old(value)@,
                }
            }),
    {
        let start = self.pos;
        let end = match start.checked_add(value.len()) {
            Some(end) => end,
            None => return Err(eof_offset_error()),
        };
        if end > self.data.len() {
            return Err(eof_bytes_error());
        }
        let source = self.data;
        let n = value.len();
        let mut i: usize = 0;
        while i < n
            invariant
                n == value@.len(),
                start + n == end,
                end <= source@.len(),
                i <= n,
                forall|j: int| 0 <= j < i ==> value@[j] == source@[start + j],
            decreases n - i,
        {
            value.set(i, source[start + i]);
            i = i + 1;
        }
        assert(value@ =~= source@.subrange(start as int, end as int));
        self.pos = end;
        Ok(())
    }

    pub fn read_cstring(&mut self) -> (res: Result<String, CodecError>)
        requires
            old(self).wf(),
        ensures
            final(self).wf(),
            final(self).data() == old(self).data(),
            (res_view(res), final(self).pos()) == sp_cstring(old(self).data(), old(self).pos()),
    {
        let first = self.read_u8()?;
        let len: u32 = if first < 0xff {
            first as u32
        } else {
            let word = self.read_u16()?;
            if word < 0xffff {
                word as u32
            } else {
                self.read_u32()?
            }
        };
        let bytes = self.read_bytes(len as usize)?;
        let (decoded, had_errors) = decode_sjis(bytes.as_slice());
        if had_errors {
            return Err(CodecError::InvalidTextEncoding);
        }
        let trimmed = trim_nul_chars(&decoded);
        Ok(string_from_chars(trimmed.as_slice()))
    }
}

/// One call on a reader, apart from the string read: what it is asked to
/// consume.
pub enum ReadStep {
    Skip(nat),
    U8,
    U16,
    U32,
    F64,
    Bytes(nat),
}

/// The bytes a call consumes when it succeeds.
pub open spec fn step_width(s: ReadStep) -> int {
    match s {
        ReadStep::Skip(n) => n as int,
        ReadStep::U8 => 1,
        ReadStep::U16 => 2,
        ReadStep::U32 => 4,
        ReadStep::F64 => 8,
        ReadStep::Bytes(n) => n as int,
    }
}

/// What the call's contract gives: whether it succeeds, and the position after it.
pub open spec fn step_outcome(d: Seq<u8>, p: int, s: ReadStep) -> (bool, int) {
    match s {
        ReadStep::Skip(n) => (sp_skip(d, p, n as int).0 is Ok, sp_skip(d, p, n as int).1),
        ReadStep::U8 => (sp_u8(d, p).0 is Ok, sp_u8(d, p).1),
        ReadStep::U16 => (sp_u16(d, p).0 is Ok, sp_u16(d, p).1),
        ReadStep::U32 => (sp_u32(d, p).0 is Ok, sp_u32(d, p).1),
        ReadStep::F64 => (sp_f64(d, p).0 is Ok, sp_f64(d, p).1),
        ReadStep::Bytes(n) => (sp_take(d, p, n as int).0 is Ok, sp_take(d, p, n as int).1),
    }
}

/// The position after the calls, made in order from position `p`.
pub open spec fn steps_pos(d: Seq<u8>, p: int, steps: Seq<ReadStep>) -> int
    decreases steps.len(),
{
    if steps.len() == 0 {
        p
    } else {
        step_outcome(d, steps_pos(d, p, steps.drop_last()), steps.last()).1
    }
}

/// The bytes the successful calls among them asked for, added up.
pub open spec fn consumed(d: Seq<u8>, p: int, steps: Seq<ReadStep>) -> int
    decreases steps.len(),
{
    if steps.len() == 0 {
        0
    } else {
        consumed(d, p, steps.drop_last()) + if step_outcome(
            d,
            steps_pos(d, p, steps.drop_last()),
            steps.last(),
        ).0 {
            step_width(steps.last())
        } else {
            0
        }
    }
}

/// A call that succeeds consumes exactly its width; one that fails consumes
/// nothing.
pub proof fn lemma_step_outcome(d: Seq<u8>, p: int, s: ReadStep)
    requires
        0 <= p <= d.len(),
    ensures
        step_outcome(d, p, s).0 ==> step_outcome(d, p, s).1 == p + step_width(s),
        !step_outcome(d, p, s).0 ==> step_outcome(d, p, s).1 == p,
        step_outcome(d, p, s).0 <==> p + step_width(s) <= d.len() && p + step_width(s) <= usize::MAX,
{
}

/// From a new reader, whatever calls are made in turn, the bytes read are the
/// sum of what the successful calls consumed, and never more than the data.
pub proof fn lemma_reader_position(d: Seq<u8>, steps: Seq<ReadStep>)
    ensures
        steps_pos(d, 0, steps) == consumed(d, 0, steps),
        0 <= steps_pos(d, 0, steps) <= d.len(),
    decreases steps.len(),
{
    if steps.len() > 0 {
        lemma_reader_position(d, steps.drop_last());
        lemma_step_outcome(d, steps_pos(d, 0, steps.drop_last()), steps.last());
    }
}

} // verus!
