//! A little-endian byte writer with MFC archive string framing.
use vstd::prelude::*;
use vstd::bytes::*;
use crate::codec::error::{CodecError, CodecErrorV};
use crate::text::{sjis_encode, encode_sjis};

verus! {

/// The length prefix of an archive string of `n` bytes.
pub open spec fn enc_cstring_len(n: nat) -> Seq<u8> {
    if n < 0xff {
        seq![n as u8]
    } else if n < 0xffff {
        seq![0xffu8] + spec_u16_to_le_bytes(n as u16)
    } else {
        seq![0xffu8] + spec_u16_to_le_bytes(0xffff) + spec_u32_to_le_bytes(n as u32)
    }
}

/// A CP932 archive string, or the error for text CP932 cannot represent.
pub open spec fn enc_cstring(s: Seq<char>) -> Result<Seq<u8>, CodecErrorV> {
    let (bytes, had_errors) = sjis_encode(s);
    if had_errors {
        Err(CodecErrorV::UnencodableText(s))
    } else {
        Ok(enc_cstring_len(bytes.len()) + bytes)
    }
}

/// Prefixes the bytes of a successful encoding.
pub open spec fn then_bytes(prefix: Seq<u8>, r: Result<Seq<u8>, CodecErrorV>) -> Result<
    Seq<u8>,
    CodecErrorV,
> {
    match r {
        Ok(b) => Ok(prefix + b),
        Err(e) => Err(e),
    }
}

/// Concatenates two encodings, failing with the first error.
pub open spec fn cat_bytes(
    a: Result<Seq<u8>, CodecErrorV>,
    b: Result<Seq<u8>, CodecErrorV>,
) -> Result<Seq<u8>, CodecErrorV> {
    match a {
        Err(e) => Err(e),
        Ok(x) => then_bytes(x, b),
    }
}

/// The outcome of a write: on success exactly the encoding was appended; on
/// failure the error is the encoding's and the earlier bytes are kept.
pub open spec fn wrote(
    old_bytes: Seq<u8>,
    new_bytes: Seq<u8>,
    res: Result<(), CodecError>,
    enc: Result<Seq<u8>, CodecErrorV>,
) -> bool {
    match enc {
        Ok(b) => res is Ok && new_bytes == old_bytes + b,
        Err(e) => res matches Err(x) && x@ == e && new_bytes.len() >= old_bytes.len()
            && new_bytes.subrange(0, old_bytes.len() as int) == old_bytes,
    }
}

pub proof fn lemma_wrote_seq(
    a: Seq<u8>,
    b: Seq<u8>,
    c: Seq<u8>,
    r1: Result<(), CodecError>,
    e1: Result<Seq<u8>, CodecErrorV>,
    r2: Result<(), CodecError>,
    e2: Result<Seq<u8>, CodecErrorV>,
)
    requires
        wrote(a, b, r1, e1),
        r1 is Ok,
        wrote(b, c, r2, e2),
    ensures
        wrote(a, c, r2, cat_bytes(e1, e2)),
{
    match e1 {
        Ok(x) => {
            assert(b == a + x);
            match e2 {
                Ok(y) => {
                    assert(c == b + y);
                    assert(a + (x + y) =~= (a + x) + y);
                },
                Err(_) => {
                    assert(b.subrange(0, a.len() as int) =~= a);
                    assert(c.subrange(0, a.len() as int) =~= c.subrange(0, b.len() as int).subrange(
                        0,
                        a.len() as int,
                    ));
                },
            }
        },
        Err(_) => {},
    }
}

pub struct Writer {
    bytes: Vec<u8>,
}

impl View for Writer {
    type V = Seq<u8>;

    closed spec fn view(&self) -> Seq<u8> {
        self.bytes@
    }
}

impl Default for Writer {
    fn default() -> (w: Self)
        ensures
            w@ == Seq::<u8>::empty(),
    {
        Writer { bytes: Vec::new() }
    }
}

impl Writer {
    pub fn new() -> (w: Self)
        ensures
            w@ == Seq::<u8>::empty(),
    {
        Writer { bytes: Vec::new() }
    }

    pub fn len(&self) -> (n: usize)
        ensures
            n == self@.len(),
    {
        self.bytes.len()
    }

    pub fn into_bytes(self) -> (bytes: Vec<u8>)
        ensures
            bytes@ == self@,
    {
        self.bytes
    }

    pub fn u8(&mut self, value: u8)
        ensures
            final(self)@ == old(self)@.push(value),
    {
        self.bytes.push(value);
    }

    pub fn u16(&mut self, value: u16)
        ensures
            final(self)@ == old(self)@ + spec_u16_to_le_bytes(value),
    {
        let mut b = u16_to_le_bytes(value);
        self.bytes.append(&mut b);
    }

    pub fn u32(&mut self, value: u32)
        ensures
            final(self)@ == old(self)@ + spec_u32_to_le_bytes(value),
    {
        let mut b = u32_to_le_bytes(value);
        self.bytes.append(&mut b);
    }

    /// Writes a double given by its bit pattern.
    pub fn f64_bits(&mut self, value: u64)
        ensures
            final(self)@ == old(self)@ + spec_u64_to_le_bytes(value),
    {
        let mut b = u64_to_le_bytes(value);
        self.bytes.append(&mut b);
    }

    pub fn raw(&mut self, value: &[u8])
        ensures
            final(self)@ == old(self)@ + value@,
    {
        let mut i: usize = 0;
        let ghost start = self.bytes@;
        while i < value.len()
            invariant
                i <= value@.len(),
                self.bytes@ =~= start + value@.subrange(0, i as int),
            decreases value.len() - i,
        {
            self.bytes.push(value[i]);
            i = i + 1;
        }
        assert(value@.subrange(0, value@.len() as int) =~= value@);
    }

    /// Writes `text` as a CP932 archive string.
    pub fn cstring(&mut self, value: &str) -> (res: Result<(), CodecError>)
        ensures
            match enc_cstring(value@) {
                Ok(b) => res is Ok && final(self)@ == old(self)@ + b,
                Err(e) => res matches Err(x) && x@ == e && final(self)@ == old(self)@,
            },
            wrote(old(self)@, final(self)@, res, enc_cstring(value@)),
    {
        let (encoded, had_errors) = encode_sjis(value);
        if had_errors {
            assert(self@.subrange(0, self@.len() as int) =~= self@);
            return Err(CodecError::UnencodableText(value.to_owned()));
        }
        let len = encoded.len();
        let ghost start = self@;
        if len < 0xff {
            self.u8(len as u8);
            assert(self@ =~= start + enc_cstring_len(len as nat));
        } else if len < 0xffff {
            self.u8(0xff);
            self.u16(len as u16);
            assert(self@ =~= start + enc_cstring_len(len as nat));
        } else {
            self.u8(0xff);
            self.u16(0xffff);
            self.u32(len as u32);
            assert(self@ =~= start + enc_cstring_len(len as nat));
        }
        self.raw(encoded.as_slice());
        assert(self@ =~= start + (enc_cstring_len(len as nat) + encoded@));
        Ok(())
    }
}

/// One call on a writer, apart from the string write.
pub enum WriteStep {
    U8(u8),
    U16(u16),
    U32(u32),
    F64Bits(u64),
    Raw(Seq<u8>),
}

/// The bytes a call writes.
pub open spec fn step_bytes(s: WriteStep) -> Seq<u8> {
    match s {
        WriteStep::U8(v) => seq![v],
        WriteStep::U16(v) => spec_u16_to_le_bytes(v),
        WriteStep::U32(v) => spec_u32_to_le_bytes(v),
        WriteStep::F64Bits(v) => spec_u64_to_le_bytes(v),
        WriteStep::Raw(b) => b,
    }
}

/// What the call's contract gives for the writer's bytes after it.
pub open spec fn after_step(w: Seq<u8>, s: WriteStep) -> Seq<u8> {
    match s {
        WriteStep::U8(v) => w.push(v),
        WriteStep::U16(v) => w + spec_u16_to_le_bytes(v),
        WriteStep::U32(v) => w + spec_u32_to_le_bytes(v),
        WriteStep::F64Bits(v) => w + spec_u64_to_le_bytes(v),
        WriteStep::Raw(b) => w + b,
    }
}

/// The writer's bytes after the calls, made in order.
pub open spec fn after_steps(w: Seq<u8>, steps: Seq<WriteStep>) -> Seq<u8>
    decreases steps.len(),
{
    if steps.len() == 0 {
        w
    } else {
        after_step(after_steps(w, steps.drop_last()), steps.last())
    }
}

/// The calls' bytes, one after another.
pub open spec fn steps_bytes(steps: Seq<WriteStep>) -> Seq<u8>
    decreases steps.len(),
{
    if steps.len() == 0 {
        Seq::empty()
    } else {
        steps_bytes(steps.drop_last()) + step_bytes(steps.last())
    }
}

/// Writing only appends: after any calls made in turn, the writer holds what
/// it held before followed by each call's bytes in order; so a new writer
/// holds exactly the calls' bytes.
pub proof fn lemma_writer_appends(w: Seq<u8>, steps: Seq<WriteStep>)
    ensures
        after_steps(w, steps) == w + steps_bytes(steps),
        after_steps(Seq::empty(), steps) == steps_bytes(steps),
    decreases steps.len(),
{
    if steps.len() == 0 {
        assert(w + steps_bytes(steps) =~= w);
        assert(Seq::<u8>::empty() + steps_bytes(steps) =~= Seq::<u8>::empty());
    } else {
        lemma_writer_appends(w, steps.drop_last());
        lemma_writer_appends(Seq::empty(), steps.drop_last());
        let prev = steps_bytes(steps.drop_last());
        assert(after_step(w + prev, steps.last()) =~= w + (prev + step_bytes(steps.last())));
        assert(after_step(prev, steps.last()) =~= prev + step_bytes(steps.last()));
    }
}

} // verus!
