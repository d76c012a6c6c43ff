//! Big-endian fixed-width integer access over in-memory byte buffers.
//!
//! PGS is big-endian throughout. A [`ByteSource`] walks forward over a byte
//! buffer exactly once, the way the codec consumes a stream; the `put_`
//! functions append to a `Vec<u8>` sink.

use vstd::prelude::*;

verus! {

/// The big-endian bytes of a 16-bit integer.
pub open spec fn spec_u16_be(v: u16) -> Seq<u8> {
    seq![(v / 0x100) as u8, (v % 0x100) as u8]
}

/// The big-endian bytes of the low 24 bits of a 32-bit integer.
pub open spec fn spec_u24_be(v: u32) -> Seq<u8> {
    seq![((v / 0x10000) % 0x100) as u8, ((v / 0x100) % 0x100) as u8, (v % 0x100) as u8]
}

/// The big-endian bytes of a 32-bit integer.
pub open spec fn spec_u32_be(v: u32) -> Seq<u8> {
    seq![
        (v / 0x1000000) as u8,
        ((v / 0x10000) % 0x100) as u8,
        ((v / 0x100) % 0x100) as u8,
        (v % 0x100) as u8,
    ]
}

/// The 16-bit integer held by two big-endian bytes at `i`.
pub open spec fn spec_u16_at(s: Seq<u8>, i: int) -> u16 {
    (s[i] * 0x100 + s[i + 1]) as u16
}

/// The 24-bit integer held by three big-endian bytes at `i`.
pub open spec fn spec_u24_at(s: Seq<u8>, i: int) -> u32 {
    (s[i] * 0x10000 + s[i + 1] * 0x100 + s[i + 2]) as u32
}

/// The 32-bit integer held by four big-endian bytes at `i`.
pub open spec fn spec_u32_at(s: Seq<u8>, i: int) -> u32 {
    (s[i] * 0x1000000 + s[i + 1] * 0x10000 + s[i + 2] * 0x100 + s[i + 3]) as u32
}

pub broadcast proof fn lemma_u16_be_len(v: u16)
    ensures
        (#[trigger] spec_u16_be(v)).len() == 2,
{
}

pub broadcast proof fn lemma_u24_be_len(v: u32)
    ensures
        (#[trigger] spec_u24_be(v)).len() == 3,
{
}

pub broadcast proof fn lemma_u32_be_len(v: u32)
    ensures
        (#[trigger] spec_u32_be(v)).len() == 4,
{
}

/// The lengths of the big-endian byte images.
pub broadcast group group_be_lens {
    lemma_u16_be_len,
    lemma_u24_be_len,
    lemma_u32_be_len,
}

/// Reading back the bytes of `spec_u16_be` yields the value again.
pub proof fn lemma_u16_be_at(s: Seq<u8>, i: int, v: u16)
    requires
        0 <= i,
        i + 2 <= s.len(),
        s.subrange(i, i + 2) == spec_u16_be(v),
    ensures
        spec_u16_at(s, i) == v,
{
    assert(s[i] == spec_u16_be(v)[0]);
    assert(s[i + 1] == spec_u16_be(v)[1]);
}

/// Reading back the bytes of `spec_u24_be` yields the value again.
pub proof fn lemma_u24_be_at(s: Seq<u8>, i: int, v: u32)
    requires
        0 <= i,
        i + 3 <= s.len(),
        v < 0x1000000,
        s.subrange(i, i + 3) == spec_u24_be(v),
    ensures
        spec_u24_at(s, i) == v,
{
    assert(s[i] == spec_u24_be(v)[0]);
    assert(s[i + 1] == spec_u24_be(v)[1]);
    assert(s[i + 2] == spec_u24_be(v)[2]);
    assert(((v / 0x10000) % 0x100) * 0x10000 + ((v / 0x100) % 0x100) * 0x100 + v % 0x100 == v)
        by (nonlinear_arith)
        requires v < 0x1000000;
}

/// Reading back the bytes of `spec_u32_be` yields the value again.
pub proof fn lemma_u32_be_at(s: Seq<u8>, i: int, v: u32)
    requires
        0 <= i,
        i + 4 <= s.len(),
        s.subrange(i, i + 4) == spec_u32_be(v),
    ensures
        spec_u32_at(s, i) == v,
{
    assert(s[i] == spec_u32_be(v)[0]);
    assert(s[i + 1] == spec_u32_be(v)[1]);
    assert(s[i + 2] == spec_u32_be(v)[2]);
    assert(s[i + 3] == spec_u32_be(v)[3]);
    assert((v / 0x1000000) * 0x1000000 + ((v / 0x10000) % 0x100) * 0x10000 + ((v / 0x100)
        % 0x100) * 0x100 + v % 0x100 == v) by (nonlinear_arith);
}

/// A byte source: a buffer with a forward-only read position.
pub struct ByteSource {
    pub data: Vec<u8>,
    pub pos: usize,
}

impl ByteSource {
    /// The read position has not run past the buffer.
    pub open spec fn wf(self) -> bool {
        self.pos <= self.data@.len()
    }

    /// The bytes not yet consumed.
    pub open spec fn remaining(self) -> Seq<u8> {
        self.data@.skip(self.pos as int)
    }

    pub fn new(data: Vec<u8>) -> (s: Self)
        ensures
            s.wf(),
            s.remaining() == data@,
            s.pos == 0,
    {
        let s = ByteSource { data, pos: 0 };
        proof {
            assert(s.remaining() =~= s.data@);
        }
        s
    }

    pub fn remaining_len(&self) -> (n: usize)
        requires
            self.wf(),
        ensures
            n == self.remaining().len(),
    {
        self.data.len() - self.pos
    }

    pub fn take_u8(&mut self) -> (r: u8)
        requires
            old(self).wf(),
            old(self).remaining().len() >= 1,
        ensures
            final(self).wf(),
            final(self).data == old(self).data,
            r == old(self).remaining()[0],
            final(self).remaining() == old(self).remaining().skip(1),
    {
        let len = self.data.len();
        proof {
            assert(self.remaining().len() == len - self.pos);
        }
        let r = self.data[self.pos];
        self.pos = self.pos + 1;
        proof {
            assert(final(self).remaining() =~= old(self).remaining().skip(1));
        }
        r
    }

    pub fn take_u16(&mut self) -> (r: u16)
        requires
            old(self).wf(),
            old(self).remaining().len() >= 2,
        ensures
            final(self).wf(),
            final(self).data == old(self).data,
            r == spec_u16_at(old(self).remaining(), 0),
            final(self).remaining() == old(self).remaining().skip(2),
    {
        let len = self.data.len();
        proof {
            assert(self.remaining().len() == len - self.pos);
        }
        let b0 = self.data[self.pos];
        let b1 = self.data[self.pos + 1];
        self.pos = self.pos + 2;
        proof {
            assert(final(self).remaining() =~= old(self).remaining().skip(2));
        }
        (b0 as u16) * 0x100 + (b1 as u16)
    }

    pub fn take_u24(&mut self) -> (r: u32)
        requires
            old(self).wf(),
            old(self).remaining().len() >= 3,
        ensures
            final(self).wf(),
            final(self).data == old(self).data,
            r == spec_u24_at(old(self).remaining(), 0),
            r < 0x1000000,
            final(self).remaining() == old(self).remaining().skip(3),
    {
        let len = self.data.len();
        proof {
            assert(self.remaining().len() == len - self.pos);
        }
        let b0 = self.data[self.pos];
        let b1 = self.data[self.pos + 1];
        let b2 = self.data[self.pos + 2];
        self.pos = self.pos + 3;
        proof {
            assert(final(self).remaining() =~= old(self).remaining().skip(3));
        }
        (b0 as u32) * 0x10000 + (b1 as u32) * 0x100 + (b2 as u32)
    }

    pub fn take_u32(&mut self) -> (r: u32)
        requires
            old(self).wf(),
            old(self).remaining().len() >= 4,
        ensures
            final(self).wf(),
            final(self).data == old(self).data,
            r == spec_u32_at(old(self).remaining(), 0),
            final(self).remaining() == old(self).remaining().skip(4),
    {
        let len = self.data.len();
        proof {
            assert(self.remaining().len() == len - self.pos);
        }
        let b0 = self.data[self.pos];
        let b1 = self.data[self.pos + 1];
        let b2 = self.data[self.pos + 2];
        let b3 = self.data[self.pos + 3];
        self.pos = self.pos + 4;
        proof {
            assert(final(self).remaining() =~= old(self).remaining().skip(4));
        }
        (b0 as u32) * 0x1000000 + (b1 as u32) * 0x10000 + (b2 as u32) * 0x100 + (b3 as u32)
    }

    /// Consumes `n` bytes and hands them back as a fresh buffer.
    pub fn take_bytes(&mut self, n: usize) -> (r: Vec<u8>)
        requires
            old(self).wf(),
            old(self).remaining().len() >= n,
        ensures
            final(self).wf(),
            final(self).data == old(self).data,
            r@ == old(self).remaining().take(n as int),
            final(self).remaining() == old(self).remaining().skip(n as int),
    {
        let mut r: Vec<u8> = Vec::new();
        let mut i: usize = 0;
        while i < n
            invariant
                self.wf(),
                self == old(self),
                i <= n,
                n <= self.remaining().len(),
                r@ == self.remaining().take(i as int),
            decreases n - i,
        {
            let len = self.data.len();
            proof {
                assert(self.remaining().len() == len - self.pos);
            }
            r.push(self.data[self.pos + i]);
            i = i + 1;
            proof {
                assert(r@ =~= self.remaining().take(i as int));
            }
        }
        let len = self.data.len();
        proof {
            assert(self.remaining().len() == len - self.pos);
        }
        self.pos = self.pos + n;
        proof {
            assert(final(self).remaining() =~= old(self).remaining().skip(n as int));
        }
        r
    }

    /// Skips `n` bytes without looking at them.
    pub fn skip_bytes(&mut self, n: usize)
        requires
            old(self).wf(),
            old(self).remaining().len() >= n,
        ensures
            final(self).wf(),
            final(self).data == old(self).data,
            final(self).remaining() == old(self).remaining().skip(n as int),
    {
        let len = self.data.len();
        proof {
            assert(self.remaining().len() == len - self.pos);
        }
        self.pos = self.pos + n;
        proof {
            assert(final(self).remaining() =~= old(self).remaining().skip(n as int));
        }
    }
}

pub fn put_u8(out: &mut Vec<u8>, v: u8)
    ensures
        final(out)@ == old(out)@ + seq![v],
{
    out.push(v);
    proof {
        assert(final(out)@ =~= old(out)@ + seq![v]);
    }
}

pub fn put_u16_be(out: &mut Vec<u8>, v: u16)
    ensures
        final(out)@ == old(out)@ + spec_u16_be(v),
{
    out.push((v / 0x100) as u8);
    out.push((v % 0x100) as u8);
    proof {
        assert(final(out)@ =~= old(out)@ + spec_u16_be(v));
    }
}

pub fn put_u24_be(out: &mut Vec<u8>, v: u32)
    ensures
        final(out)@ == old(out)@ + spec_u24_be(v),
{
    out.push(((v / 0x10000) % 0x100) as u8);
    out.push(((v / 0x100) % 0x100) as u8);
    out.push((v % 0x100) as u8);
    proof {
        assert(final(out)@ =~= old(out)@ + spec_u24_be(v));
    }
}

pub fn put_u32_be(out: &mut Vec<u8>, v: u32)
    ensures
        final(out)@ == old(out)@ + spec_u32_be(v),
{
    out.push((v / 0x1000000) as u8);
    out.push(((v / 0x10000) % 0x100) as u8);
    out.push(((v / 0x100) % 0x100) as u8);
    out.push((v % 0x100) as u8);
    proof {
        assert(final(out)@ =~= old(out)@ + spec_u32_be(v));
    }
}

pub fn put_bytes(out: &mut Vec<u8>, b: &Vec<u8>)
    ensures
        final(out)@ == old(out)@ + b@,
{
    let mut i: usize = 0;
    while i < b.len()
        invariant
            i <= b@.len(),
            out@ == old(out)@ + b@.take(i as int),
        decreases b@.len() - i,
    {
        out.push(b[i]);
        i = i + 1;
        proof {
            assert(out@ =~= old(out)@ + b@.take(i as int));
        }
    }
    proof {
        assert(b@.take(b@.len() as int) =~= b@);
    }
}

/// Copies `v[a..b]` into a fresh buffer.
pub fn copy_range(v: &Vec<u8>, a: usize, b: usize) -> (r: Vec<u8>)
    requires
        a <= b <= v@.len(),
    ensures
        r@ == v@.subrange(a as int, b as int),
{
    let mut r: Vec<u8> = Vec::new();
    let mut i: usize = a;
    while i < b
        invariant
            a <= i <= b <= v@.len(),
            r@ == v@.subrange(a as int, i as int),
        decreases b - i,
    {
        r.push(v[i]);
        i = i + 1;
        proof {
            assert(r@ =~= v@.subrange(a as int, i as int));
        }
    }
    r
}

} // verus!
