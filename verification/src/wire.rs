//! Big-endian integers on byte sequences, a cursor that reads them from a
//! buffer, and the helpers that append them to one.

use crate::error::{Error, IoError};
use vstd::prelude::*;
use vstd::slice::slice_subrange;

verus! {

/// The 16-bit number whose two bytes stand at `at` in `s`, most significant first.
pub open spec fn be16(s: Seq<u8>, at: int) -> u16 {
    (s[at] as int * 0x100 + s[at + 1] as int) as u16
}

/// The 32-bit number whose four bytes stand at `at` in `s`, most significant first.
pub open spec fn be32(s: Seq<u8>, at: int) -> u32 {
    (s[at] as int * 0x100_0000 + s[at + 1] as int * 0x1_0000 + s[at + 2] as int * 0x100 + s[at
        + 3] as int) as u32
}

/// The signed number with the same 32 bits (two's complement).
pub open spec fn signed32(u: u32) -> i32 {
    if u < 0x8000_0000 {
        u as i32
    } else {
        (u as int - 0x1_0000_0000) as i32
    }
}

/// The unsigned number with the same 32 bits (two's complement).
pub open spec fn unsigned32(i: i32) -> u32 {
    if i >= 0 {
        i as u32
    } else {
        (i as int + 0x1_0000_0000) as u32
    }
}

/// The two bytes of `n`, most significant first.
pub open spec fn bytes16(n: u16) -> Seq<u8> {
    seq![(n as int / 0x100) as u8, (n as int % 0x100) as u8]
}

/// The four bytes of `n`, most significant first.
pub open spec fn bytes32(n: u32) -> Seq<u8> {
    seq![
        (n as int / 0x100_0000) as u8,
        (n as int / 0x1_0000 % 0x100) as u8,
        (n as int / 0x100 % 0x100) as u8,
        (n as int % 0x100) as u8,
    ]
}

/// `n` zero bytes.
pub open spec fn zeros(n: nat) -> Seq<u8> {
    Seq::new(n, |i: int| 0u8)
}

/// Reading back what `bytes16` wrote gives the number, whatever follows it.
pub proof fn lemma_be16_of_bytes16(n: u16, rest: Seq<u8>)
    ensures
        be16(bytes16(n) + rest, 0) == n,
        bytes16(n).len() == 2,
{
}

/// Reading back what `bytes32` wrote gives the number, whatever follows it.
pub proof fn lemma_be32_of_bytes32(n: u32, rest: Seq<u8>)
    ensures
        be32(bytes32(n) + rest, 0) == n,
        bytes32(n).len() == 4,
{
}

/// Where the bytes of `n` stand at `at` in `s`, `n` is read there.
pub proof fn lemma_be16_at(s: Seq<u8>, at: int, n: u16)
    requires
        0 <= at,
        at + 2 <= s.len(),
        s.subrange(at, at + 2) == bytes16(n),
    ensures
        be16(s, at) == n,
{
    lemma_be16_of_bytes16(n, Seq::empty());
    assert(s[at] == s.subrange(at, at + 2)[0]);
    assert(s[at + 1] == s.subrange(at, at + 2)[1]);
    assert((bytes16(n) + Seq::<u8>::empty())[0] == bytes16(n)[0]);
    assert((bytes16(n) + Seq::<u8>::empty())[1] == bytes16(n)[1]);
}

/// Where the bytes of `n` stand at `at` in `s`, `n` is read there.
pub proof fn lemma_be32_at(s: Seq<u8>, at: int, n: u32)
    requires
        0 <= at,
        at + 4 <= s.len(),
        s.subrange(at, at + 4) == bytes32(n),
    ensures
        be32(s, at) == n,
{
    lemma_be32_of_bytes32(n, Seq::empty());
    assert(s[at] == s.subrange(at, at + 4)[0]);
    assert(s[at + 1] == s.subrange(at, at + 4)[1]);
    assert(s[at + 2] == s.subrange(at, at + 4)[2]);
    assert(s[at + 3] == s.subrange(at, at + 4)[3]);
    assert((bytes32(n) + Seq::<u8>::empty())[0] == bytes32(n)[0]);
    assert((bytes32(n) + Seq::<u8>::empty())[1] == bytes32(n)[1]);
    assert((bytes32(n) + Seq::<u8>::empty())[2] == bytes32(n)[2]);
    assert((bytes32(n) + Seq::<u8>::empty())[3] == bytes32(n)[3]);
}

/// The signed and the unsigned reading of 32 bits undo each other.
pub proof fn lemma_signed_unsigned(i: i32, u: u32)
    ensures
        signed32(unsigned32(i)) == i,
        unsigned32(signed32(u)) == u,
{
}

/// The number made of the first two bytes of `buf`, the first one being the
/// high byte.
fn read_be_u16(buf: &[u8]) -> (n: u16)
    requires
        buf@.len() >= 2,
    ensures
        n == be16(buf@, 0),
{
    buf[0] as u16 * 0x100 + buf[1] as u16
}

/// The number made of the first four bytes of `buf`, the first one being
/// the highest byte.
fn read_be_u32(buf: &[u8]) -> (n: u32)
    requires
        buf@.len() >= 4,
    ensures
        n == be32(buf@, 0),
{
    buf[0] as u32 * 0x100_0000 + buf[1] as u32 * 0x1_0000 + buf[2] as u32 * 0x100 + buf[3] as u32
}

/// As `read_be_u32`, the 32 bits then being taken as a signed number.
fn read_be_i32(buf: &[u8]) -> (n: i32)
    requires
        buf@.len() >= 4,
    ensures
        n == signed32(be32(buf@, 0)),
{
    let u = read_be_u32(buf);
    if u < 0x8000_0000 {
        u as i32
    } else {
        (u as i64 - 0x1_0000_0000) as i32
    }
}

/// The high byte of `n`, then the low byte.
fn write_be_u16(n: u16) -> (buf: [u8; 2])
    ensures
        buf@ == bytes16(n),
{
    let buf: [u8; 2] = [(n / 0x100) as u8, (n % 0x100) as u8];
    assert(buf@ =~= bytes16(n));
    buf
}

/// The bytes of `n` from the highest to the lowest.
fn write_be_u32(n: u32) -> (buf: [u8; 4])
    ensures
        buf@ == bytes32(n),
{
    let buf: [u8; 4] = [
        (n / 0x100_0000) as u8,
        (n / 0x1_0000 % 0x100) as u8,
        (n / 0x100 % 0x100) as u8,
        (n % 0x100) as u8,
    ];
    assert(buf@ =~= bytes32(n));
    buf
}

/// The bytes of the unsigned number with the same bits as `n`, from the
/// highest to the lowest.
fn write_be_i32(n: i32) -> (buf: [u8; 4])
    ensures
        buf@ == bytes32(unsigned32(n)),
{
    let u: u32 = if n >= 0 {
        n as u32
    } else {
        (n as i64 + 0x1_0000_0000) as u32
    };
    write_be_u32(u)
}

/// A cursor over a byte buffer. Every read either takes the whole item and
/// moves on, or fails with `Io(UnexpectedEof)` and leaves the cursor where it was.
pub struct Reader<'a> {
    data: &'a [u8],
    pos: usize,
}

impl<'a> Reader<'a> {
    #[verifier::type_invariant]
    spec fn inv(self) -> bool {
        self.pos <= self.data@.len()
    }

    /// The whole buffer, read or not.
    pub closed spec fn input(self) -> Seq<u8> {
        self.data@
    }

    /// How many bytes have been read.
    pub closed spec fn offset(self) -> nat {
        self.pos as nat
    }

    /// The bytes that have not been read yet.
    pub open spec fn remaining(self) -> Seq<u8> {
        self.input().subrange(self.offset() as int, self.input().len() as int)
    }

    /// A cursor at the start of `data`.
    pub fn new(data: &'a [u8]) -> (r: Reader<'a>)
        ensures
            r.input() == data@,
            r.offset() == 0,
            r.remaining() == data@,
    {
        Reader { data, pos: 0 }
    }

    /// How many bytes have been read.
    pub fn position(&self) -> (n: usize)
        ensures
            n == self.offset(),
            n <= self.input().len(),
    {
        proof {
            use_type_invariant(self);
        }
        self.pos
    }

    /// How many bytes are left.
    pub fn available(&self) -> (n: usize)
        ensures
            n == self.remaining().len(),
            self.offset() + n == self.input().len(),
    {
        proof {
            use_type_invariant(self);
        }
        self.data.len() - self.pos
    }

    /// Reads one byte.
    pub fn read_u8(&mut self) -> (r: Result<u8, Error>)
        ensures
            final(self).input() == old(self).input(),
            final(self).offset() <= final(self).input().len(),
            old(self).remaining().len() >= 1 ==> r == Ok::<u8, Error>(old(self).remaining()[0])
                && final(self).offset() == old(self).offset() + 1,
            old(self).remaining().len() < 1 ==> r == Err::<u8, Error>(
                Error::Io(IoError::UnexpectedEof),
            ) && final(self).offset() == old(self).offset(),
    {
        proof {
            use_type_invariant(&*self);
        }
        if self.data.len() - self.pos >= 1 {
            let b = self.data[self.pos];
            self.pos = self.pos + 1;
            Ok(b)
        } else {
            Err(Error::Io(IoError::UnexpectedEof))
        }
    }

    /// Reads a big-endian `u16`.
    pub fn read_u16(&mut self) -> (r: Result<u16, Error>)
        ensures
            final(self).input() == old(self).input(),
            final(self).offset() <= final(self).input().len(),
            old(self).remaining().len() >= 2 ==> r == Ok::<u16, Error>(
                be16(old(self).remaining(), 0),
            ) && final(self).offset() == old(self).offset() + 2,
            old(self).remaining().len() < 2 ==> r == Err::<u16, Error>(
                Error::Io(IoError::UnexpectedEof),
            ) && final(self).offset() == old(self).offset(),
    {
        proof {
            use_type_invariant(&*self);
        }
        if self.data.len() - self.pos >= 2 {
            let n = read_be_u16(slice_subrange(self.data, self.pos, self.pos + 2));
            self.pos = self.pos + 2;
            Ok(n)
        } else {
            Err(Error::Io(IoError::UnexpectedEof))
        }
    }

    /// Reads a big-endian `u32`.
    pub fn read_u32(&mut self) -> (r: Result<u32, Error>)
        ensures
            final(self).input() == old(self).input(),
            final(self).offset() <= final(self).input().len(),
            old(self).remaining().len() >= 4 ==> r == Ok::<u32, Error>(
                be32(old(self).remaining(), 0),
            ) && final(self).offset() == old(self).offset() + 4,
            old(self).remaining().len() < 4 ==> r == Err::<u32, Error>(
                Error::Io(IoError::UnexpectedEof),
            ) && final(self).offset() == old(self).offset(),
    {
        proof {
            use_type_invariant(&*self);
        }
        if self.data.len() - self.pos >= 4 {
            let n = read_be_u32(slice_subrange(self.data, self.pos, self.pos + 4));
            self.pos = self.pos + 4;
            Ok(n)
        } else {
            Err(Error::Io(IoError::UnexpectedEof))
        }
    }

    /// Reads a big-endian `i32` (two's complement).
    pub fn read_i32(&mut self) -> (r: Result<i32, Error>)
        ensures
            final(self).input() == old(self).input(),
            final(self).offset() <= final(self).input().len(),
            old(self).remaining().len() >= 4 ==> r == Ok::<i32, Error>(
                signed32(be32(old(self).remaining(), 0)),
            ) && final(self).offset() == old(self).offset() + 4,
            old(self).remaining().len() < 4 ==> r == Err::<i32, Error>(
                Error::Io(IoError::UnexpectedEof),
            ) && final(self).offset() == old(self).offset(),
    {
        proof {
            use_type_invariant(&*self);
        }
        if self.data.len() - self.pos >= 4 {
            let n = read_be_i32(slice_subrange(self.data, self.pos, self.pos + 4));
            self.pos = self.pos + 4;
            Ok(n)
        } else {
            Err(Error::Io(IoError::UnexpectedEof))
        }
    }

    /// Reads `n` bytes.
    pub fn read_bytes(&mut self, n: usize) -> (r: Result<Vec<u8>, Error>)
        ensures
            final(self).input() == old(self).input(),
            final(self).offset() <= final(self).input().len(),
            old(self).remaining().len() >= n ==> (r matches Ok(bytes) && bytes@ == old(
                self,
            ).remaining().subrange(0, n as int)) && final(self).offset() == old(self).offset() + n,
            old(self).remaining().len() < n ==> r == Err::<Vec<u8>, Error>(
                Error::Io(IoError::UnexpectedEof),
            ) && final(self).offset() == old(self).offset(),
    {
        proof {
            use_type_invariant(&*self);
        }
        if self.data.len() - self.pos >= n {
            let bytes = vstd::slice::slice_to_vec(
                slice_subrange(self.data, self.pos, self.pos + n),
            );
            assert(bytes@ =~= self.remaining().subrange(0, n as int));
            self.pos = self.pos + n;
            Ok(bytes)
        } else {
            Err(Error::Io(IoError::UnexpectedEof))
        }
    }

    /// Passes over `n` bytes of padding, whatever they hold.
    pub fn skip(&mut self, n: usize) -> (r: Result<(), Error>)
        ensures
            final(self).input() == old(self).input(),
            final(self).offset() <= final(self).input().len(),
            old(self).remaining().len() >= n ==> r is Ok && final(self).offset() == old(
                self,
            ).offset() + n,
            old(self).remaining().len() < n ==> r == Err::<(), Error>(
                Error::Io(IoError::UnexpectedEof),
            ) && final(self).offset() == old(self).offset(),
    {
        proof {
            use_type_invariant(&*self);
        }
        if self.data.len() - self.pos >= n {
            self.pos = self.pos + n;
            Ok(())
        } else {
            Err(Error::Io(IoError::UnexpectedEof))
        }
    }
}

/// What a cursor has left after it moved on by `n` bytes over the same buffer.
pub proof fn lemma_advance(before: Reader, after: Reader, n: nat)
    requires
        after.input() == before.input(),
        after.offset() == before.offset() + n,
        after.offset() <= after.input().len(),
    ensures
        after.remaining() == before.remaining().skip(n as int),
        before.remaining().len() == after.remaining().len() + n,
{
    assert(after.remaining() =~= before.remaining().skip(n as int));
}

/// The same items in the opposite order.
pub fn reversed<T>(items: Vec<T>) -> (turned: Vec<T>)
    ensures
        turned@.len() == items@.len(),
        forall|i: int| 0 <= i < turned@.len() ==> turned@[i] == items@[items@.len() - 1 - i],
{
    let mut items = items;
    let ghost all = items@;
    let mut turned: Vec<T> = Vec::new();
    while items.len() > 0
        invariant
            items@.len() + turned@.len() == all.len(),
            forall|i: int| 0 <= i < items@.len() ==> items@[i] == all[i],
            forall|i: int| 0 <= i < turned@.len() ==> turned@[i] == all[all.len() - 1 - i],
        decreases items.len(),
    {
        let item = items.pop().unwrap();
        turned.push(item);
    }
    turned
}

/// Appends one byte.
pub fn put_u8(out: &mut Vec<u8>, n: u8)
    ensures
        final(out)@ == old(out)@.push(n),
{
    out.push(n);
}

/// Appends `n` as two bytes, most significant first.
pub fn put_u16(out: &mut Vec<u8>, n: u16)
    ensures
        final(out)@ == old(out)@ + bytes16(n),
{
    let buf = write_be_u16(n);
    out.push(buf[0]);
    out.push(buf[1]);
    assert(out@ =~= old(out)@ + bytes16(n));
}

/// Appends `n` as four bytes, most significant first.
pub fn put_u32(out: &mut Vec<u8>, n: u32)
    ensures
        final(out)@ == old(out)@ + bytes32(n),
{
    let buf = write_be_u32(n);
    out.push(buf[0]);
    out.push(buf[1]);
    out.push(buf[2]);
    out.push(buf[3]);
    assert(out@ =~= old(out)@ + bytes32(n));
}

/// Appends `n` as four bytes in two's complement, most significant first.
pub fn put_i32(out: &mut Vec<u8>, n: i32)
    ensures
        final(out)@ == old(out)@ + bytes32(unsigned32(n)),
{
    let buf = write_be_i32(n);
    out.push(buf[0]);
    out.push(buf[1]);
    out.push(buf[2]);
    out.push(buf[3]);
    assert(out@ =~= old(out)@ + bytes32(unsigned32(n)));
}

/// Appends `n` zero bytes of padding.
pub fn put_zeros(out: &mut Vec<u8>, n: usize)
    ensures
        final(out)@ == old(out)@ + zeros(n as nat),
{
    let mut i: usize = 0;
    while i < n
        invariant
            i <= n,
            out@ == old(out)@ + zeros(i as nat),
        decreases n - i,
    {
        out.push(0u8);
        i = i + 1;
        assert(out@ =~= old(out)@ + zeros(i as nat));
    }
}

/// Appends all of `bytes`.
pub fn put_bytes(out: &mut Vec<u8>, bytes: &[u8])
    ensures
        final(out)@ == old(out)@ + bytes@,
{
    out.extend_from_slice(bytes);
    assert(out@ =~= old(out)@ + bytes@);
}

} // verus!
