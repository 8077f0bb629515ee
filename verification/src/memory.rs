//! A byte-addressed, big-endian memory image. Addresses start at a base
//! offset; writes beyond the current end grow the image with zero fill, so
//! the assembler can emit into a fresh image from any origin.

use vstd::prelude::*;

verus! {

/// The 16-bit word formed by a big-endian pair of bytes.
pub open spec fn word_of(hi: u8, lo: u8) -> u16 {
    (hi * 256 + lo) as u16
}

/// `s` grown with zero bytes until it is at least `n` long.
pub open spec fn grown(s: Seq<u8>, n: int) -> Seq<u8> {
    if s.len() >= n {
        s
    } else {
        s + Seq::new((n - s.len()) as nat, |i: int| 0u8)
    }
}

/// `s` after a big-endian word is stored at byte index `idx`, the image
/// growing with zero fill as `write_word` does.
pub open spec fn put_word(s: Seq<u8>, idx: int, w: u16) -> Seq<u8> {
    grown(s, idx + 2).update(idx, (w / 256) as u8).update(idx + 1, (w % 256) as u8)
}

/// `s` after the words `ws` are stored back to back from byte index `idx`.
pub open spec fn put_words(s: Seq<u8>, idx: int, ws: Seq<u16>) -> Seq<u8>
    decreases ws.len(),
{
    if ws.len() == 0 {
        s
    } else {
        put_words(put_word(s, idx, ws[0]), idx + 2, ws.skip(1))
    }
}

/// Storing a word only grows the image and touches its own two bytes:
/// every byte below `idx` keeps its value.
pub proof fn lemma_put_word_preserves(s: Seq<u8>, idx: int, w: u16, p: int)
    requires
        0 <= p < s.len(),
        p < idx,
    ensures
        put_word(s, idx, w)[p] == s[p],
        put_word(s, idx, w).len() >= s.len(),
        put_word(s, idx, w).len() >= idx + 2,
{
}

/// Storing a byte only grows the image and touches its own byte: every
/// byte below `idx` keeps its value.
pub proof fn lemma_put_byte_preserves(s: Seq<u8>, idx: int, b: u8, p: int)
    requires
        0 <= p < s.len(),
        p < idx,
    ensures
        grown(s, idx + 1).update(idx, b)[p] == s[p],
        grown(s, idx + 1).update(idx, b).len() >= s.len(),
        grown(s, idx + 1).update(idx, b).len() >= idx + 1,
{
}

/// A memory image: the bytes from address `offset` upward.
#[derive(Debug)]
pub struct MemoryVec {
    offset: u32,
    bytes: Vec<u8>,
}

impl MemoryVec {
    /// The base address of the image.
    pub closed spec fn base(&self) -> u32 {
        self.offset
    }

    /// The bytes of the image, index 0 sitting at the base address.
    pub closed spec fn view_bytes(&self) -> Seq<u8> {
        self.bytes@
    }

    /// An empty image based at address 0.
    pub fn new() -> (r: MemoryVec)
        ensures
            r.base() == 0,
            r.view_bytes() == Seq::<u8>::empty(),
    {
        MemoryVec { offset: 0, bytes: Vec::new() }
    }

    /// An image based at `offset` holding the given 16-bit words, each laid
    /// out as a big-endian pair of bytes.
    pub fn new16(offset: u32, data: Vec<u16>) -> (r: MemoryVec)
        ensures
            r.base() == offset,
            r.view_bytes().len() == 2 * data@.len(),
            forall|i: int|
                0 <= i < data@.len() ==> word_of(
                    r.view_bytes()[2 * i],
                    r.view_bytes()[2 * i + 1],
                ) == data@[i],
    {
        let mut bytes: Vec<u8> = Vec::new();
        let mut i: usize = 0;
        while i < data.len()
            invariant
                i <= data@.len(),
                bytes@.len() == 2 * i,
                forall|j: int|
                    0 <= j < i ==> word_of(bytes@[2 * j], bytes@[2 * j + 1]) == data@[j],
            decreases data@.len() - i,
        {
            let w = data[i];
            let hi = (w / 256) as u8;
            let lo = (w % 256) as u8;
            bytes.push(hi);
            bytes.push(lo);
            proof {
                assert(word_of(hi, lo) == w) by {
                    vstd::arithmetic::div_mod::lemma_fundamental_div_mod(w as int, 256);
                };
            }
            i += 1;
        }
        MemoryVec { offset, bytes }
    }

    /// How many bytes the image holds.
    pub fn len(&self) -> (r: usize)
        ensures
            r == self.view_bytes().len(),
    {
        self.bytes.len()
    }

    /// The base address of the image.
    pub fn offset(&self) -> (r: u32)
        ensures
            r == self.base(),
    {
        self.offset
    }

    /// The byte at address `addr`.
    pub fn read_byte(&self, addr: u32) -> (r: u8)
        requires
            self.base() <= addr,
            addr - self.base() < self.view_bytes().len(),
        ensures
            r == self.view_bytes()[addr - self.base()],
    {
        let idx = (addr - self.offset) as usize;
        self.bytes[idx]
    }

    /// The big-endian 16-bit word whose first byte sits at address `addr`.
    pub fn read_word(&self, addr: u32) -> (r: u16)
        requires
            self.base() <= addr,
            addr + 1 <= u32::MAX,
            addr + 1 - self.base() < self.view_bytes().len(),
        ensures
            r == word_of(
                self.view_bytes()[addr - self.base()],
                self.view_bytes()[addr + 1 - self.base()],
            ),
    {
        let hi = self.read_byte(addr);
        let lo = self.read_byte(addr + 1);
        (hi as u16) * 256 + (lo as u16)
    }

    /// Whether a full 16-bit word can be read at address `addr`.
    pub open spec fn word_readable(&self, addr: u32) -> bool {
        self.base() <= addr && addr + 1 <= u32::MAX && addr + 1 - self.base()
            < self.view_bytes().len()
    }

    /// The big-endian word at address `addr`, meaningful when readable.
    pub open spec fn word_at(&self, addr: u32) -> u16 {
        word_of(self.view_bytes()[addr - self.base()], self.view_bytes()[addr + 1 - self.base()])
    }

    /// The word at `addr`, or `None` when the image does not cover it.
    pub fn read_word_checked(&self, addr: u32) -> (r: Option<u16>)
        ensures
            r == (if self.word_readable(addr) {
                Some(self.word_at(addr))
            } else {
                None::<u16>
            }),
    {
        if addr < self.offset || addr == u32::MAX {
            return None;
        }
        let need: u64 = addr as u64 - self.offset as u64 + 2;
        if need <= self.bytes.len() as u64 {
            Some(self.read_word(addr))
        } else {
            None
        }
    }

    /// Store one byte at address `addr`, growing the image with zero fill
    /// when the address lies beyond its current end.
    pub fn write_byte(&mut self, addr: u32, b: u8)
        requires
            old(self).base() <= addr,
            addr - old(self).base() + 1 <= usize::MAX,
        ensures
            final(self).base() == old(self).base(),
            final(self).view_bytes() == grown(
                old(self).view_bytes(),
                addr - old(self).base() + 1,
            ).update(addr - old(self).base(), b),
    {
        let idx = (addr - self.offset) as usize;
        while self.bytes.len() <= idx
            invariant
                self.offset == old(self).offset,
                self.bytes@.len() >= old(self).bytes@.len(),
                self.bytes@.len() <= idx + 1 || self.bytes@.len() == old(self).bytes@.len(),
                self.bytes@ == grown(old(self).bytes@, self.bytes@.len() as int),
            decreases idx + 1 - self.bytes@.len(),
        {
            self.bytes.push(0);
            proof {
                assert(self.bytes@ =~= grown(old(self).bytes@, self.bytes@.len() as int));
            }
        }
        proof {
            assert(self.bytes@ =~= grown(old(self).bytes@, addr - old(self).base() + 1));
        }
        self.bytes.set(idx, b);
    }

    /// Store a 16-bit word as a big-endian pair of bytes at address `addr`,
    /// growing the image with zero fill when needed.
    pub fn write_word(&mut self, addr: u32, w: u16)
        requires
            old(self).base() <= addr,
            addr + 1 <= u32::MAX,
            addr - old(self).base() + 2 <= usize::MAX,
        ensures
            final(self).base() == old(self).base(),
            final(self).view_bytes() == put_word(
                old(self).view_bytes(),
                addr - old(self).base(),
                w,
            ),
            final(self).view_bytes().len() >= addr - old(self).base() + 2,
            word_of(
                final(self).view_bytes()[addr - old(self).base()],
                final(self).view_bytes()[addr + 1 - old(self).base()],
            ) == w,
    {
        let hi = (w / 256) as u8;
        let lo = (w % 256) as u8;
        self.write_byte(addr, hi);
        self.write_byte(addr + 1, lo);
        proof {
            vstd::arithmetic::div_mod::lemma_fundamental_div_mod(w as int, 256);
            assert(final(self).view_bytes() =~= grown(
                old(self).view_bytes(),
                addr - old(self).base() + 2,
            ).update(addr - old(self).base(), hi).update(addr + 1 - old(self).base(), lo));
        }
    }
}

} // verus!
