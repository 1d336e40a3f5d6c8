//! A fixed-key SipHash-1-3: one compression round per block, three finalization rounds. A
//! hasher's view is the bytes written to it so far, so how they were cut into writes
//! cannot matter.
use vstd::prelude::*;

verus! {

/// The first key word.
pub const KEY0: u64 = 0x0706_0504_0302_0100;

/// The second key word.
pub const KEY1: u64 = 0x0f0e_0d0c_0b0a_0908;

/// The four state words.
#[derive(Clone, Copy, PartialEq, Eq, Debug, Structural)]
pub struct SipState {
    /// The first word.
    pub v0: u64,
    /// The second word.
    pub v1: u64,
    /// The third word.
    pub v2: u64,
    /// The fourth word.
    pub v3: u64,
}

/// A word rotated left.
pub open spec fn rotated(x: u64, by: u64) -> u64 {
    (x << by) | (x >> ((64 - by) as u64))
}

/// The state a hash starts from.
pub open spec fn sip_start() -> SipState {
    SipState {
        v0: KEY0 ^ 0x736f_6d65_7073_6575u64,
        v1: KEY1 ^ 0x646f_7261_6e64_6f6du64,
        v2: KEY0 ^ 0x6c79_6765_6e65_7261u64,
        v3: KEY1 ^ 0x7465_6462_7974_6573u64,
    }
}

/// One round.
#[verifier::opaque]
pub open spec fn sip_round(s: SipState) -> SipState {
    let a0 = s.v0.wrapping_add(s.v1);
    let a1 = rotated(s.v1, 13) ^ a0;
    let b0 = rotated(a0, 32);
    let a2 = s.v2.wrapping_add(s.v3);
    let a3 = rotated(s.v3, 16) ^ a2;
    let c0 = b0.wrapping_add(a3);
    let b3 = rotated(a3, 21) ^ c0;
    let b2 = a2.wrapping_add(a1);
    let b1 = rotated(a1, 17) ^ b2;
    SipState { v0: c0, v1: b1, v2: rotated(b2, 32), v3: b3 }
}

/// The state after one block.
#[verifier::opaque]
pub open spec fn sip_absorb(s: SipState, m: u64) -> SipState {
    let t = sip_round(SipState { v3: s.v3 ^ m, ..s });
    SipState { v0: t.v0 ^ m, ..t }
}

/// Up to eight bytes as a word, the first byte lowest.
pub open spec fn packed(bytes: Seq<u8>) -> u64
    decreases bytes.len(),
{
    if bytes.len() == 0 {
        0
    } else {
        packed(bytes.drop_last()) | ((bytes.last() as u64) << ((8 * (bytes.len() - 1)) as u64))
    }
}

/// The state after the whole blocks of a message.
pub open spec fn sip_blocks(message: Seq<u8>) -> SipState
    decreases message.len(),
{
    if message.len() < 8 {
        sip_start()
    } else if message.len() % 8 != 0 {
        sip_blocks(message.drop_last())
    } else {
        sip_absorb(
            sip_blocks(message.take(message.len() - 8)),
            packed(message.skip(message.len() - 8)),
        )
    }
}

/// The bytes of a message after its whole blocks.
pub open spec fn sip_tail(message: Seq<u8>) -> Seq<u8> {
    message.skip(message.len() - message.len() % 8)
}

/// The hash of a message.
pub open spec fn sip_hash(message: Seq<u8>) -> u64 {
    let last = ((message.len() % 256) as u64) << 56u64 | packed(sip_tail(message));
    let s = sip_absorb(sip_blocks(message), last);
    let t = sip_round(sip_round(sip_round(SipState { v2: s.v2 ^ 0xff, ..s })));
    t.v0 ^ t.v1 ^ t.v2 ^ t.v3
}

/// A word's eight bytes, the lowest first.
pub open spec fn word_bytes(x: u64) -> Seq<u8> {
    seq![
        (x % 256) as u8,
        (x / 0x100 % 256) as u8,
        (x / 0x1_0000 % 256) as u8,
        (x / 0x100_0000 % 256) as u8,
        (x / 0x1_0000_0000 % 256) as u8,
        (x / 0x100_0000_0000 % 256) as u8,
        (x / 0x1_0000_0000_0000 % 256) as u8,
        (x / 0x100_0000_0000_0000 % 256) as u8,
    ]
}

fn rotate_left(x: u64, by: u64) -> (r: u64)
    requires
        0 < by < 64,
    ensures
        r == rotated(x, by),
{
    (x << by) | (x >> (64 - by))
}

fn split_word(x: u64) -> (r: Vec<u8>)
    ensures
        r@ == word_bytes(x),
{
    let mut r: Vec<u8> = Vec::new();
    r.push((x % 256) as u8);
    r.push((x / 0x100 % 256) as u8);
    r.push((x / 0x1_0000 % 256) as u8);
    r.push((x / 0x100_0000 % 256) as u8);
    r.push((x / 0x1_0000_0000 % 256) as u8);
    r.push((x / 0x100_0000_0000 % 256) as u8);
    r.push((x / 0x1_0000_0000_0000 % 256) as u8);
    r.push((x / 0x100_0000_0000_0000 % 256) as u8);
    assert(r@ =~= word_bytes(x));
    r
}

/// A streaming hasher.
pub struct SipHasher13 {
    state: SipState,
    tail: u64,
    ntail: u64,
    count: u8,
    written: Ghost<Seq<u8>>,
}

impl View for SipHasher13 {
    type V = Seq<u8>;

    closed spec fn view(&self) -> Seq<u8> {
        self.written@
    }
}

impl SipHasher13 {
    /// The fields are those of the bytes written.
    pub closed spec fn wf(&self) -> bool {
        &&& self.state == sip_blocks(self@)
        &&& self.tail == packed(sip_tail(self@))
        &&& self.ntail == self@.len() % 8
        &&& self.count == self@.len() % 256
    }

    /// A hasher that nothing was written to.
    pub fn new() -> (r: SipHasher13)
        ensures
            r.wf(),
            r@ == Seq::<u8>::empty(),
    {
        let state = SipState {
            v0: KEY0 ^ 0x736f_6d65_7073_6575,
            v1: KEY1 ^ 0x646f_7261_6e64_6f6d,
            v2: KEY0 ^ 0x6c79_6765_6e65_7261,
            v3: KEY1 ^ 0x7465_6462_7974_6573,
        };
        let r = SipHasher13 { state, tail: 0, ntail: 0, count: 0, written: Ghost(Seq::empty()) };
        assert(sip_tail(r@) =~= Seq::<u8>::empty());
        r
    }

    fn sip_round(s: SipState) -> (r: SipState)
        ensures
            r == sip_round(s),
    {
        reveal(sip_round);
        let a0: u64 = s.v0.wrapping_add(s.v1);
        let a1: u64 = rotate_left(s.v1, 13) ^ a0;
        let b0: u64 = rotate_left(a0, 32);
        let a2: u64 = s.v2.wrapping_add(s.v3);
        let a3: u64 = rotate_left(s.v3, 16) ^ a2;
        let c0: u64 = b0.wrapping_add(a3);
        let b3: u64 = rotate_left(a3, 21) ^ c0;
        let b2: u64 = a2.wrapping_add(a1);
        let b1: u64 = rotate_left(a1, 17) ^ b2;
        SipState { v0: c0, v1: b1, v2: rotate_left(b2, 32), v3: b3 }
    }

    fn absorb(s: SipState, m: u64) -> (r: SipState)
        ensures
            r == sip_absorb(s, m),
    {
        reveal(sip_absorb);
        let t = Self::sip_round(SipState { v0: s.v0, v1: s.v1, v2: s.v2, v3: s.v3 ^ m });
        SipState { v0: t.v0 ^ m, v1: t.v1, v2: t.v2, v3: t.v3 }
    }

    /// Writes one byte.
    pub fn write_u8(&mut self, b: u8)
        requires
            old(self).wf(),
        ensures
            final(self).wf(),
            final(self)@ == old(self)@.push(b),
    {
        let ghost before = self@;
        let ghost after = before.push(b);
        proof {
            let t = sip_tail(before);
            assert(after.drop_last() =~= before);
            assert(t.push(b).drop_last() =~= t);
            if before.len() % 8 == 7 {
                assert(after.take(after.len() - 8) =~= before.take(before.len() - 7));
                assert(after.skip(after.len() - 8) =~= t.push(b));
                lemma_blocks_prefix(before);
            } else {
                assert(sip_tail(after) =~= t.push(b));
            }
        }
        self.tail = self.tail | ((b as u64) << (8 * self.ntail));
        self.count = if self.count == 255 {
            0
        } else {
            self.count + 1
        };
        self.ntail = self.ntail + 1;
        if self.ntail == 8 {
            self.state = Self::absorb(self.state, self.tail);
            self.tail = 0;
            self.ntail = 0;
            assert(sip_tail(after) =~= Seq::<u8>::empty());
        }
        self.written = Ghost(after);
    }

    /// Writes a run of bytes.
    pub fn write(&mut self, message: &[u8])
        requires
            old(self).wf(),
        ensures
            final(self).wf(),
            final(self)@ == old(self)@ + message@,
    {
        let mut i: usize = 0;
        while i < message.len()
            invariant
                i <= message@.len(),
                self.wf(),
                self@ =~= old(self)@ + message@.take(i as int),
            decreases message@.len() - i,
        {
            self.write_u8(message[i]);
            i = i + 1;
        }
        assert(message@.take(i as int) =~= message@);
    }

    /// Writes a word, the lowest byte first.
    pub fn write_u64(&mut self, x: u64)
        requires
            old(self).wf(),
        ensures
            final(self).wf(),
            final(self)@ == old(self)@ + word_bytes(x),
    {
        let bytes = split_word(x);
        self.write(bytes.as_slice());
    }

    /// The hash of what was written.
    pub fn finish(&self) -> (r: u64)
        requires
            self.wf(),
        ensures
            r == sip_hash(self@),
    {
        let last: u64 = ((self.count as u64) << 56u64) | self.tail;
        let s = Self::absorb(self.state, last);
        let a = Self::sip_round(SipState { v0: s.v0, v1: s.v1, v2: s.v2 ^ 0xff, v3: s.v3 });
        let t = Self::sip_round(Self::sip_round(a));
        t.v0 ^ t.v1 ^ t.v2 ^ t.v3
    }
}

/// The bytes after the last whole block do not change the block state.
proof fn lemma_blocks_prefix(message: Seq<u8>)
    ensures
        sip_blocks(message) == sip_blocks(message.take(message.len() - message.len() % 8)),
    decreases message.len(),
{
    if message.len() % 8 != 0 {
        if message.len() > 8 {
            lemma_blocks_prefix(message.drop_last());
            assert(message.drop_last().take(message.len() - message.len() % 8) =~= message.take(
                message.len() - message.len() % 8,
            ));
        }
    } else {
        assert(message.take(message.len() as int) =~= message);
    }
}

} // verus!
