//! The VarInt encoding of the Java Edition protocol: a 32-bit value in
//! groups of seven bits, least significant first, the high bit of each byte
//! marking that another byte follows; at most five bytes.
use vstd::prelude::*;

verus! {

/// The bytes that encode an unsigned value, seven bits per byte, least
/// significant group first.
pub open spec fn varint_bytes(v: nat) -> Seq<u8>
    decreases v,
{
    if v < 128 {
        seq![v as u8]
    } else {
        seq![(v % 128 + 128) as u8] + varint_bytes(v / 128)
    }
}

/// The encoding of a signed value: that of its 32-bit two's complement.
pub open spec fn varint_encoding(value: i32) -> Seq<u8> {
    varint_bytes((value as u32) as nat)
}

/// 128 to the power `k`, for the five byte positions of a VarInt.
pub open spec fn place_value(k: nat) -> int {
    if k == 0 {
        1
    } else if k == 1 {
        128
    } else if k == 2 {
        16384
    } else if k == 3 {
        2097152
    } else {
        268435456
    }
}

/// A decoder part way through a VarInt: `count` bytes read, their seven-bit
/// groups summing to `acc`.
#[derive(Clone, Copy, Debug)]
pub struct VarIntState {
    pub acc: u64,
    pub count: u32,
}

/// What one more byte does to a VarInt decoder.
#[derive(Clone, Copy, Debug)]
pub enum VarIntProgress {
    /// The VarInt goes on; the decoder's new state.
    Pending(VarIntState),
    /// The VarInt ended with this byte; its value.
    Complete(i32),
    /// A fifth byte asked for a sixth: the value does not fit in 32 bits.
    TooLarge,
}

impl VarIntState {
    /// A state the decoder can be in: fewer than five bytes read, and their
    /// groups below `128^count`.
    pub open spec fn wf(&self) -> bool {
        self.count < 5 && 0 <= self.acc < place_value(self.count as nat)
    }
}

/// The decoder before any byte.
pub fn varint_start() -> (s: VarIntState)
    ensures
        s.acc == 0,
        s.count == 0,
        s.wf(),
{
    VarIntState { acc: 0, count: 0 }
}

/// The mathematical counterpart of [`VarIntProgress`].
pub enum VarIntProgressSpec {
    Pending(int, nat),
    Complete(i32),
    TooLarge,
}

/// The effect of one byte: its low seven bits join the value at the next
/// place; a clear high bit ends the VarInt, whose value is the low 32 bits
/// of the sum read as `i32`; a set high bit on the fifth byte is an error.
pub open spec fn varint_feed_spec(acc: int, count: nat, byte: u8) -> VarIntProgressSpec {
    let next = acc + (byte % 128) * place_value(count);
    if byte < 128 {
        VarIntProgressSpec::Complete(((next % 0x1_0000_0000) as u32) as i32)
    } else if count + 1 >= 5 {
        VarIntProgressSpec::TooLarge
    } else {
        VarIntProgressSpec::Pending(next, count + 1)
    }
}

impl VarIntProgress {
    /// The progress seen as numbers.
    pub open spec fn view_spec(self) -> VarIntProgressSpec {
        match self {
            VarIntProgress::Pending(s) => VarIntProgressSpec::Pending(s.acc as int, s.count as nat),
            VarIntProgress::Complete(v) => VarIntProgressSpec::Complete(v),
            VarIntProgress::TooLarge => VarIntProgressSpec::TooLarge,
        }
    }
}

/// Feeds one byte to a VarInt decoder.
pub fn varint_feed(state: VarIntState, byte: u8) -> (r: VarIntProgress)
    requires
        state.wf(),
    ensures
        r.view_spec() == varint_feed_spec(state.acc as int, state.count as nat, byte),
        r matches VarIntProgress::Pending(s) ==> s.wf(),
{
    let place: u64 = if state.count == 0 {
        1
    } else if state.count == 1 {
        128
    } else if state.count == 2 {
        16384
    } else if state.count == 3 {
        2097152
    } else {
        268435456
    };
    let group: u64 = (byte % 128) as u64;
    assert(group * place <= 127 * 268435456) by (nonlinear_arith)
        requires
            group <= 127,
            place <= 268435456,
    ;
    let next: u64 = state.acc + group * place;
    if byte < 128 {
        let low: u32 = (next % 0x1_0000_0000) as u32;
        VarIntProgress::Complete(low as i32)
    } else if state.count + 1 >= 5 {
        VarIntProgress::TooLarge
    } else {
        assert(next < place_value((state.count + 1) as nat)) by (nonlinear_arith)
            requires
                next == state.acc + group * place,
                state.acc < place,
                group <= 127,
                place_value((state.count + 1) as nat) == place * 128,
        ;
        VarIntProgress::Pending(VarIntState { acc: next, count: state.count + 1 })
    }
}

/// The outcome of decoding a VarInt at the start of a byte string.
#[derive(Clone, Copy, Debug, PartialEq, Eq, Structural)]
pub enum VarIntDecoded {
    /// The value and the number of bytes it took.
    Value(i32, usize),
    /// The bytes ran out before the VarInt ended.
    Incomplete,
    /// The VarInt went on past five bytes.
    TooLarge,
}

/// Decoding `bytes` from a decoder that has read `count` bytes summing to
/// `acc`.
pub open spec fn varint_decode_from(bytes: Seq<u8>, acc: int, count: nat) -> VarIntDecoded
    decreases bytes.len(),
{
    if bytes.len() == 0 {
        VarIntDecoded::Incomplete
    } else {
        match varint_feed_spec(acc, count, bytes[0]) {
            VarIntProgressSpec::Complete(v) => VarIntDecoded::Value(v, (count + 1) as usize),
            VarIntProgressSpec::TooLarge => VarIntDecoded::TooLarge,
            VarIntProgressSpec::Pending(a, c) => varint_decode_from(bytes.skip(1), a, c),
        }
    }
}

/// Decoding a VarInt at the start of `bytes`.
pub open spec fn varint_decode_spec(bytes: Seq<u8>) -> VarIntDecoded {
    varint_decode_from(bytes, 0, 0)
}

/// Decodes the VarInt at the start of `bytes`.
pub fn decode_varint(bytes: &[u8]) -> (r: VarIntDecoded)
    ensures
        r == varint_decode_spec(bytes@),
{
    let mut state = varint_start();
    let mut i: usize = 0;
    assert(bytes@.skip(0) =~= bytes@);
    while i < bytes.len()
        invariant
            state.wf(),
            i <= bytes.len(),
            state.count == i,
            varint_decode_spec(bytes@) == varint_decode_from(
                bytes@.skip(i as int),
                state.acc as int,
                state.count as nat,
            ),
        decreases bytes.len() - i,
    {
        let ghost rest = bytes@.skip(i as int);
        assert(rest[0] == bytes@[i as int]);
        match varint_feed(state, bytes[i]) {
            VarIntProgress::Complete(v) => {
                return VarIntDecoded::Value(v, i + 1);
            },
            VarIntProgress::TooLarge => {
                return VarIntDecoded::TooLarge;
            },
            VarIntProgress::Pending(s) => {
                state = s;
                i = i + 1;
                assert(rest.skip(1) =~= bytes@.skip(i as int));
            },
        }
    }
    VarIntDecoded::Incomplete
}

/// Appends the VarInt encoding of `value` to `buf`.
pub fn write_varint(buf: &mut Vec<u8>, value: i32)
    ensures
        final(buf)@ == old(buf)@ + varint_encoding(value),
{
    let mut v: u32 = value as u32;
    loop
        invariant
            buf@ + varint_bytes(v as nat) == old(buf)@ + varint_encoding(value),
        decreases v,
    {
        let ghost before = buf@;
        let ghost v0 = v;
        if v < 128 {
            buf.push(v as u8);
            assert(buf@ =~= before + varint_bytes(v0 as nat));
            return;
        }
        buf.push((v % 128 + 128) as u8);
        v = v / 128;
        assert(varint_bytes(v0 as nat) == seq![(v0 % 128 + 128) as u8] + varint_bytes(v as nat));
        assert(buf@ + varint_bytes(v as nat) =~= before + varint_bytes(v0 as nat));
    }
}

/// Encoding a value below `128^k` takes at most `k` bytes, and never none.
pub proof fn lemma_varint_length(v: nat, k: nat)
    requires
        1 <= k <= 5,
        v < place_value((k - 1) as nat) * 128,
    ensures
        1 <= varint_bytes(v).len() <= k,
    decreases v,
{
    if v >= 128 {
        assert(k >= 2);
        assert(v / 128 < place_value((k - 2) as nat) * 128);
        lemma_varint_length(v / 128, (k - 1) as nat);
    }
}

proof fn lemma_decode_bytes(v: nat, rest: Seq<u8>, acc: int, count: nat)
    requires
        count + varint_bytes(v).len() <= 5,
        0 <= acc,
    ensures
        varint_decode_from(varint_bytes(v) + rest, acc, count) == VarIntDecoded::Value(
            (((acc + v * place_value(count)) % 0x1_0000_0000) as u32) as i32,
            (count + varint_bytes(v).len()) as usize,
        ),
    decreases v,
{
    let bytes = varint_bytes(v) + rest;
    if v < 128 {
        assert(bytes[0] == v as u8);
        assert((v as u8) % 128 == v);
    } else {
        let b = (v % 128 + 128) as u8;
        assert(bytes[0] == b);
        assert(b % 128 == v % 128);
        let tail = varint_bytes(v / 128);
        assert(bytes.skip(1) =~= tail + rest);
        assert(varint_bytes(v).len() == 1 + tail.len());
        let next = acc + (v % 128) * place_value(count);
        assert(next >= 0) by (nonlinear_arith)
            requires
                acc >= 0,
                v % 128 >= 0,
                place_value(count) >= 1,
                next == acc + (v % 128) * place_value(count),
        ;
        lemma_decode_bytes(v / 128, rest, next, count + 1);
        assert(place_value(count + 1) == place_value(count) * 128);
        assert(next + (v / 128) * place_value(count + 1) == acc + v * place_value(count))
            by (nonlinear_arith)
            requires
                next == acc + (v % 128) * place_value(count),
                place_value(count + 1) == place_value(count) * 128,
                v == (v / 128) * 128 + v % 128,
        ;
    }
}

/// Decoding the encoding of a value gives back the value and the length of
/// the encoding, whatever bytes follow; the encoding takes one to five
/// bytes.
pub proof fn lemma_varint_roundtrip(value: i32, rest: Seq<u8>)
    ensures
        1 <= varint_encoding(value).len() <= 5,
        varint_decode_spec(varint_encoding(value) + rest) == VarIntDecoded::Value(
            value,
            varint_encoding(value).len() as usize,
        ),
{
    let u = (value as u32) as nat;
    lemma_varint_length(u, 5);
    lemma_decode_bytes(u, rest, 0, 0);
    assert(((value as u32) as i32) == value) by (bit_vector);
    assert((u % 0x1_0000_0000) == u);
}

} // verus!
