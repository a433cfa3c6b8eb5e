//! The length header of a framed datagram.
//!
//! A framed datagram starts with the length of its payload, written as an
//! unsigned 64-bit number in eight bytes, least significant byte first. The
//! payload follows directly.

use vstd::prelude::*;

verus! {

/// Number of bytes that the length header occupies.
pub const HEADER_LEN: usize = 8;

/// 256 raised to the power `n`.
pub open spec fn pow256(n: nat) -> nat
    decreases n,
{
    if n == 0 {
        1
    } else {
        256 * pow256((n - 1) as nat)
    }
}

/// The `width` least significant base-256 digits of `value`, least significant first.
pub open spec fn le_bytes(value: nat, width: nat) -> Seq<u8>
    decreases width,
{
    if width == 0 {
        Seq::empty()
    } else {
        seq![(value % 256) as u8] + le_bytes(value / 256, (width - 1) as nat)
    }
}

/// The number whose base-256 digits, least significant first, are `bytes`.
pub open spec fn le_value(bytes: Seq<u8>) -> nat
    decreases bytes.len(),
{
    if bytes.len() == 0 {
        0
    } else {
        bytes[0] as nat + 256 * le_value(bytes.skip(1))
    }
}

/// The header that announces a payload of `len` bytes.
pub open spec fn header_of(len: nat) -> Seq<u8> {
    le_bytes(len, HEADER_LEN as nat)
}

/// The length that the header of received bytes declares. Where fewer
/// bytes than a header arrived, the bytes that are missing count as zero.
pub open spec fn declared_len(bytes: Seq<u8>) -> nat {
    let width = if bytes.len() < HEADER_LEN {
        bytes.len() as int
    } else {
        HEADER_LEN as int
    };
    le_value(bytes.take(width))
}

/// `le_bytes` yields exactly `width` bytes.
pub proof fn lemma_le_bytes_len(value: nat, width: nat)
    ensures
        le_bytes(value, width).len() == width,
    decreases width,
{
    if width > 0 {
        lemma_le_bytes_len(value / 256, (width - 1) as nat);
    }
}

/// A sequence of `n` bytes denotes a number below 256 to the `n`.
pub proof fn lemma_le_value_bound(bytes: Seq<u8>)
    ensures
        le_value(bytes) < pow256(bytes.len()),
    decreases bytes.len(),
{
    if bytes.len() > 0 {
        lemma_le_value_bound(bytes.skip(1));
        let rest = le_value(bytes.skip(1));
        let top = pow256((bytes.len() - 1) as nat);
        assert(rest + 1 <= top);
        assert(256 * (rest + 1) <= 256 * top) by (nonlinear_arith)
            requires
                rest + 1 <= top,
        ;
    }
}

/// Decoding what was encoded gives the number back, provided it fits the width.
pub proof fn lemma_le_value_of_bytes(value: nat, width: nat)
    requires
        value < pow256(width),
    ensures
        le_value(le_bytes(value, width)) == value,
    decreases width,
{
    if width > 0 {
        let low = seq![(value % 256) as u8];
        let high = le_bytes(value / 256, (width - 1) as nat);
        let top = pow256((width - 1) as nat);
        assert(value / 256 < top) by (nonlinear_arith)
            requires
                value < 256 * top,
        ;
        lemma_le_value_of_bytes(value / 256, (width - 1) as nat);
        assert((low + high).skip(1) =~= high);
        assert((low + high)[0] == (value % 256) as u8);
        assert(value == (value % 256) + 256 * (value / 256)) by (nonlinear_arith);
    }
}

/// Encoding the number that a byte sequence denotes gives the sequence back.
pub proof fn lemma_le_bytes_of_value(bytes: Seq<u8>)
    ensures
        le_bytes(le_value(bytes), bytes.len()) == bytes,
    decreases bytes.len(),
{
    if bytes.len() > 0 {
        let first = bytes[0] as nat;
        let rest = le_value(bytes.skip(1));
        lemma_le_bytes_of_value(bytes.skip(1));
        assert((first + 256 * rest) % 256 == first && (first + 256 * rest) / 256 == rest)
            by (nonlinear_arith)
            requires
                first < 256,
        ;
        assert(seq![bytes[0]] + bytes.skip(1) =~= bytes);
    } else {
        assert(le_bytes(0, 0) =~= bytes);
    }
}

/// Trailing zero bytes do not change the number that a sequence denotes.
pub proof fn lemma_le_value_zero_padded(bytes: Seq<u8>, zeros: Seq<u8>)
    requires
        forall|i: int| 0 <= i < zeros.len() ==> zeros[i] == 0u8,
    ensures
        le_value(bytes + zeros) == le_value(bytes),
    decreases bytes.len() + zeros.len(),
{
    if bytes.len() > 0 {
        assert((bytes + zeros).skip(1) =~= bytes.skip(1) + zeros);
        lemma_le_value_zero_padded(bytes.skip(1), zeros);
    } else if zeros.len() > 0 {
        assert((bytes + zeros).skip(1) =~= Seq::<u8>::empty() + zeros.skip(1));
        lemma_le_value_zero_padded(Seq::empty(), zeros.skip(1));
    } else {
        assert(bytes + zeros =~= bytes);
    }
}

/// `pow256` grows with its argument.
pub proof fn lemma_pow256_monotonic(m: nat, n: nat)
    requires
        m <= n,
    ensures
        pow256(m) <= pow256(n),
        pow256(m) >= 1,
    decreases n,
{
    if m < n {
        lemma_pow256_monotonic(m, (n - 1) as nat);
    } else if n > 0 {
        lemma_pow256_monotonic((m - 1) as nat, (n - 1) as nat);
    }
}

/// Eight bytes hold exactly the unsigned 64-bit numbers.
pub proof fn lemma_pow256_header()
    ensures
        pow256(HEADER_LEN as nat) == 0x1_0000_0000_0000_0000,
{
    reveal_with_fuel(pow256, 9);
}

/// Writes `len` as a length header.
pub fn encode_header(len: u64) -> (header: Vec<u8>)
    ensures
        header@ == header_of(len as nat),
        header@.len() == HEADER_LEN,
{
    let mut header: Vec<u8> = Vec::new();
    let mut rest: u64 = len;
    let mut i: usize = 0;
    while i < HEADER_LEN
        invariant
            i <= HEADER_LEN,
            header@.len() == i,
            header@ + le_bytes(rest as nat, (HEADER_LEN - i) as nat) == header_of(len as nat),
        decreases HEADER_LEN - i,
    {
        let digit: u8 = (rest % 256) as u8;
        proof {
            let tail = le_bytes((rest / 256) as nat, (HEADER_LEN - i - 1) as nat);
            assert(le_bytes(rest as nat, (HEADER_LEN - i) as nat) == seq![digit] + tail);
            assert(header@.push(digit) + tail =~= header@ + (seq![digit] + tail));
        }
        header.push(digit);
        rest = rest / 256;
        i = i + 1;
    }
    proof {
        assert(le_bytes(rest as nat, 0) =~= Seq::<u8>::empty());
        assert(header@ + Seq::<u8>::empty() =~= header@);
    }
    header
}

/// Reads the length that the header at the start of `bytes` declares.
pub fn decode_header(bytes: &[u8]) -> (len: u64)
    ensures
        len == declared_len(bytes@),
{
    let width: usize = if bytes.len() < HEADER_LEN {
        bytes.len()
    } else {
        HEADER_LEN
    };
    let ghost header = bytes@.take(width as int);
    let mut len: u64 = 0;
    let mut i: usize = width;
    proof {
        assert(header.skip(i as int) =~= Seq::<u8>::empty());
    }
    while i > 0
        invariant
            i <= width <= HEADER_LEN,
            width <= bytes@.len(),
            header == bytes@.take(width as int),
            len == le_value(header.skip(i as int)),
        decreases i,
    {
        i = i - 1;
        proof {
            let tail = header.skip(i as int);
            assert(tail.skip(1) =~= header.skip(i + 1));
            assert(tail[0] == bytes@[i as int]);
            lemma_le_value_bound(tail);
            lemma_pow256_monotonic(tail.len(), HEADER_LEN as nat);
            lemma_pow256_header();
        }
        len = len * 256 + bytes[i] as u64;
    }
    proof {
        assert(header.skip(0) =~= header);
    }
    len
}

} // verus!
