use vstd::prelude::*;

verus! {

/// Big-endian encoding of `n` on `width` bytes (higher bytes dropped).
pub open spec fn be_bytes(n: nat, width: nat) -> Seq<u8>
    decreases width,
{
    if width == 0 {
        Seq::empty()
    } else {
        be_bytes(n / 256, (width - 1) as nat).push((n % 256) as u8)
    }
}

/// The number that a big-endian byte string denotes.
pub open spec fn be_value(s: Seq<u8>) -> nat
    decreases s.len(),
{
    if s.len() == 0 {
        0
    } else {
        be_value(s.drop_last()) * 256 + s.last() as nat
    }
}

pub proof fn lemma_be_bytes_len(n: nat, width: nat)
    ensures
        be_bytes(n, width).len() == width,
    decreases width,
{
    if width > 0 {
        lemma_be_bytes_len(n / 256, (width - 1) as nat);
    }
}

pub proof fn lemma_be_value_bound(s: Seq<u8>)
    ensures
        be_value(s) < pow256(s.len() as nat),
    decreases s.len(),
{
    if s.len() > 0 {
        lemma_be_value_bound(s.drop_last());
        let a = be_value(s.drop_last());
        let p = pow256((s.len() - 1) as nat);
        let l = s.last() as nat;
        assert(a * 256 + l < p * 256) by (nonlinear_arith)
            requires a < p, l < 256;
    }
}

pub open spec fn pow256(k: nat) -> nat
    decreases k,
{
    if k == 0 { 1 } else { 256 * pow256((k - 1) as nat) }
}

/// Appends the big-endian encoding of `n` on `width` bytes.
pub fn push_be(out: &mut Vec<u8>, n: u64, width: usize)
    ensures
        final(out)@ == old(out)@ + be_bytes(n as nat, width as nat),
    decreases width,
{
    if width == 0 {
        assert(old(out)@ + be_bytes(n as nat, 0) =~= old(out)@);
    } else {
        push_be(out, n / 256, width - 1);
        out.push((n % 256) as u8);
        assert(final(out)@ =~= old(out)@ + be_bytes(n as nat, width as nat));
    }
}

/// Reads `width` bytes from `b` at `start` as a big-endian number.
pub fn read_be(b: &[u8], start: usize, width: usize) -> (r: u64)
    requires
        width <= 8,
        start + width <= b@.len(),
    ensures
        r as nat == be_value(b@.subrange(start as int, start + width)),
{
    let blen: usize = b.len();
    let mut acc: u64 = 0;
    let mut i: usize = 0;
    while i < width
        invariant
            blen == b@.len(),
            width <= 8,
            start + width <= b@.len(),
            i <= width,
            acc as nat == be_value(b@.subrange(start as int, start + i)),
        decreases width - i,
    {
        proof {
            let s = b@.subrange(start as int, start + i + 1);
            assert(s.drop_last() =~= b@.subrange(start as int, start + i));
            lemma_be_value_bound(b@.subrange(start as int, start + i));
            lemma_pow256_le(i as nat, 7);
        }
        proof {
            reveal_with_fuel(pow256, 8);
        }
        assert(pow256(7) == 72057594037927936nat);
        assert(start + i < b@.len());
        let byte = b[start + i];
        assert(acc * 256 + byte <= 0xffff_ffff_ffff_ffff) by (nonlinear_arith)
            requires acc < 72057594037927936u64, byte < 256;
        acc = acc * 256 + byte as u64;
        i = i + 1;
    }
    acc
}

pub proof fn lemma_pow256_le(a: nat, b: nat)
    requires
        a <= b,
    ensures
        pow256(a) <= pow256(b),
    decreases b,
{
    if a < b {
        lemma_pow256_le(a, (b - 1) as nat);
    }
}

/// Byte-wise equality of two byte strings.
pub fn bytes_eq(a: &[u8], b: &[u8]) -> (r: bool)
    ensures
        r == (a@ == b@),
{
    if a.len() != b.len() {
        return false;
    }
    let mut i: usize = 0;
    while i < a.len()
        invariant
            a@.len() == b@.len(),
            i <= a@.len(),
            a@.subrange(0, i as int) == b@.subrange(0, i as int),
        decreases a@.len() - i,
    {
        if a[i] != b[i] {
            return false;
        }
        assert(a@.subrange(0, i + 1) =~= a@.subrange(0, i as int).push(a@[i as int]));
        assert(b@.subrange(0, i + 1) =~= b@.subrange(0, i as int).push(b@[i as int]));
        i = i + 1;
    }
    assert(a@ =~= a@.subrange(0, a@.len() as int));
    assert(b@ =~= b@.subrange(0, b@.len() as int));
    true
}

/// Appends `src` to `out`.
pub fn push_all(out: &mut Vec<u8>, src: &[u8])
    ensures
        final(out)@ == old(out)@ + src@,
{
    let mut i: usize = 0;
    while i < src.len()
        invariant
            i <= src@.len(),
            out@ == old(out)@ + src@.subrange(0, i as int),
        decreases src@.len() - i,
    {
        out.push(src[i]);
        i = i + 1;
        assert(out@ =~= old(out)@ + src@.subrange(0, i as int));
    }
    assert(src@.subrange(0, src@.len() as int) =~= src@);
}

/// The unsigned value of a 64-bit two's-complement integer.
pub open spec fn twos64(x: int) -> int {
    if x >= 0 { x } else { x + 0x1_0000_0000_0000_0000 }
}

/// The unsigned value of a 32-bit two's-complement integer.
pub open spec fn twos32(x: int) -> int {
    if x >= 0 { x } else { x + 0x1_0000_0000 }
}

/// `x` wrapped into the signed 32-bit range, as Rust's `as i32` does.
pub open spec fn wrap32(x: int) -> int {
    let m = x % 0x1_0000_0000;
    if m >= 0x8000_0000 { m - 0x1_0000_0000 } else { m }
}

/// The bits of `v` as an unsigned number.
pub fn i64_bits(v: i64) -> (r: u64)
    ensures
        r as int == twos64(v as int),
{
    if v >= 0 {
        v as u64
    } else {
        let shifted: i64 = v + i64::MAX + 1;
        shifted as u64 + 0x8000_0000_0000_0000u64
    }
}

/// The bits of `v` as an unsigned number.
pub fn i32_bits(v: i32) -> (r: u32)
    ensures
        r as int == twos32(v as int),
{
    if v >= 0 {
        v as u32
    } else {
        let shifted: i32 = v + i32::MAX + 1;
        shifted as u32 + 0x8000_0000u32
    }
}

/// The low byte of `v`, as Rust's `as u8` gives it.
pub fn low_byte(v: i64) -> (r: u8)
    ensures
        r as int == (v as int) % 256,
{
    let u = i64_bits(v);
    proof {
        vstd::arithmetic::div_mod::lemma_mod_multiples_vanish(72057594037927936, v as int, 256);
    }
    (u % 256) as u8
}

/// `v` wrapped into the signed 32-bit range, as Rust's `as i32` gives it.
pub fn wrap_i32(v: i64) -> (r: i32)
    ensures
        r as int == wrap32(v as int),
{
    let u = i64_bits(v);
    proof {
        vstd::arithmetic::div_mod::lemma_mod_multiples_vanish(0x1_0000_0000, v as int, 0x1_0000_0000);
    }
    let m: u64 = u % 0x1_0000_0000;
    if m >= 0x8000_0000 {
        (m as i64 - 0x1_0000_0000i64) as i32
    } else {
        m as i32
    }
}

/// Reading back an encoding gives the number, where it fits the width.
pub proof fn lemma_be_value_of_bytes(n: nat, width: nat)
    requires
        n < pow256(width),
    ensures
        be_value(be_bytes(n, width)) == n,
    decreases width,
{
    if width > 0 {
        let p = pow256((width - 1) as nat);
        assert(n / 256 < p) by (nonlinear_arith)
            requires n < 256 * p;
        lemma_be_value_of_bytes(n / 256, (width - 1) as nat);
        let b = be_bytes(n, width);
        assert(b.drop_last() =~= be_bytes(n / 256, (width - 1) as nat));
        assert((n / 256) * 256 + n % 256 == n) by (nonlinear_arith);
    } else {
        assert(pow256(0) == 1);
    }
}

/// The `len` bytes of `b` from `start`.
pub fn copy_range(b: &[u8], start: usize, len: usize) -> (r: Vec<u8>)
    requires
        start + len <= b@.len(),
    ensures
        r@ == b@.subrange(start as int, start + len),
{
    let blen: usize = b.len();
    let mut out: Vec<u8> = Vec::new();
    let mut i: usize = 0;
    while i < len
        invariant
            blen == b@.len(),
            start + len <= b@.len(),
            i <= len,
            out@ == b@.subrange(start as int, start + i),
        decreases len - i,
    {
        out.push(b[start + i]);
        i = i + 1;
        assert(out@ =~= b@.subrange(start as int, start + i));
    }
    out
}

/// Encoding the number that a byte string denotes, on as many bytes, gives
/// the byte string back.
pub proof fn lemma_be_round_trip(s: Seq<u8>)
    ensures
        be_bytes(be_value(s), s.len()) == s,
    decreases s.len(),
{
    if s.len() > 0 {
        let p = s.drop_last();
        lemma_be_round_trip(p);
        let a = be_value(p);
        let l = s.last() as nat;
        let v = a * 256 + l;
        assert(v / 256 == a && v % 256 == l) by (nonlinear_arith)
            requires v == a * 256 + l, l < 256;
        assert(be_bytes(v, s.len()) =~= s);
    }
}

} // verus!
