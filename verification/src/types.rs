//! Primitive wire types of the CQL binary protocol: big-endian integers
//! of explicit widths, variable-length integers, and the length-prefixed
//! string and byte-blob shapes.

use vstd::prelude::*;
use crate::error::DecodeError;

verus! {

/// 256 to the power `n`.
pub open spec fn pow256(n: nat) -> nat
    decreases n,
{
    if n == 0 {
        1
    } else {
        256 * pow256((n - 1) as nat)
    }
}

/// Big-endian byte string of the unsigned value `v`, exactly `width` bytes
/// long (most significant byte first); `v` is taken modulo 256^width.
pub open spec fn be_bytes(v: nat, width: nat) -> Seq<u8>
    decreases width,
{
    if width == 0 {
        seq![]
    } else {
        be_bytes(v / 256, (width - 1) as nat) + seq![(v % 256) as u8]
    }
}

/// Unsigned value of a big-endian byte string.
pub open spec fn be_val(s: Seq<u8>) -> nat
    decreases s.len(),
{
    if s.len() == 0 {
        0
    } else {
        (be_val(s.drop_last()) * 256 + s.last()) as nat
    }
}

/// Signed (two's-complement) value of a big-endian byte string.
pub open spec fn be_ival(s: Seq<u8>) -> int {
    if s.len() > 0 && s[0] >= 0x80 {
        be_val(s) - pow256(s.len())
    } else {
        be_val(s) as int
    }
}

pub proof fn lemma_pow256_pos(n: nat)
    ensures
        pow256(n) >= 1,
    decreases n,
{
    if n > 0 {
        lemma_pow256_pos((n - 1) as nat);
    }
}

pub proof fn lemma_be_bytes_len(v: nat, width: nat)
    ensures
        be_bytes(v, width).len() == width,
    decreases width,
{
    if width > 0 {
        lemma_be_bytes_len(v / 256, (width - 1) as nat);
    }
}

/// The value of the encoding of `v` is `v` modulo 256^width.
pub proof fn lemma_be_bytes_val(v: nat, width: nat)
    ensures
        be_val(be_bytes(v, width)) == v % pow256(width),
    decreases width,
{
    lemma_be_bytes_len(v, width);
    if width == 0 {
        assert(v % 1 == 0) by (nonlinear_arith);
    } else {
        let w1 = (width - 1) as nat;
        lemma_be_bytes_val(v / 256, w1);
        lemma_be_bytes_len(v / 256, w1);
        let s = be_bytes(v, width);
        assert(s.drop_last() =~= be_bytes(v / 256, w1));
        assert(s.last() == (v % 256) as u8);
        lemma_pow256_pos(w1);
        vstd::arithmetic::div_mod::lemma_mod_breakdown(v as int, 256, pow256(w1) as int);
    }
}

pub proof fn lemma_pow256_mono(a: nat, b: nat)
    ensures
        a <= b ==> pow256(a) <= pow256(b),
    decreases b,
{
    if b > 0 && a <= b {
        if a == b {
        } else {
            lemma_pow256_mono(a, (b - 1) as nat);
            lemma_pow256_pos((b - 1) as nat);
        }
    }
}

/// The value of a byte string is below 256^len.
pub proof fn lemma_be_val_bound(s: Seq<u8>)
    ensures
        be_val(s) < pow256(s.len()),
    decreases s.len(),
{
    if s.len() > 0 {
        lemma_be_val_bound(s.drop_last());
    }
}

/// Appending one byte multiplies the value by 256 and adds the byte.
pub proof fn lemma_be_val_push(s: Seq<u8>, b: u8)
    ensures
        be_val(s.push(b)) == be_val(s) * 256 + b,
{
    assert(s.push(b).drop_last() =~= s);
}

/// The value decomposed around the most significant byte.
pub proof fn lemma_be_val_first(s: Seq<u8>)
    requires
        s.len() >= 1,
    ensures
        be_val(s) == s[0] * pow256((s.len() - 1) as nat) + be_val(s.drop_first()),
    decreases s.len(),
{
    if s.len() == 1 {
        assert(s.drop_last() =~= Seq::<u8>::empty());
        assert(s.drop_first() =~= Seq::<u8>::empty());
        assert(be_val(Seq::<u8>::empty()) == 0);
        assert(be_val(s) == s[0]);
        assert(pow256(0) == 1);
        assert(s[0] * pow256(0) == s[0]) by (nonlinear_arith)
            requires pow256(0) == 1;
    } else {
        let d = s.drop_last();
        lemma_be_val_first(d);
        assert(d.drop_first() =~= s.drop_first().drop_last());
        assert(s.drop_first().last() == s.last());
        let w = (s.len() - 2) as nat;
        let x = be_val(s.drop_first().drop_last());
        let h = s[0] as nat;
        let t = s.last() as nat;
        assert(be_val(s) == be_val(d) * 256 + t);
        assert(be_val(d) == h * pow256(w) + x);
        assert((h * pow256(w) + x) * 256 == h * (256 * pow256(w)) + x * 256)
            by (nonlinear_arith);
        assert(pow256((s.len() - 1) as nat) == 256 * pow256(w));
        assert(s.drop_first().len() == s.len() - 1 >= 1);
        assert(be_val(s.drop_first()) == x * 256 + t);
        assert(be_val(s) == h * pow256((s.len() - 1) as nat) + be_val(s.drop_first()));
    }
}

/// The most significant byte is at least 0x80 exactly when the value
/// reaches half of 256^len.
pub proof fn lemma_be_val_msb(s: Seq<u8>)
    requires
        s.len() >= 1,
    ensures
        (s[0] >= 0x80) <==> 2 * be_val(s) >= pow256(s.len()),
{
    let w = (s.len() - 1) as nat;
    lemma_be_val_first(s);
    lemma_be_val_bound(s.drop_first());
    lemma_pow256_pos(w);
    if s[0] >= 0x80 {
        assert(s[0] * pow256(w) >= 128 * pow256(w)) by (nonlinear_arith)
            requires s[0] >= 128, pow256(w) >= 1;
    } else {
        assert(s[0] * pow256(w) <= 127 * pow256(w)) by (nonlinear_arith)
            requires s[0] <= 127, pow256(w) >= 1;
    }
}

/// 256 to the eighth power, as written on a machine word.
pub proof fn lemma_pow256_8()
    ensures
        pow256(1) == 0x100,
        pow256(2) == 0x1_0000,
        pow256(4) == 0x1_0000_0000,
        pow256(8) == 0x1_0000_0000_0000_0000,
        pow256(16) == 0x1_0000_0000_0000_0000_0000_0000_0000_0000,
{
    reveal_with_fuel(pow256, 17);
}

/// 256^n as a `u128`; defined for widths up to sixteen bytes.
pub fn pow256_exec(n: usize) -> (r: u128)
    requires
        n <= 8,
    ensures
        r as nat == pow256(n as nat),
{
    proof {
        lemma_pow256_8();
    }
    let mut r: u128 = 1;
    let mut i: usize = 0;
    while i < n
        invariant
            i <= n,
            n <= 8,
            r as nat == pow256(i as nat),
        decreases n - i,
    {
        proof {
            lemma_pow256_mono((i + 1) as nat, 8);
            lemma_pow256_8();
        }
        r = r * 256;
        i = i + 1;
    }
    r
}

/// Big-endian encoder shared by all fixed-width integer writers.
fn be_encode(v: u128, n: usize) -> (r: Vec<u8>)
    requires
        n <= 8,
        (v as nat) < pow256(n as nat),
    ensures
        r@ == be_bytes(v as nat, n as nat),
        r@.len() == n,
{
    let ghost v0 = v as nat;
    let mut cur = v;
    let mut out: Vec<u8> = Vec::new();
    let mut i: usize = 0;
    proof {
        assert(be_bytes(v0, n as nat) + out@ =~= be_bytes(v0, n as nat));
    }
    while i < n
        invariant
            i <= n,
            out@.len() == i,
            be_bytes(v0, n as nat) == be_bytes(cur as nat, (n - i) as nat) + out@,
        decreases n - i,
    {
        let b: u8 = (cur % 256) as u8;
        proof {
            let w1 = ((n - i) as nat - 1) as nat;
            assert(be_bytes(cur as nat, (n - i) as nat)
                == be_bytes((cur as nat) / 256, w1) + seq![b]);
            assert((be_bytes((cur as nat) / 256, w1) + seq![b]) + out@
                =~= be_bytes((cur as nat) / 256, w1) + (seq![b] + out@));
            assert(out@.insert(0, b) =~= seq![b] + out@);
        }
        out.insert(0, b);
        cur = cur / 256;
        i = i + 1;
    }
    proof {
        assert(be_bytes(cur as nat, 0) + out@ =~= out@);
    }
    out
}

/// Two's-complement big-endian byte string of the signed value `v`,
/// `w` bytes wide.
pub open spec fn be_ibytes(v: int, w: nat) -> Seq<u8> {
    be_bytes((v % (pow256(w) as int)) as nat, w)
}

/// `v` is representable in `w` bytes of two's complement.
pub open spec fn i_fits(v: int, w: nat) -> bool {
    -(pow256(w) as int) <= 2 * v < pow256(w) as int
}

/// A `w`-byte two's-complement encoding decodes back to its value.
pub proof fn lemma_be_ibytes_ival(v: int, w: nat)
    requires
        w >= 1,
        i_fits(v, w),
    ensures
        be_ibytes(v, w).len() == w,
        be_ival(be_ibytes(v, w)) == v,
        0 <= v % (pow256(w) as int) < pow256(w) as int,
{
    let p = pow256(w) as int;
    lemma_pow256_pos(w);
    let m = v % p;
    if v >= 0 {
        vstd::arithmetic::div_mod::lemma_small_mod(v as nat, pow256(w));
        assert(m == v);
    } else {
        vstd::arithmetic::div_mod::lemma_mod_add_multiples_vanish(v, p);
        vstd::arithmetic::div_mod::lemma_small_mod((v + p) as nat, pow256(w));
        assert(m == v + p);
    }
    let s = be_bytes(m as nat, w);
    lemma_be_bytes_len(m as nat, w);
    lemma_be_bytes_val(m as nat, w);
    vstd::arithmetic::div_mod::lemma_small_mod(m as nat, pow256(w));
    assert(be_val(s) == m);
    lemma_be_val_msb(s);
}

/// Encodes `value` as exactly `n` big-endian bytes.
///
/// # Wire shape
///
/// The protocol's fixed-width unsigned integers of one to eight bytes.
pub fn to_n_bytes(value: u64, n: usize) -> (r: Vec<u8>)
    requires
        1 <= n <= 8,
        (value as nat) < pow256(n as nat),
    ensures
        r@ == be_bytes(value as nat, n as nat),
        r@.len() == n,
        be_val(r@) == value,
{
    proof {
        lemma_be_bytes_val(value as nat, n as nat);
        vstd::arithmetic::div_mod::lemma_small_mod(value as nat, pow256(n as nat));
    }
    be_encode(value as u128, n)
}

/// Encodes `value` as exactly `n` big-endian two's-complement bytes.
pub fn i_to_n_bytes(value: i64, n: usize) -> (r: Vec<u8>)
    requires
        1 <= n <= 8,
        i_fits(value as int, n as nat),
    ensures
        r@ == be_ibytes(value as int, n as nat),
        r@.len() == n,
        be_ival(r@) == value,
{
    proof {
        lemma_pow256_pos(n as nat);
        lemma_pow256_mono(n as nat, 8);
        lemma_pow256_8();
        lemma_be_ibytes_ival(value as int, n as nat);
    }
    if value >= 0 {
        proof {
            vstd::arithmetic::div_mod::lemma_small_mod(value as nat, pow256(n as nat));
        }
        be_encode(value as u128, n)
    } else {
        let p = pow256_exec(n);
        let u = ((p as i128) + (value as i128)) as u128;
        proof {
            vstd::arithmetic::div_mod::lemma_mod_add_multiples_vanish(
                value as int,
                pow256(n as nat) as int,
            );
            vstd::arithmetic::div_mod::lemma_small_mod(
                (value + pow256(n as nat)) as nat,
                pow256(n as nat),
            );
        }
        be_encode(u, n)
    }
}

/// Decodes one to eight big-endian bytes as an unsigned integer.
pub fn from_bytes(bytes: &[u8]) -> (r: u64)
    requires
        1 <= bytes@.len() <= 8,
    ensures
        r as nat == be_val(bytes@),
{
    let mut acc: u64 = 0;
    let mut i: usize = 0;
    let n = bytes.len();
    proof {
        assert(bytes@.subrange(0, 0) =~= Seq::<u8>::empty());
    }
    while i < n
        invariant
            i <= n,
            n == bytes@.len(),
            n <= 8,
            acc as nat == be_val(bytes@.subrange(0, i as int)),
        decreases n - i,
    {
        proof {
            let pre = bytes@.subrange(0, i as int);
            lemma_be_val_bound(pre);
            lemma_pow256_mono((i + 1) as nat, 8);
            lemma_pow256_8();
            lemma_be_val_push(pre, bytes@[i as int]);
            assert(pre.push(bytes@[i as int]) =~= bytes@.subrange(0, i + 1));
        }
        acc = acc * 256 + (bytes[i] as u64);
        i = i + 1;
    }
    proof {
        assert(bytes@.subrange(0, n as int) =~= bytes@);
    }
    acc
}

/// Decodes one to eight big-endian bytes as a signed (two's-complement)
/// integer.
pub fn from_i_bytes(bytes: &[u8]) -> (r: i64)
    requires
        1 <= bytes@.len() <= 8,
    ensures
        r as int == be_ival(bytes@),
{
    let u = from_bytes(bytes);
    proof {
        lemma_be_val_bound(bytes@);
        lemma_be_val_msb(bytes@);
        lemma_pow256_mono(bytes@.len(), 8);
        lemma_pow256_8();
    }
    if bytes[0] >= 0x80 {
        let p = pow256_exec(bytes.len());
        ((u as i128) - (p as i128)) as i64
    } else {
        u as i64
    }
}

/// Decodes the first two bytes as a big-endian unsigned short.
pub fn from_u16_bytes(bytes: &[u8]) -> (r: u16)
    requires
        bytes@.len() >= 2,
    ensures
        r as nat == be_val(bytes@.subrange(0, 2)),
{
    let r: u16 = (bytes[0] as u16) * 256 + (bytes[1] as u16);
    proof {
        let s = bytes@.subrange(0, 2);
        assert(s.drop_last() =~= bytes@.subrange(0, 1));
        assert(bytes@.subrange(0, 1).drop_last() =~= Seq::<u8>::empty());
        assert(s.last() == bytes@[1]);
        assert(bytes@.subrange(0, 1).last() == bytes@[0]);
        assert(be_val(Seq::<u8>::empty()) == 0);
        assert(be_val(bytes@.subrange(0, 1)) == bytes@[0]);
        assert(be_val(s) == bytes@[0] * 256 + bytes@[1]);
    }
    r
}

/// Decodes the first two bytes as a big-endian signed short.
pub fn from_i16_bytes(bytes: &[u8]) -> (r: i16)
    requires
        bytes@.len() >= 2,
    ensures
        r as int == be_ival(bytes@.subrange(0, 2)),
{
    let u = from_u16_bytes(bytes);
    proof {
        lemma_pow256_8();
        let s = bytes@.subrange(0, 2);
        assert(s[0] == bytes@[0]);
        assert(s.drop_last() =~= bytes@.subrange(0, 1));
        assert(bytes@.subrange(0, 1).drop_last() =~= Seq::<u8>::empty());
        assert(bytes@.subrange(0, 1).last() == bytes@[0]);
        assert(s.last() == bytes@[1]);
        assert(be_val(Seq::<u8>::empty()) == 0);
        assert(be_val(bytes@.subrange(0, 1)) == bytes@[0]);
        assert(be_val(s) == bytes@[0] * 256 + bytes@[1]);
    }
    if bytes[0] >= 0x80 {
        ((u as i32) - 0x1_0000) as i16
    } else {
        u as i16
    }
}

/// Minimal-length big-endian two's-complement encoding of `n`: low byte
/// last, preceded by the encoding of the remaining high part, stopping as
/// soon as one byte carries both the value and the sign.
pub open spec fn varint_of(n: int) -> Seq<u8>
    decreases vstd::math::abs(n),
    via varint_of_decreases
{
    if -128 <= n < 128 {
        seq![(n % 256) as u8]
    } else {
        varint_of(n / 256) + seq![(n % 256) as u8]
    }
}

#[via_fn]
proof fn varint_of_decreases(n: int) {
    if !(-128 <= n < 128) {
        lemma_div256_shrinks(n);
    }
}

/// Euclidean division by 256 moves any value outside one signed byte
/// strictly closer to zero.
proof fn lemma_div256_shrinks(n: int)
    requires
        n < -128 || n >= 128,
    ensures
        vstd::math::abs(n / 256) < vstd::math::abs(n),
        n >= 128 ==> 0 <= n / 256 < n,
        n < -128 ==> n < n / 256 <= -1,
{
    vstd::arithmetic::div_mod::lemma_fundamental_div_mod(n, 256);
    let q = n / 256;
    let b = n % 256;
    assert(0 <= b < 256);
    if n >= 128 {
        assert(256 * q == n - b);
        if q < 0 {
            assert(256 * q < 0) by (nonlinear_arith)
                requires q < 0;
            assert(false);
        }
        if q >= n {
            assert(256 * q >= 256 * n) by (nonlinear_arith)
                requires q >= n;
            assert(false);
        }
    } else {
        if q >= 0 {
            assert(256 * q >= 0) by (nonlinear_arith)
                requires q >= 0;
            assert(false);
        }
        if q <= n {
            assert(256 * q <= 256 * n) by (nonlinear_arith)
                requires q <= n;
            assert(false);
        }
    }
}

/// A byte string is in canonical varint form: no leading 0x00 run before
/// a byte under 0x80, and no leading 0xFF run before a byte of 0x80 or
/// more.
pub open spec fn varint_minimal(s: Seq<u8>) -> bool {
    &&& s.len() >= 1
    &&& (s.len() >= 2 ==> !(s[0] == 0x00 && s[1] < 0x80))
    &&& (s.len() >= 2 ==> !(s[0] == 0xFF && s[1] >= 0x80))
}

proof fn lemma_varint_of_len_pos(n: int)
    ensures
        varint_of(n).len() >= 1,
    decreases vstd::math::abs(n),
{
    if !(-128 <= n < 128) {
        lemma_div256_shrinks(n);
        lemma_varint_of_len_pos(n / 256);
    }
}

/// The signed value of a byte string, decomposed around its last byte.
pub proof fn lemma_be_ival_snoc(s: Seq<u8>)
    requires
        s.len() >= 2,
    ensures
        be_ival(s) == be_ival(s.drop_last()) * 256 + s.last(),
{
    let d = s.drop_last();
    assert(s[0] == d[0]);
    assert(be_val(s) == be_val(d) * 256 + s.last());
    if s[0] >= 0x80 {
        assert(pow256(s.len()) == 256 * pow256(d.len()));
        assert((be_val(d) - pow256(d.len())) * 256 == be_val(d) * 256 - 256 * pow256(d.len()))
            by (nonlinear_arith);
    }
}

/// Every varint decodes back to the integer it encodes.
pub proof fn lemma_varint_of_ival(n: int)
    ensures
        be_ival(varint_of(n)) == n,
    decreases vstd::math::abs(n),
{
    if -128 <= n < 128 {
        let s = varint_of(n);
        assert(s.drop_last() =~= Seq::<u8>::empty());
        assert(be_val(Seq::<u8>::empty()) == 0);
        if n >= 0 {
            vstd::arithmetic::div_mod::lemma_small_mod(n as nat, 256);
            assert(s[0] == n);
        } else {
            vstd::arithmetic::div_mod::lemma_mod_add_multiples_vanish(n, 256);
            vstd::arithmetic::div_mod::lemma_small_mod((n + 256) as nat, 256);
            assert(s[0] == n + 256);
            assert(s[0] >= 0x80);
            lemma_pow256_8();
        }
    } else {
        lemma_div256_shrinks(n);
        lemma_varint_of_ival(n / 256);
        lemma_varint_of_len_pos(n / 256);
        let q = n / 256;
        let b = (n % 256) as u8;
        let s = varint_of(n);
        assert(s =~= varint_of(q) + seq![b]);
        assert(s.drop_last() =~= varint_of(q));
        assert(s.last() == b);
        assert(s.len() >= 2);
        lemma_be_ival_snoc(s);
        vstd::arithmetic::div_mod::lemma_fundamental_div_mod(n, 256);
    }
}

/// Every varint is in canonical (minimal) form.
pub proof fn lemma_varint_of_minimal(n: int)
    ensures
        varint_minimal(varint_of(n)),
    decreases vstd::math::abs(n),
{
    lemma_varint_of_len_pos(n);
    if !(-128 <= n < 128) {
        lemma_div256_shrinks(n);
        lemma_varint_of_minimal(n / 256);
        lemma_varint_of_len_pos(n / 256);
        let q = n / 256;
        let b = (n % 256) as u8;
        let s = varint_of(n);
        assert(s =~= varint_of(q) + seq![b]);
        let h = varint_of(q);
        assert(s[0] == h[0]);
        if h.len() >= 2 {
            assert(s[1] == h[1]);
        } else {
            assert(s.len() == 2 && s[1] == b);
            if !(-128 <= q < 128) {
                lemma_div256_shrinks(q);
                lemma_varint_of_len_pos(q / 256);
                assert(varint_of(q).len() >= 2);
            }
            assert(-128 <= q < 128);
            vstd::arithmetic::div_mod::lemma_fundamental_div_mod(n, 256);
            if q >= 0 {
                vstd::arithmetic::div_mod::lemma_small_mod(q as nat, 256);
                assert(h[0] == q);
                if h[0] == 0x00 {
                    assert(n == n % 256);
                    assert(n >= 128);
                    assert(s[1] >= 0x80);
                }
            } else {
                vstd::arithmetic::div_mod::lemma_mod_add_multiples_vanish(q, 256);
                vstd::arithmetic::div_mod::lemma_small_mod((q + 256) as nat, 256);
                assert(h[0] == q + 256);
                if h[0] == 0xFF {
                    assert(q == -1);
                    assert(n == -256 + n % 256);
                    assert(n < -128);
                    assert(s[1] < 0x80);
                }
            }
        }
    }
}

/// Varints of `i64` values are at most eight bytes long.
#[verifier::rlimit(100)]
pub proof fn lemma_varint_of_len(n: int, w: nat)
    requires
        w >= 1,
        i_fits(n, w),
    ensures
        varint_of(n).len() <= w,
    decreases w,
{
    lemma_pow256_pos(w);
    if -128 <= n < 128 {
        lemma_varint_of_len_pos(n);
    } else {
        lemma_div256_shrinks(n);
        let q = n / 256;
        let p1 = pow256((w - 1) as nat) as int;
        assert(pow256(w) == 256 * pow256((w - 1) as nat));
        vstd::arithmetic::div_mod::lemma_fundamental_div_mod(n, 256);
        assert(i_fits(q, (w - 1) as nat)) by {
            assert(2 * n == 2 * (256 * q + n % 256));
            if 2 * q >= p1 {
                assert(2 * (256 * q) >= 256 * p1) by (nonlinear_arith)
                    requires 2 * q >= p1;
                assert(false);
            }
            if 2 * q < -p1 {
                assert(2 * (256 * q) < 256 * (-p1)) by (nonlinear_arith)
                    requires 2 * q < -p1;
                assert(false);
            }
        }
        lemma_varint_of_len(q, (w - 1) as nat);
    }
}

/// Encodes `value` as the protocol's variable-length integer: the
/// shortest big-endian two's-complement byte string with its value.
pub fn to_varint(value: i64) -> (r: Vec<u8>)
    ensures
        r@ == varint_of(value as int),
        be_ival(r@) == value,
        varint_minimal(r@),
        1 <= r@.len() <= 8,
    decreases vstd::math::abs(value as int),
{
    proof {
        lemma_varint_of_ival(value as int);
        lemma_varint_of_minimal(value as int);
        lemma_pow256_8();
        lemma_varint_of_len(value as int, 8);
    }
    if -128 <= value && value < 128 {
        let b: u8 = if value >= 0 {
            proof {
                vstd::arithmetic::div_mod::lemma_small_mod(value as nat, 256);
            }
            value as u8
        } else {
            proof {
                vstd::arithmetic::div_mod::lemma_mod_add_multiples_vanish(value as int, 256);
                vstd::arithmetic::div_mod::lemma_small_mod((value + 256) as nat, 256);
            }
            (value + 256) as u8
        };
        let mut out: Vec<u8> = Vec::new();
        out.push(b);
        proof {
            assert(out@ =~= varint_of(value as int));
        }
        out
    } else {
        let (q, b): (i64, u8) = if value >= 0 {
            let u = value as u64;
            ((u / 256) as i64, (u % 256) as u8)
        } else {
            let m = (-(value as i128)) as u128;
            let rm = m % 256;
            proof {
                vstd::arithmetic::div_mod::lemma_fundamental_div_mod(m as int, 256);
            }
            if rm == 0 {
                (-((m / 256) as i64), 0u8)
            } else {
                (-((m / 256) as i64) - 1, (256 - rm) as u8)
            }
        };
        proof {
            vstd::arithmetic::div_mod::lemma_fundamental_div_mod_converse(
                value as int,
                256,
                q as int,
                b as int,
            );
            lemma_div256_shrinks(value as int);
        }
        let mut out = to_varint(q);
        out.push(b);
        proof {
            assert(out@ =~= varint_of(q as int) + seq![b]);
        }
        out
    }
}
pub fn to_short(value: i16) -> (r: Vec<u8>)
    ensures
        r@ == be_ibytes(value as int, 2),
        r@.len() == 2,
        be_ival(r@) == value,
{
    proof {
        lemma_pow256_8();
    }
    i_to_n_bytes(value as i64, 2)
}

/// Encodes an `i32` as the protocol's four-byte `int`.
pub fn to_int(value: i32) -> (r: Vec<u8>)
    ensures
        r@ == be_ibytes(value as int, 4),
        r@.len() == 4,
        be_ival(r@) == value,
{
    proof {
        lemma_pow256_8();
    }
    i_to_n_bytes(value as i64, 4)
}

/// Encodes an `i64` as the protocol's eight-byte `long`.
pub fn to_bigint(value: i64) -> (r: Vec<u8>)
    ensures
        r@ == be_ibytes(value as int, 8),
        r@.len() == 8,
        be_ival(r@) == value,
{
    proof {
        lemma_pow256_8();
    }
    i_to_n_bytes(value, 8)
}

/// Encodes a `u16` as two big-endian bytes.
pub fn to_u_short(value: u16) -> (r: Vec<u8>)
    ensures
        r@ == be_bytes(value as nat, 2),
        r@.len() == 2,
        be_val(r@) == value,
{
    proof {
        lemma_pow256_8();
    }
    to_n_bytes(value as u64, 2)
}

/// Encodes a `u32` as four big-endian bytes.
pub fn to_u(value: u32) -> (r: Vec<u8>)
    ensures
        r@ == be_bytes(value as nat, 4),
        r@.len() == 4,
        be_val(r@) == value,
{
    proof {
        lemma_pow256_8();
    }
    to_n_bytes(value as u64, 4)
}

/// Encodes a `u64` as eight big-endian bytes.
pub fn to_u_big(value: u64) -> (r: Vec<u8>)
    ensures
        r@ == be_bytes(value as nat, 8),
        r@.len() == 8,
        be_val(r@) == value,
{
    proof {
        lemma_pow256_8();
    }
    to_n_bytes(value, 8)
}

/// The signed value of any byte string is representable in its own width.
pub proof fn lemma_be_ival_fits(s: Seq<u8>)
    ensures
        i_fits(be_ival(s), s.len()),
        be_ival(s) >= 0 ==> be_ival(s) == be_val(s),
{
    lemma_be_val_bound(s);
    lemma_pow256_pos(s.len());
    if s.len() >= 1 {
        lemma_be_val_msb(s);
    }
}

/// Reads `len` bytes at `*pos`, advancing the position; `None` (with the
/// position unchanged) exactly when fewer than `len` bytes remain.
pub fn cursor_next_value(bytes: &[u8], pos: &mut usize, len: usize) -> (r: Option<Vec<u8>>)
    ensures
        *old(pos) + len <= bytes@.len() ==> (r matches Some(v) && v@ == bytes@.subrange(
            *old(pos) as int,
            *old(pos) + len,
        ) && *final(pos) == *old(pos) + len),
        *old(pos) + len > bytes@.len() ==> (r is None && *final(pos) == *old(pos)),
{
    let blen = bytes.len();
    if blen < *pos || blen - *pos < len {
        return None;
    }
    let start = *pos;
    let mut out: Vec<u8> = Vec::new();
    let mut i: usize = 0;
    proof {
        assert(out@ =~= bytes@.subrange(start as int, start as int));
    }
    while i < len
        invariant
            i <= len,
            start + len <= blen,
            blen == bytes@.len(),
            out@ == bytes@.subrange(start as int, (start + i) as int),
        decreases len - i,
    {
        proof {
            assert(bytes@.subrange(start as int, (start + i) as int).push(
                bytes@[(start + i) as int],
            ) =~= bytes@.subrange(start as int, (start + i + 1) as int));
        }
        out.push(bytes[start + i]);
        i = i + 1;
    }
    *pos = start + len;
    Some(out)
}

/// Reads exactly `buff.len()` bytes at `*pos` into `buff`, advancing the
/// position; `false` (with buffer and position unchanged) exactly when
/// fewer bytes remain.
pub fn cursor_fill_value(bytes: &[u8], pos: &mut usize, buff: &mut Vec<u8>) -> (ok: bool)
    ensures
        ok <==> *old(pos) + old(buff)@.len() <= bytes@.len(),
        ok ==> final(buff)@ == bytes@.subrange(
            *old(pos) as int,
            *old(pos) + old(buff)@.len(),
        ) && *final(pos) == *old(pos) + old(buff)@.len(),
        !ok ==> final(buff)@ == old(buff)@ && *final(pos) == *old(pos),
{
    let n = buff.len();
    let blen = bytes.len();
    if blen < *pos || blen - *pos < n {
        return false;
    }
    let start = *pos;
    buff.clear();
    let mut i: usize = 0;
    proof {
        assert(buff@ =~= bytes@.subrange(start as int, start as int));
    }
    while i < n
        invariant
            i <= n,
            start + n <= blen,
            blen == bytes@.len(),
            buff@ == bytes@.subrange(start as int, (start + i) as int),
        decreases n - i,
    {
        proof {
            assert(bytes@.subrange(start as int, (start + i) as int).push(
                bytes@[(start + i) as int],
            ) =~= bytes@.subrange(start as int, (start + i + 1) as int));
        }
        buff.push(bytes[start + i]);
        i = i + 1;
    }
    *pos = start + n;
    true
}

/// Relies on `String::from_utf8`: it succeeds exactly on valid UTF-8
/// input, and the returned string holds those very bytes.
#[verifier::external_body]
fn string_from_utf8(v: Vec<u8>) -> (r: Option<String>)
    ensures
        r is Some <==> vstd::utf8::valid_utf8(v@),
        r matches Some(s) ==> vstd::utf8::encode_utf8(s@) == v@,
{
    String::from_utf8(v).ok()
}

/// Wire form of the protocol's `[string]`: a two-byte length followed by
/// that many UTF-8 bytes.
pub open spec fn cstring_bytes(s: Seq<char>) -> Seq<u8> {
    be_bytes(vstd::utf8::encode_utf8(s).len(), 2) + vstd::utf8::encode_utf8(s)
}

/// Parses a `[string]` at `pos`: the characters and the next position, or
/// nothing if the input is short or the body is not UTF-8.
pub open spec fn spec_parse_cstring(bytes: Seq<u8>, pos: int) -> Option<(Seq<char>, int)> {
    if 0 <= pos && pos + 2 <= bytes.len() {
        let l = be_val(bytes.subrange(pos, pos + 2)) as int;
        if pos + 2 + l <= bytes.len() {
            let body = bytes.subrange(pos + 2, pos + 2 + l);
            if vstd::utf8::valid_utf8(body) {
                Some((vstd::utf8::decode_utf8(body), pos + 2 + l))
            } else {
                None
            }
        } else {
            None
        }
    } else {
        None
    }
}

/// The protocol's `[string]`: a UTF-8 string written with a two-byte
/// length prefix.
#[derive(Debug, Clone)]
pub struct CString {
    string: String,
}

impl View for CString {
    type V = Seq<char>;

    closed spec fn view(&self) -> Seq<char> {
        self.string@
    }
}

impl CString {
    pub fn new(string: String) -> (r: CString)
        ensures
            r@ == string@,
    {
        CString { string }
    }

    /// Borrows the internal value as `str`.
    pub fn as_str(&self) -> (r: &str)
        ensures
            r@ == self@,
    {
        self.string.as_str()
    }

    /// Converts the internal value into a plain `String`.
    pub fn into_plain(self) -> (r: String)
        ensures
            r@ == self@,
    {
        self.string
    }

    /// Represents the internal value as a `String`.
    pub fn as_plain(&self) -> (r: String)
        ensures
            r@ == self@,
    {
        self.string.clone()
    }

    /// Writes the two-byte length and the UTF-8 bytes.
    pub fn as_bytes(&self) -> (r: Vec<u8>)
        requires
            vstd::utf8::encode_utf8(self@).len() <= u16::MAX,
        ensures
            r@ == cstring_bytes(self@),
    {
        let l = self.string.as_str().len();
        let mut v = to_u_short(l as u16);
        v.extend_from_slice(self.string.as_str().as_bytes());
        v
    }

    /// Reads a `[string]` at `*pos`; on success the position moves past
    /// it, on failure the position is unchanged.
    pub fn from_cursor(bytes: &[u8], pos: &mut usize) -> (r: Result<CString, DecodeError>)
        ensures
            r matches Ok(c) ==> spec_parse_cstring(bytes@, *old(pos) as int) == Some(
                (c@, *final(pos) as int),
            ),
            r is Err ==> spec_parse_cstring(bytes@, *old(pos) as int) is None && *final(pos)
                == *old(pos),
            r matches Err(e) ==> (e == DecodeError::UnexpectedEnd || e == DecodeError::InvalidUtf8),
    {
        let mut cur = *pos;
        let lenv = match cursor_next_value(bytes, &mut cur, 2) {
            Some(v) => v,
            None => {
                return Err(DecodeError::UnexpectedEnd);
            },
        };
        proof {
            assert(lenv@.subrange(0, 2) =~= lenv@);
        }
        let l = from_u16_bytes(lenv.as_slice()) as usize;
        let body = match cursor_next_value(bytes, &mut cur, l) {
            Some(v) => v,
            None => {
                return Err(DecodeError::UnexpectedEnd);
            },
        };
        match string_from_utf8(body) {
            Some(s) => {
                proof {
                    vstd::utf8::encode_utf8_decode_utf8(s@);
                }
                *pos = cur;
                Ok(CString::new(s))
            },
            None => Err(DecodeError::InvalidUtf8),
        }
    }
}

/// Wire form of the protocol's `[long string]`: a four-byte length
/// followed by that many UTF-8 bytes.
pub open spec fn cstring_long_bytes(s: Seq<char>) -> Seq<u8> {
    be_bytes(vstd::utf8::encode_utf8(s).len(), 4) + vstd::utf8::encode_utf8(s)
}

/// Parses a `[long string]` at `pos`.
pub open spec fn spec_parse_cstring_long(bytes: Seq<u8>, pos: int) -> Option<(Seq<char>, int)> {
    if 0 <= pos && pos + 4 <= bytes.len() {
        let l = be_val(bytes.subrange(pos, pos + 4)) as int;
        if pos + 4 + l <= bytes.len() {
            let body = bytes.subrange(pos + 4, pos + 4 + l);
            if vstd::utf8::valid_utf8(body) {
                Some((vstd::utf8::decode_utf8(body), pos + 4 + l))
            } else {
                None
            }
        } else {
            None
        }
    } else {
        None
    }
}

/// The protocol's `[long string]`: a UTF-8 string written with a
/// four-byte length prefix.
#[derive(Debug, Clone)]
pub struct CStringLong {
    string: String,
}

impl View for CStringLong {
    type V = Seq<char>;

    closed spec fn view(&self) -> Seq<char> {
        self.string@
    }
}

impl CStringLong {
    pub fn new(string: String) -> (r: CStringLong)
        ensures
            r@ == string@,
    {
        CStringLong { string }
    }

    /// Borrows the internal value as `str`.
    pub fn as_str(&self) -> (r: &str)
        ensures
            r@ == self@,
    {
        self.string.as_str()
    }

    /// Converts the internal value into a plain `String`.
    pub fn into_plain(self) -> (r: String)
        ensures
            r@ == self@,
    {
        self.string
    }

    /// Writes the four-byte length and the UTF-8 bytes.
    pub fn as_bytes(&self) -> (r: Vec<u8>)
        requires
            vstd::utf8::encode_utf8(self@).len() <= i32::MAX,
        ensures
            r@ == cstring_long_bytes(self@),
    {
        let l = self.string.as_str().len();
        let mut v = to_u(l as u32);
        v.extend_from_slice(self.string.as_str().as_bytes());
        v
    }

    /// Reads a `[long string]` at `*pos`; on success the position moves
    /// past it, on failure the position is unchanged.
    pub fn from_cursor(bytes: &[u8], pos: &mut usize) -> (r: Result<CStringLong, DecodeError>)
        ensures
            r matches Ok(c) ==> spec_parse_cstring_long(bytes@, *old(pos) as int) == Some(
                (c@, *final(pos) as int),
            ),
            r is Err ==> spec_parse_cstring_long(bytes@, *old(pos) as int) is None && *final(pos)
                == *old(pos),
            r matches Err(e) ==> (e == DecodeError::UnexpectedEnd || e == DecodeError::InvalidUtf8),
    {
        let mut cur = *pos;
        let lenv = match cursor_next_value(bytes, &mut cur, 4) {
            Some(v) => v,
            None => {
                return Err(DecodeError::UnexpectedEnd);
            },
        };
        proof {
            assert(lenv@.subrange(0, lenv@.len() as int) =~= lenv@);
        }
        let l64 = from_bytes(lenv.as_slice());
        let blen = bytes.len();
        if l64 > blen as u64 {
            return Err(DecodeError::UnexpectedEnd);
        }
        let l = l64 as usize;
        let body = match cursor_next_value(bytes, &mut cur, l) {
            Some(v) => v,
            None => {
                return Err(DecodeError::UnexpectedEnd);
            },
        };
        match string_from_utf8(body) {
            Some(s) => {
                proof {
                    vstd::utf8::encode_utf8_decode_utf8(s@);
                }
                *pos = cur;
                Ok(CStringLong::new(s))
            },
            None => Err(DecodeError::InvalidUtf8),
        }
    }
}

/// Reads the protocol's four-byte `[int]` at `*pos`.
pub fn cint_from_cursor(bytes: &[u8], pos: &mut usize) -> (r: Result<i32, DecodeError>)
    ensures
        *old(pos) + 4 <= bytes@.len() ==> (r matches Ok(v) && v as int == be_ival(
            bytes@.subrange(*old(pos) as int, *old(pos) + 4),
        ) && *final(pos) == *old(pos) + 4),
        *old(pos) + 4 > bytes@.len() ==> (r == Err::<i32, DecodeError>(DecodeError::UnexpectedEnd)
            && *final(pos) == *old(pos)),
{
    let v = match cursor_next_value(bytes, pos, 4) {
        Some(v) => v,
        None => {
            return Err(DecodeError::UnexpectedEnd);
        },
    };
    proof {
        assert(v@.subrange(0, v@.len() as int) =~= v@);
        lemma_be_ival_fits(v@);
        lemma_pow256_8();
    }
    let i = from_i_bytes(v.as_slice());
    Ok(i as i32)
}

/// Reads the protocol's two-byte `[short]` at `*pos`.
pub fn cint_short_from_cursor(bytes: &[u8], pos: &mut usize) -> (r: Result<i16, DecodeError>)
    ensures
        *old(pos) + 2 <= bytes@.len() ==> (r matches Ok(v) && v as int == be_ival(
            bytes@.subrange(*old(pos) as int, *old(pos) + 2),
        ) && *final(pos) == *old(pos) + 2),
        *old(pos) + 2 > bytes@.len() ==> (r == Err::<i16, DecodeError>(DecodeError::UnexpectedEnd)
            && *final(pos) == *old(pos)),
{
    let v = match cursor_next_value(bytes, pos, 2) {
        Some(v) => v,
        None => {
            return Err(DecodeError::UnexpectedEnd);
        },
    };
    proof {
        assert(v@.subrange(0, 2) =~= v@);
        lemma_be_ival_fits(v@);
        lemma_pow256_8();
    }
    let i = from_i16_bytes(v.as_slice());
    Ok(i)
}

/// Wire form of the protocol's `[bytes]`: a four-byte signed length and
/// the raw bytes, or length -1 for a null value.
pub open spec fn cbytes_bytes(v: Option<Seq<u8>>) -> Seq<u8> {
    match v {
        Some(b) => be_bytes(b.len(), 4) + b,
        None => seq![0xFFu8, 0xFFu8, 0xFFu8, 0xFFu8],
    }
}

/// Parses a `[bytes]` value at `pos`: a negative length yields the null
/// value, otherwise that many raw bytes follow.
pub open spec fn spec_parse_cbytes(bytes: Seq<u8>, pos: int) -> Option<(Option<Seq<u8>>, int)> {
    if 0 <= pos && pos + 4 <= bytes.len() {
        let l = be_ival(bytes.subrange(pos, pos + 4));
        if l < 0 {
            Some((None, pos + 4))
        } else if pos + 4 + l <= bytes.len() {
            Some((Some(bytes.subrange(pos + 4, pos + 4 + l)), pos + 4 + l))
        } else {
            None
        }
    } else {
        None
    }
}

/// The protocol's `[bytes]`: raw bytes with a four-byte signed length,
/// where a negative length stands for a null (or not-set) value.
#[derive(Debug, Clone, Hash, PartialEq, Eq)]
pub struct CBytes {
    bytes: Option<Vec<u8>>,
}

impl View for CBytes {
    type V = Option<Seq<u8>>;

    closed spec fn view(&self) -> Option<Seq<u8>> {
        match self.bytes {
            Some(ref v) => Some(v@),
            None => None,
        }
    }
}

impl CBytes {
    pub fn new(bytes: Vec<u8>) -> (r: CBytes)
        ensures
            r@ == Some(bytes@),
    {
        CBytes { bytes: Some(bytes) }
    }

    /// Creates the null (not-set) value.
    pub fn new_empty() -> (r: CBytes)
        ensures
            r@ is None,
    {
        CBytes { bytes: None }
    }

    /// Converts `CBytes` into a plain optional byte vector.
    pub fn into_plain(self) -> (r: Option<Vec<u8>>)
        ensures
            r is Some <==> self@ is Some,
            r matches Some(v) ==> self@ == Some(v@),
    {
        self.bytes
    }

    /// Clones the payload out as a plain optional byte vector.
    pub fn as_plain(&self) -> (r: Option<Vec<u8>>)
        ensures
            r is Some <==> self@ is Some,
            r matches Some(v) ==> self@ == Some(v@),
    {
        match self.bytes {
            Some(ref v) => Some(v.clone()),
            None => None,
        }
    }

    /// Borrows the payload, if one is set.
    pub fn as_slice(&self) -> (r: Option<&[u8]>)
        ensures
            r is Some <==> self@ is Some,
            r matches Some(v) ==> self@ == Some(v@),
    {
        match self.bytes {
            Some(ref v) => Some(v.as_slice()),
            None => None,
        }
    }

    /// True when the value is null or holds no bytes.
    pub fn is_empty(&self) -> (r: bool)
        ensures
            r == (self@ is None || self@->0.len() == 0),
    {
        match &self.bytes {
            None => true,
            Some(bytes) => bytes.is_empty(),
        }
    }

    /// Writes the four-byte signed length (or -1 for null) and the bytes.
    pub fn as_bytes(&self) -> (r: Vec<u8>)
        requires
            self@ matches Some(b) ==> b.len() <= i32::MAX,
        ensures
            r@ == cbytes_bytes(self@),
    {
        match self.bytes {
            Some(ref b) => {
                let mut v = to_u(b.len() as u32);
                v.extend_from_slice(b.as_slice());
                v
            },
            None => {
                let mut v: Vec<u8> = Vec::new();
                v.push(0xFF);
                v.push(0xFF);
                v.push(0xFF);
                v.push(0xFF);
                proof {
                    assert(v@ =~= cbytes_bytes(self@));
                }
                v
            },
        }
    }

    /// Reads a `[bytes]` value at `*pos`; on success the position moves
    /// past it, on failure the position is unchanged.
    pub fn from_cursor(bytes: &[u8], pos: &mut usize) -> (r: Result<CBytes, DecodeError>)
        ensures
            r matches Ok(c) ==> spec_parse_cbytes(bytes@, *old(pos) as int) == Some(
                (c@, *final(pos) as int),
            ),
            r is Err ==> spec_parse_cbytes(bytes@, *old(pos) as int) is None && *final(pos)
                == *old(pos),
            r matches Err(e) ==> e == DecodeError::UnexpectedEnd,
    {
        let mut cur = *pos;
        let l = match cint_from_cursor(bytes, &mut cur) {
            Ok(l) => l,
            Err(e) => {
                return Err(e);
            },
        };
        if l < 0 {
            *pos = cur;
            return Ok(CBytes::new_empty());
        }
        let body = match cursor_next_value(bytes, &mut cur, l as usize) {
            Some(v) => v,
            None => {
                return Err(DecodeError::UnexpectedEnd);
            },
        };
        *pos = cur;
        Ok(CBytes::new(body))
    }
}

/// Wire form of the protocol's `[short bytes]`: a two-byte signed length
/// and the raw bytes, or length -1 for a null value.
pub open spec fn cbytes_short_bytes(v: Option<Seq<u8>>) -> Seq<u8> {
    match v {
        Some(b) => be_bytes(b.len(), 2) + b,
        None => seq![0xFFu8, 0xFFu8],
    }
}

/// Parses a `[short bytes]` value at `pos`.
pub open spec fn spec_parse_cbytes_short(bytes: Seq<u8>, pos: int) -> Option<
    (Option<Seq<u8>>, int),
> {
    if 0 <= pos && pos + 2 <= bytes.len() {
        let l = be_ival(bytes.subrange(pos, pos + 2));
        if l < 0 {
            Some((None, pos + 2))
        } else if pos + 2 + l <= bytes.len() {
            Some((Some(bytes.subrange(pos + 2, pos + 2 + l)), pos + 2 + l))
        } else {
            None
        }
    } else {
        None
    }
}

/// The protocol's `[short bytes]`: raw bytes with a two-byte signed
/// length, used for prepared-statement ids.
#[derive(Debug, Clone, Hash, PartialEq, Eq)]
pub struct CBytesShort {
    bytes: Option<Vec<u8>>,
}

impl View for CBytesShort {
    type V = Option<Seq<u8>>;

    closed spec fn view(&self) -> Option<Seq<u8>> {
        match self.bytes {
            Some(ref v) => Some(v@),
            None => None,
        }
    }
}

impl CBytesShort {
    pub fn new(bytes: Vec<u8>) -> (r: CBytesShort)
        ensures
            r@ == Some(bytes@),
    {
        CBytesShort { bytes: Some(bytes) }
    }

    /// Creates the null (not-set) value.
    pub fn new_empty() -> (r: CBytesShort)
        ensures
            r@ is None,
    {
        CBytesShort { bytes: None }
    }

    /// Converts `CBytesShort` into a plain optional byte vector.
    pub fn into_plain(self) -> (r: Option<Vec<u8>>)
        ensures
            r is Some <==> self@ is Some,
            r matches Some(v) ==> self@ == Some(v@),
    {
        self.bytes
    }

    /// Writes the two-byte signed length (or -1 for null) and the bytes.
    pub fn as_bytes(&self) -> (r: Vec<u8>)
        requires
            self@ matches Some(b) ==> b.len() <= i16::MAX,
        ensures
            r@ == cbytes_short_bytes(self@),
    {
        match self.bytes {
            Some(ref b) => {
                let mut v = to_u_short(b.len() as u16);
                v.extend_from_slice(b.as_slice());
                v
            },
            None => {
                let mut v: Vec<u8> = Vec::new();
                v.push(0xFF);
                v.push(0xFF);
                proof {
                    assert(v@ =~= cbytes_short_bytes(self@));
                }
                v
            },
        }
    }

    /// Reads a `[short bytes]` value at `*pos`; on success the position
    /// moves past it, on failure the position is unchanged.
    pub fn from_cursor(bytes: &[u8], pos: &mut usize) -> (r: Result<CBytesShort, DecodeError>)
        ensures
            r matches Ok(c) ==> spec_parse_cbytes_short(bytes@, *old(pos) as int) == Some(
                (c@, *final(pos) as int),
            ),
            r is Err ==> spec_parse_cbytes_short(bytes@, *old(pos) as int) is None && *final(pos)
                == *old(pos),
            r matches Err(e) ==> e == DecodeError::UnexpectedEnd,
    {
        let mut cur = *pos;
        let l = match cint_short_from_cursor(bytes, &mut cur) {
            Ok(l) => l,
            Err(e) => {
                return Err(e);
            },
        };
        if l < 0 {
            *pos = cur;
            return Ok(CBytesShort { bytes: None });
        }
        let body = match cursor_next_value(bytes, &mut cur, l as usize) {
            Some(v) => v,
            None => {
                return Err(DecodeError::UnexpectedEnd);
            },
        };
        *pos = cur;
        Ok(CBytesShort::new(body))
    }
}

/// Concatenated wire forms of a sequence of `[string]`s.
pub open spec fn cstring_list_bytes(vs: Seq<Seq<char>>) -> Seq<u8>
    decreases vs.len(),
{
    if vs.len() == 0 {
        seq![]
    } else {
        cstring_list_bytes(vs.drop_last()) + cstring_bytes(vs.last())
    }
}

/// Parses exactly `n` consecutive `[string]`s starting at `pos`.
pub open spec fn spec_parse_cstrings(bytes: Seq<u8>, pos: int, n: nat) -> Option<
    (Seq<Seq<char>>, int),
>
    decreases n,
{
    if n == 0 {
        Some((seq![], pos))
    } else {
        match spec_parse_cstring(bytes, pos) {
            Some((s, p2)) => match spec_parse_cstrings(bytes, p2, (n - 1) as nat) {
                Some((rest, p3)) => Some((seq![s] + rest, p3)),
                None => None,
            },
            None => None,
        }
    }
}

/// Parses the protocol's `[string list]` at `pos`: a two-byte count and
/// that many `[string]`s.
pub open spec fn spec_parse_cstring_list(bytes: Seq<u8>, pos: int) -> Option<
    (Seq<Seq<char>>, int),
> {
    if 0 <= pos && pos + 2 <= bytes.len() {
        spec_parse_cstrings(bytes, pos + 2, be_val(bytes.subrange(pos, pos + 2)))
    } else {
        None
    }
}

/// The protocol's `[string list]`: a two-byte count followed by that many
/// `[string]`s.
#[derive(Debug, Clone)]
pub struct CStringList {
    pub list: Vec<CString>,
}

impl View for CStringList {
    type V = Seq<Seq<char>>;

    open spec fn view(&self) -> Seq<Seq<char>> {
        Seq::new(self.list@.len(), |i: int| self.list@[i]@)
    }
}

impl CStringList {
    /// Converts the list into plain `String`s, in order.
    pub fn into_plain(self) -> (r: Vec<String>)
        ensures
            r@.len() == self@.len(),
            forall|i: int| 0 <= i < r@.len() ==> r@[i]@ == self@[i],
    {
        let n = self.list.len();
        let mut out: Vec<String> = Vec::new();
        let mut i: usize = 0;
        while i < n
            invariant
                i <= n,
                n == self.list@.len(),
                out@.len() == i,
                forall|j: int| 0 <= j < i ==> out@[j]@ == self@[j],
            decreases n - i,
        {
            out.push(self.list[i].as_plain());
            i = i + 1;
        }
        out
    }

    /// Writes the two-byte count and each string in order.
    pub fn as_bytes(&self) -> (r: Vec<u8>)
        requires
            self@.len() <= u16::MAX,
            forall|i: int| 0 <= i < self@.len() ==> vstd::utf8::encode_utf8(#[trigger] self@[i]).len()
                <= u16::MAX,
        ensures
            r@ == be_bytes(self@.len(), 2) + cstring_list_bytes(self@),
    {
        let n = self.list.len();
        let mut out = to_u_short(n as u16);
        let mut i: usize = 0;
        proof {
            assert(cstring_list_bytes(self@.subrange(0, 0)) =~= Seq::<u8>::empty());
            assert(out@ + cstring_list_bytes(self@.subrange(0, 0)) =~= out@);
        }
        while i < n
            invariant
                i <= n,
                n == self.list@.len(),
                n <= u16::MAX,
                self@.len() == n,
                forall|k: int| 0 <= k < self@.len() ==> vstd::utf8::encode_utf8(
                    #[trigger] self@[k],
                ).len() <= u16::MAX,
                out@ == be_bytes(n as nat, 2) + cstring_list_bytes(self@.subrange(0, i as int)),
            decreases n - i,
        {
            proof {
                assert(self@[i as int] == self.list@[i as int]@);
            }
            let mut piece = self.list[i].as_bytes();
            proof {
                let pre = self@.subrange(0, i as int);
                let ext = self@.subrange(0, i + 1);
                assert(ext.drop_last() =~= pre);
                assert(ext.last() == self@[i as int]);
                assert((be_bytes(n as nat, 2) + cstring_list_bytes(pre)) + cstring_bytes(
                    self@[i as int],
                ) =~= be_bytes(n as nat, 2) + cstring_list_bytes(ext));
            }
            out.append(&mut piece);
            i = i + 1;
        }
        proof {
            assert(self@.subrange(0, n as int) =~= self@);
        }
        out
    }

    /// Reads a `[string list]` at `*pos`; on success the position moves
    /// past it, on failure the position is unchanged.
    pub fn from_cursor(bytes: &[u8], pos: &mut usize) -> (r: Result<CStringList, DecodeError>)
        ensures
            r matches Ok(c) ==> spec_parse_cstring_list(bytes@, *old(pos) as int) == Some(
                (c@, *final(pos) as int),
            ),
            r is Err ==> spec_parse_cstring_list(bytes@, *old(pos) as int) is None && *final(pos)
                == *old(pos),
            r matches Err(e) ==> (e == DecodeError::UnexpectedEnd || e == DecodeError::InvalidUtf8),
    {
        let ghost pos0 = *pos as int;
        let mut cur = *pos;
        let lenv = match cursor_next_value(bytes, &mut cur, 2) {
            Some(v) => v,
            None => {
                return Err(DecodeError::UnexpectedEnd);
            },
        };
        proof {
            assert(lenv@.subrange(0, 2) =~= lenv@);
        }
        let n = from_u16_bytes(lenv.as_slice()) as usize;
        let ghost n0 = be_val(bytes@.subrange(pos0, pos0 + 2));
        let mut list: Vec<CString> = Vec::new();
        let mut i: usize = 0;
        while i < n
            invariant
                i <= n,
                n as nat == n0,
                list@.len() == i,
                0 <= pos0,
                pos0 + 2 <= bytes@.len(),
                *pos == *old(pos),
                pos0 == *old(pos) as int,
                n0 == be_val(bytes@.subrange(pos0, pos0 + 2)),
                spec_parse_cstrings(bytes@, pos0 + 2, n0) == (match spec_parse_cstrings(
                    bytes@,
                    cur as int,
                    (n - i) as nat,
                ) {
                    Some((rest, p)) => Some(
                        (Seq::new(list@.len(), |k: int| list@[k]@) + rest, p),
                    ),
                    None => None::<(Seq<Seq<char>>, int)>,
                }),
            decreases n - i,
        {
            let ghost lst_pre = Seq::new(list@.len(), |k: int| list@[k]@);
            let s = match CString::from_cursor(bytes, &mut cur) {
                Ok(s) => s,
                Err(e) => {
                    proof {
                        assert(spec_parse_cstrings(bytes@, cur as int, (n - i) as nat) is None);
                    }
                    return Err(e);
                },
            };
            proof {
                let (sv, p2) = spec_parse_cstring(bytes@, cur as int)->0;
            }
            list.push(s);
            i = i + 1;
            proof {
                let lst_post = Seq::new(list@.len(), |k: int| list@[k]@);
                assert(lst_post =~= lst_pre.push(s@));
                assert forall|rest: Seq<Seq<char>>| true implies lst_pre + (seq![s@] + rest)
                    =~= lst_post + rest by {
                    assert(lst_pre + (seq![s@] + rest) =~= lst_pre.push(s@) + rest);
                }
            }
        }
        proof {
            assert(spec_parse_cstrings(bytes@, cur as int, 0) == Some(
                (Seq::<Seq<char>>::empty(), cur as int),
            ));
            let lst = Seq::new(list@.len(), |k: int| list@[k]@);
            assert(lst + Seq::<Seq<char>>::empty() =~= lst);
        }
        let out = CStringList { list };
        proof {
            assert(out@ =~= Seq::new(out.list@.len(), |k: int| out.list@[k]@));
        }
        *pos = cur;
        Ok(out)
    }
}

/// Parses the protocol's `[inet]` at `pos`: one length byte (4 or 16),
/// the raw address bytes, then a four-byte port whose low sixteen bits
/// count.
pub open spec fn spec_parse_cinet(bytes: Seq<u8>, pos: int) -> Option<((Seq<u8>, int), int)> {
    if 0 <= pos && pos + 1 <= bytes.len() {
        let n = bytes[pos] as int;
        if n == 4 || n == 16 {
            if pos + 1 + n + 4 <= bytes.len() {
                let ip = bytes.subrange(pos + 1, pos + 1 + n);
                let port = be_ival(bytes.subrange(pos + 1 + n, pos + 1 + n + 4)) % 0x1_0000;
                Some(((ip, port), pos + 1 + n + 4))
            } else {
                None
            }
        } else {
            None
        }
    } else {
        None
    }
}

/// The protocol's `[inet]`: a raw IPv4 or IPv6 address and a port.
#[derive(Debug, Clone, PartialEq, Eq)]
pub struct CInet {
    /// Four or sixteen raw address bytes.
    pub ip: Vec<u8>,
    /// The port, as the low sixteen bits of the wire's four-byte field.
    pub port: u16,
}

impl CInet {
    /// Reads an `[inet]` at `*pos`; on success the position moves past
    /// it, on failure the position is unchanged.
    pub fn from_cursor(bytes: &[u8], pos: &mut usize) -> (r: Result<CInet, DecodeError>)
        ensures
            r matches Ok(c) ==> spec_parse_cinet(bytes@, *old(pos) as int) == Some(
                ((c.ip@, c.port as int), *final(pos) as int),
            ),
            r is Err ==> spec_parse_cinet(bytes@, *old(pos) as int) is None && *final(pos) == *old(
                pos,
            ),
            r matches Err(e) ==> (e == DecodeError::UnexpectedEnd || e
                == DecodeError::BadInetLength),
    {
        let mut cur = *pos;
        let head = match cursor_next_value(bytes, &mut cur, 1) {
            Some(v) => v,
            None => {
                return Err(DecodeError::UnexpectedEnd);
            },
        };
        let n = head[0];
        if n != 4 && n != 16 {
            return Err(DecodeError::BadInetLength);
        }
        let ip = match cursor_next_value(bytes, &mut cur, n as usize) {
            Some(v) => v,
            None => {
                return Err(DecodeError::UnexpectedEnd);
            },
        };
        let p = match cint_from_cursor(bytes, &mut cur) {
            Ok(p) => p,
            Err(e) => {
                return Err(e);
            },
        };
        let port = #[verifier::truncate] (p as u16);
        proof {
            assert(port as int == (p as int) % 0x1_0000) by (bit_vector)
                requires port == #[verifier::truncate] (p as u16);
        }
        *pos = cur;
        Ok(CInet { ip, port })
    }
}


/// A `[string]` encoding embedded in a larger buffer parses back to the
/// string it encodes.
pub proof fn lemma_cstring_parse_encoding(bytes: Seq<u8>, pos: int, s: Seq<char>)
    requires
        0 <= pos,
        vstd::utf8::encode_utf8(s).len() <= u16::MAX,
        pos + 2 + vstd::utf8::encode_utf8(s).len() <= bytes.len(),
        bytes.subrange(pos, pos + 2 + vstd::utf8::encode_utf8(s).len()) == cstring_bytes(s),
    ensures
        spec_parse_cstring(bytes, pos) == Some(
            (s, pos + 2 + vstd::utf8::encode_utf8(s).len()),
        ),
{
    let e = vstd::utf8::encode_utf8(s);
    let el = e.len() as int;
    let piece = bytes.subrange(pos, pos + 2 + el);
    lemma_be_bytes_len(e.len(), 2);
    assert(bytes.subrange(pos, pos + 2) =~= piece.subrange(0, 2));
    assert(piece.subrange(0, 2) =~= be_bytes(e.len(), 2));
    lemma_be_bytes_val(e.len(), 2);
    lemma_pow256_8();
    vstd::arithmetic::div_mod::lemma_small_mod(e.len(), pow256(2));
    assert(be_val(bytes.subrange(pos, pos + 2)) == e.len());
    assert(bytes.subrange(pos + 2, pos + 2 + el) =~= piece.subrange(2, 2 + el));
    assert(piece.subrange(2, 2 + el) =~= e);
    vstd::utf8::encode_utf8_valid_utf8(s);
    vstd::utf8::encode_utf8_decode_utf8(s);
}

/// The byte length of a `[string]` encoding.
pub proof fn lemma_cstring_bytes_len(s: Seq<char>)
    ensures
        cstring_bytes(s).len() == 2 + vstd::utf8::encode_utf8(s).len(),
{
    lemma_be_bytes_len(vstd::utf8::encode_utf8(s).len(), 2);
}

/// The wire form of a string list, decomposed around its first string.
pub proof fn lemma_cstring_list_bytes_first(vs: Seq<Seq<char>>)
    requires
        vs.len() >= 1,
    ensures
        cstring_list_bytes(vs) == cstring_bytes(vs[0]) + cstring_list_bytes(vs.drop_first()),
    decreases vs.len(),
{
    if vs.len() == 1 {
        assert(vs.drop_last() =~= Seq::<Seq<char>>::empty());
        assert(vs.drop_first() =~= Seq::<Seq<char>>::empty());
        assert(vs.last() == vs[0]);
        assert(Seq::<u8>::empty() + cstring_bytes(vs[0]) =~= cstring_bytes(vs[0])
            + Seq::<u8>::empty());
    } else {
        let d = vs.drop_last();
        lemma_cstring_list_bytes_first(d);
        assert(d[0] == vs[0]);
        assert(d.drop_first() =~= vs.drop_first().drop_last());
        assert(vs.drop_first().last() == vs.last());
        assert((cstring_bytes(vs[0]) + cstring_list_bytes(vs.drop_first().drop_last()))
            + cstring_bytes(vs.last()) =~= cstring_bytes(vs[0]) + (cstring_list_bytes(
            vs.drop_first().drop_last(),
        ) + cstring_bytes(vs.last())));
    }
}

/// A run of `[string]` encodings embedded in a larger buffer parses back
/// to the strings it encodes.
pub proof fn lemma_cstrings_parse_encoding(bytes: Seq<u8>, pos: int, vs: Seq<Seq<char>>)
    requires
        0 <= pos,
        forall|i: int| 0 <= i < vs.len() ==> vstd::utf8::encode_utf8(#[trigger] vs[i]).len()
            <= u16::MAX,
        pos + cstring_list_bytes(vs).len() <= bytes.len(),
        bytes.subrange(pos, pos + cstring_list_bytes(vs).len()) == cstring_list_bytes(vs),
    ensures
        spec_parse_cstrings(bytes, pos, vs.len()) == Some(
            (vs, pos + cstring_list_bytes(vs).len()),
        ),
    decreases vs.len(),
{
    if vs.len() == 0 {
        assert(spec_parse_cstrings(bytes, pos, 0) == Some((Seq::<Seq<char>>::empty(), pos)));
        assert(vs =~= Seq::<Seq<char>>::empty());
    } else {
        lemma_cstring_list_bytes_first(vs);
        lemma_cstring_bytes_len(vs[0]);
        let hl = cstring_bytes(vs[0]).len() as int;
        let tot = cstring_list_bytes(vs).len() as int;
        let piece = bytes.subrange(pos, pos + tot);
        assert(bytes.subrange(pos, pos + hl) =~= piece.subrange(0, hl));
        assert(piece.subrange(0, hl) =~= cstring_bytes(vs[0]));
        lemma_cstring_parse_encoding(bytes, pos, vs[0]);
        let p2 = pos + hl;
        assert(bytes.subrange(p2, p2 + (tot - hl)) =~= piece.subrange(hl, tot));
        assert(piece.subrange(hl, tot) =~= cstring_list_bytes(vs.drop_first()));
        lemma_cstrings_parse_encoding(bytes, p2, vs.drop_first());
        assert(seq![vs[0]] + vs.drop_first() =~= vs);
    }
}

/// Successful string parses only move the position forward, and never
/// past the end of the input.
pub proof fn lemma_parse_cstrings_pos(bytes: Seq<u8>, pos: int, n: nat)
    requires
        0 <= pos <= bytes.len(),
    ensures
        spec_parse_cstrings(bytes, pos, n) matches Some((v, p2)) ==> pos <= p2 <= bytes.len()
            && v.len() == n,
    decreases n,
{
    if n > 0 {
        match spec_parse_cstring(bytes, pos) {
            Some((s, pm)) => {
                lemma_parse_cstrings_pos(bytes, pm, (n - 1) as nat);
            },
            None => {},
        }
    }
}

/// A successful string-list parse lands within the input.
pub proof fn lemma_parse_cstring_list_pos(bytes: Seq<u8>, pos: int)
    ensures
        spec_parse_cstring_list(bytes, pos) matches Some((v, p2)) ==> pos <= p2 <= bytes.len(),
{
    if 0 <= pos && pos + 2 <= bytes.len() {
        lemma_parse_cstrings_pos(bytes, pos + 2, be_val(bytes.subrange(pos, pos + 2)));
    }
}

/// Re-encoding the value of a byte string gives back the byte string.
pub proof fn lemma_be_bytes_inv(s: Seq<u8>)
    ensures
        be_bytes(be_val(s), s.len()) == s,
    decreases s.len(),
{
    if s.len() == 0 {
        assert(be_bytes(be_val(s), 0) =~= s);
    } else {
        let d = s.drop_last();
        lemma_be_bytes_inv(d);
        lemma_be_val_bound(d);
        let v = be_val(s);
        vstd::arithmetic::div_mod::lemma_fundamental_div_mod_converse(
            v as int,
            256,
            be_val(d) as int,
            s.last() as int,
        );
        assert(v / 256 == be_val(d));
        assert(v % 256 == s.last());
        assert(be_bytes(v, s.len()) =~= be_bytes(be_val(d), d.len()) + seq![s.last()]);
        assert(d + seq![s.last()] =~= s);
    }
}

/// The bytes a successful `[string]` parse consumed are the encoding of
/// the string it returned.
pub proof fn lemma_cstring_encoding_of_parse(bytes: Seq<u8>, pos: int)
    ensures
        spec_parse_cstring(bytes, pos) matches Some((s, p2)) ==> {
            &&& pos <= p2 <= bytes.len()
            &&& bytes.subrange(pos, p2) == cstring_bytes(s)
            &&& vstd::utf8::encode_utf8(s).len() == p2 - pos - 2
        },
{
    match spec_parse_cstring(bytes, pos) {
        Some((s, p2)) => {
            let prefix = bytes.subrange(pos, pos + 2);
            let l = be_val(prefix) as int;
            let body = bytes.subrange(pos + 2, pos + 2 + l);
            vstd::utf8::decode_utf8_encode_utf8(body);
            assert(vstd::utf8::encode_utf8(s) == body);
            lemma_be_bytes_inv(prefix);
            assert(be_bytes(body.len(), 2) == prefix);
            assert(bytes.subrange(pos, p2) =~= prefix + body);
        },
        None => {},
    }
}

/// The bytes a successful `[string list]` run parse consumed are the
/// encoding of the strings it returned.
pub proof fn lemma_cstrings_encoding_of_parse(bytes: Seq<u8>, pos: int, n: nat)
    requires
        0 <= pos <= bytes.len(),
    ensures
        spec_parse_cstrings(bytes, pos, n) matches Some((vs, p2)) ==> {
            &&& pos <= p2 <= bytes.len()
            &&& bytes.subrange(pos, p2) == cstring_list_bytes(vs)
            &&& vs.len() == n
        },
    decreases n,
{
    if n > 0 {
        match spec_parse_cstring(bytes, pos) {
            Some((s, pm)) => {
                lemma_cstring_encoding_of_parse(bytes, pos);
                lemma_cstrings_encoding_of_parse(bytes, pm, (n - 1) as nat);
                match spec_parse_cstrings(bytes, pm, (n - 1) as nat) {
                    Some((rest, p2)) => {
                        let vs = seq![s] + rest;
                        assert(vs.len() >= 1);
                        assert(vs[0] == s);
                        assert(vs.drop_first() =~= rest);
                        lemma_cstring_list_bytes_first(vs);
                        assert(bytes.subrange(pos, p2) =~= bytes.subrange(pos, pm)
                            + bytes.subrange(pm, p2));
                    },
                    None => {},
                }
            },
            None => {},
        }
    } else {
        assert(cstring_list_bytes(Seq::<Seq<char>>::empty()) =~= Seq::<u8>::empty());
        assert(bytes.subrange(pos, pos) =~= Seq::<u8>::empty());
    }
}

/// The bytes a successful `[string list]` parse consumed are the two-byte
/// count and the encodings of the strings it returned.
pub proof fn lemma_cstring_list_encoding_of_parse(bytes: Seq<u8>, pos: int)
    ensures
        spec_parse_cstring_list(bytes, pos) matches Some((vs, p2)) ==> {
            &&& pos <= p2 <= bytes.len()
            &&& bytes.subrange(pos, p2) == be_bytes(vs.len(), 2) + cstring_list_bytes(vs)
        },
{
    if 0 <= pos && pos + 2 <= bytes.len() {
        let prefix = bytes.subrange(pos, pos + 2);
        let n = be_val(prefix);
        lemma_parse_cstrings_pos(bytes, pos + 2, n);
        lemma_cstrings_encoding_of_parse(bytes, pos + 2, n);
        match spec_parse_cstrings(bytes, pos + 2, n) {
            Some((vs, p2)) => {
                lemma_be_bytes_inv(prefix);
                assert(be_bytes(vs.len(), 2) == prefix);
                assert(bytes.subrange(pos, p2) =~= prefix + bytes.subrange(pos + 2, p2));
            },
            None => {},
        }
    }
}

/// Re-encoding the signed value of a byte string gives back the string.
pub proof fn lemma_be_ibytes_inv(s: Seq<u8>)
    ensures
        be_ibytes(be_ival(s), s.len()) == s,
{
    lemma_be_val_bound(s);
    lemma_pow256_pos(s.len());
    let p = pow256(s.len()) as int;
    if s.len() > 0 && s[0] >= 0x80 {
        vstd::arithmetic::div_mod::lemma_mod_add_multiples_vanish(be_val(s) - p, p);
        vstd::arithmetic::div_mod::lemma_small_mod(be_val(s), pow256(s.len()));
        assert(be_ival(s) % p == be_val(s));
    } else {
        vstd::arithmetic::div_mod::lemma_small_mod(be_val(s), pow256(s.len()));
    }
    lemma_be_bytes_inv(s);
}

/// The two-byte two's complement of -1 is two 0xFF bytes.
pub proof fn lemma_minus_one_2()
    ensures
        be_ibytes(-1, 2) =~= seq![0xFFu8, 0xFFu8],
{
    lemma_pow256_8();
    vstd::arithmetic::div_mod::lemma_mod_add_multiples_vanish(-1, 0x1_0000);
    vstd::arithmetic::div_mod::lemma_small_mod(0xFFFF as nat, 0x1_0000 as nat);
    assert(be_bytes(0xFFFF as nat, 2) =~= seq![0xFFu8, 0xFFu8]) by {
        reveal_with_fuel(be_bytes, 3);
    }
}

/// The four-byte two's complement of -1 is four 0xFF bytes.
pub proof fn lemma_minus_one_4()
    ensures
        be_ibytes(-1, 4) =~= seq![0xFFu8, 0xFFu8, 0xFFu8, 0xFFu8],
{
    lemma_pow256_8();
    vstd::arithmetic::div_mod::lemma_mod_add_multiples_vanish(-1, 0x1_0000_0000);
    vstd::arithmetic::div_mod::lemma_small_mod(0xFFFF_FFFF as nat, 0x1_0000_0000 as nat);
    assert(be_bytes(0xFFFF_FFFF as nat, 4) =~= seq![0xFFu8, 0xFFu8, 0xFFu8, 0xFFu8]) by {
        reveal_with_fuel(be_bytes, 5);
    }
}

/// Represents a single column as a host value of type `T`.
pub trait AsRustType<T> {
    /// The value, or `None` for a null or not-set column.
    fn as_rust_type(&self) -> Result<Option<T>, DecodeError>;

    /// The value; a null or not-set column is an error here.
    fn as_r_type(&self) -> Result<T, DecodeError> {
        match self.as_rust_type() {
            Ok(Some(v)) => Ok(v),
            Ok(None) => Err(DecodeError::NullValue),
            Err(e) => Err(e),
        }
    }
}

/// Conversion entry point over any column representation.
pub trait AsRust {
    /// The value, or `None` for a null or not-set column.
    fn as_rust<R>(&self) -> Result<Option<R>, DecodeError> where Self: AsRustType<R> {
        self.as_rust_type()
    }

    /// The value; a null or not-set column is an error here.
    fn as_r_rust<T>(&self) -> Result<T, DecodeError> where Self: AsRustType<T> {
        self.as_r_type()
    }
}

/// Returns a single column as a host value by its name.
pub trait IntoRustByName<R> {
    /// The named column's value, or `None` when it is null or not set.
    fn get_by_name(&self, name: &str) -> Result<Option<R>, DecodeError>;

    /// The named column's value; a null or not-set column is an error.
    fn get_r_by_name(&self, name: &str) -> Result<R, DecodeError> {
        match self.get_by_name(name) {
            Ok(Some(v)) => Ok(v),
            Ok(None) => Err(DecodeError::NullValue),
            Err(e) => Err(e),
        }
    }
}

/// Name-keyed conversion entry point over any row representation.
pub trait ByName {
    /// The named column's value, or `None` when it is null or not set.
    fn by_name<R>(&self, name: &str) -> Result<Option<R>, DecodeError> where
        Self: IntoRustByName<R>,
    {
        self.get_by_name(name)
    }

    /// The named column's value; a null or not-set column is an error.
    fn r_by_name<R>(&self, name: &str) -> Result<R, DecodeError> where
        Self: IntoRustByName<R>,
    {
        self.get_r_by_name(name)
    }
}

/// Returns a single column as a host value by its position.
pub trait IntoRustByIndex<R> {
    /// The column's value, or `None` when it is null, not set, or out of
    /// range.
    fn get_by_index(&self, index: usize) -> Result<Option<R>, DecodeError>;

    /// The column's value; a missing column is an error.
    fn get_r_by_index(&self, index: usize) -> Result<R, DecodeError> {
        match self.get_by_index(index) {
            Ok(Some(v)) => Ok(v),
            Ok(None) => Err(DecodeError::NullValue),
            Err(e) => Err(e),
        }
    }
}

/// Position-keyed conversion entry point over any row representation.
pub trait ByIndex {
    /// The column's value, or `None` when it is null, not set, or out of
    /// range.
    fn by_index<R>(&self, index: usize) -> Result<Option<R>, DecodeError> where
        Self: IntoRustByIndex<R>,
    {
        self.get_by_index(index)
    }

    /// The column's value; a missing column is an error.
    fn r_by_index<R>(&self, index: usize) -> Result<R, DecodeError> where
        Self: IntoRustByIndex<R>,
    {
        self.get_r_by_index(index)
    }
}

impl AsRustType<Vec<u8>> for CBytes {
    /// A blob column as its raw bytes.
    fn as_rust_type(&self) -> Result<Option<Vec<u8>>, DecodeError> {
        Ok(self.as_plain())
    }
}

impl AsRust for CBytes {

}

} // verus!
