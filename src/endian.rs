//! Byte order, and the arithmetic that turns fixed-width byte groups into
//! unsigned numbers and back.
use vstd::prelude::*;

verus! {

/// The byte order in which multi-byte numbers are read and written.
#[derive(Clone, Copy, Debug, PartialEq, Eq, Structural)]
pub enum Endian {
    Big,
    Little,
}

/// `256` to the power `w`: one more than the largest number `w` bytes hold.
pub open spec fn byte_bound(w: nat) -> nat
    decreases w,
{
    if w == 0 {
        1
    } else {
        256 * byte_bound((w - 1) as nat)
    }
}

/// The number that `b` holds with its least significant byte first.
pub open spec fn le_value(b: Seq<u8>) -> nat
    decreases b.len(),
{
    if b.len() == 0 {
        0
    } else {
        b[0] as nat + 256 * le_value(b.skip(1))
    }
}

/// The number that `b` holds with its most significant byte first.
pub open spec fn be_value(b: Seq<u8>) -> nat
    decreases b.len(),
{
    if b.len() == 0 {
        0
    } else {
        be_value(b.drop_last()) * 256 + b.last() as nat
    }
}

/// The number that `b` holds in byte order `e`.
pub open spec fn bytes_value(b: Seq<u8>, e: Endian) -> nat {
    match e {
        Endian::Little => le_value(b),
        Endian::Big => be_value(b),
    }
}

/// The `w` bytes of `n`, least significant first.
pub open spec fn le_bytes(n: nat, w: nat) -> Seq<u8>
    decreases w,
{
    if w == 0 {
        Seq::empty()
    } else {
        seq![(n % 256) as u8] + le_bytes(n / 256, (w - 1) as nat)
    }
}

/// The `w` bytes of `n`, most significant first.
pub open spec fn be_bytes(n: nat, w: nat) -> Seq<u8>
    decreases w,
{
    if w == 0 {
        Seq::empty()
    } else {
        be_bytes(n / 256, (w - 1) as nat).push((n % 256) as u8)
    }
}

/// The `w` bytes of `n` in byte order `e`.
pub open spec fn value_bytes(n: nat, w: nat, e: Endian) -> Seq<u8> {
    match e {
        Endian::Little => le_bytes(n, w),
        Endian::Big => be_bytes(n, w),
    }
}

pub proof fn lemma_byte_bound_positive(w: nat)
    ensures
        byte_bound(w) >= 1,
    decreases w,
{
    if w > 0 {
        lemma_byte_bound_positive((w - 1) as nat);
    }
}

pub proof fn lemma_le_bytes_len(n: nat, w: nat)
    ensures
        le_bytes(n, w).len() == w,
    decreases w,
{
    if w > 0 {
        lemma_le_bytes_len(n / 256, (w - 1) as nat);
    }
}

pub proof fn lemma_be_bytes_len(n: nat, w: nat)
    ensures
        be_bytes(n, w).len() == w,
    decreases w,
{
    if w > 0 {
        lemma_be_bytes_len(n / 256, (w - 1) as nat);
    }
}

pub proof fn lemma_value_bytes_len(n: nat, w: nat, e: Endian)
    ensures
        value_bytes(n, w, e).len() == w,
{
    lemma_le_bytes_len(n, w);
    lemma_be_bytes_len(n, w);
}

/// A number below `byte_bound(w)` comes back from its `w` little-endian bytes.
pub proof fn lemma_le_round_trip(n: nat, w: nat)
    requires
        n < byte_bound(w),
    ensures
        le_value(le_bytes(n, w)) == n,
    decreases w,
{
    if w > 0 {
        let rest = le_bytes(n / 256, (w - 1) as nat);
        let b = le_bytes(n, w);
        assert(b.skip(1) =~= rest);
        assert(n / 256 < byte_bound((w - 1) as nat)) by (nonlinear_arith)
            requires
                n < 256 * byte_bound((w - 1) as nat),
        ;
        lemma_le_round_trip(n / 256, (w - 1) as nat);
    }
}

/// A number below `byte_bound(w)` comes back from its `w` big-endian bytes.
pub proof fn lemma_be_round_trip(n: nat, w: nat)
    requires
        n < byte_bound(w),
    ensures
        be_value(be_bytes(n, w)) == n,
    decreases w,
{
    if w > 0 {
        let rest = be_bytes(n / 256, (w - 1) as nat);
        let b = be_bytes(n, w);
        assert(b.drop_last() =~= rest);
        assert(n / 256 < byte_bound((w - 1) as nat)) by (nonlinear_arith)
            requires
                n < 256 * byte_bound((w - 1) as nat),
        ;
        lemma_be_round_trip(n / 256, (w - 1) as nat);
    }
}

/// A number below `byte_bound(w)` comes back from its `w` bytes in either order.
pub proof fn lemma_value_round_trip(n: nat, w: nat, e: Endian)
    requires
        n < byte_bound(w),
    ensures
        bytes_value(value_bytes(n, w, e), e) == n,
{
    lemma_le_round_trip(n, w);
    lemma_be_round_trip(n, w);
}

/// What `w` bytes hold is below `byte_bound(w)`.
pub proof fn lemma_le_value_bound(b: Seq<u8>)
    ensures
        le_value(b) < byte_bound(b.len()),
    decreases b.len(),
{
    if b.len() > 0 {
        lemma_le_value_bound(b.skip(1));
        let r = le_value(b.skip(1));
        let k = byte_bound((b.len() - 1) as nat);
        assert(b[0] as nat + 256 * r < 256 * k) by (nonlinear_arith)
            requires
                r < k,
                b[0] < 256,
        ;
    }
}

pub proof fn lemma_be_value_bound(b: Seq<u8>)
    ensures
        be_value(b) < byte_bound(b.len()),
    decreases b.len(),
{
    if b.len() > 0 {
        lemma_be_value_bound(b.drop_last());
        let r = be_value(b.drop_last());
        let k = byte_bound((b.len() - 1) as nat);
        assert(r * 256 + b.last() < 256 * k) by (nonlinear_arith)
            requires
                r < k,
                b.last() < 256,
        ;
    }
}

pub proof fn lemma_bytes_value_bound(b: Seq<u8>, e: Endian)
    ensures
        bytes_value(b, e) < byte_bound(b.len()),
{
    lemma_le_value_bound(b);
    lemma_be_value_bound(b);
}

/// The byte order of the machine this runs on.
pub fn native() -> (r: Endian) {
    let probe = native_bytes_of_one();
    if probe[0] == 1 {
        Endian::Little
    } else {
        Endian::Big
    }
}

/// Relies on `u16::to_ne_bytes`: the two bytes of `1` in the machine's own
/// order, which is one of the two orders.
#[verifier::external_body]
fn native_bytes_of_one() -> (r: [u8; 2])
    ensures
        r@ == seq![1u8, 0u8] || r@ == seq![0u8, 1u8],
{
    1u16.to_ne_bytes()
}

/// The number that `b` holds in byte order `e`.
pub fn uint_from_bytes(b: &[u8], e: Endian) -> (r: u128)
    requires
        b@.len() <= 16,
    ensures
        r == bytes_value(b@, e),
{
    let w = b.len();
    let mut acc: u128 = 0;
    match e {
        Endian::Little => {
            let mut i: usize = w;
            while i > 0
                invariant
                    i <= w,
                    w == b@.len(),
                    w <= 16,
                    acc == le_value(b@.subrange(i as int, w as int)),
                decreases i,
            {
                let ghost old_sub = b@.subrange(i as int, w as int);
                proof {
                    let s = b@.subrange(i - 1, w as int);
                    assert(s.skip(1) =~= old_sub);
                    lemma_le_value_bound(old_sub);
                    assert(byte_bound(old_sub.len()) <= byte_bound(15)) by {
                        lemma_byte_bound_mono(old_sub.len(), 15);
                    }
                    lemma_byte_bound_15();
                }
                i = i - 1;
                acc = acc * 256 + b[i] as u128;
            }
            assert(b@.subrange(0, w as int) =~= b@);
        },
        Endian::Big => {
            let mut i: usize = 0;
            while i < w
                invariant
                    i <= w,
                    w == b@.len(),
                    w <= 16,
                    acc == be_value(b@.take(i as int)),
                decreases w - i,
            {
                proof {
                    let s = b@.take(i + 1);
                    assert(s.drop_last() =~= b@.take(i as int));
                    lemma_be_value_bound(b@.take(i as int));
                    lemma_byte_bound_mono(i as nat, 15);
                    lemma_byte_bound_15();
                }
                acc = acc * 256 + b[i] as u128;
                i = i + 1;
            }
            assert(b@.take(w as int) =~= b@);
        },
    }
    acc
}

proof fn lemma_byte_bound_15()
    ensures
        byte_bound(15) == 0x1_0000_0000_0000_0000_0000_0000_0000_00nat,
{
    reveal_with_fuel(byte_bound, 16);
}

pub proof fn lemma_byte_bound_mono(a: nat, b: nat)
    requires
        a <= b,
    ensures
        byte_bound(a) <= byte_bound(b),
    decreases b,
{
    if a < b {
        lemma_byte_bound_mono(a, (b - 1) as nat);
        lemma_byte_bound_positive((b - 1) as nat);
    }
}

/// The `w` bytes of `n` in byte order `e`.
pub fn uint_to_bytes(n: u128, w: usize, e: Endian) -> (r: Vec<u8>)
    requires
        w <= 16,
    ensures
        r@ == value_bytes(n as nat, w as nat, e),
{
    let mut out: Vec<u8> = Vec::new();
    let mut x: u128 = n;
    let mut i: usize = 0;
    match e {
        Endian::Little => {
            while i < w
                invariant
                    i <= w,
                    out@ + le_bytes(x as nat, (w - i) as nat) == le_bytes(n as nat, w as nat),
                decreases w - i,
            {
                let ghost before = out@;
                let ghost rest = le_bytes(x as nat, (w - i) as nat);
                assert(rest == seq![(x % 256) as u8] + le_bytes((x / 256) as nat, (w - i - 1) as nat));
                out.push((x % 256) as u8);
                x = x / 256;
                i = i + 1;
                assert(out@ + le_bytes(x as nat, (w - i) as nat) =~= before + rest);
            }
            assert(out@ =~= le_bytes(n as nat, w as nat));
        },
        Endian::Big => {
            let mut tail: Vec<u8> = Vec::new();
            while i < w
                invariant
                    i <= w,
                    be_bytes(x as nat, (w - i) as nat) + tail@.reverse() == be_bytes(n as nat, w as nat),
                decreases w - i,
            {
                let ghost before = tail@;
                let ghost rest = be_bytes(x as nat, (w - i) as nat);
                assert(rest == be_bytes((x / 256) as nat, (w - i - 1) as nat).push((x % 256) as u8));
                tail.push((x % 256) as u8);
                x = x / 256;
                i = i + 1;
                assert(tail@.reverse() =~= seq![(rest.last())] + before.reverse());
                assert(be_bytes(x as nat, (w - i) as nat) + tail@.reverse() =~= rest + before.reverse());
            }
            assert(tail@.reverse() =~= be_bytes(n as nat, w as nat));
            let mut j: usize = tail.len();
            while j > 0
                invariant
                    j <= tail@.len(),
                    out@ =~= tail@.reverse().take((tail@.len() - j) as int),
                decreases j,
            {
                j = j - 1;
                out.push(tail[j]);
            }
            assert(out@ =~= tail@.reverse());
        },
    }
    out
}

/// `byte_bound` of a fixed width, as a number.
pub proof fn lemma_width_bound_1()
    ensures
        byte_bound(1) == 0x100,
        byte_bound(1) / 2 == 0x80,
{
    reveal_with_fuel(byte_bound, 2);
}

/// `byte_bound` of a fixed width, as a number.
pub proof fn lemma_width_bound_2()
    ensures
        byte_bound(2) == 0x10000,
        byte_bound(2) / 2 == 0x8000,
{
    reveal_with_fuel(byte_bound, 3);
}

/// `byte_bound` of a fixed width, as a number.
pub proof fn lemma_width_bound_4()
    ensures
        byte_bound(4) == 0x100000000,
        byte_bound(4) / 2 == 0x80000000,
{
    reveal_with_fuel(byte_bound, 5);
}

/// `byte_bound` of a fixed width, as a number.
pub proof fn lemma_width_bound_8()
    ensures
        byte_bound(8) == 0x10000000000000000,
        byte_bound(8) / 2 == 0x8000000000000000,
{
    reveal_with_fuel(byte_bound, 9);
}

/// `byte_bound` of a fixed width, as a number.
pub proof fn lemma_width_bound_16()
    ensures
        byte_bound(16) == 0x100000000000000000000000000000000,
        byte_bound(16) / 2 == 0x80000000000000000000000000000000,
{
    reveal_with_fuel(byte_bound, 17);
}

} // verus!
