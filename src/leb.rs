//! Variable-length integers (LEB128): the byte-level model and the calls
//! into the `leb128` crate that read and write them.
use vstd::prelude::*;

verus! {

/// Minimal unsigned LEB128 encoding of `v`: seven value bits per byte,
/// least significant group first, high bit set on every byte but the last.
pub open spec fn uleb(v: nat) -> Seq<u8>
    decreases v,
{
    if v < 128 {
        seq![v as u8]
    } else {
        seq![(v % 128 + 128) as u8] + uleb(v / 128)
    }
}

/// Minimal signed LEB128 encoding of `v` (two's complement groups of seven bits).
pub open spec fn sleb(v: int) -> Seq<u8>
    decreases (if v < 0 { -v } else { v }),
{
    if -64 <= v < 64 {
        seq![(v % 128) as u8]
    } else {
        seq![(v % 128 + 128) as u8] + sleb(v / 128)
    }
}

/// The number that the seven-bit groups of `s` spell, least significant first.
pub open spec fn leb_groups(s: Seq<u8>) -> nat
    decreases s.len(),
{
    if s.len() == 0 {
        0
    } else {
        (s[0] % 128) as nat + 128 * leb_groups(s.drop_first())
    }
}

/// `s` is one complete LEB128 number: every byte but the last has its high bit set.
pub open spec fn leb_framed(s: Seq<u8>) -> bool {
    &&& s.len() >= 1
    &&& forall|i: int| 0 <= i < s.len() - 1 ==> s[i] >= 128
    &&& s[s.len() - 1] < 128
}

pub open spec fn pow2(n: nat) -> nat
    decreases n,
{
    if n == 0 { 1 } else { 2 * pow2((n - 1) as nat) }
}

/// The signed value of a framed sequence: its groups, sign-extended from bit 6
/// of the last byte.
pub open spec fn sleb_value(s: Seq<u8>) -> int {
    if s[s.len() - 1] % 128 >= 64 {
        leb_groups(s) - pow2(7 * s.len())
    } else {
        leb_groups(s) as int
    }
}

/// Relies on leb128::write::unsigned: it appends the minimal encoding of the value
/// to the writer; writing to a `Vec` cannot fail.
#[verifier::external_body]
pub(crate) fn write_unsigned(buf: &mut Vec<u8>, v: u64)
    ensures
        final(buf)@ == old(buf)@ + uleb(v as nat),
{
    leb128::write::unsigned(buf, v).unwrap();
}

/// Relies on leb128::write::signed: it appends the minimal signed encoding of the
/// value to the writer; writing to a `Vec` cannot fail.
#[verifier::external_body]
pub(crate) fn write_signed(buf: &mut Vec<u8>, v: i64)
    ensures
        final(buf)@ == old(buf)@ + sleb(v as int),
{
    leb128::write::signed(buf, v).unwrap();
}

/// Relies on leb128::read::unsigned: it consumes bytes up to and including the
/// first one without the high bit, and returns the number their groups spell
/// (it fails at the end of input and past 64 bits). Gives the value and the
/// bytes left unread.
#[verifier::external_body]
pub(crate) fn read_unsigned(input: &[u8]) -> (r: Option<(u64, &[u8])>)
    ensures
        r matches Some((v, rest)) ==> {
            let k = input@.len() - rest@.len();
            &&& 1 <= k <= input@.len()
            &&& rest@ == input@.skip(k)
            &&& leb_framed(input@.take(k))
            &&& v as nat == leb_groups(input@.take(k))
        },
        r is Some || forall|k: int|
            #![trigger leb_framed(input@.take(k))]
            !(1 <= k <= 9 && k <= input@.len() && leb_framed(input@.take(k))),
{
    let mut rest = input;
    match leb128::read::unsigned(&mut rest) {
        Ok(v) => Some((v, rest)),
        Err(_) => None,
    }
}

/// Relies on leb128::read::signed: it consumes bytes up to and including the
/// first one without the high bit, and returns their groups sign-extended from
/// bit 6 of the last one (it fails at the end of input and past 64 bits: it
/// reads any framed number of at most nine bytes, and one of ten whose last
/// byte is 0x00 or 0x7f). Gives the value and the bytes left unread.
#[verifier::external_body]
pub(crate) fn read_signed(input: &[u8]) -> (r: Option<(i64, &[u8])>)
    ensures
        r matches Some((v, rest)) ==> {
            let k = input@.len() - rest@.len();
            &&& 1 <= k <= input@.len()
            &&& rest@ == input@.skip(k)
            &&& leb_framed(input@.take(k))
            &&& v as int == sleb_value(input@.take(k))
        },
        r is Some || forall|k: int|
            #![trigger leb_framed(input@.take(k))]
            !(1 <= k <= 10 && k <= input@.len() && leb_framed(input@.take(k)) && (k == 10 ==> (input@[9] == 0
                || input@[9] == 0x7f))),
{
    let mut rest = input;
    match leb128::read::signed(&mut rest) {
        Ok(v) => Some((v, rest)),
        Err(_) => None,
    }
}

/// Reading back the unsigned encoding of `v` gives `v`; the encoding is one
/// framed number with no redundant trailing group (its last byte is zero
/// only when it is the only byte).
pub proof fn lemma_uleb_round_trip(v: nat)
    ensures
        leb_framed(uleb(v)),
        leb_groups(uleb(v)) == v,
        uleb(v).len() == 1 || uleb(v)[uleb(v).len() - 1] != 0,
    decreases v,
{
    if v >= 128 {
        lemma_uleb_round_trip(v / 128);
        let s = uleb(v);
        let r = uleb(v / 128);
        assert(s == seq![(v % 128 + 128) as u8] + r);
        assert(s.drop_first() =~= r);
        assert(s[0] % 128 == v % 128);
        assert forall|i: int| 0 <= i < s.len() - 1 implies s[i] >= 128 by {
            if i > 0 {
                assert(s[i] == r[i - 1]);
            }
        }
        assert(s[s.len() - 1] == r[r.len() - 1]);
        if r.len() == 1 {
            assert(r[0] == (v / 128) as u8);
        }
    } else {
        assert(uleb(v).drop_first() =~= Seq::<u8>::empty());
        reveal_with_fuel(leb_groups, 2);
    }
}

proof fn lemma_pow2_step(n: nat)
    ensures
        pow2(n + 7) == 128 * pow2(n),
{
    reveal_with_fuel(pow2, 8);
}

/// Reading back the signed encoding of `v` gives `v`; the encoding is one
/// framed number with no redundant trailing group (the last byte does not
/// merely repeat the sign of the byte before it).
pub proof fn lemma_sleb_round_trip(v: int)
    ensures
        leb_framed(sleb(v)),
        sleb_value(sleb(v)) == v,
        sleb(v).len() == 1 || {
            let s = sleb(v);
            let last = s[s.len() - 1];
            let prev = s[s.len() - 2] % 128;
            !(last == 0 && prev < 64) && !(last == 0x7f && prev >= 64)
        },
    decreases (if v < 0 { -v } else { v }),
{
    let s = sleb(v);
    if -64 <= v < 64 {
        reveal_with_fuel(pow2, 8);
        assert(s == seq![(v % 128) as u8]);
        assert(s.drop_first() =~= Seq::<u8>::empty());
        reveal_with_fuel(leb_groups, 2);
        assert(leb_groups(s) == v % 128);
    } else {
        let w = v / 128;
        lemma_sleb_round_trip(w);
        let r = sleb(w);
        assert(s == seq![(v % 128 + 128) as u8] + r);
        assert(s.drop_first() =~= r);
        assert(s[0] % 128 == v % 128);
        assert forall|i: int| 0 <= i < s.len() - 1 implies s[i] >= 128 by {
            if i > 0 {
                assert(s[i] == r[i - 1]);
            }
        }
        assert(s[s.len() - 1] == r[r.len() - 1]);
        lemma_pow2_step(7 * r.len());
        assert(7 * s.len() == 7 * r.len() + 7);
        assert(leb_groups(s) == v % 128 + 128 * leb_groups(r));
        assert(v == v % 128 + 128 * w);
        if r.len() == 1 {
            assert(s[s.len() - 2] == s[0]);
            assert(r[0] == (w % 128) as u8);
        } else {
            assert(s[s.len() - 2] == r[r.len() - 2]);
        }
    }
}

/// A sequence starts with at most one framed number.
pub proof fn lemma_framed_unique(s: Seq<u8>, a: int, b: int)
    requires
        1 <= a <= s.len(),
        1 <= b <= s.len(),
        leb_framed(s.take(a)),
        leb_framed(s.take(b)),
    ensures
        a == b,
{
    if a < b {
        assert(s.take(b)[a - 1] == s.take(a)[a - 1]);
    }
    if b < a {
        assert(s.take(a)[b - 1] == s.take(b)[b - 1]);
    }
}

/// The encoding of a 32-bit value takes one to five bytes.
pub proof fn lemma_uleb_len_u32(v: nat)
    requires
        v <= u32::MAX,
    ensures
        1 <= uleb(v).len() <= 5,
{
    reveal_with_fuel(uleb, 6);
}

proof fn lemma_div128_bounds(v: int, p: int)
    requires
        p >= 1,
        -128 * p <= v < 128 * p,
    ensures
        -p <= v / 128 < p,
{
    assert(-p <= v / 128 < p) by (nonlinear_arith)
        requires
            p >= 1,
            -128 * p <= v < 128 * p,
    ;
}

proof fn lemma_pow2_pos(n: nat)
    ensures
        pow2(n) >= 1,
    decreases n,
{
    if n > 0 {
        lemma_pow2_pos((n - 1) as nat);
    }
}

/// A value in `[-2^(7n+6), 2^(7n+6))` takes at most `n + 1` bytes.
pub proof fn lemma_sleb_len(v: int, n: nat)
    requires
        -pow2(7 * n + 6) <= v < pow2(7 * n + 6),
    ensures
        sleb(v).len() <= n + 1,
    decreases n,
{
    reveal_with_fuel(pow2, 7);
    if !(-64 <= v < 64) {
        if n == 0 {
            assert(pow2(6) == 64);
        } else {
            lemma_pow2_step((7 * (n - 1) + 6) as nat);
            assert(7 * n + 6 == 7 * (n - 1) + 6 + 7);
            lemma_pow2_pos((7 * (n - 1) + 6) as nat);
            lemma_div128_bounds(v, pow2((7 * (n - 1) + 6) as nat) as int);
            lemma_sleb_len(v / 128, (n - 1) as nat);
            assert(sleb(v) == seq![(v % 128 + 128) as u8] + sleb(v / 128));
        }
    }
}

/// A value in `[-2^(7n), 2^(7n))` encoded in exactly `n + 1` bytes ends with
/// a byte that only repeats the sign: 0x00 or 0x7f.
pub proof fn lemma_sleb_last(v: int, n: nat)
    requires
        -pow2(7 * n) <= v < pow2(7 * n),
        sleb(v).len() == n + 1,
    ensures
        sleb(v)[n as int] == 0 || sleb(v)[n as int] == 0x7f,
    decreases n,
{
    reveal_with_fuel(pow2, 2);
    if n == 0 {
        assert(-1 <= v < 1);
        assert(sleb(v) == seq![(v % 128) as u8]);
    } else {
        if -64 <= v < 64 {
            assert(sleb(v).len() == 1);
        } else {
            lemma_pow2_step((7 * (n - 1)) as nat);
            assert(7 * n == 7 * (n - 1) + 7);
            lemma_pow2_pos((7 * (n - 1)) as nat);
            lemma_div128_bounds(v, pow2((7 * (n - 1)) as nat) as int);
            let r = sleb(v / 128);
            assert(sleb(v) == seq![(v % 128 + 128) as u8] + r);
            lemma_sleb_last(v / 128, (n - 1) as nat);
            assert(sleb(v)[n as int] == r[n - 1]);
        }
    }
}

proof fn lemma_pow2_63()
    ensures
        pow2(63) == 0x8000_0000_0000_0000,
        pow2(69) == 0x20_0000_0000_0000_0000,
{
    reveal_with_fuel(pow2, 70);
}

/// The encoding of a 64-bit value takes at most ten bytes, and a tenth byte
/// is 0x00 or 0x7f.
pub proof fn lemma_sleb_i64(v: int)
    requires
        i64::MIN <= v <= i64::MAX,
    ensures
        1 <= sleb(v).len() <= 10,
        sleb(v).len() == 10 ==> (sleb(v)[9] == 0 || sleb(v)[9] == 0x7f),
{
    lemma_pow2_63();
    lemma_sleb_len(v, 9);
    lemma_sleb_round_trip(v);
    if sleb(v).len() == 10 {
        lemma_sleb_last(v, 9);
    }
}
} // verus!
