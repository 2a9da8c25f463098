//! The INTEGER leaf: minimal big-endian two's complement, for 32-bit values.
use vstd::prelude::*;
use crate::tlv::{DerError, span};

verus! {

/// Tag of a universal INTEGER.
pub const TAG_INTEGER: u8 = 0x02;

/// `256` to the power `n`.
pub open spec fn pow256(n: nat) -> int
    decreases n,
{
    if n == 0 {
        1
    } else {
        256 * pow256((n - 1) as nat)
    }
}

/// Whether `v` has an `n`-octet two's-complement form.
pub open spec fn fits_octets(v: int, n: nat) -> bool {
    -(pow256(n) / 2) <= v < pow256(n) / 2
}

/// The fewest octets that hold `v` in two's complement (for a 32-bit `v`).
pub open spec fn int_width(v: int) -> nat {
    if fits_octets(v, 1) {
        1
    } else if fits_octets(v, 2) {
        2
    } else if fits_octets(v, 3) {
        3
    } else {
        4
    }
}

/// The low `n` octets of `u`, most significant first.
pub open spec fn be_octets(u: int, n: nat) -> Seq<u8>
    decreases n,
{
    if n == 0 {
        Seq::empty()
    } else {
        be_octets(u / 256, (n - 1) as nat).push((u % 256) as u8)
    }
}

/// The unsigned big-endian value of `s`.
pub open spec fn be_value(s: Seq<u8>) -> int
    decreases s.len(),
{
    if s.len() == 0 {
        0
    } else {
        be_value(s.drop_last()) * 256 + s.last()
    }
}

/// The INTEGER content octets of `v`.
pub open spec fn spec_int_content(v: int) -> Seq<u8> {
    let n = int_width(v);
    be_octets(if v < 0 { v + pow256(n) } else { v }, n)
}

/// Reads INTEGER content octets: one to four of them, read as two's
/// complement, and not also readable in one octet fewer.
pub open spec fn spec_parse_int_content(c: Seq<u8>) -> Result<int, DerError> {
    let n = c.len();
    if n == 0 || n > 4 {
        Err(DerError::MalformedScalar)
    } else {
        let w = be_value(c);
        let v = if w >= pow256(n) / 2 { w - pow256(n) } else { w };
        if n > 1 && fits_octets(v, (n - 1) as nat) {
            Err(DerError::MalformedScalar)
        } else {
            Ok(v)
        }
    }
}

pub proof fn lemma_pow256_values()
    ensures
        pow256(0) == 1,
        pow256(1) == 256,
        pow256(2) == 65536,
        pow256(3) == 16777216,
        pow256(4) == 4294967296,
{
    reveal_with_fuel(pow256, 5);
}

proof fn lemma_be_round_trip(u: int, n: nat)
    requires
        0 <= u,
    ensures
        be_octets(u, n).len() == n,
        be_value(be_octets(u, n)) == u % pow256(n),
    decreases n,
{
    if n > 0 {
        let m = (n - 1) as nat;
        lemma_be_round_trip(u / 256, m);
        let s = be_octets(u, n);
        assert(s.drop_last() =~= be_octets(u / 256, m));
        assert(pow256(m) > 0) by {
            lemma_pow256_positive(m);
        }
        vstd::arithmetic::div_mod::lemma_mod_breakdown(u, 256, pow256(m));
    }
}

proof fn lemma_pow256_positive(n: nat)
    ensures
        pow256(n) > 0,
    decreases n,
{
    if n > 0 {
        lemma_pow256_positive((n - 1) as nat);
    }
}

/// A 32-bit integer's content octets read back as that integer.
pub proof fn lemma_int_round_trip(v: int)
    requires
        i32::MIN <= v <= i32::MAX,
    ensures
        spec_parse_int_content(spec_int_content(v)) == Ok::<int, DerError>(v),
        1 <= spec_int_content(v).len() <= 4,
{
    lemma_pow256_values();
    let n = int_width(v);
    let u = if v < 0 { v + pow256(n) } else { v };
    lemma_be_round_trip(u, n);
    assert(0 <= u < pow256(n));
    vstd::arithmetic::div_mod::lemma_small_mod(u as nat, pow256(n) as nat);
}

/// Reads INTEGER content octets from `buf[a..b]`.
pub fn read_int_content(buf: &[u8], a: usize, b: usize) -> (r: Result<i32, DerError>)
    requires
        a <= b <= buf@.len(),
    ensures
        match spec_parse_int_content(span(buf, a as int, b as int)) {
            Ok(v) => r == Ok::<i32, DerError>(v as i32) && i32::MIN <= v <= i32::MAX,
            Err(e) => r == Err::<i32, DerError>(e),
        },
{
    proof {
        lemma_pow256_values();
    }
    let n = b - a;
    if n == 0 || n > 4 {
        return Err(DerError::MalformedScalar);
    }
    let ghost c = span(buf, a as int, b as int);
    let mut w: i64 = 0;
    let mut i: usize = 0;
    while i < n
        invariant
            0 < n <= 4,
            n == b - a,
            a <= b <= buf@.len(),
            c == span(buf, a as int, b as int),
            i <= n,
            w == be_value(c.subrange(0, i as int)),
            0 <= w < pow256(i as nat),
            pow256(0) == 1 && pow256(1) == 256 && pow256(2) == 65536 && pow256(3) == 16777216
                && pow256(4) == 4294967296,
        decreases n - i,
    {
        assert(c.subrange(0, i + 1).drop_last() =~= c.subrange(0, i as int));
        assert(pow256((i + 1) as nat) == 256 * pow256(i as nat));
        w = w * 256 + buf[a + i] as i64;
        i = i + 1;
    }
    assert(c.subrange(0, n as int) =~= c);
    let full: i64 = if n == 1 {
        256
    } else if n == 2 {
        65536
    } else if n == 3 {
        16777216
    } else {
        4294967296
    };
    let v: i64 = if w >= full / 2 {
        w - full
    } else {
        w
    };
    let shorter: i64 = full / 256;
    if n > 1 && -(shorter / 2) <= v && v < shorter / 2 {
        return Err(DerError::MalformedScalar);
    }
    Ok(v as i32)
}

/// Writes the INTEGER content octets of `v`.
pub fn write_int_content(v: i32) -> (r: Vec<u8>)
    ensures
        r@ == spec_int_content(v as int),
        1 <= r@.len() <= 4,
{
    proof {
        lemma_pow256_values();
    }
    let n: usize = if -128 <= v && v < 128 {
        1
    } else if -32768 <= v && v < 32768 {
        2
    } else if -8388608 <= v && v < 8388608 {
        3
    } else {
        4
    };
    let full: i64 = if n == 1 {
        256
    } else if n == 2 {
        65536
    } else if n == 3 {
        16777216
    } else {
        4294967296
    };
    let u0: i64 = if v < 0 {
        v as i64 + full
    } else {
        v as i64
    };
    let mut out: Vec<u8> = Vec::new();
    let mut k: usize = 0;
    while k < n
        invariant
            k <= n,
            out@.len() == k,
        decreases n - k,
    {
        out.push(0);
        k = k + 1;
    }
    let mut cur: i64 = u0;
    k = 0;
    while k < n
        invariant
            1 <= n <= 4,
            k <= n,
            out@.len() == n,
            0 <= cur <= u0,
            be_octets(u0 as int, n as nat) == be_octets(cur as int, (n - k) as nat) + out@.subrange(
                n - k,
                n as int,
            ),
        decreases n - k,
    {
        let ghost m = (n - k) as nat;
        let ghost old_out = out@;
        assert(be_octets(cur as int, m) == be_octets(cur / 256, (m - 1) as nat).push(
            (cur % 256) as u8,
        ));
        out.set(n - 1 - k, (cur % 256) as u8);
        assert(out@.subrange(n - k - 1, n as int) =~= seq![(cur % 256) as u8] + old_out.subrange(
            n - k,
            n as int,
        ));
        cur = cur / 256;
        k = k + 1;
    }
    assert(out@.subrange(0, n as int) =~= out@);
    out
}

} // verus!
