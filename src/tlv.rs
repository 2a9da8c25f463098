//! Tag-length-value framing under the Distinguished Encoding Rules, and the
//! generic engine that reads and writes the explicitly tagged members of a
//! SEQUENCE.
use vstd::prelude::*;
use crate::integer::{be_value, pow256, lemma_pow256_values};

verus! {

/// What can go wrong while decoding or encoding.
#[derive(Debug, Clone, Copy, PartialEq, Eq, Structural)]
pub enum DerError {
    /// A declared length runs past the end of the available bytes.
    TruncatedInput,
    /// A length is indefinite, not minimal, or larger than this codec supports.
    InvalidLength,
    /// A tag differs from the one the schema expects at this place.
    UnexpectedTag,
    /// A member's context number does not exceed the previous one.
    OutOfOrderField,
    /// A member's context number names no member of the structure.
    UnknownField,
    /// A REQUIRED member does not occur.
    MissingRequiredField,
    /// Bytes remain after a value that must fill its enclosing span.
    TrailingBytes,
    /// A leaf value breaks its own format.
    MalformedScalar,
    /// A TLV read or written would exceed `MAX_ENCODED_LEN` bytes.
    ValueTooLong,
}

/// The largest length, in bytes, of any TLV this codec reads or writes,
/// header included. Messages are fully buffered, and a caller must bound what
/// it hands to a decoder; tickets and their decrypted parts are a few
/// kilobytes, so 64 KiB bounds the work of any call with room to spare.
/// Reading and writing share this bound, so whatever is read can be written
/// again.
pub const MAX_ENCODED_LEN: usize = 65535;

/// Tag of a universal SEQUENCE (constructed).
pub const TAG_SEQUENCE: u8 = 0x30;

/// First tag of the constructed context-specific class: `[n]` is this plus `n`.
pub const TAG_CONTEXT_BASE: u8 = 0xa0;

/// The largest context number written in the one-byte tag form.
pub const MAX_CONTEXT_NUMBER: u8 = 30;

/// The DER length octets for a content length of `n` (defined for `n` up to
/// `MAX_ENCODED_LEN`; longer contents are never encoded).
pub open spec fn spec_len_octets(n: nat) -> Seq<u8> {
    if n < 128 {
        seq![n as u8]
    } else if n < 256 {
        seq![0x81u8, n as u8]
    } else {
        seq![0x82u8, (n / 256) as u8, (n % 256) as u8]
    }
}

/// One complete TLV: the tag byte, the length octets, the content.
pub open spec fn spec_tlv(tag: u8, content: Seq<u8>) -> Seq<u8> {
    seq![tag] + spec_len_octets(content.len()) + content
}

/// Reads the identifier octets at the start of `s`: the tag number and the
/// number of octets it took. Numbers up to 30 sit in the first octet; larger
/// ones follow it in base 128, at most three octets, with no leading zero.
pub open spec fn spec_parse_tag(s: Seq<u8>) -> Result<(nat, nat), DerError> {
    if s.len() == 0 {
        Err(DerError::TruncatedInput)
    } else if s[0] % 32 != 31 {
        Ok(((s[0] % 32) as nat, 1))
    } else if s.len() < 2 {
        Err(DerError::TruncatedInput)
    } else if s[1] < 128 {
        if s[1] < 31 {
            Err(DerError::UnexpectedTag)
        } else {
            Ok((s[1] as nat, 2))
        }
    } else if s[1] == 128 {
        Err(DerError::UnexpectedTag)
    } else if s.len() < 3 {
        Err(DerError::TruncatedInput)
    } else if s[2] < 128 {
        Ok((((s[1] - 128) * 128 + s[2]) as nat, 3))
    } else if s.len() < 4 {
        Err(DerError::TruncatedInput)
    } else if s[3] < 128 {
        Ok(((((s[1] - 128) * 128 + (s[2] - 128)) * 128 + s[3]) as nat, 4))
    } else {
        Err(DerError::UnexpectedTag)
    }
}

/// Reads DER length octets at the start of `s`: the length and the number of
/// octets it took. The long form takes one to four octets and must be the
/// shortest form of its value; the indefinite form is refused.
pub open spec fn spec_parse_len(s: Seq<u8>) -> Result<(nat, nat), DerError> {
    if s.len() == 0 {
        Err(DerError::TruncatedInput)
    } else if s[0] < 128 {
        Ok((s[0] as nat, 1))
    } else if s[0] == 0x80 || s[0] > 0x84 {
        Err(DerError::InvalidLength)
    } else if s.len() < 1 + (s[0] - 0x80) {
        Err(DerError::TruncatedInput)
    } else if s[1] == 0 || (s[0] == 0x81 && s[1] < 128) {
        Err(DerError::InvalidLength)
    } else {
        Ok(
            (
                be_value(s.subrange(1, 1 + (s[0] - 0x80))) as nat,
                (1 + (s[0] - 0x80)) as nat,
            ),
        )
    }
}

/// Reads one TLV at the start of `s`: its first identifier octet, its tag
/// number, its content and the number of bytes it spans. A declared length
/// beyond the bytes present is refused first; a TLV longer than
/// `MAX_ENCODED_LEN` bytes is refused after.
pub open spec fn spec_parse_tlv(s: Seq<u8>) -> Result<(u8, nat, Seq<u8>, nat), DerError> {
    match spec_parse_tag(s) {
        Err(e) => Err(e),
        Ok((num, tl)) => match spec_parse_len(s.subrange(tl as int, s.len() as int)) {
            Err(e) => Err(e),
            Ok((n, k)) => {
                if tl + k + n > s.len() {
                    Err(DerError::TruncatedInput)
                } else if tl + k + n > MAX_ENCODED_LEN {
                    Err(DerError::ValueTooLong)
                } else {
                    Ok((s[0], num, s.subrange(tl + k as int, tl + k + n as int), tl + k + n))
                }
            },
        },
    }
}

/// Reads one TLV whose tag must be `tag`, and gives its content and span.
pub open spec fn spec_parse_elem(s: Seq<u8>, tag: u8) -> Result<(Seq<u8>, nat), DerError> {
    if s.len() == 0 {
        Err(DerError::TruncatedInput)
    } else if s[0] != tag {
        Err(DerError::UnexpectedTag)
    } else {
        match spec_parse_tlv(s) {
            Err(e) => Err(e),
            Ok((_t, _num, c, n)) => Ok((c, n)),
        }
    }
}

/// Reads one TLV with tag `tag` that must fill `s` exactly, and gives its content.
pub open spec fn spec_parse_whole(s: Seq<u8>, tag: u8) -> Result<Seq<u8>, DerError> {
    match spec_parse_elem(s, tag) {
        Err(e) => Err(e),
        Ok((c, n)) => if n != s.len() {
            Err(DerError::TrailingBytes)
        } else {
            Ok(c)
        },
    }
}

pub proof fn lemma_parse_tlv_span(s: Seq<u8>)
    ensures
        spec_parse_tlv(s) matches Ok((_t, _num, c, n)) ==> 2 <= n <= s.len() && c.len() < n
            && n <= MAX_ENCODED_LEN,
{
}

/// Whether `tag` is a one-octet tag (its number is at most 30).
pub open spec fn is_short_tag(tag: u8) -> bool {
    tag % 32 != 31
}

/// A TLV with a one-octet tag and a total of at most `MAX_ENCODED_LEN`
/// bytes reads back as that tag and content, whatever follows it.
pub proof fn lemma_tlv_round_trip(tag: u8, c: Seq<u8>, rest: Seq<u8>)
    requires
        is_short_tag(tag),
        spec_tlv(tag, c).len() <= MAX_ENCODED_LEN,
    ensures
        spec_parse_tlv(spec_tlv(tag, c) + rest) == Ok::<(u8, nat, Seq<u8>, nat), DerError>(
            (tag, (tag % 32) as nat, c, spec_tlv(tag, c).len()),
        ),
        spec_parse_elem(spec_tlv(tag, c) + rest, tag) == Ok::<(Seq<u8>, nat), DerError>(
            (c, spec_tlv(tag, c).len()),
        ),
        spec_parse_whole(spec_tlv(tag, c), tag) == Ok::<Seq<u8>, DerError>(c),
{
    reveal_with_fuel(be_value, 3);
    let n = c.len();
    let lo = spec_len_octets(n);
    let s = spec_tlv(tag, c) + rest;
    let s2 = spec_tlv(tag, c);
    assert(s.subrange(1, s.len() as int) =~= lo + c + rest);
    assert(s2.subrange(1, s2.len() as int) =~= lo + c);
    if n >= 256 {
        assert((n / 256) * 256 + n % 256 == n) by (nonlinear_arith)
            requires n >= 256;
        assert(1 <= n / 256 < 256) by (nonlinear_arith)
            requires 256 <= n <= 65535;
        assert((lo + c + rest).subrange(1, 3) =~= seq![(n / 256) as u8, (n % 256) as u8]);
        assert((lo + c).subrange(1, 3) =~= seq![(n / 256) as u8, (n % 256) as u8]);
    } else if n >= 128 {
        assert((lo + c + rest).subrange(1, 2) =~= seq![n as u8]);
        assert((lo + c).subrange(1, 2) =~= seq![n as u8]);
    }
    assert(s.subrange(1 + lo.len() as int, 1 + lo.len() + n as int) =~= c);
    assert(s2.subrange(1 + lo.len() as int, 1 + lo.len() + n as int) =~= c);
}

/// A length written in long form although it fits a shorter form, or the
/// indefinite form, is refused, whatever the one-octet tag and whatever follows.
pub proof fn lemma_non_minimal_length_rejected(tag: u8, n: u8, m: u8, rest: Seq<u8>)
    requires
        is_short_tag(tag),
    ensures
        n < 128 ==> spec_parse_tlv(seq![tag, 0x81u8, n] + rest) == Err::<(u8, nat, Seq<u8>, nat), DerError>(
            DerError::InvalidLength,
        ),
        spec_parse_tlv(seq![tag, 0x82u8, 0u8, m] + rest) == Err::<(u8, nat, Seq<u8>, nat), DerError>(
            DerError::InvalidLength,
        ),
        spec_parse_tlv(seq![tag, 0x80u8] + rest) == Err::<(u8, nat, Seq<u8>, nat), DerError>(
            DerError::InvalidLength,
        ),
{
    let s1 = seq![tag, 0x81u8, n] + rest;
    let s2 = seq![tag, 0x82u8, 0u8, m] + rest;
    let s3 = seq![tag, 0x80u8] + rest;
    assert(s1.subrange(1, s1.len() as int) =~= seq![0x81u8, n] + rest);
    assert(s2.subrange(1, s2.len() as int) =~= seq![0x82u8, 0u8, m] + rest);
    assert(s3.subrange(1, s3.len() as int) =~= seq![0x80u8] + rest);
}

/// DER has one encoding per value: a TLV with a one-octet tag that reads as
/// tag `tag` and content `c` and fills `s` is exactly the TLV written for them.
pub proof fn lemma_whole_canonical(s: Seq<u8>, tag: u8)
    requires
        is_short_tag(tag),
    ensures
        spec_parse_whole(s, tag) matches Ok(c) ==> s == spec_tlv(tag, c),
{
    reveal_with_fuel(be_value, 5);
    if let Ok(c) = spec_parse_whole(s, tag) {
        let l = s.subrange(1, s.len() as int);
        let (n, k) = spec_parse_len(l)->Ok_0;
        assert(n <= MAX_ENCODED_LEN);
        if k == 2 {
            assert(l.subrange(1, 2) =~= seq![l[1]]);
        } else if k == 3 {
            let hi = l[1] as nat;
            let lo = l[2] as nat;
            assert(l.subrange(1, 3) =~= seq![l[1], l[2]]);
            assert(l.subrange(1, 3).drop_last() =~= seq![l[1]]);
            assert(n == hi * 256 + lo);
            assert((hi * 256 + lo) / 256 == hi && (hi * 256 + lo) % 256 == lo) by (nonlinear_arith)
                requires hi < 256, lo < 256;
            assert(n >= 256);
        } else if k == 4 {
            let w = l.subrange(1, 4);
            assert(w.drop_last().drop_last() =~= seq![l[1]]);
            assert(l[1] as int * 65536 <= n) by (nonlinear_arith)
                requires n == (l[1] as int * 256 + l[2] as int) * 256 + l[3] as int, l[2] >= 0, l[3] >= 0;
            assert(false);
        } else if k == 5 {
            let w = l.subrange(1, 5);
            assert(w.drop_last().drop_last().drop_last() =~= seq![l[1]]);
            assert(l[1] as int * 16777216 <= n) by (nonlinear_arith)
                requires n == ((l[1] as int * 256 + l[2] as int) * 256 + l[3] as int) * 256 + l[4] as int,
                    l[2] >= 0, l[3] >= 0, l[4] >= 0;
            assert(false);
        }
        assert(s =~= spec_tlv(tag, c));
    }
}

/// The bytes `buf[a..b]`.
pub open spec fn span(buf: &[u8], a: int, b: int) -> Seq<u8> {
    buf@.subrange(a, b)
}

/// Reads the identifier octets at `buf[pos..end]`.
fn read_tag(buf: &[u8], pos: usize, end: usize) -> (r: Result<(u32, usize), DerError>)
    requires
        pos <= end <= buf@.len(),
    ensures
        match spec_parse_tag(span(buf, pos as int, end as int)) {
            Ok((num, tl)) => r == Ok::<(u32, usize), DerError>((num as u32, tl as usize)) && num
                < 0x200000 && 1 <= tl <= 4,
            Err(e) => r == Err::<(u32, usize), DerError>(e),
        },
{
    if pos == end {
        return Err(DerError::TruncatedInput);
    }
    let b0 = buf[pos];
    if b0 % 32 != 31 {
        return Ok(((b0 % 32) as u32, 1));
    }
    if end - pos < 2 {
        return Err(DerError::TruncatedInput);
    }
    let b1 = buf[pos + 1];
    if b1 < 128 {
        return if b1 < 31 {
            Err(DerError::UnexpectedTag)
        } else {
            Ok((b1 as u32, 2))
        };
    }
    if b1 == 128 {
        return Err(DerError::UnexpectedTag);
    }
    if end - pos < 3 {
        return Err(DerError::TruncatedInput);
    }
    let b2 = buf[pos + 2];
    if b2 < 128 {
        return Ok(((b1 - 128) as u32 * 128 + b2 as u32, 3));
    }
    if end - pos < 4 {
        return Err(DerError::TruncatedInput);
    }
    let b3 = buf[pos + 3];
    if b3 < 128 {
        Ok((((b1 - 128) as u32 * 128 + (b2 - 128) as u32) * 128 + b3 as u32, 4))
    } else {
        Err(DerError::UnexpectedTag)
    }
}

/// Reads the length octets at `buf[pos..end]`.
fn read_len(buf: &[u8], pos: usize, end: usize) -> (r: Result<(u64, usize), DerError>)
    requires
        pos <= end <= buf@.len(),
    ensures
        match spec_parse_len(span(buf, pos as int, end as int)) {
            Ok((n, k)) => r == Ok::<(u64, usize), DerError>((n as u64, k as usize)) && n
                < 0x1_0000_0000 && 1 <= k <= 5 && k <= end - pos,
            Err(e) => r == Err::<(u64, usize), DerError>(e),
        },
{
    proof {
        lemma_pow256_values();
    }
    if pos == end {
        return Err(DerError::TruncatedInput);
    }
    let b0 = buf[pos];
    if b0 < 128 {
        return Ok((b0 as u64, 1));
    }
    if b0 == 0x80 || b0 > 0x84 {
        return Err(DerError::InvalidLength);
    }
    let k = (b0 - 0x80) as usize;
    if end - pos < 1 + k {
        return Err(DerError::TruncatedInput);
    }
    if buf[pos + 1] == 0 || (k == 1 && buf[pos + 1] < 128) {
        return Err(DerError::InvalidLength);
    }
    let ghost s = span(buf, pos as int, end as int);
    let mut w: u64 = 0;
    let mut i: usize = 0;
    while i < k
        invariant
            1 <= k <= 4,
            pos + 1 + k <= end <= buf@.len(),
            s == span(buf, pos as int, end as int),
            i <= k,
            w == be_value(s.subrange(1, 1 + i)),
            0 <= w < pow256(i as nat),
            pow256(0) == 1 && pow256(1) == 256 && pow256(2) == 65536 && pow256(3) == 16777216
                && pow256(4) == 4294967296,
        decreases k - i,
    {
        assert(s.subrange(1, 2 + i).drop_last() =~= s.subrange(1, 1 + i));
        assert(pow256((i + 1) as nat) == 256 * pow256(i as nat));
        w = w * 256 + buf[pos + 1 + i] as u64;
        i = i + 1;
    }
    Ok((w, 1 + k))
}

/// Reads one TLV at `buf[pos..end]`; on success gives its first identifier
/// octet, its tag number and the span of its content, which ends where the
/// TLV ends.
pub fn read_tlv(buf: &[u8], pos: usize, end: usize) -> (r: Result<(u8, u32, usize, usize), DerError>)
    requires
        pos <= end <= buf@.len(),
    ensures
        match spec_parse_tlv(span(buf, pos as int, end as int)) {
            Ok((t, num, c, n)) => r matches Ok((t2, num2, a, b)) && t2 == t && num2 == num && pos
                < a <= b <= end && b == pos + n && span(buf, a as int, b as int) == c,
            Err(e) => r == Err::<(u8, u32, usize, usize), DerError>(e),
        },
{
    let ghost s = span(buf, pos as int, end as int);
    let (num, tl) = match read_tag(buf, pos, end) {
        Ok(p) => p,
        Err(e) => return Err(e),
    };
    assert(span(buf, pos + tl, end as int) =~= s.subrange(tl as int, s.len() as int));
    let (n, k) = match read_len(buf, pos + tl, end) {
        Ok(p) => p,
        Err(e) => return Err(e),
    };
    let room = end - pos - tl - k;
    if n > room as u64 {
        return Err(DerError::TruncatedInput);
    }
    let n = n as usize;
    if tl + k + n > MAX_ENCODED_LEN {
        return Err(DerError::ValueTooLong);
    }
    let a = pos + tl + k;
    let b = a + n;
    assert(span(buf, a as int, b as int) =~= s.subrange(tl + k as int, tl + k + n as int));
    Ok((buf[pos], num, a, b))
}

/// Reads one TLV with tag `tag` at `buf[pos..end]`, giving its content span.
pub fn read_elem(buf: &[u8], pos: usize, end: usize, tag: u8) -> (r: Result<(usize, usize), DerError>)
    requires
        pos <= end <= buf@.len(),
    ensures
        match spec_parse_elem(span(buf, pos as int, end as int), tag) {
            Ok((c, n)) => r matches Ok((a, b)) && pos < a <= b <= end && b == pos + n && span(
                buf,
                a as int,
                b as int,
            ) == c,
            Err(e) => r == Err::<(usize, usize), DerError>(e),
        },
{
    if pos == end {
        return Err(DerError::TruncatedInput);
    }
    if buf[pos] != tag {
        return Err(DerError::UnexpectedTag);
    }
    match read_tlv(buf, pos, end) {
        Ok((_t, _num, a, b)) => Ok((a, b)),
        Err(e) => Err(e),
    }
}

/// Reads one TLV with tag `tag` that must fill `buf[pos..end]`, giving its
/// content span.
pub fn read_whole(buf: &[u8], pos: usize, end: usize, tag: u8) -> (r: Result<(usize, usize), DerError>)
    requires
        pos <= end <= buf@.len(),
    ensures
        match spec_parse_whole(span(buf, pos as int, end as int), tag) {
            Ok(c) => r matches Ok((a, b)) && pos < a <= b == end && span(buf, a as int, b as int)
                == c,
            Err(e) => r == Err::<(usize, usize), DerError>(e),
        },
{
    match read_elem(buf, pos, end, tag) {
        Ok((a, b)) => if b != end {
            Err(DerError::TrailingBytes)
        } else {
            Ok((a, b))
        },
        Err(e) => Err(e),
    }
}

/// Appends the bytes of `src` to `out`.
pub fn push_all(out: &mut Vec<u8>, src: &[u8])
    ensures
        final(out)@ == old(out)@ + src@,
{
    let mut i: usize = 0;
    while i < src.len()
        invariant
            i <= src@.len(),
            out@ == old(out)@ + src@.subrange(0, i as int),
        decreases src@.len() - i,
    {
        out.push(src[i]);
        i = i + 1;
        assert(src@.subrange(0, i as int) =~= src@.subrange(0, i - 1) + seq![src@[i - 1]]);
    }
    assert(src@.subrange(0, i as int) =~= src@);
}

/// Copies `buf[a..b]` into a new vector.
pub fn copy_span(buf: &[u8], a: usize, b: usize) -> (r: Vec<u8>)
    requires
        a <= b <= buf@.len(),
    ensures
        r@ == span(buf, a as int, b as int),
{
    let mut out: Vec<u8> = Vec::new();
    let mut i: usize = a;
    while i < b
        invariant
            a <= i <= b <= buf@.len(),
            out@ == span(buf, a as int, i as int),
        decreases b - i,
    {
        out.push(buf[i]);
        i = i + 1;
        assert(span(buf, a as int, i as int) =~= span(buf, a as int, i - 1) + seq![buf@[i - 1]]);
    }
    out
}

/// Writes one TLV with tag `tag` around `content`, failing when the result
/// would exceed `MAX_ENCODED_LEN` bytes.
pub fn write_tlv(tag: u8, content: &[u8]) -> (r: Result<Vec<u8>, DerError>)
    ensures
        match r {
            Ok(b) => b@ == spec_tlv(tag, content@) && b@.len() <= MAX_ENCODED_LEN,
            Err(e) => e == DerError::ValueTooLong && spec_tlv(tag, content@).len()
                > MAX_ENCODED_LEN,
        },
{
    let n = content.len();
    let h: usize = if n < 128 {
        1
    } else if n < 256 {
        2
    } else {
        3
    };
    if n > MAX_ENCODED_LEN - 1 - h {
        return Err(DerError::ValueTooLong);
    }
    let mut out: Vec<u8> = Vec::new();
    out.push(tag);
    if n < 128 {
        out.push(n as u8);
    } else if n < 256 {
        out.push(0x81);
        out.push(n as u8);
    } else {
        out.push(0x82);
        out.push((n / 256) as u8);
        out.push((n % 256) as u8);
    }
    assert(out@ =~= seq![tag] + spec_len_octets(n as nat));
    push_all(&mut out, content);
    Ok(out)
}

} // verus!
