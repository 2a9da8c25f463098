//! The members of a SEQUENCE, each wrapped in an explicit context tag `[n]`,
//! as a table indexed by context number: `Some(content)` for a member that
//! occurs, `None` for one that does not.
use vstd::prelude::*;
use crate::tlv::{
    DerError, MAX_ENCODED_LEN, TAG_CONTEXT_BASE, MAX_CONTEXT_NUMBER, spec_parse_tlv, spec_tlv,
    span, read_tlv, write_tlv, push_all, lemma_tlv_round_trip, spec_parse_whole, read_whole,
};

verus! {

/// A table of `k` members, none present.
pub open spec fn spec_empty_table(k: nat) -> Seq<Option<Seq<u8>>> {
    Seq::new(k, |i: int| None::<Seq<u8>>)
}

/// The last identifier octet of the constructed context-specific class; it
/// opens the multi-byte form, for numbers above 30.
pub const TAG_CONTEXT_LAST: u8 = 0xbf;

/// Reads the members in `s` into table `t`, where `last` is the context number
/// read before them (or -1). Each must be a constructed context-specific TLV,
/// in the one-octet or the multi-byte tag form; numbers must rise strictly and
/// stay below `t.len()`.
pub open spec fn spec_scan(s: Seq<u8>, last: int, t: Seq<Option<Seq<u8>>>) -> Result<
    Seq<Option<Seq<u8>>>,
    DerError,
>
    decreases s.len(),
{
    if s.len() == 0 {
        Ok(t)
    } else {
        match spec_parse_tlv(s) {
            Err(e) => Err(e),
            Ok((tag, num, c, n)) => {
                if tag < TAG_CONTEXT_BASE || tag > TAG_CONTEXT_LAST {
                    Err(DerError::UnexpectedTag)
                } else if num >= t.len() {
                    Err(DerError::UnknownField)
                } else if num <= last {
                    Err(DerError::OutOfOrderField)
                } else if n == 0 || n > s.len() {
                    Err(DerError::TruncatedInput)
                } else {
                    spec_scan(s.subrange(n as int, s.len() as int), num as int, t.update(num as int, Some(c)))
                }
            },
        }
    }
}

/// Reads the members of a structure with `k` members from the SEQUENCE content `s`.
pub open spec fn spec_scan_fields(s: Seq<u8>, k: nat) -> Result<Seq<Option<Seq<u8>>>, DerError> {
    spec_scan(s, -1, spec_empty_table(k))
}

/// The bytes of member `i` when it holds `o`.
pub open spec fn spec_enc_field(o: Option<Seq<u8>>, i: int) -> Seq<u8> {
    match o {
        Some(c) => spec_tlv((TAG_CONTEXT_BASE + i) as u8, c),
        None => Seq::empty(),
    }
}

/// The bytes of the members of `t` from number `from` on, in ascending order.
pub open spec fn spec_enc_fields_from(t: Seq<Option<Seq<u8>>>, from: nat) -> Seq<u8>
    decreases t.len() - from,
{
    if from >= t.len() {
        Seq::empty()
    } else {
        spec_enc_field(t[from as int], from as int) + spec_enc_fields_from(t, from + 1)
    }
}

/// The SEQUENCE content that holds the members of `t`.
pub open spec fn spec_enc_fields(t: Seq<Option<Seq<u8>>>) -> Seq<u8> {
    spec_enc_fields_from(t, 0)
}

/// `init` below `from`, `t` from `from` on.
pub open spec fn spec_merge(init: Seq<Option<Seq<u8>>>, t: Seq<Option<Seq<u8>>>, from: nat) -> Seq<
    Option<Seq<u8>>,
> {
    Seq::new(t.len(), |i: int| if i < from { init[i] } else { t[i] })
}

proof fn lemma_scan_from(t: Seq<Option<Seq<u8>>>, from: nat, last: int, init: Seq<Option<Seq<u8>>>)
    requires
        t.len() <= MAX_CONTEXT_NUMBER + 1,
        init.len() == t.len(),
        last < from <= t.len(),
        forall|i: int| from <= i < t.len() ==> init[i] is None,
        spec_enc_fields_from(t, from).len() <= MAX_ENCODED_LEN,
    ensures
        spec_scan(spec_enc_fields_from(t, from), last, init) == Ok::<
            Seq<Option<Seq<u8>>>,
            DerError,
        >(spec_merge(init, t, from)),
    decreases t.len() - from,
{
    let rest = spec_enc_fields_from(t, from + 1);
    if from == t.len() {
        assert(spec_merge(init, t, from) =~= init);
    } else {
        match t[from as int] {
            None => {
                assert(spec_enc_fields_from(t, from) =~= rest);
                lemma_scan_from(t, from + 1, last, init);
                assert(spec_merge(init, t, from + 1) =~= spec_merge(init, t, from));
            },
            Some(c) => {
                let tag = (TAG_CONTEXT_BASE + from) as u8;
                let s = spec_enc_fields_from(t, from);
                assert(s == spec_tlv(tag, c) + rest);
                lemma_tlv_round_trip(tag, c, rest);
                assert(s.subrange(spec_tlv(tag, c).len() as int, s.len() as int) =~= rest);
                let init2 = init.update(from as int, Some(c));
                lemma_scan_from(t, from + 1, from as int, init2);
                assert(spec_merge(init2, t, from + 1) =~= spec_merge(init, t, from));
            },
        }
    }
}

/// Writing a table of members and scanning the bytes back gives the table.
pub proof fn lemma_fields_round_trip(t: Seq<Option<Seq<u8>>>)
    requires
        t.len() <= MAX_CONTEXT_NUMBER + 1,
        spec_enc_fields(t).len() <= MAX_ENCODED_LEN,
    ensures
        spec_scan_fields(spec_enc_fields(t), t.len()) == Ok::<Seq<Option<Seq<u8>>>, DerError>(t),
{
    lemma_scan_from(t, 0, -1, spec_empty_table(t.len()));
    assert(spec_merge(spec_empty_table(t.len()), t, 0) =~= t);
}

/// A member whose context number does not exceed that of the member before
/// it is refused as out of order, however well-formed both are.
pub proof fn lemma_descending_members_rejected(
    i: u8,
    j: u8,
    ci: Seq<u8>,
    cj: Seq<u8>,
    rest: Seq<u8>,
    last: int,
    t: Seq<Option<Seq<u8>>>,
)
    requires
        j <= i,
        last < i,
        i < t.len(),
        t.len() <= MAX_CONTEXT_NUMBER + 1,
        spec_tlv((TAG_CONTEXT_BASE + i) as u8, ci).len() <= MAX_ENCODED_LEN,
        spec_tlv((TAG_CONTEXT_BASE + j) as u8, cj).len() <= MAX_ENCODED_LEN,
    ensures
        spec_scan(
            spec_tlv((TAG_CONTEXT_BASE + i) as u8, ci) + spec_tlv((TAG_CONTEXT_BASE + j) as u8, cj)
                + rest,
            last,
            t,
        ) == Err::<Seq<Option<Seq<u8>>>, DerError>(DerError::OutOfOrderField),
{
    let ti = (TAG_CONTEXT_BASE + i) as u8;
    let tj = (TAG_CONTEXT_BASE + j) as u8;
    let after = spec_tlv(tj, cj) + rest;
    let s = spec_tlv(ti, ci) + spec_tlv(tj, cj) + rest;
    assert(s =~= spec_tlv(ti, ci) + after);
    lemma_tlv_round_trip(ti, ci, after);
    lemma_tlv_round_trip(tj, cj, rest);
    assert(s.subrange(spec_tlv(ti, ci).len() as int, s.len() as int) =~= after);
    let t2 = t.update(i as int, Some(ci));
    assert(ti % 32 == i && tj % 32 == j);
    assert(spec_scan(after, i as int, t2) == Err::<Seq<Option<Seq<u8>>>, DerError>(
        DerError::OutOfOrderField,
    ));
}

/// A member whose length is written in a longer form than it needs, or in
/// the indefinite form, is refused, wherever in the SEQUENCE it stands.
pub proof fn lemma_non_minimal_member_rejected(
    tag: u8,
    n: u8,
    rest: Seq<u8>,
    last: int,
    t: Seq<Option<Seq<u8>>>,
)
    requires
        crate::tlv::is_short_tag(tag),
        n < 128,
    ensures
        spec_scan(seq![tag, 0x81u8, n] + rest, last, t) == Err::<Seq<Option<Seq<u8>>>, DerError>(
            DerError::InvalidLength,
        ),
        spec_scan(seq![tag, 0x80u8] + rest, last, t) == Err::<Seq<Option<Seq<u8>>>, DerError>(
            DerError::InvalidLength,
        ),
{
    crate::tlv::lemma_non_minimal_length_rejected(tag, n, 0, rest);
}

/// The bytes that a table of spans into `buf` stands for.
pub open spec fn spec_table_of_spans(buf: &[u8], v: Seq<Option<(usize, usize)>>) -> Seq<
    Option<Seq<u8>>,
> {
    Seq::new(
        v.len(),
        |i: int|
            match v[i] {
                Some((a, b)) => Some(span(buf, a as int, b as int)),
                None => None,
            },
    )
}

/// Every span of `v` lies within `buf[pos..end]`.
pub open spec fn spans_within(v: Seq<Option<(usize, usize)>>, pos: int, end: int) -> bool {
    forall|i: int|
        0 <= i < v.len() ==> (#[trigger] v[i] matches Some((a, b)) ==> pos <= a <= b <= end)
}

/// Reads the members of a structure with `k` members from the SEQUENCE
/// content `buf[pos..end]`, giving the span of each member's content.
pub fn scan_fields(buf: &[u8], pos: usize, end: usize, k: usize) -> (r: Result<
    Vec<Option<(usize, usize)>>,
    DerError,
>)
    requires
        pos <= end <= buf@.len(),
        k <= MAX_CONTEXT_NUMBER + 1,
    ensures
        match spec_scan_fields(span(buf, pos as int, end as int), k as nat) {
            Ok(t) => r matches Ok(v) && v@.len() == k && spans_within(v@, pos as int, end as int)
                && spec_table_of_spans(buf, v@) == t,
            Err(e) => r == Err::<Vec<Option<(usize, usize)>>, DerError>(e),
        },
{
    let mut table: Vec<Option<(usize, usize)>> = Vec::new();
    let mut i: usize = 0;
    while i < k
        invariant
            i <= k,
            table@.len() == i,
            forall|j: int| 0 <= j < i ==> table@[j] is None,
        decreases k - i,
    {
        table.push(None);
        i = i + 1;
    }
    assert(spec_table_of_spans(buf, table@) =~= spec_empty_table(k as nat));
    let mut p: usize = pos;
    let mut next: usize = 0;
    while p < end
        invariant
            pos <= p <= end <= buf@.len(),
            next <= k <= MAX_CONTEXT_NUMBER + 1,
            table@.len() == k,
            spans_within(table@, pos as int, end as int),
            spec_scan_fields(span(buf, pos as int, end as int), k as nat) == spec_scan(
                span(buf, p as int, end as int),
                next - 1,
                spec_table_of_spans(buf, table@),
            ),
        decreases end - p,
    {
        let ghost s = span(buf, p as int, end as int);
        let ghost t0 = spec_table_of_spans(buf, table@);
        proof {
            crate::tlv::lemma_parse_tlv_span(s);
        }
        let (tag, number, a, b) = match read_tlv(buf, p, end) {
            Ok(x) => x,
            Err(e) => return Err(e),
        };
        if tag < TAG_CONTEXT_BASE || tag > TAG_CONTEXT_LAST {
            return Err(DerError::UnexpectedTag);
        }
        if number as usize >= k {
            return Err(DerError::UnknownField);
        }
        let num = number as usize;
        if num < next {
            return Err(DerError::OutOfOrderField);
        }
        table.set(num, Some((a, b)));
        assert(span(buf, b as int, end as int) =~= s.subrange((b - p) as int, s.len() as int));
        assert(spec_table_of_spans(buf, table@) =~= t0.update(num as int, Some(span(buf, a as int, b as int))));
        p = b;
        next = num + 1;
    }
    assert(span(buf, p as int, end as int).len() == 0);
    Ok(table)
}

/// The bytes that a table of owned member contents stands for.
pub open spec fn spec_table_of_vecs(v: Seq<Option<Vec<u8>>>) -> Seq<Option<Seq<u8>>> {
    Seq::new(
        v.len(),
        |i: int|
            match v[i] {
                Some(c) => Some(c@),
                None => None,
            },
    )
}

/// Writes the members of `t` in ascending order of context number, failing
/// when the result would exceed `MAX_ENCODED_LEN` bytes.
pub fn write_fields(t: &Vec<Option<Vec<u8>>>) -> (r: Result<Vec<u8>, DerError>)
    requires
        t@.len() <= MAX_CONTEXT_NUMBER + 1,
    ensures
        match r {
            Ok(b) => b@ == spec_enc_fields(spec_table_of_vecs(t@)) && b@.len() <= MAX_ENCODED_LEN,
            Err(e) => e == DerError::ValueTooLong && spec_enc_fields(spec_table_of_vecs(t@)).len()
                > MAX_ENCODED_LEN,
        },
{
    let ghost tv = spec_table_of_vecs(t@);
    let mut out: Vec<u8> = Vec::new();
    let mut i: usize = 0;
    while i < t.len()
        invariant
            i <= t@.len() <= MAX_CONTEXT_NUMBER + 1,
            tv == spec_table_of_vecs(t@),
            spec_enc_fields(tv) == out@ + spec_enc_fields_from(tv, i as nat),
            out@.len() <= MAX_ENCODED_LEN,
        decreases t@.len() - i,
    {
        let ghost before = out@;
        assert(spec_enc_fields_from(tv, i as nat) == spec_enc_field(tv[i as int], i as int)
            + spec_enc_fields_from(tv, (i + 1) as nat));
        match &t[i] {
            Some(c) => {
                let part = match write_tlv(TAG_CONTEXT_BASE + i as u8, c.as_slice()) {
                    Ok(p) => p,
                    Err(e) => return Err(e),
                };
                if part.len() > MAX_ENCODED_LEN - out.len() {
                    return Err(DerError::ValueTooLong);
                }
                push_all(&mut out, part.as_slice());
            },
            None => {},
        }
        assert(out@ + spec_enc_fields_from(tv, (i + 1) as nat) =~= before + spec_enc_fields_from(tv, i as nat));
        i = i + 1;
    }
    assert(spec_enc_fields_from(tv, i as nat) =~= Seq::<u8>::empty());
    assert(out@ + Seq::<u8>::empty() =~= out@);
    Ok(out)
}

/// Reads the whole of `s` as one TLV with tag `tag` holding the members of
/// a structure with `k` members.
pub open spec fn spec_parse_members(s: Seq<u8>, tag: u8, k: nat) -> Result<
    Seq<Option<Seq<u8>>>,
    DerError,
> {
    match spec_parse_whole(s, tag) {
        Err(e) => Err(e),
        Ok(body) => spec_scan_fields(body, k),
    }
}

/// The TLV with tag `tag` holding the members of `t`.
pub open spec fn spec_members(tag: u8, t: Seq<Option<Seq<u8>>>) -> Seq<u8> {
    spec_tlv(tag, spec_enc_fields(t))
}

/// Member `i` of `t`, which the structure requires.
pub open spec fn spec_required(t: Seq<Option<Seq<u8>>>, i: int) -> Result<Seq<u8>, DerError> {
    match t[i] {
        Some(c) => Ok(c),
        None => Err(DerError::MissingRequiredField),
    }
}

proof fn lemma_member_shorter_from(t: Seq<Option<Seq<u8>>>, from: nat, i: int)
    requires
        from <= i < t.len(),
        t[i] is Some,
    ensures
        t[i]->Some_0.len() < spec_enc_fields_from(t, from).len(),
    decreases t.len() - from,
{
    if from < i {
        lemma_member_shorter_from(t, from + 1, i);
    }
}

/// Each member's content is shorter than the bytes of all members.
pub proof fn lemma_member_shorter(tag: u8, t: Seq<Option<Seq<u8>>>)
    ensures
        forall|i: int|
            0 <= i < t.len() && #[trigger] t[i] is Some ==> t[i]->Some_0.len() < spec_members(
                tag,
                t,
            ).len(),
{
    assert forall|i: int| 0 <= i < t.len() && #[trigger] t[i] is Some implies t[i]->Some_0.len()
        < spec_members(tag, t).len() by {
        lemma_member_shorter_from(t, 0, i);
    }
}

/// A structure's members, written and read back, give the same table.
pub proof fn lemma_members_round_trip(tag: u8, t: Seq<Option<Seq<u8>>>)
    requires
        crate::tlv::is_short_tag(tag),
        t.len() <= MAX_CONTEXT_NUMBER + 1,
        spec_members(tag, t).len() <= MAX_ENCODED_LEN,
    ensures
        spec_parse_members(spec_members(tag, t), tag, t.len()) == Ok::<
            Seq<Option<Seq<u8>>>,
            DerError,
        >(t),
{
    lemma_tlv_round_trip(tag, spec_enc_fields(t), Seq::empty());
    lemma_fields_round_trip(t);
}

/// Reads the structure with tag `tag` and `k` members that fills
/// `buf[pos..end]`, giving the span of each member's content.
pub fn read_members(buf: &[u8], pos: usize, end: usize, tag: u8, k: usize) -> (r: Result<
    Vec<Option<(usize, usize)>>,
    DerError,
>)
    requires
        pos <= end <= buf@.len(),
        k <= MAX_CONTEXT_NUMBER + 1,
    ensures
        match spec_parse_members(span(buf, pos as int, end as int), tag, k as nat) {
            Ok(t) => r matches Ok(v) && v@.len() == k && spans_within(v@, pos as int, end as int)
                && spec_table_of_spans(buf, v@) == t,
            Err(e) => r == Err::<Vec<Option<(usize, usize)>>, DerError>(e),
        },
{
    match read_whole(buf, pos, end, tag) {
        Err(e) => Err(e),
        Ok((a, b)) => scan_fields(buf, a, b, k),
    }
}

/// Writes the structure with tag `tag` holding the members of `t`, failing
/// when it would exceed `MAX_ENCODED_LEN` bytes.
pub fn write_members(tag: u8, t: &Vec<Option<Vec<u8>>>) -> (r: Result<Vec<u8>, DerError>)
    requires
        t@.len() <= MAX_CONTEXT_NUMBER + 1,
    ensures
        match r {
            Ok(b) => b@ == spec_members(tag, spec_table_of_vecs(t@)) && b@.len()
                <= MAX_ENCODED_LEN,
            Err(e) => e == DerError::ValueTooLong && spec_members(tag, spec_table_of_vecs(t@)).len()
                > MAX_ENCODED_LEN,
        },
{
    match write_fields(t) {
        Err(e) => Err(e),
        Ok(body) => write_tlv(tag, body.as_slice()),
    }
}

} // verus!
