use vstd::prelude::*;

use crate::text::{ascii_bytes, bytes_eq, starts_with_lit, subvec};

verus! {

/// The transfer executable interleaves free-form text with single-line
/// structured records such as `<item per="100%" fname="a" tottrf_sz="5"/>`.
/// This module decodes those lines: a tag is followed by `name="value"`
/// attributes separated by spaces and the line closes with `/>`. Lines that
/// do not open with the record marker are passed over; a line that opens
/// with it but breaks the shape is a hard parse error.

pub const SPACE: u8 = 32;

pub const QUOTE: u8 = 34;

pub const SLASH: u8 = 47;

pub const EQUALS: u8 = 61;

pub const GT: u8 = 62;

pub const NL: u8 = 10;

#[derive(Clone, Copy, PartialEq, Eq, Debug)]
pub enum ParseError {
    /// A record line does not follow the attribute grammar.
    Malformed,
    /// A record lacks a field that its consumer requires.
    MissingField,
    /// A numeric field does not hold an unsigned decimal number.
    BadNumber,
    /// No tree tag occurs anywhere in the output.
    TreeMissing,
}

/// One decoded `name="value"` attribute.
#[derive(PartialEq, Eq, Debug)]
pub struct Attr {
    pub name: Vec<u8>,
    pub value: Vec<u8>,
}

pub ghost struct AttrV {
    pub name: Seq<u8>,
    pub value: Seq<u8>,
}

impl View for Attr {
    type V = AttrV;

    open spec fn view(&self) -> AttrV {
        AttrV { name: self.name@, value: self.value@ }
    }
}

pub open spec fn attrs_view(s: Seq<Attr>) -> Seq<AttrV> {
    s.map_values(|a: Attr| a@)
}

pub open spec fn items_view(s: Seq<Vec<Attr>>) -> Seq<Seq<AttrV>> {
    s.map_values(|v: Vec<Attr>| attrs_view(v@))
}

pub open spec fn opt_prepend<T>(pre: Seq<T>, rest: Option<Seq<T>>) -> Option<Seq<T>> {
    match rest {
        Option::None => Option::None,
        Option::Some(t) => Option::Some(pre + t),
    }
}

/// A byte that may stand in an attribute name: anything but the bytes that
/// delimit the grammar itself.
pub open spec fn name_byte(b: u8) -> bool {
    b != SPACE && b != QUOTE && b != EQUALS && b != SLASH && b != GT
}

fn name_byte_x(b: u8) -> (r: bool)
    ensures
        r == name_byte(b),
{
    b != SPACE && b != QUOTE && b != EQUALS && b != SLASH && b != GT
}

/// The first position at or after `i` that could not continue an attribute
/// name, or the length of `s`.
pub open spec fn name_end(s: Seq<u8>, i: int) -> int
    decreases s.len() - i,
{
    if i < 0 || i >= s.len() {
        s.len() as int
    } else if !name_byte(s[i]) {
        i
    } else {
        name_end(s, i + 1)
    }
}

pub proof fn lemma_name_end(s: Seq<u8>, i: int)
    requires
        0 <= i <= s.len(),
    ensures
        i <= name_end(s, i) <= s.len(),
        name_end(s, i) < s.len() ==> !name_byte(s[name_end(s, i)]),
        forall|k: int| i <= k < name_end(s, i) ==> name_byte(#[trigger] s[k]),
    decreases s.len() - i,
{
    if i < s.len() && name_byte(s[i]) {
        lemma_name_end(s, i + 1);
    }
}

/// The first quote at or after `i`, or the length of `s`.
pub open spec fn quote_end(s: Seq<u8>, i: int) -> int
    decreases s.len() - i,
{
    if i < 0 || i >= s.len() {
        s.len() as int
    } else if s[i] == QUOTE {
        i
    } else {
        quote_end(s, i + 1)
    }
}

pub proof fn lemma_quote_end(s: Seq<u8>, i: int)
    requires
        0 <= i <= s.len(),
    ensures
        i <= quote_end(s, i) <= s.len(),
        quote_end(s, i) < s.len() ==> s[quote_end(s, i)] == QUOTE,
        forall|k: int| i <= k < quote_end(s, i) ==> #[trigger] s[k] != QUOTE,
    decreases s.len() - i,
{
    if i < s.len() && s[i] != QUOTE {
        lemma_quote_end(s, i + 1);
    }
}

/// The first line break at or after `i`, or the length of `s`.
pub open spec fn nl_end(s: Seq<u8>, i: int) -> int
    decreases s.len() - i,
{
    if i < 0 || i >= s.len() {
        s.len() as int
    } else if s[i] == NL {
        i
    } else {
        nl_end(s, i + 1)
    }
}

pub proof fn lemma_nl_end(s: Seq<u8>, i: int)
    requires
        0 <= i <= s.len(),
    ensures
        i <= nl_end(s, i) <= s.len(),
        nl_end(s, i) < s.len() ==> s[nl_end(s, i)] == NL,
        forall|k: int| i <= k < nl_end(s, i) ==> #[trigger] s[k] != NL,
    decreases s.len() - i,
{
    if i < s.len() && s[i] != NL {
        lemma_nl_end(s, i + 1);
    }
}

/// The attributes of a record line read from position `i` up to the closing
/// `/>`, which must end the line; `None` when the line breaks the grammar.
pub open spec fn spec_attrs(s: Seq<u8>, i: int) -> Option<Seq<AttrV>>
    decreases s.len() - i,
        when 0 <= i
        via spec_attrs_decreases
{
    if i >= s.len() {
        Option::None
    } else if s[i] == SPACE {
        spec_attrs(s, i + 1)
    } else if s[i] == SLASH {
        if i + 2 == s.len() && s[i + 1] == GT {
            Option::Some(Seq::empty())
        } else {
            Option::None
        }
    } else if !name_byte(s[i]) {
        Option::None
    } else {
        let j = name_end(s, i);
        if j + 1 < s.len() && s[j] == EQUALS && s[j + 1] == QUOTE {
            let k = quote_end(s, j + 2);
            if k + 1 < s.len() && s[k] == QUOTE && (s[k + 1] == SPACE || s[k + 1] == SLASH) {
                opt_prepend(
                    seq![AttrV { name: s.subrange(i, j), value: s.subrange(j + 2, k) }],
                    spec_attrs(s, k + 1),
                )
            } else {
                Option::None
            }
        } else {
            Option::None
        }
    }
}

#[via_fn]
proof fn spec_attrs_decreases(s: Seq<u8>, i: int) {
    if 0 <= i < s.len() && s[i] != SPACE && s[i] != SLASH && name_byte(s[i]) {
        lemma_name_end(s, i);
        let j = name_end(s, i);
        if j + 1 < s.len() && s[j] == EQUALS && s[j + 1] == QUOTE {
            lemma_quote_end(s, j + 2);
        }
    }
}

fn scan_name(v: &Vec<u8>, i: usize) -> (j: usize)
    requires
        i <= v@.len(),
    ensures
        j == name_end(v@, i as int),
{
    let mut j: usize = i;
    while j < v.len() && name_byte_x(v[j])
        invariant
            i <= j <= v@.len(),
            forall|k: int| i <= k < j ==> name_byte(#[trigger] v@[k]),
        decreases v@.len() - j,
    {
        j = j + 1;
    }
    proof {
        lemma_name_end_is(v@, i as int, j as int);
    }
    j
}

proof fn lemma_name_end_is(s: Seq<u8>, i: int, j: int)
    requires
        0 <= i <= j <= s.len(),
        forall|k: int| i <= k < j ==> name_byte(#[trigger] s[k]),
        j < s.len() ==> !name_byte(s[j]),
    ensures
        name_end(s, i) == j,
    decreases j - i,
{
    if i < j {
        lemma_name_end_is(s, i + 1, j);
    }
}

fn scan_quote(v: &Vec<u8>, i: usize) -> (j: usize)
    requires
        i <= v@.len(),
    ensures
        j == quote_end(v@, i as int),
{
    let mut j: usize = i;
    while j < v.len() && v[j] != QUOTE
        invariant
            i <= j <= v@.len(),
            forall|k: int| i <= k < j ==> #[trigger] v@[k] != QUOTE,
        decreases v@.len() - j,
    {
        j = j + 1;
    }
    proof {
        lemma_quote_end_is(v@, i as int, j as int);
    }
    j
}

proof fn lemma_quote_end_is(s: Seq<u8>, i: int, j: int)
    requires
        0 <= i <= j <= s.len(),
        forall|k: int| i <= k < j ==> #[trigger] s[k] != QUOTE,
        j < s.len() ==> s[j] == QUOTE,
    ensures
        quote_end(s, i) == j,
    decreases j - i,
{
    if i < j {
        lemma_quote_end_is(s, i + 1, j);
    }
}

fn scan_nl(v: &Vec<u8>, i: usize) -> (j: usize)
    requires
        i <= v@.len(),
    ensures
        j == nl_end(v@, i as int),
{
    let mut j: usize = i;
    while j < v.len() && v[j] != NL
        invariant
            i <= j <= v@.len(),
            forall|k: int| i <= k < j ==> #[trigger] v@[k] != NL,
        decreases v@.len() - j,
    {
        j = j + 1;
    }
    proof {
        lemma_nl_end_is(v@, i as int, j as int);
    }
    j
}

proof fn lemma_nl_end_is(s: Seq<u8>, i: int, j: int)
    requires
        0 <= i <= j <= s.len(),
        forall|k: int| i <= k < j ==> #[trigger] s[k] != NL,
        j < s.len() ==> s[j] == NL,
    ensures
        nl_end(s, i) == j,
    decreases j - i,
{
    if i < j {
        lemma_nl_end_is(s, i + 1, j);
    }
}

/// Decodes the attribute list of one record line, starting at `start`, up to
/// the closing `/>`.
pub fn parse_attrs(v: &Vec<u8>, start: usize) -> (r: Result<Vec<Attr>, ParseError>)
    requires
        start <= v@.len(),
    ensures
        match r {
            Result::Ok(attrs) => spec_attrs(v@, start as int) == Option::Some(attrs_view(attrs@)),
            Result::Err(e) => spec_attrs(v@, start as int) is None && e == ParseError::Malformed,
        },
{
    let mut i: usize = start;
    let mut out: Vec<Attr> = Vec::new();
    proof {
        assert(attrs_view(out@) =~= Seq::<AttrV>::empty());
    }
    loop
        invariant
            start <= i <= v@.len(),
            spec_attrs(v@, start as int) == opt_prepend(attrs_view(out@), spec_attrs(v@, i as int)),
        decreases v@.len() - i,
    {
        if i >= v.len() {
            return Result::Err(ParseError::Malformed);
        }
        let b = v[i];
        if b == SPACE {
            i = i + 1;
        } else if b == SLASH {
            if v.len() - i == 2 && v[i + 1] == GT {
                proof {
                    assert(attrs_view(out@) + Seq::<AttrV>::empty() =~= attrs_view(out@));
                }
                return Result::Ok(out);
            } else {
                return Result::Err(ParseError::Malformed);
            }
        } else if !name_byte_x(b) {
            return Result::Err(ParseError::Malformed);
        } else {
            let j = scan_name(v, i);
            proof {
                lemma_name_end(v@, i as int);
            }
            if !(j < v.len() - 1) {
                return Result::Err(ParseError::Malformed);
            }
            if !(v[j] == EQUALS && v[j + 1] == QUOTE) {
                return Result::Err(ParseError::Malformed);
            }
            let k = scan_quote(v, j + 2);
            proof {
                lemma_quote_end(v@, j + 2);
            }
            if !(k < v.len() - 1) {
                return Result::Err(ParseError::Malformed);
            }
            let sep = v[k + 1];
            if !(sep == SPACE || sep == SLASH) {
                return Result::Err(ParseError::Malformed);
            }
            let name = subvec(v, i, j);
            let value = subvec(v, j + 2, k);
            let ghost out0 = out@;
            let ghost a = AttrV { name: v@.subrange(i as int, j as int), value: v@.subrange(j + 2, k as int) };
            out.push(Attr { name, value });
            proof {
                assert(attrs_view(out@) =~= attrs_view(out0) + seq![a]);
                assert(spec_attrs(v@, i as int) == opt_prepend(seq![a], spec_attrs(v@, k + 1)));
                match spec_attrs(v@, k + 1) {
                    Option::Some(t) => {
                        assert(attrs_view(out0) + (seq![a] + t) =~= (attrs_view(out0) + seq![a])
                            + t);
                    },
                    Option::None => {},
                }
            }
            i = k + 1;
        }
    }
}

/// A line that opens with the record marker `<item`; only such lines are
/// decoded, every other line is passed over as free-form text.
pub open spec fn is_record_line(line: Seq<u8>) -> bool {
    line.len() >= 5 && line.subrange(0, 5) == ascii_bytes("<item"@)
}

/// The attributes of one record line: after the five-byte tag there must be
/// a space or the closing slash, then the attribute list runs to `/>`.
pub open spec fn spec_tag_attrs(line: Seq<u8>) -> Option<Seq<AttrV>> {
    if line.len() >= 6 && (line[5] == SPACE || line[5] == SLASH) {
        spec_attrs(line, 5)
    } else {
        Option::None
    }
}

/// Decodes one line that opens with a five-byte tag such as `<item` or
/// `<tree`.
pub fn parse_tag_line(line: &Vec<u8>) -> (r: Result<Vec<Attr>, ParseError>)
    ensures
        match r {
            Result::Ok(attrs) => spec_tag_attrs(line@) == Option::Some(attrs_view(attrs@)),
            Result::Err(e) => spec_tag_attrs(line@) is None && e == ParseError::Malformed,
        },
{
    if line.len() >= 6 {
        let b = line[5];
        if b == SPACE || b == SLASH {
            return parse_attrs(line, 5);
        }
    }
    Result::Err(ParseError::Malformed)
}

/// The decoded records of a whole output text read from position `i`: each
/// line opening with the record marker contributes its attribute list, in
/// output order; `None` as soon as one such line is malformed.
pub open spec fn spec_records_from(s: Seq<u8>, i: int) -> Option<Seq<Seq<AttrV>>>
    decreases s.len() - i,
        when 0 <= i
        via spec_records_decreases
{
    if i >= s.len() {
        Option::Some(Seq::empty())
    } else {
        let e = nl_end(s, i);
        let line = s.subrange(i, e);
        let next = if e == s.len() {
            e
        } else {
            e + 1
        };
        let rest = spec_records_from(s, next);
        if is_record_line(line) {
            match spec_tag_attrs(line) {
                Option::None => Option::None,
                Option::Some(a) => opt_prepend(seq![a], rest),
            }
        } else {
            rest
        }
    }
}

#[via_fn]
proof fn spec_records_decreases(s: Seq<u8>, i: int) {
    if 0 <= i < s.len() {
        lemma_nl_end(s, i);
    }
}

/// Scans the output of a transfer-executable invocation and decodes every
/// record line, in order; lines that do not open with the record marker are
/// passed over.
pub fn parse_items(output: &Vec<u8>) -> (r: Result<Vec<Vec<Attr>>, ParseError>)
    ensures
        match r {
            Result::Ok(items) => spec_records_from(output@, 0) == Option::Some(items_view(items@)),
            Result::Err(e) => spec_records_from(output@, 0) is None && e == ParseError::Malformed,
        },
{
    let mut i: usize = 0;
    let mut out: Vec<Vec<Attr>> = Vec::new();
    proof {
        assert(items_view(out@) =~= Seq::<Seq<AttrV>>::empty());
        match spec_records_from(output@, 0) {
            Option::Some(t) => {
                assert(items_view(out@) + t =~= t);
            },
            Option::None => {},
        }
    }
    while i < output.len()
        invariant
            i <= output@.len(),
            spec_records_from(output@, 0) == opt_prepend(
                items_view(out@),
                spec_records_from(output@, i as int),
            ),
        decreases output@.len() - i,
    {
        proof {
            reveal_strlit("<item");
            assert("<item"@.len() == 5);
        }
        let e = scan_nl(output, i);
        proof {
            lemma_nl_end(output@, i as int);
        }
        let line = subvec(output, i, e);
        let next: usize = if e == output.len() {
            e
        } else {
            e + 1
        };
        if starts_with_lit(&line, "<item") {
            match parse_tag_line(&line) {
                Result::Ok(attrs) => {
                    let ghost out0 = out@;
                    let ghost a = attrs_view(attrs@);
                    out.push(attrs);
                    proof {
                        assert(items_view(out@) =~= items_view(out0) + seq![a]);
                        match spec_records_from(output@, next as int) {
                            Option::Some(t) => {
                                assert(items_view(out0) + (seq![a] + t) =~= (items_view(out0)
                                    + seq![a]) + t);
                            },
                            Option::None => {},
                        }
                    }
                },
                Result::Err(e) => {
                    return Result::Err(e);
                },
            }
        }
        i = next;
    }
    proof {
        assert(items_view(out@) + Seq::<Seq<AttrV>>::empty() =~= items_view(out@));
    }
    Result::Ok(out)
}

/// Whether `pat` occurs in `s` at position `i`.
pub open spec fn match_at(s: Seq<u8>, pat: Seq<u8>, i: int) -> bool {
    0 <= i && i + pat.len() <= s.len() && s.subrange(i, i + pat.len() as int) == pat
}

/// The first position at or after `i` where `pat` occurs in `s`, or the
/// length of `s` when it never does.
pub open spec fn find_pat(s: Seq<u8>, pat: Seq<u8>, i: int) -> int
    decreases s.len() - i,
        when 0 <= i
        via find_pat_decreases
{
    if i + pat.len() > s.len() {
        s.len() as int
    } else if match_at(s, pat, i) {
        i
    } else {
        find_pat(s, pat, i + 1)
    }
}

#[via_fn]
proof fn find_pat_decreases(s: Seq<u8>, pat: Seq<u8>, i: int) {
    if 0 <= i && i + pat.len() <= s.len() && pat.len() == 0 {
        assert(s.subrange(i, i + pat.len() as int) =~= pat);
    }
}

fn match_at_x(v: &Vec<u8>, pat: &Vec<u8>, i: usize) -> (r: bool)
    requires
        i <= v@.len() - pat@.len() && pat@.len() <= v@.len(),
    ensures
        r == match_at(v@, pat@, i as int),
{
    let vlen = v.len();
    let mut k: usize = 0;
    let mut m: usize = i;
    while k < pat.len()
        invariant
            vlen == v@.len(),
            i + pat@.len() <= v@.len(),
            k <= pat@.len(),
            m == i + k,
            forall|n: int| 0 <= n < k ==> v@[i + n] == #[trigger] pat@[n],
        decreases pat@.len() - k,
    {
        if v[m] != pat[k] {
            proof {
                assert(v@.subrange(i as int, i + pat@.len() as int)[k as int] != pat@[k as int]);
            }
            return false;
        }
        k = k + 1;
        m = m + 1;
    }
    proof {
        assert(v@.subrange(i as int, i + pat@.len() as int) =~= pat@);
    }
    true
}

fn find_pat_x(v: &Vec<u8>, pat: &Vec<u8>) -> (p: usize)
    ensures
        p == find_pat(v@, pat@, 0),
        p <= v@.len(),
{
    if pat.len() > v.len() {
        proof {
            lemma_find_pat_none(v@, pat@, 0);
        }
        return v.len();
    }
    if pat.len() == 0 {
        proof {
            assert(v@.subrange(0, 0) =~= pat@);
        }
        return 0;
    }
    let mut i: usize = 0;
    while i <= v.len() - pat.len()
        invariant
            1 <= pat@.len() <= v@.len(),
            i <= v@.len() - pat@.len() + 1,
            find_pat(v@, pat@, 0) == find_pat(v@, pat@, i as int),
        decreases v@.len() - i,
    {
        if match_at_x(v, pat, i) {
            return i;
        }
        i = i + 1;
    }
    v.len()
}

proof fn lemma_find_pat_none(s: Seq<u8>, pat: Seq<u8>, i: int)
    requires
        0 <= i,
        pat.len() > s.len(),
    ensures
        find_pat(s, pat, i) == s.len(),
{
}

/// A decimal digit.
pub open spec fn is_digit(b: u8) -> bool {
    48 <= b <= 57
}

/// The number spelled by a sequence of decimal digits, most significant
/// first.
pub open spec fn digits_val(s: Seq<u8>) -> nat
    decreases s.len(),
{
    if s.len() == 0 {
        0
    } else {
        digits_val(s.drop_last()) * 10 + (s.last() - 48) as nat
    }
}

/// The unsigned number held by a field value: defined exactly when the value
/// is a non-empty run of decimal digits whose number fits in a `u64`.
pub open spec fn spec_u64(s: Seq<u8>) -> Option<u64> {
    if s.len() > 0 && (forall|k: int| 0 <= k < s.len() ==> is_digit(#[trigger] s[k]))
        && digits_val(s) <= u64::MAX {
        Option::Some(digits_val(s) as u64)
    } else {
        Option::None
    }
}

proof fn lemma_digits_val_prefix_le(s: Seq<u8>, i: int)
    requires
        0 <= i <= s.len(),
    ensures
        digits_val(s.subrange(0, i)) <= digits_val(s),
    decreases s.len(),
{
    if i < s.len() {
        lemma_digits_val_prefix_le(s.drop_last(), i);
        assert(s.drop_last().subrange(0, i) =~= s.subrange(0, i));
    } else {
        assert(s.subrange(0, i) =~= s);
    }
}

/// Reads a field value as an unsigned decimal number.
pub fn parse_u64(v: &Vec<u8>) -> (r: Result<u64, ParseError>)
    ensures
        match r {
            Result::Ok(n) => spec_u64(v@) == Option::Some(n),
            Result::Err(e) => spec_u64(v@) is None && e == ParseError::BadNumber,
        },
{
    if v.len() == 0 {
        return Result::Err(ParseError::BadNumber);
    }
    let mut acc: u64 = 0;
    let mut i: usize = 0;
    while i < v.len()
        invariant
            i <= v@.len(),
            forall|k: int| 0 <= k < i ==> is_digit(#[trigger] v@[k]),
            acc == digits_val(v@.subrange(0, i as int)),
        decreases v@.len() - i,
    {
        let b = v[i];
        if !(48 <= b && b <= 57) {
            return Result::Err(ParseError::BadNumber);
        }
        let d: u64 = (b - 48) as u64;
        let ghost pre = v@.subrange(0, i as int);
        let ghost pre1 = v@.subrange(0, i + 1);
        proof {
            assert(pre1.drop_last() =~= pre);
            assert(digits_val(pre1) == digits_val(pre) * 10 + d);
        }
        if acc > (u64::MAX - d) / 10 {
            proof {
                lemma_mul_div_bound(acc as int, d as int);
                assert(digits_val(pre1) > u64::MAX);
                lemma_digits_val_prefix_le(v@, i + 1);
            }
            return Result::Err(ParseError::BadNumber);
        }
        proof {
            lemma_mul_div_bound(acc as int, d as int);
        }
        acc = acc * 10 + d;
        i = i + 1;
    }
    proof {
        assert(v@.subrange(0, v@.len() as int) =~= v@);
    }
    Result::Ok(acc)
}

proof fn lemma_mul_div_bound(a: int, d: int)
    requires
        0 <= a,
        0 <= d <= 9,
    ensures
        a <= (u64::MAX - d) / 10 ==> a * 10 + d <= u64::MAX,
        a > (u64::MAX - d) / 10 ==> a * 10 + d > u64::MAX,
{
    let q = (u64::MAX - d) / 10;
    let r = (u64::MAX - d) % 10;
    vstd::arithmetic::div_mod::lemma_fundamental_div_mod(u64::MAX - d, 10);
    if a <= q {
        vstd::arithmetic::mul::lemma_mul_inequality(a, q, 10);
    } else {
        vstd::arithmetic::mul::lemma_mul_inequality(q + 1, a, 10);
    }
}

/// The value of the first attribute called `name`, reading from position
/// `i`; later attributes of the same name are shadowed.
pub open spec fn find_attr_from(attrs: Seq<AttrV>, name: Seq<u8>, i: int) -> Option<Seq<u8>>
    decreases attrs.len() - i,
        when 0 <= i
{
    if i >= attrs.len() {
        Option::None
    } else if attrs[i].name == name {
        Option::Some(attrs[i].value)
    } else {
        find_attr_from(attrs, name, i + 1)
    }
}

pub open spec fn find_attr(attrs: Seq<AttrV>, name: Seq<u8>) -> Option<Seq<u8>> {
    find_attr_from(attrs, name, 0)
}

/// Looks an attribute up by name, taking the first match.
pub fn get_attr(attrs: &Vec<Attr>, name: &Vec<u8>) -> (r: Option<Vec<u8>>)
    ensures
        match r {
            Option::Some(v) => find_attr(attrs_view(attrs@), name@) == Option::Some(v@),
            Option::None => find_attr(attrs_view(attrs@), name@) is None,
        },
{
    let mut i: usize = 0;
    while i < attrs.len()
        invariant
            i <= attrs@.len(),
            find_attr(attrs_view(attrs@), name@) == find_attr_from(
                attrs_view(attrs@),
                name@,
                i as int,
            ),
        decreases attrs@.len() - i,
    {
        if bytes_eq(&attrs[i].name, name) {
            let value = subvec(&attrs[i].value, 0, attrs[i].value.len());
            proof {
                assert(attrs[i as int].value@.subrange(0, attrs[i as int].value@.len() as int)
                    =~= attrs[i as int].value@);
            }
            return Option::Some(value);
        }
        i = i + 1;
    }
    Option::None
}

/// Finds the first tree tag anywhere in the output and decodes the
/// attributes of its line. Status replies such as the server address or the
/// quota come back as one such tag.
pub fn parse_tree(output: &Vec<u8>) -> (r: Result<Vec<Attr>, ParseError>)
    ensures
        match r {
            Result::Ok(attrs) => spec_tree_attrs(output@) == Option::Some(attrs_view(attrs@)),
            Result::Err(e) => spec_tree_attrs(output@) is None && (e == ParseError::TreeMissing
                <==> find_pat(output@, ascii_bytes("<tree"@), 0) == output@.len()) && (e
                == ParseError::Malformed || e == ParseError::TreeMissing),
        },
{
    proof {
        reveal_strlit("<tree");
        assert("<tree"@.len() == 5);
    }
    let pat = crate::text::lit_bytes("<tree");
    let p = find_pat_x(output, &pat);
    if p == output.len() {
        proof {
            lemma_find_pat_le(output@, pat@, 0);
        }
        return Result::Err(ParseError::TreeMissing);
    }
    let e = scan_nl(output, p);
    proof {
        lemma_nl_end(output@, p as int);
        lemma_find_pat_le(output@, pat@, 0);
    }
    let line = subvec(output, p, e);
    match parse_tag_line(&line) {
        Result::Ok(attrs) => Result::Ok(attrs),
        Result::Err(_) => Result::Err(ParseError::Malformed),
    }
}

proof fn lemma_find_pat_le(s: Seq<u8>, pat: Seq<u8>, i: int)
    requires
        0 <= i,
    ensures
        find_pat(s, pat, i) <= s.len(),
    decreases s.len() - i,
{
    if i + pat.len() <= s.len() && pat.len() == 0 {
        assert(s.subrange(i, i + pat.len() as int) =~= pat);
    }
    if i + pat.len() <= s.len() && !match_at(s, pat, i) {
        lemma_find_pat_le(s, pat, i + 1);
    }
}

/// The attributes of the first tree line of the output, when one is there
/// and well formed.
pub open spec fn spec_tree_attrs(s: Seq<u8>) -> Option<Seq<AttrV>> {
    let p = find_pat(s, ascii_bytes("<tree"@), 0);
    if p == s.len() {
        Option::None
    } else {
        spec_tag_attrs(s.subrange(p, nl_end(s, p)))
    }
}

} // verus!
