//! Text handling for the header search key: whitespace tokenization,
//! decimal header-id prefixes, case folding, and parsing of base-32
//! message ids.

use vstd::prelude::*;

verus! {

/// Tokens longer than this are dropped from header searches.
pub const MAX_TOKEN_LENGTH: usize = 25;

pub open spec fn is_ascii_ws(b: u8) -> bool {
    b == 32 || b == 9 || b == 10 || b == 12 || b == 13
}

/// Length of the token starting at `i` (zero on whitespace or at the
/// end).
pub open spec fn token_len_at(s: Seq<u8>, i: int) -> nat
    decreases s.len() - i,
{
    if i < 0 || i >= s.len() || is_ascii_ws(s[i]) {
        0
    } else {
        1 + token_len_at(s, i + 1)
    }
}

proof fn lemma_token_len_bound(s: Seq<u8>, i: int)
    requires
        0 <= i <= s.len(),
    ensures
        i + token_len_at(s, i) <= s.len(),
    decreases s.len() - i,
{
    if i < s.len() && !is_ascii_ws(s[i]) {
        lemma_token_len_bound(s, i + 1);
    }
}

/// The whitespace-separated tokens of `s` from position `i` on.
pub open spec fn tokens_from(s: Seq<u8>, i: int) -> Seq<Seq<u8>>
    decreases s.len() - i,
        via tokens_from_decreases
{
    if i < 0 || i >= s.len() {
        Seq::empty()
    } else if is_ascii_ws(s[i]) {
        tokens_from(s, i + 1)
    } else {
        let l = token_len_at(s, i) as int;
        seq![s.subrange(i, i + l)] + tokens_from(s, i + l)
    }
}

#[via_fn]
proof fn tokens_from_decreases(s: Seq<u8>, i: int) {
    if 0 <= i < s.len() && !is_ascii_ws(s[i]) {
        lemma_token_len_bound(s, i);
        assert(token_len_at(s, i) == 1 + token_len_at(s, i + 1));
    }
}

fn is_ascii_ws_exec(b: u8) -> (r: bool)
    ensures
        r == is_ascii_ws(b),
{
    b == 32 || b == 9 || b == 10 || b == 12 || b == 13
}

fn token_len_exec(s: &[u8], i: usize) -> (r: usize)
    requires
        i <= s@.len(),
    ensures
        r == token_len_at(s@, i as int),
        i + r <= s@.len(),
    decreases s@.len() - i,
{
    if i == s.len() || is_ascii_ws_exec(s[i]) {
        0
    } else {
        let rest = token_len_exec(s, i + 1);
        rest + 1
    }
}

fn subrange_vec(s: &[u8], from: usize, to: usize) -> (r: Vec<u8>)
    requires
        from <= to <= s@.len(),
    ensures
        r@ == s@.subrange(from as int, to as int),
{
    let mut r: Vec<u8> = Vec::new();
    let mut i: usize = from;
    while i < to
        invariant
            from <= i <= to <= s@.len(),
            r@ == s@.subrange(from as int, i as int),
        decreases to - i,
    {
        r.push(s[i]);
        assert(r@ =~= s@.subrange(from as int, i as int + 1));
        i = i + 1;
    }
    r
}

/// Split on ASCII whitespace.
pub fn split_ascii_ws(s: &[u8]) -> (r: Vec<Vec<u8>>)
    ensures
        r.deep_view() == tokens_from(s@, 0),
{
    split_ws_from(s, 0)
}

fn split_ws_from(s: &[u8], i: usize) -> (r: Vec<Vec<u8>>)
    requires
        i <= s@.len(),
    ensures
        r.deep_view() == tokens_from(s@, i as int),
    decreases s@.len() - i,
{
    if i == s.len() {
        let r: Vec<Vec<u8>> = Vec::new();
        assert(r.deep_view() =~= tokens_from(s@, i as int));
        r
    } else if is_ascii_ws_exec(s[i]) {
        split_ws_from(s, i + 1)
    } else {
        let l = token_len_exec(s, i);
        proof {
            lemma_token_len_bound(s@, i as int);
        }
        let tok = subrange_vec(s, i, i + l);
        let mut rest = split_ws_from(s, i + l);
        let ghost rest_dv = rest.deep_view();
        let ghost tok_view = tok@;
        rest.insert(0, tok);
        assert(rest.deep_view() =~~= seq![tok_view] + rest_dv);
        assert(tokens_from(s@, i as int) == seq![s@.subrange(i as int, i as int + token_len_at(
            s@,
            i as int,
        ) as int)] + tokens_from(s@, i as int + token_len_at(s@, i as int) as int));
        rest
    }
}

/// The decimal digits of a number.
pub open spec fn decimal_of(n: nat) -> Seq<u8>
    decreases n,
{
    if n < 10 {
        seq![(48 + n) as u8]
    } else {
        decimal_of(n / 10).push((48 + n % 10) as u8)
    }
}

/// Render a header id as its decimal digits.
pub fn decimal_digits(n: u8) -> (r: Vec<u8>)
    ensures
        r@ == decimal_of(n as nat),
    decreases n,
{
    if n < 10 {
        let mut r: Vec<u8> = Vec::new();
        r.push(48 + n);
        assert(r@ =~= decimal_of(n as nat));
        r
    } else {
        let mut r = decimal_digits(n / 10);
        r.push(48 + n % 10);
        r
    }
}

/// What lower-casing a byte string yields; the result depends on the
/// bytes alone.
pub uninterp spec fn lower_of(s: Seq<u8>) -> Seq<u8>;

/// Relies on str::to_lowercase, applied to the lossy UTF-8 decoding of
/// the token: the folded bytes depend on the input bytes alone.
#[verifier::external_body]
pub fn lowercase_token(s: &[u8]) -> (r: Vec<u8>)
    ensures
        r@ == lower_of(s@),
{
    String::from_utf8_lossy(s).to_lowercase().into_bytes()
}

/// The numeric id of a known RFC header name, if the bytes spell one;
/// the result depends on the bytes alone.
pub uninterp spec fn rfc_header_id(name: Seq<u8>) -> Option<u8>;

/// Relies on mail_parser::HeaderName::parse and HeaderName::id: a
/// known RFC header name parses to a named variant, whose numeric id
/// this returns; an unknown name (the Other variant) or an unparsable
/// one yields nothing.
#[verifier::external_body]
pub fn parse_rfc_header(name: &[u8]) -> (r: Option<u8>)
    ensures
        r == rfc_header_id(name@),
{
    match mail_parser::HeaderName::parse(String::from_utf8_lossy(name)) {
        Some(mail_parser::HeaderName::Other(_)) => Option::None,
        Some(h) => Some(h.id()),
        Option::None => Option::None,
    }
}

/// Numeric header ids whose search tokens keep their case: the
/// message-id carrying headers.
pub open spec fn is_id_header(id: u8) -> bool {
    id == 9 || id == 12 || id == 13 || id == 29
}

pub fn is_id_header_exec(id: u8) -> (r: bool)
    ensures
        r == is_id_header(id),
{
    id == 9 || id == 12 || id == 13 || id == 29
}

/// Value of a base-32 digit (0-9, a-v), if it is one.
pub open spec fn base32_digit(b: u8) -> Option<u8> {
    if 48 <= b <= 57 {
        Some((b - 48) as u8)
    } else if 97 <= b <= 118 {
        Some((b - 87) as u8)
    } else {
        None
    }
}

/// The number the base-32 digits from position `i` on spell, shifted
/// into `acc` five bits at a time.
pub open spec fn base32_value_from(s: Seq<u8>, i: int, acc: u64) -> Option<u64>
    decreases s.len() - i,
{
    if i < 0 || i >= s.len() {
        Some(acc)
    } else {
        match base32_digit(s[i]) {
            Some(d) => base32_value_from(s, i + 1, (acc << 5) | (d as u64)),
            None => None,
        }
    }
}

/// The message id a base-32 string denotes: nothing if empty or if any
/// byte is no base-32 digit.
pub open spec fn parsed_base32(s: Seq<u8>) -> Option<u64> {
    if s.len() == 0 {
        None
    } else {
        base32_value_from(s, 0, 0)
    }
}

/// Parse a base-32 message id.
pub fn parse_base32(s: &[u8]) -> (r: Option<u64>)
    ensures
        r == parsed_base32(s@),
{
    if s.len() == 0 {
        return None;
    }
    let mut acc: u64 = 0;
    let mut i: usize = 0;
    while i < s.len()
        invariant
            i <= s@.len(),
            s@.len() > 0,
            base32_value_from(s@, 0, 0) == base32_value_from(s@, i as int, acc),
        decreases s@.len() - i,
    {
        let b = s[i];
        let d: u8 = if 48 <= b && b <= 57 {
            b - 48
        } else if 97 <= b && b <= 118 {
            b - 87
        } else {
            assert(base32_digit(s@[i as int]) is None);
            return None;
        };
        assert(base32_digit(s@[i as int]) == Some(d));
        acc = (acc << 5u64) | (d as u64);
        i = i + 1;
    }
    Some(acc)
}

/// The backend document id is the low half of a message id.
pub open spec fn document_of_id(id: u64) -> u32 {
    (id & 0xFFFF_FFFF) as u32
}

pub fn document_id_of(id: u64) -> (r: u32)
    ensures
        r == document_of_id(id),
{
    (id & 0xFFFF_FFFF) as u32
}

} // verus!
