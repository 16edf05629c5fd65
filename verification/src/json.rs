//! The JSON payload grammar.
//!
//! Every payload on the wire is a single JSON object whose values are
//! strings, unsigned integers or booleans -- exactly what the message
//! catalog needs. The parser accepts standard JSON object syntax:
//! whitespace anywhere between tokens, members in any order, and the
//! full set of string escapes including `\uXXXX` with surrogate pairs.
//! Anything else -- other value types, trailing bytes, malformed escapes,
//! numbers with a leading zero or beyond the integer range -- fails, and
//! a failed payload parse is fatal to the connection.
//!
//! String values are produced as raw UTF-8 bytes; whether those bytes are
//! valid UTF-8 is checked where a message field is built from them.
use crate::codec::dec_value;
use crate::codec::is_digit;
use vstd::arithmetic::div_mod::lemma_fundamental_div_mod;
use vstd::prelude::*;
use vstd::utf8::encode_scalar;
use vstd::utf8::is_scalar;

verus! {

/// A parsed member value: string bytes, an unsigned integer, or a boolean.
pub ghost enum JsonValueView {
    Str(Seq<u8>),
    UInt(nat),
    Bool(bool),
}

pub enum JsonValue {
    Str(Vec<u8>),
    UInt(u64),
    Bool(bool),
}

impl View for JsonValue {
    type V = JsonValueView;

    open spec fn view(&self) -> JsonValueView {
        match self {
            JsonValue::Str(v) => JsonValueView::Str(v@),
            JsonValue::UInt(n) => JsonValueView::UInt(*n as nat),
            JsonValue::Bool(b) => JsonValueView::Bool(*b),
        }
    }
}

/// The views of a parsed member list.
pub open spec fn field_views(fields: Seq<(Vec<u8>, JsonValue)>) -> Seq<(Seq<u8>, JsonValueView)> {
    fields.map_values(|f: (Vec<u8>, JsonValue)| (f.0@, f.1@))
}

pub open spec fn is_ws(b: u8) -> bool {
    b == 32 || b == 9 || b == 10 || b == 13
}

/// The first position at or after `i` holding a non-whitespace byte.
pub open spec fn spec_skip_ws(s: Seq<u8>, i: int) -> int
    decreases s.len() - i,
{
    if 0 <= i && i < s.len() && is_ws(s[i]) {
        spec_skip_ws(s, i + 1)
    } else {
        i
    }
}

pub open spec fn is_hex_digit(b: u8) -> bool {
    48 <= b <= 57 || 65 <= b <= 70 || 97 <= b <= 102
}

pub open spec fn hex_val(b: u8) -> nat {
    if 48 <= b <= 57 {
        (b - 48) as nat
    } else if 65 <= b <= 70 {
        (b - 55) as nat
    } else if 97 <= b <= 102 {
        (b - 87) as nat
    } else {
        0
    }
}

/// Four hex digits starting at `i`, as a number below 0x10000.
pub open spec fn spec_hex4(s: Seq<u8>, i: int) -> Option<nat> {
    if 0 <= i && i + 4 <= s.len() && is_hex_digit(s[i]) && is_hex_digit(s[i + 1]) && is_hex_digit(
        s[i + 2],
    ) && is_hex_digit(s[i + 3]) {
        Some(
            (hex_val(s[i]) * 4096 + hex_val(s[i + 1]) * 256 + hex_val(s[i + 2]) * 16 + hex_val(
                s[i + 3],
            )) as nat,
        )
    } else {
        None
    }
}

/// Scans a JSON string body from position `i` (just past the opening
/// quote), with `acc` the bytes unescaped so far. Yields the unescaped
/// bytes and the position just past the closing quote.
pub open spec fn spec_parse_string(s: Seq<u8>, i: int, acc: Seq<u8>) -> Option<(Seq<u8>, int)>
    decreases s.len() - i,
{
    if i < 0 || i >= s.len() {
        None
    } else if s[i] == 34 {
        Some((acc, i + 1))
    } else if s[i] == 92 {
        if i + 1 >= s.len() {
            None
        } else {
            let e = s[i + 1];
            if e == 34 {
                spec_parse_string(s, i + 2, acc.push(34))
            } else if e == 92 {
                spec_parse_string(s, i + 2, acc.push(92))
            } else if e == 47 {
                spec_parse_string(s, i + 2, acc.push(47))
            } else if e == 98 {
                spec_parse_string(s, i + 2, acc.push(8))
            } else if e == 102 {
                spec_parse_string(s, i + 2, acc.push(12))
            } else if e == 110 {
                spec_parse_string(s, i + 2, acc.push(10))
            } else if e == 114 {
                spec_parse_string(s, i + 2, acc.push(13))
            } else if e == 116 {
                spec_parse_string(s, i + 2, acc.push(9))
            } else if e == 117 {
                if i + 6 > s.len() {
                    None
                } else {
                    match spec_hex4(s, i + 2) {
                        None => None,
                        Some(cp) => {
                            if 0xD800 <= cp && cp < 0xDC00 {
                                // high surrogate: a low surrogate must follow
                                if i + 12 <= s.len() && s[i + 6] == 92 && s[i + 7] == 117 {
                                    match spec_hex4(s, i + 8) {
                                        None => None,
                                        Some(lo) => if 0xDC00 <= lo && lo < 0xE000 {
                                            spec_parse_string(
                                                s,
                                                i + 12,
                                                acc + encode_scalar(
                                                    (0x10000 + (cp - 0xD800) * 0x400 + (lo
                                                        - 0xDC00)) as u32,
                                                ),
                                            )
                                        } else {
                                            None
                                        },
                                    }
                                } else {
                                    None
                                }
                            } else if 0xDC00 <= cp && cp < 0xE000 {
                                None
                            } else {
                                spec_parse_string(s, i + 6, acc + encode_scalar(cp as u32))
                            }
                        },
                    }
                }
            } else {
                None
            }
        }
    } else if s[i] < 32 {
        None
    } else {
        spec_parse_string(s, i + 1, acc.push(s[i]))
    }
}

/// The first position at or after `i` holding a non-digit byte.
pub open spec fn spec_digit_end(s: Seq<u8>, i: int) -> int
    decreases s.len() - i,
{
    if 0 <= i && i < s.len() && is_digit(s[i]) {
        spec_digit_end(s, i + 1)
    } else {
        i
    }
}

pub proof fn lemma_digit_end(s: Seq<u8>, i: int)
    requires
        0 <= i <= s.len(),
    ensures
        i <= spec_digit_end(s, i) <= s.len(),
        forall|m: int| i <= m < spec_digit_end(s, i) ==> is_digit(#[trigger] s[m]),
        spec_digit_end(s, i) < s.len() ==> !is_digit(s[spec_digit_end(s, i)]),
    decreases s.len() - i,
{
    if i < s.len() && is_digit(s[i]) {
        lemma_digit_end(s, i + 1);
    }
}

/// An unsigned decimal integer at position `i`: one or more digits, no
/// leading zero, value within u64 range.
pub open spec fn spec_parse_uint(s: Seq<u8>, i: int) -> Option<(nat, int)> {
    let j = spec_digit_end(s, i);
    if i < 0 || j == i {
        None
    } else {
        let digits = s.subrange(i, j);
        if digits.len() > 1 && digits[0] == 48 {
            None
        } else if dec_value(digits) > u64::MAX {
            None
        } else {
            Some((dec_value(digits), j))
        }
    }
}

/// A member value: a string, an unsigned integer, or a boolean literal.
/// Objects, arrays, null, signs, fractions and exponents are not values
/// of any payload field, so they are not accepted here.
pub open spec fn spec_parse_value(s: Seq<u8>, i: int) -> Option<(JsonValueView, int)> {
    if i < 0 || i >= s.len() {
        None
    } else if s[i] == 34 {
        match spec_parse_string(s, i + 1, Seq::empty()) {
            Some((v, j)) => Some((JsonValueView::Str(v), j)),
            None => None,
        }
    } else if is_digit(s[i]) {
        match spec_parse_uint(s, i) {
            Some((n, j)) => Some((JsonValueView::UInt(n), j)),
            None => None,
        }
    } else if s[i] == 116 {
        if i + 4 <= s.len() && s[i + 1] == 114 && s[i + 2] == 117 && s[i + 3] == 101 {
            Some((JsonValueView::Bool(true), i + 4))
        } else {
            None
        }
    } else if s[i] == 102 {
        if i + 5 <= s.len() && s[i + 1] == 97 && s[i + 2] == 108 && s[i + 3] == 115 && s[i + 4]
            == 101 {
            Some((JsonValueView::Bool(false), i + 5))
        } else {
            None
        }
    } else {
        None
    }
}

/// One `"key": value` member starting at position `i`.
pub open spec fn spec_parse_member(s: Seq<u8>, i: int) -> Option<((Seq<u8>, JsonValueView), int)> {
    if i < 0 || i >= s.len() || s[i] != 34 {
        None
    } else {
        match spec_parse_string(s, i + 1, Seq::empty()) {
            None => None,
            Some((key, j)) => {
                let k = spec_skip_ws(s, j);
                if k < s.len() && s[k] == 58 {
                    let m = spec_skip_ws(s, k + 1);
                    match spec_parse_value(s, m) {
                        None => None,
                        Some((v, p)) => Some(((key, v), p)),
                    }
                } else {
                    None
                }
            },
        }
    }
}

/// One or more comma-separated members starting at `i`, up to and
/// including the closing brace. Yields the members in order (duplicate
/// keys included) and the position just past the brace.
pub open spec fn spec_parse_members(
    s: Seq<u8>,
    i: int,
    acc: Seq<(Seq<u8>, JsonValueView)>,
) -> Option<(Seq<(Seq<u8>, JsonValueView)>, int)>
    decreases s.len() - i,
{
    match spec_parse_member(s, i) {
        None => None,
        Some((kv, p)) => {
            let q = spec_skip_ws(s, p);
            if q < s.len() && s[q] == 44 {
                let r = spec_skip_ws(s, q + 1);
                if i < r && r <= s.len() {
                    spec_parse_members(s, r, acc.push(kv))
                } else {
                    None
                }
            } else if q < s.len() && s[q] == 125 {
                Some((acc.push(kv), q + 1))
            } else {
                None
            }
        },
    }
}

/// A whole payload: one JSON object and nothing else around it.
pub open spec fn spec_parse_object(s: Seq<u8>) -> Option<Seq<(Seq<u8>, JsonValueView)>> {
    let i = spec_skip_ws(s, 0);
    if i < s.len() && s[i] == 123 {
        let j = spec_skip_ws(s, i + 1);
        if j < s.len() && s[j] == 125 {
            if spec_skip_ws(s, j + 1) == s.len() {
                Some(Seq::empty())
            } else {
                None
            }
        } else {
            match spec_parse_members(s, j, Seq::empty()) {
                None => None,
                Some((fields, p)) => if spec_skip_ws(s, p) == s.len() {
                    Some(fields)
                } else {
                    None
                },
            }
        }
    } else {
        None
    }
}

fn skip_ws(s: &[u8], i: usize) -> (r: usize)
    requires
        i <= s@.len(),
    ensures
        r as int == spec_skip_ws(s@, i as int),
        i <= r <= s@.len(),
{
    let len: usize = s.len();
    let mut j: usize = i;
    while j < len && (s[j] == 32 || s[j] == 9 || s[j] == 10 || s[j] == 13)
        invariant
            i <= j <= len,
            len == s@.len(),
            spec_skip_ws(s@, i as int) == spec_skip_ws(s@, j as int),
        decreases len - j,
    {
        j = j + 1;
    }
    j
}

fn hex4(s: &[u8], i: usize) -> (r: Option<u32>)
    requires
        i + 4 <= s@.len(),
    ensures
        match r {
            Some(v) => spec_hex4(s@, i as int) == Some(v as nat) && v < 0x10000,
            None => spec_hex4(s@, i as int) is None,
        },
{
    let len: usize = s.len();
    let mut v: u32 = 0;
    let mut k: usize = 0;
    while k < 4
        invariant
            k <= 4,
            len == s@.len(),
            i + 4 <= len,
            v < 0x1000 || k == 4,
            forall|x: int| i <= x < i + k ==> is_hex_digit(#[trigger] s@[x]),
            v as nat == hex_part(s@, i as int, k as int),
        decreases 4 - k,
    {
        let b = s[i + k];
        let d: u32;
        if 48 <= b && b <= 57 {
            d = (b - 48) as u32;
        } else if 65 <= b && b <= 70 {
            d = (b - 55) as u32;
        } else if 97 <= b && b <= 102 {
            d = (b - 87) as u32;
        } else {
            proof {
                assert(!is_hex_digit(s@[i as int + k as int]));
            }
            return None;
        }
        v = v * 16 + d;
        k = k + 1;
        proof {
            lemma_hex_part_bound(s@, i as int, k as int);
        }
    }
    proof {
        reveal_with_fuel(hex_part, 5);
        lemma_hex_part_bound(s@, i as int, 4);
        assert(v as nat == (hex_val(s@[i as int]) * 4096 + hex_val(s@[i as int + 1]) * 256
            + hex_val(s@[i as int + 2]) * 16 + hex_val(s@[i as int + 3])) as nat);
    }
    Some(v)
}

/// The value of the first `k` of four hex digits.
pub open spec fn hex_part(s: Seq<u8>, i: int, k: int) -> nat
    decreases k,
{
    if k <= 0 {
        0
    } else {
        hex_part(s, i, k - 1) * 16 + hex_val(s[i + k - 1])
    }
}

pub proof fn lemma_hex_part_bound(s: Seq<u8>, i: int, k: int)
    requires
        k <= 4,
    ensures
        k <= 1 ==> hex_part(s, i, k) < 16,
        k <= 2 ==> hex_part(s, i, k) < 256,
        k <= 3 ==> hex_part(s, i, k) < 0x1000,
        hex_part(s, i, k) < 0x10000,
    decreases k,
{
    if k > 0 {
        lemma_hex_part_bound(s, i, k - 1);
        assert(hex_val(s[i + k - 1]) < 16);
    }
}

/// Appends the UTF-8 encoding of one Unicode scalar.
fn push_scalar(out: &mut Vec<u8>, scalar: u32)
    requires
        is_scalar(scalar),
    ensures
        final(out)@ == old(out)@ + encode_scalar(scalar),
{
    if scalar <= 0x7F {
        assert(scalar & 0x7F == scalar) by (bit_vector)
            requires
                scalar <= 0x7F,
        ;
        out.push((scalar & 0x7F) as u8);
        assert(out@ =~= old(out)@ + encode_scalar(scalar));
    } else if scalar <= 0x7FF {
        assert(((scalar >> 6) & 0x1F) <= 0x1F && (scalar & 0x3F) <= 0x3F) by (bit_vector);
        out.push(0xC0u8 | ((scalar >> 6) & 0x1F) as u8);
        out.push(0x80u8 | (scalar & 0x3F) as u8);
        assert(out@ =~= old(out)@ + encode_scalar(scalar));
    } else if scalar <= 0xFFFF {
        assert(((scalar >> 12) & 0x0F) <= 0x0F && ((scalar >> 6) & 0x3F) <= 0x3F && (scalar
            & 0x3F) <= 0x3F) by (bit_vector);
        out.push(0xE0u8 | ((scalar >> 12) & 0x0F) as u8);
        out.push(0x80u8 | ((scalar >> 6) & 0x3F) as u8);
        out.push(0x80u8 | (scalar & 0x3F) as u8);
        assert(out@ =~= old(out)@ + encode_scalar(scalar));
    } else {
        assert(((scalar >> 18) & 0x7) <= 0x7 && ((scalar >> 12) & 0x3F) <= 0x3F && ((scalar >> 6)
            & 0x3F) <= 0x3F && (scalar & 0x3F) <= 0x3F) by (bit_vector);
        out.push(0xF0u8 | ((scalar >> 18) & 0x7) as u8);
        out.push(0x80u8 | ((scalar >> 12) & 0x3F) as u8);
        out.push(0x80u8 | ((scalar >> 6) & 0x3F) as u8);
        out.push(0x80u8 | (scalar & 0x3F) as u8);
        assert(out@ =~= old(out)@ + encode_scalar(scalar));
    }
}

/// Scans a string body from just past the opening quote; returns the
/// unescaped bytes and the position just past the closing quote.
fn parse_string_body(s: &[u8], start: usize) -> (r: Option<(Vec<u8>, usize)>)
    requires
        start <= s@.len(),
    ensures
        match r {
            Some(p) => spec_parse_string(s@, start as int, Seq::<u8>::empty()) == Some(
                (p.0@, p.1 as int),
            ) && start < p.1 <= s@.len(),
            None => spec_parse_string(s@, start as int, Seq::<u8>::empty()) is None,
        },
{
    let len: usize = s.len();
    let mut out: Vec<u8> = Vec::new();
    let mut j: usize = start;
    loop
        invariant
            start <= j <= len,
            len == s@.len(),
            spec_parse_string(s@, start as int, Seq::<u8>::empty()) == spec_parse_string(
                s@,
                j as int,
                out@,
            ),
        decreases len - j,
    {
        if j >= len {
            return None;
        }
        let b = s[j];
        if b == 34 {
            return Some((out, j + 1));
        }
        if b == 92 {
            if j + 1 >= len {
                return None;
            }
            let e = s[j + 1];
            if e == 34 {
                out.push(34);
                j = j + 2;
            } else if e == 92 {
                out.push(92);
                j = j + 2;
            } else if e == 47 {
                out.push(47);
                j = j + 2;
            } else if e == 98 {
                out.push(8);
                j = j + 2;
            } else if e == 102 {
                out.push(12);
                j = j + 2;
            } else if e == 110 {
                out.push(10);
                j = j + 2;
            } else if e == 114 {
                out.push(13);
                j = j + 2;
            } else if e == 116 {
                out.push(9);
                j = j + 2;
            } else if e == 117 {
                if len - j < 6 {
                    return None;
                }
                let cp = match hex4(s, j + 2) {
                    Some(cp) => cp,
                    None => {
                        return None;
                    },
                };
                if 0xD800 <= cp && cp < 0xDC00 {
                    if len - j < 12 || s[j + 6] != 92 || s[j + 7] != 117 {
                        return None;
                    }
                    let lo = match hex4(s, j + 8) {
                        Some(lo) => lo,
                        None => {
                            return None;
                        },
                    };
                    if !(0xDC00 <= lo && lo < 0xE000) {
                        return None;
                    }
                    let scalar: u32 = 0x10000 + (cp - 0xD800) * 0x400 + (lo - 0xDC00);
                    push_scalar(&mut out, scalar);
                    j = j + 12;
                } else if 0xDC00 <= cp && cp < 0xE000 {
                    return None;
                } else {
                    proof {
                        assert(is_scalar(cp));
                    }
                    push_scalar(&mut out, cp);
                    j = j + 6;
                }
            } else {
                return None;
            }
        } else if b < 32 {
            return None;
        } else {
            out.push(b);
            j = j + 1;
        }
    }
}

fn parse_uint(s: &[u8], i: usize) -> (r: Option<(u64, usize)>)
    requires
        i <= s@.len(),
    ensures
        match r {
            Some(p) => spec_parse_uint(s@, i as int) == Some((p.0 as nat, p.1 as int)) && i < p.1
                <= s@.len(),
            None => spec_parse_uint(s@, i as int) is None,
        },
{
    let len: usize = s.len();
    proof {
        lemma_digit_end(s@, i as int);
    }
    let mut j: usize = i;
    while j < len && 48 <= s[j] && s[j] <= 57
        invariant
            i <= j <= len,
            len == s@.len(),
            spec_digit_end(s@, i as int) == spec_digit_end(s@, j as int),
        decreases len - j,
    {
        j = j + 1;
    }
    proof {
        assert(spec_digit_end(s@, i as int) == j as int);
    }
    if j == i {
        return None;
    }
    if s[i] == 48 && j > i + 1 {
        proof {
            assert(s@.subrange(i as int, j as int)[0] == s@[i as int]);
        }
        return None;
    }
    let ghost digits = s@.subrange(i as int, j as int);
    let mut acc: u64 = 0;
    let mut over: bool = false;
    let mut m: usize = i;
    proof {
        assert(digits.subrange(0, 0) =~= Seq::<u8>::empty());
    }
    while m < j
        invariant
            i <= m <= j <= len,
            len == s@.len(),
            digits == s@.subrange(i as int, j as int),
            forall|x: int| i <= x < j ==> is_digit(#[trigger] s@[x]),
            !over ==> acc as nat == dec_value(digits.subrange(0, m - i)),
            over ==> dec_value(digits.subrange(0, m - i)) > u64::MAX,
        decreases j - m,
    {
        let b = s[m];
        let d: u64 = (b - 48) as u64;
        let ghost pre = digits.subrange(0, m - i);
        proof {
            assert(digits.subrange(0, m - i + 1).drop_last() =~= pre);
            assert(digits.subrange(0, m - i + 1).last() == s@[m as int]);
        }
        if !over {
            if acc > (u64::MAX - d) / 10 {
                proof {
                    lemma_fundamental_div_mod((u64::MAX - d) as int, 10);
                }
                over = true;
            } else {
                proof {
                    lemma_fundamental_div_mod((u64::MAX - d) as int, 10);
                }
                acc = acc * 10 + d;
            }
        }
        m = m + 1;
    }
    if over {
        proof {
            assert(digits.subrange(0, j - i) =~= digits);
        }
        return None;
    }
    proof {
        assert(digits.subrange(0, j - i) =~= digits);
    }
    Some((acc, j))
}

fn parse_value(s: &[u8], i: usize) -> (r: Option<(JsonValue, usize)>)
    requires
        i <= s@.len(),
    ensures
        match r {
            Some(p) => spec_parse_value(s@, i as int) == Some((p.0@, p.1 as int)) && i < p.1
                <= s@.len(),
            None => spec_parse_value(s@, i as int) is None,
        },
{
    let len: usize = s.len();
    if i >= len {
        return None;
    }
    let b = s[i];
    if b == 34 {
        match parse_string_body(s, i + 1) {
            Some((v, j)) => Some((JsonValue::Str(v), j)),
            None => None,
        }
    } else if 48 <= b && b <= 57 {
        match parse_uint(s, i) {
            Some((n, j)) => Some((JsonValue::UInt(n), j)),
            None => None,
        }
    } else if b == 116 {
        if len - i >= 4 && s[i + 1] == 114 && s[i + 2] == 117 && s[i + 3] == 101 {
            Some((JsonValue::Bool(true), i + 4))
        } else {
            None
        }
    } else if b == 102 {
        if len - i >= 5 && s[i + 1] == 97 && s[i + 2] == 108 && s[i + 3] == 115 && s[i + 4] == 101 {
            Some((JsonValue::Bool(false), i + 5))
        } else {
            None
        }
    } else {
        None
    }
}

fn parse_member(s: &[u8], i: usize) -> (r: Option<((Vec<u8>, JsonValue), usize)>)
    requires
        i <= s@.len(),
    ensures
        match r {
            Some(p) => spec_parse_member(s@, i as int) == Some(
                ((p.0.0@, p.0.1@), p.1 as int),
            ) && i < p.1 <= s@.len(),
            None => spec_parse_member(s@, i as int) is None,
        },
{
    let len: usize = s.len();
    if i >= len || s[i] != 34 {
        return None;
    }
    let (key, j) = match parse_string_body(s, i + 1) {
        Some(p) => p,
        None => {
            return None;
        },
    };
    let k = skip_ws(s, j);
    if !(k < len && s[k] == 58) {
        return None;
    }
    let m = skip_ws(s, k + 1);
    match parse_value(s, m) {
        Some((v, p)) => Some(((key, v), p)),
        None => None,
    }
}

/// Parses the comma-separated members of a non-empty object, starting at
/// the first key, through the closing brace.
fn parse_members(s: &[u8], start: usize) -> (r: Option<(Vec<(Vec<u8>, JsonValue)>, usize)>)
    requires
        start <= s@.len(),
    ensures
        match r {
            Some(p) => spec_parse_members(s@, start as int, Seq::empty()) == Some(
                (field_views(p.0@), p.1 as int),
            ) && p.1 <= s@.len(),
            None => spec_parse_members(s@, start as int, Seq::empty()) is None,
        },
{
    let len: usize = s.len();
    let mut fields: Vec<(Vec<u8>, JsonValue)> = Vec::new();
    let mut pos: usize = start;
    proof {
        assert(field_views(fields@) =~= Seq::<(Seq<u8>, JsonValueView)>::empty());
    }
    loop
        invariant
            pos <= len,
            len == s@.len(),
            spec_parse_members(s@, start as int, Seq::empty()) == spec_parse_members(
                s@,
                pos as int,
                field_views(fields@),
            ),
        decreases len - pos,
    {
        let (kv, p) = match parse_member(s, pos) {
            Some(x) => x,
            None => {
                return None;
            },
        };
        let q = skip_ws(s, p);
        let ghost pre_fields = field_views(fields@);
        fields.push(kv);
        proof {
            assert(field_views(fields@) =~= pre_fields.push((kv.0@, kv.1@)));
        }
        if q < len && s[q] == 44 {
            let r2 = skip_ws(s, q + 1);
            pos = r2;
        } else if q < len && s[q] == 125 {
            return Some((fields, q + 1));
        } else {
            return None;
        }
    }
}

/// Parses a whole payload as one JSON object with nothing but whitespace
/// around it; yields the members in order of appearance.
pub fn parse_json_object(s: &[u8]) -> (r: Option<Vec<(Vec<u8>, JsonValue)>>)
    ensures
        match r {
            Some(fields) => spec_parse_object(s@) == Some(field_views(fields@)),
            None => spec_parse_object(s@) is None,
        },
{
    let len: usize = s.len();
    let i = skip_ws(s, 0);
    if !(i < len && s[i] == 123) {
        return None;
    }
    let j = skip_ws(s, i + 1);
    if j < len && s[j] == 125 {
        let k = skip_ws(s, j + 1);
        if k == len {
            let fields: Vec<(Vec<u8>, JsonValue)> = Vec::new();
            proof {
                assert(field_views(fields@) =~= Seq::<(Seq<u8>, JsonValueView)>::empty());
            }
            return Some(fields);
        } else {
            return None;
        }
    }
    match parse_members(s, j) {
        Some((fields, p)) => {
            let e = skip_ws(s, p);
            if e == len {
                Some(fields)
            } else {
                None
            }
        },
        None => None,
    }
}

} // verus!
