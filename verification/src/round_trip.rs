//! The catalog round-trip law: parsing the canonical payload of any
//! message under its own wire number yields exactly that message.
//!
//! Together with the frame round trip in `codec`, this pins the two halves
//! of the wire format to each other: whatever one side of a conversation
//! serializes, the other side reads back unchanged.
use crate::codec::dec_value;
use crate::codec::is_digit;
use crate::codec::lemma_dec_value_of_spec_dec;
use crate::codec::lemma_spec_dec_digits;
use crate::codec::spec_dec;
use crate::json::hex_val;
use crate::json::is_hex_digit;
use crate::json::is_ws;
use crate::json::spec_digit_end;
use crate::json::spec_hex4;
use crate::json::spec_parse_string;
use crate::json::spec_parse_uint;
use crate::json::JsonValueView;
use crate::messages::bool_lit;
use crate::messages::esc_byte;
use crate::messages::hex_lower;
use crate::messages::json_escape;
use vstd::arithmetic::div_mod::lemma_fundamental_div_mod;
use vstd::prelude::*;
use vstd::utf8::encode_scalar;
use vstd::utf8::encode_utf8;

verus! {

/// A byte that passes through a JSON string unescaped.
pub open spec fn is_plain(b: u8) -> bool {
    b >= 32 && b != 34 && b != 92
}

pub open spec fn all_plain(s: Seq<u8>) -> bool {
    forall|i: int| 0 <= i < s.len() ==> is_plain(#[trigger] s[i])
}

/// Escaping bytes that need no escaping is the identity; the member keys
/// of the catalog are such bytes.
proof fn lemma_json_escape_plain(b: Seq<u8>)
    requires
        all_plain(b),
    ensures
        json_escape(b) == b,
    decreases b.len(),
{
    if b.len() == 0 {
        assert(json_escape(b) =~= b);
    } else {
        assert(is_plain(b[0]));
        assert(all_plain(b.drop_first())) by {
            assert(forall|i: int|
                0 <= i < b.drop_first().len() ==> #[trigger] b.drop_first()[i] == b[i + 1]);
        }
        lemma_json_escape_plain(b.drop_first());
        assert(json_escape(b) =~= b);
    }
}

/// Reading back a lowercase hex digit.
proof fn lemma_hex_lower_val(d: u8)
    requires
        d < 16,
    ensures
        is_hex_digit(hex_lower(d)),
        hex_val(hex_lower(d)) == d,
{
}

/// The string scanner inverts the escaper: at a position holding the
/// escape of `b` followed by a closing quote, it yields exactly `b` and
/// stops just past the quote.
#[verifier::rlimit(100)]
proof fn lemma_parse_string_unescape(s: Seq<u8>, i: int, b: Seq<u8>, acc: Seq<u8>)
    requires
        0 <= i,
        i + json_escape(b).len() + 1 <= s.len(),
        s.subrange(i, i + json_escape(b).len() as int) == json_escape(b),
        s[i + json_escape(b).len() as int] == 34,
    ensures
        spec_parse_string(s, i, acc) == Some(
            (acc + b, i + json_escape(b).len() as int + 1),
        ),
    decreases b.len(),
{
    let esc = json_escape(b);
    if b.len() == 0 {
        assert(esc =~= Seq::<u8>::empty());
        assert(s[i] == 34);
        assert(acc + b =~= acc);
    } else {
        let e0 = esc_byte(b[0]);
        let rest = json_escape(b.drop_first());
        assert(esc == e0 + rest);
        assert(forall|k: int| 0 <= k < esc.len() ==> s[i + k] == #[trigger] esc[k]) by {
            assert(forall|k: int|
                0 <= k < esc.len() ==> #[trigger] s.subrange(i, i + esc.len() as int)[k] == s[i
                    + k]);
        }
        assert forall|k: int| 0 <= k < e0.len() implies s[i + k] == #[trigger] e0[k] by {
            assert(esc[k] == (e0 + rest)[k]);
            assert((e0 + rest)[k] == e0[k]);
            assert(s[i + k] == esc[k]);
        }
        let i2 = i + e0.len() as int;
        assert(s.subrange(i2, i2 + rest.len() as int) =~= rest) by {
            assert(forall|k: int|
                0 <= k < rest.len() ==> #[trigger] s.subrange(i2, i2 + rest.len() as int)[k]
                    == s[i2 + k] && esc[e0.len() + k] == rest[k]);
        }
        assert(s[i2 + rest.len() as int] == 34);
        let x = b[0];
        assert(s[i + 0] == e0[0]);
        assert(s[i] == e0[0]);
        if e0.len() >= 2 {
            assert(s[i + 1] == e0[1]);
        }
        if is_plain(x) {
            assert(e0 == seq![x]);
            assert(s[i] == x);
            assert(s[i] != 34 && s[i] != 92 && s[i] >= 32);
            lemma_parse_string_unescape(s, i + 1, b.drop_first(), acc.push(x));
            assert(acc.push(x) + b.drop_first() =~= acc + b);
        } else if x == 34 || x == 92 || x == 8 || x == 9 || x == 10 || x == 12 || x == 13 {
            assert(e0.len() == 2 && e0[0] == 92);
            assert(s[i] == 92 && s[i + 1] == e0[1]);
            lemma_parse_string_unescape(s, i + 2, b.drop_first(), acc.push(x));
            assert(acc.push(x) + b.drop_first() =~= acc + b);
        } else {
            // a control byte, escaped as \u00XX
            assert(x < 32);
            assert(e0 == seq![92u8, 117u8, 48u8, 48u8, hex_lower(x / 16), hex_lower(x % 16)]);
            assert(s[i] == 92 && s[i + 1] == 117);
            assert(s[i + 2] == 48 && s[i + 3] == 48 && s[i + 4] == hex_lower(x / 16) && s[i + 5]
                == hex_lower(x % 16));
            lemma_hex_lower_val(x / 16);
            lemma_hex_lower_val(x % 16);
            assert(hex_val(48u8) == 0);
            let cp = spec_hex4(s, i + 2);
            assert(cp == Some(((x / 16) * 16 + x % 16) as nat));
            lemma_fundamental_div_mod(x as int, 16);
            assert(cp == Some(x as nat));
            assert(x < 32);
            let scalar = x as u32;
            assert(scalar & 0x7F == scalar) by (bit_vector)
                requires
                    scalar < 32,
            ;
            assert(encode_scalar(scalar) =~= seq![x]);
            assert(acc + encode_scalar(scalar) =~= acc.push(x));
            lemma_parse_string_unescape(s, i + 6, b.drop_first(), acc.push(x));
            assert(acc.push(x) + b.drop_first() =~= acc + b);
        }
    }
}

/// The digit run starting at `i` ends exactly at `j`.
proof fn lemma_digit_end_exact(s: Seq<u8>, i: int, j: int)
    requires
        0 <= i <= j <= s.len(),
        forall|k: int| i <= k < j ==> is_digit(#[trigger] s[k]),
        j == s.len() || !is_digit(s[j]),
    ensures
        spec_digit_end(s, i) == j,
    decreases j - i,
{
    if i < j {
        lemma_digit_end_exact(s, i + 1, j);
    }
}

/// `spec_dec` never prints a leading zero.
proof fn lemma_spec_dec_no_leading_zero(n: nat)
    ensures
        spec_dec(n).len() > 1 ==> spec_dec(n)[0] != 48,
    decreases n,
{
    if n >= 10 {
        lemma_spec_dec_no_leading_zero(n / 10);
        assert(spec_dec(n)[0] == spec_dec(n / 10)[0]);
        if spec_dec(n / 10).len() == 1 {
            if n / 10 >= 10 {
                lemma_spec_dec_digits((n / 10) / 10);
                assert(spec_dec(n / 10).len() == spec_dec((n / 10) / 10).len() + 1);
                assert(false);
            }
            assert(n / 10 >= 1);
            assert(spec_dec(n / 10)[0] == (48 + n / 10) as u8);
        }
    }
}

/// The number scanner inverts the decimal printer: at a position holding
/// the digits of `n` followed by a non-digit, it yields exactly `n`.
proof fn lemma_parse_uint_of_dec(s: Seq<u8>, i: int, n: nat)
    requires
        0 <= i,
        n <= u64::MAX,
        i + spec_dec(n).len() <= s.len(),
        s.subrange(i, i + spec_dec(n).len() as int) == spec_dec(n),
        i + spec_dec(n).len() == s.len() || !is_digit(s[i + spec_dec(n).len() as int]),
    ensures
        spec_parse_uint(s, i) == Some((n, i + spec_dec(n).len() as int)),
{
    let d = spec_dec(n);
    let j = i + d.len() as int;
    lemma_spec_dec_digits(n);
    assert(forall|k: int| i <= k < j ==> is_digit(#[trigger] s[k])) by {
        assert(forall|k: int|
            i <= k < j ==> s.subrange(i, j)[k - i] == #[trigger] s[k] && d[k - i] == s.subrange(
                i,
                j,
            )[k - i]);
    }
    lemma_digit_end_exact(s, i, j);
    assert(s.subrange(i, j) == d);
    lemma_spec_dec_no_leading_zero(n);
    lemma_dec_value_of_spec_dec(n);
    assert(d.len() > 1 ==> s.subrange(i, j)[0] != 48);
}

/// One canonical `"key":"text"` member: the member scanner yields the key
/// and the UTF-8 bytes of the text, stopping just past the value's quote.
#[verifier::rlimit(100)]
proof fn lemma_parse_member_str(s: Seq<u8>, i: int, key: Seq<u8>, text: Seq<char>)
    requires
        0 <= i,
        all_plain(key),
        ({
            let klen = key.len() as int;
            let esc = json_escape(encode_utf8(text));
            &&& i + 5 + klen + esc.len() <= s.len()
            &&& s[i] == 34
            &&& s.subrange(i + 1, i + 1 + klen) == key
            &&& s[i + 1 + klen] == 34
            &&& s[i + 2 + klen] == 58
            &&& s[i + 3 + klen] == 34
            &&& s.subrange(i + 4 + klen, i + 4 + klen + esc.len() as int) == esc
            &&& s[i + 4 + klen + esc.len() as int] == 34
        }),
    ensures
        ({
            let klen = key.len() as int;
            let esc = json_escape(encode_utf8(text));
            crate::json::spec_parse_member(s, i) == Some(
                ((key, JsonValueView::Str(encode_utf8(text))), i + 5 + klen + esc.len() as int),
            )
        }),
{
    let klen = key.len() as int;
    let esc = json_escape(encode_utf8(text));
    lemma_json_escape_plain(key);
    lemma_parse_string_unescape(s, i + 1, key, Seq::<u8>::empty());
    assert(Seq::<u8>::empty() + key =~= key);
    let j = i + 2 + klen;
    assert(crate::json::spec_parse_string(s, i + 1, Seq::<u8>::empty()) == Some((key, j)));
    assert(!is_ws(s[j]) && s[j] == 58);
    assert(crate::json::spec_skip_ws(s, j) == j);
    let m = j + 1;
    assert(!is_ws(s[m]) && s[m] == 34);
    assert(crate::json::spec_skip_ws(s, m) == m);
    lemma_parse_string_unescape(s, m + 1, encode_utf8(text), Seq::<u8>::empty());
    assert(Seq::<u8>::empty() + encode_utf8(text) =~= encode_utf8(text));
    assert(crate::json::spec_parse_value(s, m) == Some(
        (JsonValueView::Str(encode_utf8(text)), i + 5 + klen + esc.len() as int),
    ));
}

/// One canonical `"key":n` member with a non-digit just after the digits.
#[verifier::rlimit(100)]
proof fn lemma_parse_member_uint(s: Seq<u8>, i: int, key: Seq<u8>, n: nat)
    requires
        0 <= i,
        all_plain(key),
        n <= u64::MAX,
        ({
            let klen = key.len() as int;
            let d = spec_dec(n);
            &&& i + 4 + klen + d.len() <= s.len()
            &&& s[i] == 34
            &&& s.subrange(i + 1, i + 1 + klen) == key
            &&& s[i + 1 + klen] == 34
            &&& s[i + 2 + klen] == 58
            &&& s.subrange(i + 3 + klen, i + 3 + klen + d.len() as int) == d
            &&& !is_digit(s[i + 3 + klen + d.len() as int])
        }),
    ensures
        ({
            let klen = key.len() as int;
            let d = spec_dec(n);
            crate::json::spec_parse_member(s, i) == Some(
                ((key, JsonValueView::UInt(n)), i + 3 + klen + d.len() as int),
            )
        }),
{
    let klen = key.len() as int;
    let d = spec_dec(n);
    lemma_json_escape_plain(key);
    lemma_parse_string_unescape(s, i + 1, key, Seq::<u8>::empty());
    assert(Seq::<u8>::empty() + key =~= key);
    let j = i + 2 + klen;
    assert(crate::json::spec_parse_string(s, i + 1, Seq::<u8>::empty()) == Some((key, j)));
    assert(!is_ws(s[j]) && s[j] == 58);
    assert(crate::json::spec_skip_ws(s, j) == j);
    let m = j + 1;
    lemma_spec_dec_digits(n);
    assert(s.subrange(m, m + d.len() as int)[0] == d[0]);
    assert(s[m + 0] == d[0]);
    assert(is_digit(s[m]));
    assert(!is_ws(s[m]));
    assert(crate::json::spec_skip_ws(s, m) == m);
    lemma_parse_uint_of_dec(s, m, n);
    assert(s[m] != 34 && s[m] != 116 && s[m] != 102);
    assert(crate::json::spec_parse_value(s, m) == Some(
        (JsonValueView::UInt(n), m + d.len() as int),
    ));
}

/// One canonical `"key":true` or `"key":false` member.
#[verifier::rlimit(100)]
proof fn lemma_parse_member_bool(s: Seq<u8>, i: int, key: Seq<u8>, v: bool)
    requires
        0 <= i,
        all_plain(key),
        ({
            let klen = key.len() as int;
            let lit = crate::messages::bool_lit(v);
            &&& i + 3 + klen + lit.len() <= s.len()
            &&& s[i] == 34
            &&& s.subrange(i + 1, i + 1 + klen) == key
            &&& s[i + 1 + klen] == 34
            &&& s[i + 2 + klen] == 58
            &&& s.subrange(i + 3 + klen, i + 3 + klen + lit.len() as int) == crate::messages::bool_lit(v)
        }),
    ensures
        ({
            let klen = key.len() as int;
            let lit = crate::messages::bool_lit(v);
            crate::json::spec_parse_member(s, i) == Some(
                ((key, JsonValueView::Bool(v)), i + 3 + klen + lit.len() as int),
            )
        }),
{
    let klen = key.len() as int;
    let lit = crate::messages::bool_lit(v);
    lemma_json_escape_plain(key);
    lemma_parse_string_unescape(s, i + 1, key, Seq::<u8>::empty());
    assert(Seq::<u8>::empty() + key =~= key);
    let j = i + 2 + klen;
    assert(crate::json::spec_parse_string(s, i + 1, Seq::<u8>::empty()) == Some((key, j)));
    assert(!is_ws(s[j]) && s[j] == 58);
    assert(crate::json::spec_skip_ws(s, j) == j);
    let m = j + 1;
    assert(forall|k: int| 0 <= k < lit.len() ==> s[m + k] == #[trigger] lit[k]) by {
        assert(forall|k: int|
            0 <= k < lit.len() ==> #[trigger] s.subrange(m, m + lit.len() as int)[k] == s[m + k]);
    }
    assert(s[m + 0] == lit[0]);
    assert(s[m] == lit[0]);
    if v {
        assert(s[m] == 116 && s[m + 1] == 114 && s[m + 2] == 117 && s[m + 3] == 101);
    } else {
        assert(s[m] == 102 && s[m + 1] == 97 && s[m + 2] == 108 && s[m + 3] == 115 && s[m + 4]
            == 101);
    }
    assert(!is_ws(s[m]));
    assert(crate::json::spec_skip_ws(s, m) == m);
    assert(crate::json::spec_parse_value(s, m) == Some(
        (JsonValueView::Bool(v), m + lit.len() as int),
    ));
}


/// A whole one-member payload `{"key":"text"}` parses to that one member.
#[verifier::rlimit(100)]
proof fn lemma_payload_one_str(key: Seq<u8>, text: Seq<char>)
    requires
        all_plain(key),
    ensures
        ({
            let p = crate::messages::obj_open(key) + crate::messages::json_string_bytes(text)
                + seq![125u8];
            crate::json::spec_parse_object(p) == Some(
                seq![(key, JsonValueView::Str(encode_utf8(text)))],
            )
        }),
{
    let oo = crate::messages::obj_open(key);
    let jsb = crate::messages::json_string_bytes(text);
    let esc = json_escape(encode_utf8(text));
    let p = oo + jsb + seq![125u8];
    let klen = key.len() as int;
    let esclen = esc.len() as int;
    assert(p.len() == klen + esclen + 7);
    assert(p[0] == 123);
    assert(p[1] == 34);
    assert(p.subrange(2, 2 + klen) =~= key);
    assert(p[2 + klen] == 34);
    assert(p[3 + klen] == 58);
    assert(p[4 + klen] == 34);
    assert(p.subrange(5 + klen, 5 + klen + esclen) =~= esc);
    assert(p[5 + klen + esclen] == 34);
    assert(p[6 + klen + esclen] == 125);
    assert(!is_ws(p[0]) && !is_ws(p[1]));
    assert(crate::json::spec_skip_ws(p, 0) == 0);
    assert(crate::json::spec_skip_ws(p, 1) == 1);
    lemma_parse_member_str(p, 1, key, text);
    let kv = (key, JsonValueView::Str(encode_utf8(text)));
    let end = 6 + klen + esclen;
    assert(crate::json::spec_parse_member(p, 1) == Some((kv, end)));
    assert(!is_ws(p[end]));
    assert(crate::json::spec_skip_ws(p, end) == end);
    assert(crate::json::spec_parse_members(p, 1, Seq::empty()) == Some(
        (Seq::empty().push(kv), end + 1),
    ));
    assert(end + 1 == p.len());
    assert(crate::json::spec_skip_ws(p, p.len() as int) == p.len());
    assert(Seq::empty().push(kv) =~= seq![kv]);
}

/// Where each piece of a two-member payload lies in the byte string.
#[verifier::rlimit(100)]
#[verifier::spinoff_prover]
proof fn lemma_two_str_layout(key_a: Seq<u8>, text_a: Seq<char>, key_b: Seq<u8>, text_b: Seq<char>)
    ensures
        ({
            let ea = json_escape(encode_utf8(text_a));
            let eb = json_escape(encode_utf8(text_b));
            let p = crate::messages::obj_open(key_a) + crate::messages::json_string_bytes(text_a)
                + crate::messages::obj_next(key_b) + crate::messages::json_string_bytes(text_b)
                + seq![125u8];
            let ka = key_a.len() as int;
            let kb = key_b.len() as int;
            let la = ea.len() as int;
            let lb = eb.len() as int;
            let i2 = 7 + ka + la;
            &&& p[0] == 123
            &&& p[1] == 34
            &&& p.subrange(2, 2 + ka) == key_a
            &&& p[2 + ka] == 34
            &&& p[3 + ka] == 58
            &&& p[4 + ka] == 34
            &&& p.subrange(5 + ka, 5 + ka + la) == ea
            &&& p[5 + ka + la] == 34
            &&& p[6 + ka + la] == 44
            &&& p[i2] == 34
            &&& p.subrange(i2 + 1, i2 + 1 + kb) == key_b
            &&& p[i2 + 1 + kb] == 34
            &&& p[i2 + 2 + kb] == 58
            &&& p[i2 + 3 + kb] == 34
            &&& p.subrange(i2 + 4 + kb, i2 + 4 + kb + lb) == eb
            &&& p[i2 + 4 + kb + lb] == 34
            &&& p[i2 + 5 + kb + lb] == 125
            &&& p.len() == i2 + 6 + kb + lb
        }),
{
    let ea = json_escape(encode_utf8(text_a));
    let eb = json_escape(encode_utf8(text_b));
    let p = crate::messages::obj_open(key_a) + crate::messages::json_string_bytes(text_a)
        + crate::messages::obj_next(key_b) + crate::messages::json_string_bytes(text_b)
        + seq![125u8];
    let ka = key_a.len() as int;
    let kb = key_b.len() as int;
    let la = ea.len() as int;
    let lb = eb.len() as int;
    let i2 = 7 + ka + la;
    assert(p.subrange(2, 2 + ka) =~= key_a);
    assert(p.subrange(5 + ka, 5 + ka + la) =~= ea);
    assert(p.subrange(i2 + 1, i2 + 1 + kb) =~= key_b);
    assert(p.subrange(i2 + 4 + kb, i2 + 4 + kb + lb) =~= eb);
}

/// A whole two-member payload `{"key_a":"text_a","key_b":"text_b"}`
/// parses to those two members in order.
#[verifier::rlimit(100)]
#[verifier::spinoff_prover]
proof fn lemma_payload_two_str(key_a: Seq<u8>, text_a: Seq<char>, key_b: Seq<u8>, text_b: Seq<char>)
    requires
        all_plain(key_a),
        all_plain(key_b),
    ensures
        ({
            let p = crate::messages::obj_open(key_a) + crate::messages::json_string_bytes(text_a)
                + crate::messages::obj_next(key_b) + crate::messages::json_string_bytes(text_b)
                + seq![125u8];
            crate::json::spec_parse_object(p) == Some(
                seq![
                    (key_a, JsonValueView::Str(encode_utf8(text_a))),
                    (key_b, JsonValueView::Str(encode_utf8(text_b))),
                ],
            )
        }),
{
    let ea = json_escape(encode_utf8(text_a));
    let eb = json_escape(encode_utf8(text_b));
    let p = crate::messages::obj_open(key_a) + crate::messages::json_string_bytes(text_a)
        + crate::messages::obj_next(key_b) + crate::messages::json_string_bytes(text_b)
        + seq![125u8];
    let ka = key_a.len() as int;
    let kb = key_b.len() as int;
    let la = ea.len() as int;
    let lb = eb.len() as int;
    lemma_two_str_layout(key_a, text_a, key_b, text_b);
    let end_a = 6 + ka + la;
    let i2 = end_a + 1;
    let end_b = i2 + 5 + kb + lb;
    assert(!is_ws(p[0]) && !is_ws(p[1]));
    assert(crate::json::spec_skip_ws(p, 0) == 0);
    assert(crate::json::spec_skip_ws(p, 1) == 1);
    lemma_parse_member_str(p, 1, key_a, text_a);
    let kva = (key_a, JsonValueView::Str(encode_utf8(text_a)));
    let kvb = (key_b, JsonValueView::Str(encode_utf8(text_b)));
    assert(crate::json::spec_parse_member(p, 1) == Some((kva, end_a)));
    assert(!is_ws(p[end_a]));
    assert(crate::json::spec_skip_ws(p, end_a) == end_a);
    assert(!is_ws(p[i2]));
    assert(crate::json::spec_skip_ws(p, i2) == i2);
    lemma_parse_member_str(p, i2, key_b, text_b);
    assert(crate::json::spec_parse_member(p, i2) == Some((kvb, end_b)));
    assert(!is_ws(p[end_b]));
    assert(crate::json::spec_skip_ws(p, end_b) == end_b);
    assert(crate::json::spec_parse_members(p, i2, Seq::empty().push(kva)) == Some(
        (Seq::empty().push(kva).push(kvb), end_b + 1),
    ));
    assert(crate::json::spec_parse_members(p, 1, Seq::empty()) == Some(
        (Seq::empty().push(kva).push(kvb), end_b + 1),
    ));
    assert(crate::json::spec_skip_ws(p, p.len() as int) == p.len());
    assert(Seq::empty().push(kva).push(kvb) =~= seq![kva, kvb]);
}

/// Where each piece of the ping payload lies in the byte string.
#[verifier::rlimit(100)]
#[verifier::spinoff_prover]
proof fn lemma_ping_layout(n: nat, v: bool)
    ensures
        ({
            let key_n = crate::messages::key_nonce();
            let key_r = crate::messages::key_reply();
            let d = spec_dec(n);
            let lit = bool_lit(v);
            let p = crate::messages::obj_open(key_n) + d + crate::messages::obj_next(key_r) + lit
                + seq![125u8];
            let kn = key_n.len() as int;
            let kr = key_r.len() as int;
            let ld = d.len() as int;
            let ll = lit.len() as int;
            let i2 = 5 + kn + ld;
            &&& p[0] == 123
            &&& p[1] == 34
            &&& p.subrange(2, 2 + kn) == key_n
            &&& p[2 + kn] == 34
            &&& p[3 + kn] == 58
            &&& p.subrange(4 + kn, 4 + kn + ld) == d
            &&& p[4 + kn + ld] == 44
            &&& p[i2] == 34
            &&& p.subrange(i2 + 1, i2 + 1 + kr) == key_r
            &&& p[i2 + 1 + kr] == 34
            &&& p[i2 + 2 + kr] == 58
            &&& p.subrange(i2 + 3 + kr, i2 + 3 + kr + ll) == lit
            &&& p[i2 + 3 + kr + ll] == 125
            &&& p.len() == i2 + 4 + kr + ll
        }),
{
    let key_n = crate::messages::key_nonce();
    let key_r = crate::messages::key_reply();
    let d = spec_dec(n);
    let lit = bool_lit(v);
    let p = crate::messages::obj_open(key_n) + d + crate::messages::obj_next(key_r) + lit
        + seq![125u8];
    let kn = key_n.len() as int;
    let kr = key_r.len() as int;
    let ld = d.len() as int;
    let ll = lit.len() as int;
    let i2 = 5 + kn + ld;
    assert(p.subrange(2, 2 + kn) =~= key_n);
    assert(p.subrange(4 + kn, 4 + kn + ld) =~= d);
    assert(p.subrange(i2 + 1, i2 + 1 + kr) =~= key_r);
    assert(p.subrange(i2 + 3 + kr, i2 + 3 + kr + ll) =~= lit);
}

/// The two members of the ping payload scan in sequence, up to the brace.
#[verifier::rlimit(100)]
#[verifier::spinoff_prover]
proof fn lemma_ping_members(n: nat, v: bool)
    requires
        n <= u64::MAX,
    ensures
        ({
            let p = crate::messages::obj_open(crate::messages::key_nonce()) + spec_dec(n)
                + crate::messages::obj_next(crate::messages::key_reply()) + bool_lit(v)
                + seq![125u8];
            crate::json::spec_parse_members(p, 1, Seq::empty()) == Some(
                (
                    Seq::empty().push(
                        (crate::messages::key_nonce(), JsonValueView::UInt(n)),
                    ).push((crate::messages::key_reply(), JsonValueView::Bool(v))),
                    p.len() as int,
                ),
            )
        }),
{
    let key_n = crate::messages::key_nonce();
    let key_r = crate::messages::key_reply();
    lemma_keys_plain();
    lemma_ping_layout(n, v);
    let d = spec_dec(n);
    let lit = bool_lit(v);
    let p = crate::messages::obj_open(key_n) + d + crate::messages::obj_next(key_r) + lit
        + seq![125u8];
    let kn = key_n.len() as int;
    let kr = key_r.len() as int;
    let ld = d.len() as int;
    let ll = lit.len() as int;
    let end_n = 4 + kn + ld;
    let i2 = end_n + 1;
    let end_r = i2 + 3 + kr + ll;
    assert(!is_digit(44u8));
    lemma_parse_member_uint(p, 1, key_n, n);
    let kv_n = (key_n, JsonValueView::UInt(n));
    let kv_r = (key_r, JsonValueView::Bool(v));
    assert(crate::json::spec_parse_member(p, 1) == Some((kv_n, end_n)));
    assert(!is_ws(p[end_n]));
    assert(crate::json::spec_skip_ws(p, end_n) == end_n);
    assert(!is_ws(p[i2]));
    assert(crate::json::spec_skip_ws(p, i2) == i2);
    lemma_parse_member_bool(p, i2, key_r, v);
    assert(crate::json::spec_parse_member(p, i2) == Some((kv_r, end_r)));
    assert(!is_ws(p[end_r]));
    assert(crate::json::spec_skip_ws(p, end_r) == end_r);
    assert(crate::json::spec_parse_members(p, i2, Seq::empty().push(kv_n)) == Some(
        (Seq::empty().push(kv_n).push(kv_r), end_r + 1),
    ));
    assert(crate::json::spec_parse_members(p, 1, Seq::empty()) == Some(
        (Seq::empty().push(kv_n).push(kv_r), end_r + 1),
    ));
}

/// The whole ping payload `{"nonce":n,"reply":v}` parses to its two
/// members.
#[verifier::rlimit(100)]
#[verifier::spinoff_prover]
proof fn lemma_payload_ping(n: nat, v: bool)
    requires
        n <= u64::MAX,
    ensures
        ({
            let p = crate::messages::obj_open(crate::messages::key_nonce()) + spec_dec(n)
                + crate::messages::obj_next(crate::messages::key_reply()) + bool_lit(v)
                + seq![125u8];
            crate::json::spec_parse_object(p) == Some(
                seq![
                    (crate::messages::key_nonce(), JsonValueView::UInt(n)),
                    (crate::messages::key_reply(), JsonValueView::Bool(v)),
                ],
            )
        }),
{
    let key_n = crate::messages::key_nonce();
    let key_r = crate::messages::key_reply();
    lemma_ping_layout(n, v);
    lemma_ping_members(n, v);
    let d = spec_dec(n);
    let lit = bool_lit(v);
    let p = crate::messages::obj_open(key_n) + d + crate::messages::obj_next(key_r) + lit
        + seq![125u8];
    let kv_n = (key_n, JsonValueView::UInt(n));
    let kv_r = (key_r, JsonValueView::Bool(v));
    assert(!is_ws(p[0]) && !is_ws(p[1]));
    assert(crate::json::spec_skip_ws(p, 0) == 0);
    assert(crate::json::spec_skip_ws(p, 1) == 1);
    assert(p[1] != 125);
    assert(crate::json::spec_skip_ws(p, p.len() as int) == p.len());
    assert(Seq::empty().push(kv_n).push(kv_r) =~= seq![kv_n, kv_r]);
}

/// Every member key of the catalog consists of bytes that escaping leaves
/// alone.
proof fn lemma_keys_plain()
    ensures
        all_plain(crate::messages::key_nonce()),
        all_plain(crate::messages::key_reply()),
        all_plain(crate::messages::key_user_name()),
        all_plain(crate::messages::key_message()),
        all_plain(crate::messages::key_to_user_name()),
        all_plain(crate::messages::key_from_user_name()),
{
    assert forall|i: int| 0 <= i < crate::messages::key_nonce().len() implies is_plain(
        #[trigger] crate::messages::key_nonce()[i],
    ) by {
        let k = crate::messages::key_nonce();
        assert(k[0] == 110 && k[1] == 111 && k[2] == 110 && k[3] == 99 && k[4] == 101);
    }
    assert forall|i: int| 0 <= i < crate::messages::key_reply().len() implies is_plain(
        #[trigger] crate::messages::key_reply()[i],
    ) by {
        let k = crate::messages::key_reply();
        assert(k[0] == 114 && k[1] == 101 && k[2] == 112 && k[3] == 108 && k[4] == 121);
    }
    assert forall|i: int| 0 <= i < crate::messages::key_user_name().len() implies is_plain(
        #[trigger] crate::messages::key_user_name()[i],
    ) by {
        let k = crate::messages::key_user_name();
        assert(k[0] == 117 && k[1] == 115 && k[2] == 101 && k[3] == 114 && k[4] == 95 && k[5]
            == 110 && k[6] == 97 && k[7] == 109 && k[8] == 101);
    }
    assert forall|i: int| 0 <= i < crate::messages::key_message().len() implies is_plain(
        #[trigger] crate::messages::key_message()[i],
    ) by {
        let k = crate::messages::key_message();
        assert(k[0] == 109 && k[1] == 101 && k[2] == 115 && k[3] == 115 && k[4] == 97 && k[5]
            == 103 && k[6] == 101);
    }
    assert forall|i: int| 0 <= i < crate::messages::key_to_user_name().len() implies is_plain(
        #[trigger] crate::messages::key_to_user_name()[i],
    ) by {
        let k = crate::messages::key_to_user_name();
        assert(k[0] == 116 && k[1] == 111 && k[2] == 95 && k[3] == 117 && k[4] == 115 && k[5]
            == 101 && k[6] == 114 && k[7] == 95 && k[8] == 110 && k[9] == 97 && k[10] == 109
            && k[11] == 101);
    }
    assert forall|i: int| 0 <= i < crate::messages::key_from_user_name().len() implies is_plain(
        #[trigger] crate::messages::key_from_user_name()[i],
    ) by {
        let k = crate::messages::key_from_user_name();
        assert(k[0] == 102 && k[1] == 114 && k[2] == 111 && k[3] == 109 && k[4] == 95 && k[5]
            == 117 && k[6] == 115 && k[7] == 101 && k[8] == 114 && k[9] == 95 && k[10] == 110
            && k[11] == 97 && k[12] == 109 && k[13] == 101);
    }
}


/// The catalog round trip for one ping.
#[verifier::rlimit(100)]
#[verifier::spinoff_prover]
proof fn lemma_round_trip_ping(nonce: nat, reply: bool)
    requires
        nonce <= u32::MAX as nat,
    ensures
        ({
            let m = crate::messages::ChatMessageView::Ping { nonce, reply };
            crate::messages::spec_parse_message(0, crate::messages::spec_payload(m)) == Some(m)
        }),
{
    let m = crate::messages::ChatMessageView::Ping { nonce, reply };
    lemma_keys_plain();
    lemma_payload_ping(nonce, reply);
    let fields = seq![
        (crate::messages::key_nonce(), JsonValueView::UInt(nonce)),
        (crate::messages::key_reply(), JsonValueView::Bool(reply)),
    ];
    assert(crate::json::spec_parse_object(crate::messages::spec_payload(m)) == Some(fields));
    assert(crate::messages::spec_ping_of(fields) == Some(m));
}

/// The catalog round trip for a one-string-member message shape.
#[verifier::rlimit(100)]
#[verifier::spinoff_prover]
proof fn lemma_round_trip_one_str(key: Seq<u8>, text: Seq<char>)
    requires
        all_plain(key),
    ensures
        ({
            let p = crate::messages::obj_open(key) + crate::messages::json_string_bytes(text)
                + seq![125u8];
            crate::messages::spec_one_str_of(
                crate::json::spec_parse_object(p)->Some_0,
                key,
            ) == Some(text) && crate::json::spec_parse_object(p) is Some
        }),
{
    lemma_payload_one_str(key, text);
    let fields = seq![(key, JsonValueView::Str(encode_utf8(text)))];
    vstd::utf8::encode_utf8_valid_utf8(text);
    vstd::utf8::encode_utf8_decode_utf8(text);
    assert(crate::messages::spec_one_str_of(fields, key) == Some(text));
}

/// The catalog round trip for a two-string-member message shape.
#[verifier::rlimit(100)]
#[verifier::spinoff_prover]
proof fn lemma_round_trip_two_str(key_a: Seq<u8>, text_a: Seq<char>, key_b: Seq<u8>, text_b: Seq<char>)
    requires
        all_plain(key_a),
        all_plain(key_b),
    ensures
        ({
            let p = crate::messages::obj_open(key_a) + crate::messages::json_string_bytes(text_a)
                + crate::messages::obj_next(key_b) + crate::messages::json_string_bytes(text_b)
                + seq![125u8];
            crate::messages::spec_two_str_of(
                crate::json::spec_parse_object(p)->Some_0,
                key_a,
                key_b,
            ) == Some((text_a, text_b)) && crate::json::spec_parse_object(p) is Some
        }),
{
    lemma_payload_two_str(key_a, text_a, key_b, text_b);
    let fields = seq![
        (key_a, JsonValueView::Str(encode_utf8(text_a))),
        (key_b, JsonValueView::Str(encode_utf8(text_b))),
    ];
    vstd::utf8::encode_utf8_valid_utf8(text_a);
    vstd::utf8::encode_utf8_decode_utf8(text_a);
    vstd::utf8::encode_utf8_valid_utf8(text_b);
    vstd::utf8::encode_utf8_decode_utf8(text_b);
    assert(crate::messages::spec_two_str_of(fields, key_a, key_b) == Some((text_a, text_b)));
}

/// The catalog round trip: parsing the canonical payload of any message
/// under its own wire number yields exactly that message. (The ping nonce
/// must fit the u32 wire field; every other message round-trips without a
/// side condition.)
#[verifier::rlimit(100)]
#[verifier::spinoff_prover]
pub proof fn lemma_message_round_trip(m: crate::messages::ChatMessageView)
    requires
        m matches crate::messages::ChatMessageView::Ping { nonce, .. } ==> nonce
            <= u32::MAX as nat,
    ensures
        crate::messages::spec_parse_message(
            crate::messages::spec_number(m),
            crate::messages::spec_payload(m),
        ) == Some(m),
{
    lemma_keys_plain();
    match m {
        crate::messages::ChatMessageView::Ping { nonce, reply } => {
            lemma_round_trip_ping(nonce, reply);
        },
        crate::messages::ChatMessageView::Login { user_name } => {
            lemma_round_trip_one_str(crate::messages::key_user_name(), user_name);
        },
        crate::messages::ChatMessageView::PublishGlobal { message } => {
            lemma_round_trip_one_str(crate::messages::key_message(), message);
        },
        crate::messages::ChatMessageView::Global { user_name, message } => {
            lemma_round_trip_two_str(
                crate::messages::key_user_name(),
                user_name,
                crate::messages::key_message(),
                message,
            );
        },
        crate::messages::ChatMessageView::PublishPrivate { to_user_name, message } => {
            lemma_round_trip_two_str(
                crate::messages::key_to_user_name(),
                to_user_name,
                crate::messages::key_message(),
                message,
            );
        },
        crate::messages::ChatMessageView::Private { from_user_name, message } => {
            lemma_round_trip_two_str(
                crate::messages::key_from_user_name(),
                from_user_name,
                crate::messages::key_message(),
                message,
            );
        },
    }
}

} // verus!
