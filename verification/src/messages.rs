//! The message catalog: the closed set of application messages, their
//! stable wire numbers, their JSON payload shapes, and the conversions
//! between typed messages and payload bytes.
//!
//! Serialization writes the fields in declaration order with no spaces;
//! parsing accepts any member order but insists on exactly the declared
//! members: a missing, duplicated or unknown member, or a member of the
//! wrong type, fails the parse.
use crate::codec::spec_dec;
use crate::json::field_views;
use crate::json::spec_parse_object;
use crate::json::JsonValue;
use crate::json::JsonValueView;
use vstd::prelude::*;
use vstd::utf8::decode_utf8;
use vstd::utf8::encode_utf8;
use vstd::utf8::valid_utf8;

verus! {

pub struct PingMessage {
    pub nonce: u32,
    pub reply: bool,
}

pub struct LoginMessage {
    pub user_name: String,
}

pub struct PublishGlobalChatMessage {
    pub message: String,
}

pub struct GlobalChatMessage {
    pub user_name: String,
    pub message: String,
}

pub struct PublishPrivateChatMessage {
    pub to_user_name: String,
    pub message: String,
}

pub struct PrivateChatMessage {
    pub from_user_name: String,
    pub message: String,
}

/// The mathematical model of a catalog message.
pub ghost enum ChatMessageView {
    Ping { nonce: nat, reply: bool },
    Login { user_name: Seq<char> },
    PublishGlobal { message: Seq<char> },
    Global { user_name: Seq<char>, message: Seq<char> },
    PublishPrivate { to_user_name: Seq<char>, message: Seq<char> },
    Private { from_user_name: Seq<char>, message: Seq<char> },
}

/// One inbound application message, dispatched by its wire number.
pub enum ChatMessage {
    Ping(PingMessage),
    Login(LoginMessage),
    PublishGlobal(PublishGlobalChatMessage),
    Global(GlobalChatMessage),
    PublishPrivate(PublishPrivateChatMessage),
    Private(PrivateChatMessage),
}

impl View for ChatMessage {
    type V = ChatMessageView;

    open spec fn view(&self) -> ChatMessageView {
        match self {
            ChatMessage::Ping(m) => ChatMessageView::Ping { nonce: m.nonce as nat, reply: m.reply },
            ChatMessage::Login(m) => ChatMessageView::Login { user_name: m.user_name@ },
            ChatMessage::PublishGlobal(m) => ChatMessageView::PublishGlobal { message: m.message@ },
            ChatMessage::Global(m) => ChatMessageView::Global {
                user_name: m.user_name@,
                message: m.message@,
            },
            ChatMessage::PublishPrivate(m) => ChatMessageView::PublishPrivate {
                to_user_name: m.to_user_name@,
                message: m.message@,
            },
            ChatMessage::Private(m) => ChatMessageView::Private {
                from_user_name: m.from_user_name@,
                message: m.message@,
            },
        }
    }
}

/// The stable wire number of each message kind.
pub open spec fn spec_number(m: ChatMessageView) -> nat {
    match m {
        ChatMessageView::Ping { .. } => 0,
        ChatMessageView::Login { .. } => 1,
        ChatMessageView::PublishGlobal { .. } => 2,
        ChatMessageView::Global { .. } => 3,
        ChatMessageView::PublishPrivate { .. } => 4,
        ChatMessageView::Private { .. } => 5,
    }
}

impl PingMessage {
    pub fn number(&self) -> (r: u32)
        ensures
            r == 0,
    {
        0
    }
}

impl LoginMessage {
    pub fn number(&self) -> (r: u32)
        ensures
            r == 1,
    {
        1
    }
}

impl PublishGlobalChatMessage {
    pub fn number(&self) -> (r: u32)
        ensures
            r == 2,
    {
        2
    }
}

impl GlobalChatMessage {
    pub fn number(&self) -> (r: u32)
        ensures
            r == 3,
    {
        3
    }
}

impl PublishPrivateChatMessage {
    pub fn number(&self) -> (r: u32)
        ensures
            r == 4,
    {
        4
    }
}

impl PrivateChatMessage {
    pub fn number(&self) -> (r: u32)
        ensures
            r == 5,
    {
        5
    }
}

impl ChatMessage {
    pub fn number(&self) -> (r: u32)
        ensures
            r as nat == spec_number(self@),
    {
        match self {
            ChatMessage::Ping(m) => m.number(),
            ChatMessage::Login(m) => m.number(),
            ChatMessage::PublishGlobal(m) => m.number(),
            ChatMessage::Global(m) => m.number(),
            ChatMessage::PublishPrivate(m) => m.number(),
            ChatMessage::Private(m) => m.number(),
        }
    }
}

impl Clone for GlobalChatMessage {
    fn clone(&self) -> (r: Self)
        ensures
            r == self,
    {
        GlobalChatMessage { user_name: self.user_name.clone(), message: self.message.clone() }
    }
}

// --- payload member keys ---

pub open spec fn key_nonce() -> Seq<u8> {
    seq![110u8, 111u8, 110u8, 99u8, 101u8]
}

pub open spec fn key_reply() -> Seq<u8> {
    seq![114u8, 101u8, 112u8, 108u8, 121u8]
}

pub open spec fn key_user_name() -> Seq<u8> {
    seq![117u8, 115u8, 101u8, 114u8, 95u8, 110u8, 97u8, 109u8, 101u8]
}

pub open spec fn key_message() -> Seq<u8> {
    seq![109u8, 101u8, 115u8, 115u8, 97u8, 103u8, 101u8]
}

pub open spec fn key_to_user_name() -> Seq<u8> {
    seq![116u8, 111u8, 95u8, 117u8, 115u8, 101u8, 114u8, 95u8, 110u8, 97u8, 109u8, 101u8]
}

pub open spec fn key_from_user_name() -> Seq<u8> {
    seq![102u8, 114u8, 111u8, 109u8, 95u8, 117u8, 115u8, 101u8, 114u8, 95u8, 110u8, 97u8, 109u8, 101u8]
}

fn key_nonce_vec() -> (r: Vec<u8>)
    ensures
        r@ == key_nonce(),
{
    let mut v: Vec<u8> = Vec::new();
    v.push(110);
    v.push(111);
    v.push(110);
    v.push(99);
    v.push(101);
    proof {
        assert(v@ =~= key_nonce());
    }
    v
}

fn key_reply_vec() -> (r: Vec<u8>)
    ensures
        r@ == key_reply(),
{
    let mut v: Vec<u8> = Vec::new();
    v.push(114);
    v.push(101);
    v.push(112);
    v.push(108);
    v.push(121);
    proof {
        assert(v@ =~= key_reply());
    }
    v
}

fn key_user_name_vec() -> (r: Vec<u8>)
    ensures
        r@ == key_user_name(),
{
    let mut v: Vec<u8> = Vec::new();
    v.push(117);
    v.push(115);
    v.push(101);
    v.push(114);
    v.push(95);
    v.push(110);
    v.push(97);
    v.push(109);
    v.push(101);
    proof {
        assert(v@ =~= key_user_name());
    }
    v
}

fn key_message_vec() -> (r: Vec<u8>)
    ensures
        r@ == key_message(),
{
    let mut v: Vec<u8> = Vec::new();
    v.push(109);
    v.push(101);
    v.push(115);
    v.push(115);
    v.push(97);
    v.push(103);
    v.push(101);
    proof {
        assert(v@ =~= key_message());
    }
    v
}

fn key_to_user_name_vec() -> (r: Vec<u8>)
    ensures
        r@ == key_to_user_name(),
{
    let mut v: Vec<u8> = Vec::new();
    v.push(116);
    v.push(111);
    v.push(95);
    v.push(117);
    v.push(115);
    v.push(101);
    v.push(114);
    v.push(95);
    v.push(110);
    v.push(97);
    v.push(109);
    v.push(101);
    proof {
        assert(v@ =~= key_to_user_name());
    }
    v
}

fn key_from_user_name_vec() -> (r: Vec<u8>)
    ensures
        r@ == key_from_user_name(),
{
    let mut v: Vec<u8> = Vec::new();
    v.push(102);
    v.push(114);
    v.push(111);
    v.push(109);
    v.push(95);
    v.push(117);
    v.push(115);
    v.push(101);
    v.push(114);
    v.push(95);
    v.push(110);
    v.push(97);
    v.push(109);
    v.push(101);
    proof {
        assert(v@ =~= key_from_user_name());
    }
    v
}

fn bytes_eq(a: &[u8], b: &[u8]) -> (r: bool)
    ensures
        r == (a@ == b@),
{
    if a.len() != b.len() {
        return false;
    }
    let len: usize = a.len();
    let mut i: usize = 0;
    while i < len
        invariant
            i <= len,
            len == a@.len() == b@.len(),
            forall|m: int| 0 <= m < i ==> a@[m] == b@[m],
        decreases len - i,
    {
        if a[i] != b[i] {
            return false;
        }
        i = i + 1;
    }
    proof {
        assert(a@ =~= b@);
    }
    true
}

// --- payload serialization ---

pub open spec fn hex_lower(d: u8) -> u8 {
    if d < 10 {
        (48 + d) as u8
    } else {
        (87 + d) as u8
    }
}

/// serde-style escaping of one byte inside a JSON string: quote and
/// backslash are escaped, the named control escapes are used where they
/// exist, any other control byte becomes \u00XX with lowercase hex, and
/// every other byte (UTF-8 continuation bytes included) passes through.
pub open spec fn esc_byte(b: u8) -> Seq<u8> {
    if b == 34 {
        seq![92u8, 34u8]
    } else if b == 92 {
        seq![92u8, 92u8]
    } else if b == 8 {
        seq![92u8, 98u8]
    } else if b == 9 {
        seq![92u8, 116u8]
    } else if b == 10 {
        seq![92u8, 110u8]
    } else if b == 12 {
        seq![92u8, 102u8]
    } else if b == 13 {
        seq![92u8, 114u8]
    } else if b < 32 {
        seq![92u8, 117u8, 48u8, 48u8, hex_lower(b / 16), hex_lower(b % 16)]
    } else {
        seq![b]
    }
}

pub open spec fn json_escape(s: Seq<u8>) -> Seq<u8>
    decreases s.len(),
{
    if s.len() == 0 {
        Seq::empty()
    } else {
        esc_byte(s[0]) + json_escape(s.drop_first())
    }
}

/// A JSON string literal: quote, escaped UTF-8 bytes, quote.
pub open spec fn json_string_bytes(s: Seq<char>) -> Seq<u8> {
    seq![34u8] + json_escape(encode_utf8(s)) + seq![34u8]
}

/// `{"` key `":` -- the opening of an object whose first member is `key`.
pub open spec fn obj_open(key: Seq<u8>) -> Seq<u8> {
    seq![123u8, 34u8] + key + seq![34u8, 58u8]
}

/// `,"` key `":` -- a subsequent member.
pub open spec fn obj_next(key: Seq<u8>) -> Seq<u8> {
    seq![44u8, 34u8] + key + seq![34u8, 58u8]
}

pub open spec fn bool_lit(b: bool) -> Seq<u8> {
    if b {
        seq![116u8, 114u8, 117u8, 101u8]
    } else {
        seq![102u8, 97u8, 108u8, 115u8, 101u8]
    }
}

/// The canonical payload bytes of each message: members in declaration
/// order, no whitespace, strings escaped as in `esc_byte`.
pub open spec fn spec_payload(m: ChatMessageView) -> Seq<u8> {
    match m {
        ChatMessageView::Ping { nonce, reply } => obj_open(key_nonce()) + spec_dec(nonce)
            + obj_next(key_reply()) + bool_lit(reply) + seq![125u8],
        ChatMessageView::Login { user_name } => obj_open(key_user_name()) + json_string_bytes(
            user_name,
        ) + seq![125u8],
        ChatMessageView::PublishGlobal { message } => obj_open(key_message()) + json_string_bytes(
            message,
        ) + seq![125u8],
        ChatMessageView::Global { user_name, message } => obj_open(key_user_name())
            + json_string_bytes(user_name) + obj_next(key_message()) + json_string_bytes(message)
            + seq![125u8],
        ChatMessageView::PublishPrivate { to_user_name, message } => obj_open(key_to_user_name())
            + json_string_bytes(to_user_name) + obj_next(key_message()) + json_string_bytes(message)
            + seq![125u8],
        ChatMessageView::Private { from_user_name, message } => obj_open(key_from_user_name())
            + json_string_bytes(from_user_name) + obj_next(key_message()) + json_string_bytes(
            message,
        ) + seq![125u8],
    }
}

fn push_obj_open(out: &mut Vec<u8>, key: &Vec<u8>)
    ensures
        final(out)@ == old(out)@ + obj_open(key@),
{
    out.push(123);
    out.push(34);
    out.extend_from_slice(key.as_slice());
    out.push(34);
    out.push(58);
    proof {
        assert(out@ =~= old(out)@ + obj_open(key@));
    }
}

fn push_obj_next(out: &mut Vec<u8>, key: &Vec<u8>)
    ensures
        final(out)@ == old(out)@ + obj_next(key@),
{
    out.push(44);
    out.push(34);
    out.extend_from_slice(key.as_slice());
    out.push(34);
    out.push(58);
    proof {
        assert(out@ =~= old(out)@ + obj_next(key@));
    }
}

fn push_bool(out: &mut Vec<u8>, b: bool)
    ensures
        final(out)@ == old(out)@ + bool_lit(b),
{
    if b {
        out.push(116);
        out.push(114);
        out.push(117);
        out.push(101);
    } else {
        out.push(102);
        out.push(97);
        out.push(108);
        out.push(115);
        out.push(101);
    }
    proof {
        assert(out@ =~= old(out)@ + bool_lit(b));
    }
}

pub proof fn lemma_json_escape_snoc(s: Seq<u8>, b: u8)
    ensures
        json_escape(s.push(b)) == json_escape(s) + esc_byte(b),
    decreases s.len(),
{
    if s.len() == 0 {
        assert(s.push(b)[0] == b);
        assert(s.push(b).drop_first() =~= Seq::<u8>::empty());
        assert(json_escape(Seq::<u8>::empty()) == Seq::<u8>::empty());
        assert(json_escape(s.push(b)) =~= json_escape(s) + esc_byte(b));
    } else {
        assert(s.push(b).drop_first() =~= s.drop_first().push(b));
        lemma_json_escape_snoc(s.drop_first(), b);
        assert(s.push(b)[0] == s[0]);
        assert(json_escape(s.push(b)) =~= json_escape(s) + esc_byte(b));
    }
}

/// Appends one escaped JSON string literal, quotes included.
fn push_json_string(out: &mut Vec<u8>, s: &str)
    ensures
        final(out)@ == old(out)@ + json_string_bytes(s@),
{
    out.push(34);
    let bytes = s.as_bytes();
    let len: usize = bytes.len();
    let mut i: usize = 0;
    proof {
        assert(bytes@.subrange(0, 0) =~= Seq::<u8>::empty());
        assert(out@ =~= old(out)@ + seq![34u8] + json_escape(bytes@.subrange(0, 0)));
    }
    while i < len
        invariant
            i <= len,
            len == bytes@.len(),
            bytes@ == encode_utf8(s@),
            out@ == old(out)@ + seq![34u8] + json_escape(bytes@.subrange(0, i as int)),
        decreases len - i,
    {
        let b = bytes[i];
        proof {
            assert(bytes@.subrange(0, i + 1) =~= bytes@.subrange(0, i as int).push(b));
            lemma_json_escape_snoc(bytes@.subrange(0, i as int), b);
        }
        if b == 34 {
            out.push(92);
            out.push(34);
        } else if b == 92 {
            out.push(92);
            out.push(92);
        } else if b == 8 {
            out.push(92);
            out.push(98);
        } else if b == 9 {
            out.push(92);
            out.push(116);
        } else if b == 10 {
            out.push(92);
            out.push(110);
        } else if b == 12 {
            out.push(92);
            out.push(102);
        } else if b == 13 {
            out.push(92);
            out.push(114);
        } else if b < 32 {
            out.push(92);
            out.push(117);
            out.push(48);
            out.push(48);
            let hi = b / 16;
            let lo = b % 16;
            if hi < 10 {
                out.push(48 + hi);
            } else {
                out.push(87 + hi);
            }
            if lo < 10 {
                out.push(48 + lo);
            } else {
                out.push(87 + lo);
            }
        } else {
            out.push(b);
        }
        i = i + 1;
        proof {
            assert(out@ =~= old(out)@ + seq![34u8] + json_escape(bytes@.subrange(0, i as int)));
        }
    }
    out.push(34);
    proof {
        assert(bytes@.subrange(0, len as int) =~= bytes@);
        assert(out@ =~= old(out)@ + json_string_bytes(s@));
    }
}

impl PingMessage {
    pub fn to_payload(&self) -> (r: Vec<u8>)
        ensures
            r@ == spec_payload(ChatMessageView::Ping { nonce: self.nonce as nat, reply: self.reply }),
    {
        let mut out: Vec<u8> = Vec::new();
        push_obj_open(&mut out, &key_nonce_vec());
        crate::codec::push_dec(&mut out, self.nonce);
        push_obj_next(&mut out, &key_reply_vec());
        push_bool(&mut out, self.reply);
        out.push(125);
        proof {
            assert(out@ =~= spec_payload(
                ChatMessageView::Ping { nonce: self.nonce as nat, reply: self.reply },
            ));
        }
        out
    }
}

impl LoginMessage {
    pub fn to_payload(&self) -> (r: Vec<u8>)
        ensures
            r@ == spec_payload(ChatMessageView::Login { user_name: self.user_name@ }),
    {
        let mut out: Vec<u8> = Vec::new();
        push_obj_open(&mut out, &key_user_name_vec());
        push_json_string(&mut out, self.user_name.as_str());
        out.push(125);
        proof {
            assert(out@ =~= spec_payload(ChatMessageView::Login { user_name: self.user_name@ }));
        }
        out
    }
}

impl PublishGlobalChatMessage {
    pub fn to_payload(&self) -> (r: Vec<u8>)
        ensures
            r@ == spec_payload(ChatMessageView::PublishGlobal { message: self.message@ }),
    {
        let mut out: Vec<u8> = Vec::new();
        push_obj_open(&mut out, &key_message_vec());
        push_json_string(&mut out, self.message.as_str());
        out.push(125);
        proof {
            assert(out@ =~= spec_payload(ChatMessageView::PublishGlobal { message: self.message@ }));
        }
        out
    }
}

impl GlobalChatMessage {
    pub fn to_payload(&self) -> (r: Vec<u8>)
        ensures
            r@ == spec_payload(
                ChatMessageView::Global { user_name: self.user_name@, message: self.message@ },
            ),
    {
        let mut out: Vec<u8> = Vec::new();
        push_obj_open(&mut out, &key_user_name_vec());
        push_json_string(&mut out, self.user_name.as_str());
        push_obj_next(&mut out, &key_message_vec());
        push_json_string(&mut out, self.message.as_str());
        out.push(125);
        proof {
            assert(out@ =~= spec_payload(
                ChatMessageView::Global { user_name: self.user_name@, message: self.message@ },
            ));
        }
        out
    }
}

impl PublishPrivateChatMessage {
    pub fn to_payload(&self) -> (r: Vec<u8>)
        ensures
            r@ == spec_payload(
                ChatMessageView::PublishPrivate {
                    to_user_name: self.to_user_name@,
                    message: self.message@,
                },
            ),
    {
        let mut out: Vec<u8> = Vec::new();
        push_obj_open(&mut out, &key_to_user_name_vec());
        push_json_string(&mut out, self.to_user_name.as_str());
        push_obj_next(&mut out, &key_message_vec());
        push_json_string(&mut out, self.message.as_str());
        out.push(125);
        proof {
            assert(out@ =~= spec_payload(
                ChatMessageView::PublishPrivate {
                    to_user_name: self.to_user_name@,
                    message: self.message@,
                },
            ));
        }
        out
    }
}

impl PrivateChatMessage {
    pub fn to_payload(&self) -> (r: Vec<u8>)
        ensures
            r@ == spec_payload(
                ChatMessageView::Private {
                    from_user_name: self.from_user_name@,
                    message: self.message@,
                },
            ),
    {
        let mut out: Vec<u8> = Vec::new();
        push_obj_open(&mut out, &key_from_user_name_vec());
        push_json_string(&mut out, self.from_user_name.as_str());
        push_obj_next(&mut out, &key_message_vec());
        push_json_string(&mut out, self.message.as_str());
        out.push(125);
        proof {
            assert(out@ =~= spec_payload(
                ChatMessageView::Private {
                    from_user_name: self.from_user_name@,
                    message: self.message@,
                },
            ));
        }
        out
    }
}

impl ChatMessage {
    /// The canonical payload bytes of this message.
    pub fn to_payload(&self) -> (r: Vec<u8>)
        ensures
            r@ == spec_payload(self@),
    {
        match self {
            ChatMessage::Ping(m) => m.to_payload(),
            ChatMessage::Login(m) => m.to_payload(),
            ChatMessage::PublishGlobal(m) => m.to_payload(),
            ChatMessage::Global(m) => m.to_payload(),
            ChatMessage::PublishPrivate(m) => m.to_payload(),
            ChatMessage::Private(m) => m.to_payload(),
        }
    }
}

// --- payload parsing ---

/// A string member becomes text exactly when its unescaped bytes are
/// valid UTF-8.
pub open spec fn str_field(v: JsonValueView) -> Option<Seq<char>> {
    match v {
        JsonValueView::Str(b) => if valid_utf8(b) {
            Some(decode_utf8(b))
        } else {
            None
        },
        _ => None,
    }
}

pub open spec fn spec_ping_of(fields: Seq<(Seq<u8>, JsonValueView)>) -> Option<ChatMessageView> {
    if fields.len() == 2 {
        if fields[0].0 == key_nonce() && fields[1].0 == key_reply() {
            spec_ping_values(fields[0].1, fields[1].1)
        } else if fields[0].0 == key_reply() && fields[1].0 == key_nonce() {
            spec_ping_values(fields[1].1, fields[0].1)
        } else {
            None
        }
    } else {
        None
    }
}

pub open spec fn spec_ping_values(nv: JsonValueView, rv: JsonValueView) -> Option<ChatMessageView> {
    match (nv, rv) {
        (JsonValueView::UInt(n), JsonValueView::Bool(b)) => if n <= u32::MAX as nat {
            Some(ChatMessageView::Ping { nonce: n, reply: b })
        } else {
            None
        },
        _ => None,
    }
}

/// A one-member object holding one string field under `key`.
pub open spec fn spec_one_str_of(fields: Seq<(Seq<u8>, JsonValueView)>, key: Seq<u8>) -> Option<
    Seq<char>,
> {
    if fields.len() == 1 && fields[0].0 == key {
        str_field(fields[0].1)
    } else {
        None
    }
}

/// A two-member object holding string fields under `key_a` and `key_b`,
/// in either order. Yields the values in (a, b) order.
pub open spec fn spec_two_str_of(
    fields: Seq<(Seq<u8>, JsonValueView)>,
    key_a: Seq<u8>,
    key_b: Seq<u8>,
) -> Option<(Seq<char>, Seq<char>)> {
    if fields.len() == 2 {
        if fields[0].0 == key_a && fields[1].0 == key_b {
            match (str_field(fields[0].1), str_field(fields[1].1)) {
                (Some(a), Some(b)) => Some((a, b)),
                _ => None,
            }
        } else if fields[0].0 == key_b && fields[1].0 == key_a {
            match (str_field(fields[0].1), str_field(fields[1].1)) {
                (Some(b), Some(a)) => Some((a, b)),
                _ => None,
            }
        } else {
            None
        }
    } else {
        None
    }
}

/// What a payload of the given wire number means, if anything. The
/// payload must be one JSON object holding exactly the declared members
/// of that message kind, in any order.
pub open spec fn spec_parse_message(number: nat, payload: Seq<u8>) -> Option<ChatMessageView> {
    match spec_parse_object(payload) {
        None => None,
        Some(fields) => {
            if number == 0 {
                spec_ping_of(fields)
            } else if number == 1 {
                match spec_one_str_of(fields, key_user_name()) {
                    Some(u) => Some(ChatMessageView::Login { user_name: u }),
                    None => None,
                }
            } else if number == 2 {
                match spec_one_str_of(fields, key_message()) {
                    Some(t) => Some(ChatMessageView::PublishGlobal { message: t }),
                    None => None,
                }
            } else if number == 3 {
                match spec_two_str_of(fields, key_user_name(), key_message()) {
                    Some(p) => Some(ChatMessageView::Global { user_name: p.0, message: p.1 }),
                    None => None,
                }
            } else if number == 4 {
                match spec_two_str_of(fields, key_to_user_name(), key_message()) {
                    Some(p) => Some(
                        ChatMessageView::PublishPrivate { to_user_name: p.0, message: p.1 },
                    ),
                    None => None,
                }
            } else if number == 5 {
                match spec_two_str_of(fields, key_from_user_name(), key_message()) {
                    Some(p) => Some(ChatMessageView::Private { from_user_name: p.0, message: p.1 }),
                    None => None,
                }
            } else {
                None
            }
        },
    }
}

/// Relies on String::from_utf8: it succeeds exactly on valid UTF-8 and
/// yields the characters that the bytes encode.
#[verifier::external_body]
fn utf8_to_string(bytes: Vec<u8>) -> (r: Option<String>)
    ensures
        r is Some <==> valid_utf8(bytes@),
        r matches Some(t) ==> t@ == decode_utf8(bytes@),
{
    match String::from_utf8(bytes) {
        Ok(s) => Some(s),
        Err(_) => None,
    }
}

/// Turns one string member into text, failing on anything that is not a
/// string of valid UTF-8.
fn value_to_text(v: JsonValue) -> (r: Option<String>)
    ensures
        match r {
            Some(s) => str_field(v@) == Some(s@),
            None => str_field(v@) is None,
        },
{
    match v {
        JsonValue::Str(b) => utf8_to_string(b),
        _ => None,
    }
}

/// Parses the payload of a frame with the given message number into a
/// typed message; fails exactly when the payload is not the declared
/// object shape of that number (or the number is outside the catalog).
pub fn parse_message(number: usize, payload: &[u8]) -> (r: Option<ChatMessage>)
    ensures
        match r {
            Some(m) => spec_parse_message(number as nat, payload@) == Some(m@),
            None => spec_parse_message(number as nat, payload@) is None,
        },
{
    let mut fields = match crate::json::parse_json_object(payload) {
        Some(f) => f,
        None => {
            return None;
        },
    };
    let ghost f0 = fields@;
    if number == 0 {
        if fields.len() != 2 {
            return None;
        }
        let kv1 = match fields.pop() {
            Some(x) => x,
            None => {
                return None;
            },
        };
        let kv0 = match fields.pop() {
            Some(x) => x,
            None => {
                return None;
            },
        };
        proof {
            assert(f0[0] == kv0 && f0[1] == kv1);
            assert(field_views(f0)[0] == (kv0.0@, kv0.1@));
            assert(field_views(f0)[1] == (kv1.0@, kv1.1@));
        }
        let nonce_key = key_nonce_vec();
        let reply_key = key_reply_vec();
        let (nv, rv) = if bytes_eq(kv0.0.as_slice(), nonce_key.as_slice()) && bytes_eq(
            kv1.0.as_slice(),
            reply_key.as_slice(),
        ) {
            (kv0.1, kv1.1)
        } else if bytes_eq(kv0.0.as_slice(), reply_key.as_slice()) && bytes_eq(
            kv1.0.as_slice(),
            nonce_key.as_slice(),
        ) {
            (kv1.1, kv0.1)
        } else {
            return None;
        };
        let n = match nv {
            JsonValue::UInt(n) => n,
            _ => {
                return None;
            },
        };
        let b = match rv {
            JsonValue::Bool(b) => b,
            _ => {
                return None;
            },
        };
        if n > u32::MAX as u64 {
            return None;
        }
        Some(ChatMessage::Ping(PingMessage { nonce: n as u32, reply: b }))
    } else if number == 1 {
        match take_one_str(fields, &key_user_name_vec()) {
            Some(u) => Some(ChatMessage::Login(LoginMessage { user_name: u })),
            None => None,
        }
    } else if number == 2 {
        match take_one_str(fields, &key_message_vec()) {
            Some(t) => Some(ChatMessage::PublishGlobal(PublishGlobalChatMessage { message: t })),
            None => None,
        }
    } else if number == 3 {
        match take_two_str(fields, &key_user_name_vec(), &key_message_vec()) {
            Some((u, t)) => Some(ChatMessage::Global(GlobalChatMessage { user_name: u, message: t })),
            None => None,
        }
    } else if number == 4 {
        match take_two_str(fields, &key_to_user_name_vec(), &key_message_vec()) {
            Some((u, t)) => Some(
                ChatMessage::PublishPrivate(
                    PublishPrivateChatMessage { to_user_name: u, message: t },
                ),
            ),
            None => None,
        }
    } else if number == 5 {
        match take_two_str(fields, &key_from_user_name_vec(), &key_message_vec()) {
            Some((u, t)) => Some(
                ChatMessage::Private(PrivateChatMessage { from_user_name: u, message: t }),
            ),
            None => None,
        }
    } else {
        None
    }
}

fn take_one_str(fields: Vec<(Vec<u8>, JsonValue)>, key: &Vec<u8>) -> (r: Option<String>)
    ensures
        match r {
            Some(s) => spec_one_str_of(field_views(fields@), key@) == Some(s@),
            None => spec_one_str_of(field_views(fields@), key@) is None,
        },
{
    let ghost f0 = fields@;
    let mut fields = fields;
    if fields.len() != 1 {
        return None;
    }
    let kv = match fields.pop() {
        Some(x) => x,
        None => {
            return None;
        },
    };
    proof {
        assert(f0[0] == kv);
        assert(field_views(f0)[0] == (kv.0@, kv.1@));
    }
    if !bytes_eq(kv.0.as_slice(), key.as_slice()) {
        return None;
    }
    value_to_text(kv.1)
}

fn take_two_str(fields: Vec<(Vec<u8>, JsonValue)>, key_a: &Vec<u8>, key_b: &Vec<u8>) -> (r: Option<
    (String, String),
>)
    requires
        key_a@ != key_b@,
    ensures
        match r {
            Some(p) => spec_two_str_of(field_views(fields@), key_a@, key_b@) == Some(
                (p.0@, p.1@),
            ),
            None => spec_two_str_of(field_views(fields@), key_a@, key_b@) is None,
        },
{
    let ghost f0 = fields@;
    let mut fields = fields;
    if fields.len() != 2 {
        return None;
    }
    let kv1 = match fields.pop() {
        Some(x) => x,
        None => {
            return None;
        },
    };
    let kv0 = match fields.pop() {
        Some(x) => x,
        None => {
            return None;
        },
    };
    proof {
        assert(f0[0] == kv0 && f0[1] == kv1);
        assert(field_views(f0)[0] == (kv0.0@, kv0.1@));
        assert(field_views(f0)[1] == (kv1.0@, kv1.1@));
    }
    if bytes_eq(kv0.0.as_slice(), key_a.as_slice()) && bytes_eq(kv1.0.as_slice(), key_b.as_slice())
    {
        let a = match value_to_text(kv0.1) {
            Some(x) => x,
            None => {
                return None;
            },
        };
        let b = match value_to_text(kv1.1) {
            Some(x) => x,
            None => {
                return None;
            },
        };
        Some((a, b))
    } else if bytes_eq(kv0.0.as_slice(), key_b.as_slice()) && bytes_eq(
        kv1.0.as_slice(),
        key_a.as_slice(),
    ) {
        let b = match value_to_text(kv0.1) {
            Some(x) => x,
            None => {
                return None;
            },
        };
        let a = match value_to_text(kv1.1) {
            Some(x) => x,
            None => {
                return None;
            },
        };
        Some((a, b))
    } else {
        None
    }
}

} // verus!
