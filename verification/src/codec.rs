//! The binary framing codec.
//!
//! Every frame on the wire is a 16-byte header followed by the payload:
//! 8 bytes of magic ("RustChat"), then the message number as 3 bytes of
//! decimal ASCII and the payload length as 5 bytes of decimal ASCII, both
//! left-justified and padded on the right with spaces. The payload length
//! must lie in `1..=MAX_PAYLOAD`.
use vstd::arithmetic::div_mod::lemma_fundamental_div_mod;
use vstd::prelude::*;

verus! {

pub const HEADER_SIZE: usize = 16;

pub const MAX_PAYLOAD: usize = 1024;

pub const MAX_PACKET_SIZE: usize = 1040;

/// Largest message number that fits the 3-byte decimal header field.
pub const MAX_MESSAGE_NUMBER: usize = 999;

pub open spec fn is_digit(b: u8) -> bool {
    48 <= b <= 57
}

pub open spec fn is_space(b: u8) -> bool {
    b == 32
}

/// The magic bytes "RustChat".
pub open spec fn magic_bytes() -> Seq<u8> {
    seq![82u8, 117u8, 115u8, 116u8, 67u8, 104u8, 97u8, 116u8]
}

/// Decimal ASCII digits of `n`, most significant first, no sign and no
/// leading zeros (the single digit 0 for n == 0).
pub open spec fn spec_dec(n: nat) -> Seq<u8>
    decreases n,
{
    if n < 10 {
        seq![(48 + n) as u8]
    } else {
        spec_dec(n / 10).push((48 + n % 10) as u8)
    }
}

/// The number denoted by a sequence of decimal ASCII digits.
pub open spec fn dec_value(s: Seq<u8>) -> nat
    decreases s.len(),
{
    if s.len() == 0 {
        0
    } else {
        (dec_value(s.drop_last()) * 10 + (s.last() - 48)) as nat
    }
}

pub open spec fn trim_front(s: Seq<u8>) -> Seq<u8>
    decreases s.len(),
{
    if s.len() > 0 && is_space(s.first()) {
        trim_front(s.drop_first())
    } else {
        s
    }
}

pub open spec fn trim_back(s: Seq<u8>) -> Seq<u8>
    decreases s.len(),
{
    if s.len() > 0 && is_space(s.last()) {
        trim_back(s.drop_last())
    } else {
        s
    }
}

pub open spec fn all_digits(s: Seq<u8>) -> bool {
    forall|i: int| 0 <= i < s.len() ==> is_digit(#[trigger] s[i])
}

/// Value of a space-padded decimal header field: spaces may pad either
/// side; what remains must be one or more digits.
pub open spec fn spec_field_value(s: Seq<u8>) -> Option<nat> {
    let t = trim_back(trim_front(s));
    if t.len() > 0 && all_digits(t) {
        Some(dec_value(t))
    } else {
        None
    }
}

/// `s` padded on the right with spaces to width `w`.
pub open spec fn spec_pad(s: Seq<u8>, w: nat) -> Seq<u8> {
    if s.len() >= w {
        s
    } else {
        s + Seq::new((w - s.len()) as nat, |i: int| 32u8)
    }
}

/// The 16 header bytes for a frame with the given message number and
/// payload length.
pub open spec fn spec_header(number: nat, len: nat) -> Seq<u8> {
    magic_bytes() + spec_pad(spec_dec(number), 3) + spec_pad(spec_dec(len), 5)
}

/// A whole encoded frame: header then payload.
pub open spec fn spec_frame(number: nat, payload: Seq<u8>) -> Seq<u8> {
    spec_header(number, payload.len()) + payload
}

/// One decoded frame: the message number from the header and the raw
/// payload bytes.
pub ghost struct FrameView {
    pub number: nat,
    pub payload: Seq<u8>,
}

/// Reading a header from the front of `b` (which must hold at least
/// HEADER_SIZE bytes): `None` means the bytes are not a valid header --
/// wrong magic, a malformed numeric field, or a payload length outside
/// `1..=MAX_PAYLOAD`.
pub open spec fn spec_parse_header(b: Seq<u8>) -> Option<(nat, nat)> {
    if b.subrange(0, 8) == magic_bytes() {
        match spec_field_value(b.subrange(8, 11)) {
            Some(num) => match spec_field_value(b.subrange(11, 16)) {
                Some(len) => if 1 <= len && len <= MAX_PAYLOAD as nat {
                    Some((num, len))
                } else {
                    None
                },
                None => None,
            },
            None => None,
        }
    } else {
        None
    }
}

/// Greedy decoding of a byte stream: the frames completed so far, the
/// unconsumed tail, and whether the stream is still well formed (false
/// once a bad header is seen).
pub open spec fn spec_decode(b: Seq<u8>) -> (Seq<FrameView>, Seq<u8>, bool)
    decreases b.len(),
{
    if b.len() < HEADER_SIZE as nat {
        (Seq::empty(), b, true)
    } else {
        match spec_parse_header(b) {
            None => (Seq::empty(), b, false),
            Some((num, len)) => {
                if b.len() < HEADER_SIZE as nat + len {
                    (Seq::empty(), b, true)
                } else {
                    let f = FrameView { number: num, payload: b.subrange(16, 16 + len as int) };
                    let r = spec_decode(b.skip(16 + len as int));
                    (seq![f] + r.0, r.1, r.2)
                }
            },
        }
    }
}

pub open spec fn pow10(k: nat) -> nat
    decreases k,
{
    if k == 0 {
        1
    } else {
        10 * pow10((k - 1) as nat)
    }
}

pub proof fn lemma_pow10_small()
    ensures
        pow10(0) == 1,
        pow10(1) == 10,
        pow10(2) == 100,
        pow10(3) == 1000,
        pow10(4) == 10000,
        pow10(5) == 100000,
{
    reveal_with_fuel(pow10, 6);
}

pub proof fn lemma_pow10_positive(k: nat)
    ensures
        pow10(k) >= 1,
    decreases k,
{
    if k > 0 {
        lemma_pow10_positive((k - 1) as nat);
    }
}

pub proof fn lemma_pow10_mono(a: nat, b: nat)
    requires
        a <= b,
    ensures
        pow10(a) <= pow10(b),
    decreases b,
{
    if a < b {
        lemma_pow10_mono(a, (b - 1) as nat);
        lemma_pow10_positive((b - 1) as nat);
    }
}

/// Every digit that `spec_dec` emits is a decimal ASCII digit.
pub proof fn lemma_spec_dec_digits(n: nat)
    ensures
        all_digits(spec_dec(n)),
        spec_dec(n).len() >= 1,
    decreases n,
{
    if n < 10 {
    } else {
        lemma_spec_dec_digits(n / 10);
        assert(n % 10 < 10);
        assert forall|i: int| 0 <= i < spec_dec(n).len() implies is_digit(
            #[trigger] spec_dec(n)[i],
        ) by {
            if i < spec_dec(n / 10).len() {
                assert(spec_dec(n)[i] == spec_dec(n / 10)[i]);
            }
        }
    }
}

/// A number below 10^k prints in at most k digits.
pub proof fn lemma_spec_dec_len(n: nat, k: nat)
    requires
        k >= 1,
        n < pow10(k),
    ensures
        spec_dec(n).len() <= k,
    decreases k,
{
    if n < 10 {
    } else {
        assert(pow10(k) == 10 * pow10((k - 1) as nat));
        lemma_fundamental_div_mod(n as int, 10);
        assert(n / 10 < pow10((k - 1) as nat));
        lemma_spec_dec_len(n / 10, (k - 1) as nat);
    }
}

/// Reading the digits back gives the number written.
pub proof fn lemma_dec_value_of_spec_dec(n: nat)
    ensures
        dec_value(spec_dec(n)) == n,
    decreases n,
{
    if n < 10 {
        assert(spec_dec(n).drop_last() =~= Seq::<u8>::empty());
        assert(dec_value(Seq::<u8>::empty()) == 0);
    } else {
        lemma_dec_value_of_spec_dec(n / 10);
        assert(spec_dec(n).drop_last() =~= spec_dec(n / 10));
        assert(spec_dec(n).last() == (48 + n % 10) as u8);
        assert(n % 10 < 10);
        assert(spec_dec(n).len() > 0);
        assert(dec_value(spec_dec(n)) == (dec_value(spec_dec(n / 10)) * 10 + (spec_dec(n).last() - 48)) as nat);
        assert(dec_value(spec_dec(n)) == ((n / 10) * 10 + n % 10) as nat);
        lemma_fundamental_div_mod(n as int, 10);
        assert(n == 10 * (n as int / 10) + n as int % 10);
    }
}

/// trim_front leaves a sequence alone when it does not start with a space.
pub proof fn lemma_trim_front_noop(s: Seq<u8>)
    requires
        s.len() > 0 ==> !is_space(s.first()),
    ensures
        trim_front(s) == s,
{
}

/// trim_back leaves a sequence alone when it does not end with a space.
pub proof fn lemma_trim_back_noop(s: Seq<u8>)
    requires
        s.len() > 0 ==> !is_space(s.last()),
    ensures
        trim_back(s) == s,
{
}

/// Trimming trailing spaces from a right-padded sequence recovers it.
pub proof fn lemma_trim_back_pad(s: Seq<u8>, w: nat)
    requires
        s.len() > 0 ==> !is_space(s.last()),
    ensures
        trim_back(spec_pad(s, w)) == s,
    decreases w,
{
    let p = spec_pad(s, w);
    if s.len() >= w {
        lemma_trim_back_noop(s);
    } else {
        let q = spec_pad(s, (w - 1) as nat);
        assert(p.last() == 32u8);
        assert(p.drop_last() =~= q);
        lemma_trim_back_pad(s, (w - 1) as nat);
    }
}

/// A digit field never starts or ends with a space, so a padded digit run
/// reads back as the number itself.
pub proof fn lemma_field_value_of_padded(n: nat, w: nat)
    requires
        spec_dec(n).len() <= w,
    ensures
        spec_field_value(spec_pad(spec_dec(n), w)) == Some(n),
{
    let d = spec_dec(n);
    let p = spec_pad(d, w);
    lemma_spec_dec_digits(n);
    if d.len() < w {
        assert(p.first() == d.first());
    }
    lemma_trim_front_noop(p);
    lemma_trim_back_pad(d, w);
    lemma_dec_value_of_spec_dec(n);
}

/// dec_value of at most k digits stays below 10^k.
pub proof fn lemma_dec_value_bound(s: Seq<u8>, k: nat)
    requires
        s.len() <= k,
        all_digits(s),
    ensures
        dec_value(s) < pow10(k),
    decreases s.len(),
{
    if s.len() == 0 {
        lemma_pow10_positive(k);
    } else {
        assert(all_digits(s.drop_last())) by {
            assert(forall|i: int| 0 <= i < s.len() - 1 ==> #[trigger] s.drop_last()[i] == s[i]);
        }
        lemma_dec_value_bound(s.drop_last(), (k - 1) as nat);
        assert(pow10(k) == 10 * pow10((k - 1) as nat));
        assert(is_digit(s.last()));
    }
}

/// Appends the decimal ASCII digits of `n` to `out`.
pub(crate) fn push_dec(out: &mut Vec<u8>, n: u32)
    ensures
        final(out)@ == old(out)@ + spec_dec(n as nat),
    decreases n,
{
    if n < 10 {
        out.push(48 + n as u8);
        assert(out@ =~= old(out)@ + spec_dec(n as nat));
    } else {
        push_dec(out, n / 10);
        out.push(48 + (n % 10) as u8);
        assert(out@ =~= old(out)@ + spec_dec(n as nat));
    }
}

/// Appends the digits of `n` padded on the right with spaces to exactly
/// `width` bytes.
fn push_dec_padded(out: &mut Vec<u8>, n: u32, width: usize)
    requires
        spec_dec(n as nat).len() <= width,
        old(out)@.len() + width <= usize::MAX,
    ensures
        final(out)@ == old(out)@ + spec_pad(spec_dec(n as nat), width as nat),
{
    let ghost d = spec_dec(n as nat);
    let start: usize = out.len();
    push_dec(out, n);
    proof {
        assert(out@ =~= old(out)@ + d + Seq::new((out@.len() - start - d.len()) as nat, |i: int| 32u8));
    }
    while out.len() < start + width
        invariant
            start + width <= usize::MAX,
            start + d.len() <= out@.len() <= start + width,
            out@ == old(out)@ + d + Seq::new((out@.len() - start - d.len()) as nat, |i: int| 32u8),
        decreases start + width - out.len(),
    {
        out.push(32);
        assert(out@ =~= old(out)@ + d + Seq::new(
            (out@.len() - start - d.len()) as nat,
            |i: int| 32u8,
        ));
    }
    proof {
        assert(out@ =~= old(out)@ + spec_pad(d, width as nat));
    }
}

/// Appends the 8 magic bytes "RustChat".
fn push_magic(out: &mut Vec<u8>)
    ensures
        final(out)@ == old(out)@ + magic_bytes(),
{
    out.push(82);
    out.push(117);
    out.push(115);
    out.push(116);
    out.push(67);
    out.push(104);
    out.push(97);
    out.push(116);
    assert(out@ =~= old(out)@ + magic_bytes());
}

/// Encodes one frame: the 16-byte header followed by the payload.
/// Fails exactly when the payload is longer than MAX_PAYLOAD; a zero
/// length payload is encodable (the decoder is the side that rejects it).
pub fn encode_frame(message_number: u32, payload: &[u8]) -> (r: Option<Vec<u8>>)
    requires
        message_number <= MAX_MESSAGE_NUMBER,
    ensures
        match r {
            Some(v) => payload@.len() <= MAX_PAYLOAD && v@ == spec_frame(
                message_number as nat,
                payload@,
            ),
            None => payload@.len() > MAX_PAYLOAD,
        },
{
    if payload.len() > MAX_PAYLOAD {
        return None;
    }
    proof {
        lemma_pow10_small();
        lemma_spec_dec_len(message_number as nat, 3);
        lemma_spec_dec_len(payload@.len() as nat, 5);
    }
    let mut out: Vec<u8> = Vec::new();
    push_magic(&mut out);
    push_dec_padded(&mut out, message_number, 3);
    push_dec_padded(&mut out, payload.len() as u32, 5);
    out.extend_from_slice(payload);
    proof {
        assert(out@ =~= spec_frame(message_number as nat, payload@));
    }
    Some(out)
}

/// Reads a space-padded decimal field. Peers pad on either side, so both
/// leading and trailing spaces are accepted.
pub fn field_value(field: &[u8]) -> (r: Option<usize>)
    requires
        field@.len() <= 5,
    ensures
        match r {
            Some(v) => spec_field_value(field@) == Some(v as nat) && v < 100000,
            None => spec_field_value(field@) is None,
        },
{
    let ghost s = field@;
    let len: usize = field.len();
    let mut lo: usize = 0;
    proof {
        assert(s.skip(0) =~= s);
    }
    while lo < len && field[lo] == 32
        invariant
            lo <= len,
            len == s.len(),
            s == field@,
            trim_front(s) == trim_front(s.skip(lo as int)),
        decreases len - lo,
    {
        proof {
            assert(s.skip(lo as int).first() == s[lo as int]);
            assert(s.skip(lo as int).drop_first() =~= s.skip(lo as int + 1));
        }
        lo = lo + 1;
    }
    proof {
        if lo < len {
            assert(s.skip(lo as int).first() == s[lo as int]);
        }
        lemma_trim_front_noop(s.skip(lo as int));
    }
    let mut hi: usize = len;
    proof {
        assert(s.subrange(lo as int, len as int) =~= s.skip(lo as int));
    }
    while hi > lo && field[hi - 1] == 32
        invariant
            lo <= hi <= len,
            len == s.len(),
            s == field@,
            trim_front(s) == s.skip(lo as int),
            trim_back(s.skip(lo as int)) == trim_back(s.subrange(lo as int, hi as int)),
        decreases hi,
    {
        proof {
            let u = s.subrange(lo as int, hi as int);
            assert(u.last() == s[hi as int - 1]);
            assert(u.drop_last() =~= s.subrange(lo as int, hi as int - 1));
        }
        hi = hi - 1;
    }
    let ghost t = trim_back(trim_front(s));
    proof {
        let u = s.subrange(lo as int, hi as int);
        if hi > lo {
            assert(u.last() == s[hi as int - 1]);
        }
        lemma_trim_back_noop(u);
        assert(t == u);
    }
    if lo == hi {
        return None;
    }
    let mut acc: usize = 0;
    let mut i: usize = lo;
    proof {
        assert(t.subrange(0, 0) =~= Seq::<u8>::empty());
    }
    while i < hi
        invariant
            lo <= i <= hi <= len,
            len == s.len(),
            s == field@,
            hi - lo <= 5,
            t == s.subrange(lo as int, hi as int),
            t == trim_back(trim_front(s)),
            all_digits(t.subrange(0, i - lo)),
            acc == dec_value(t.subrange(0, i - lo)),
            acc < pow10((i - lo) as nat),
        decreases hi - i,
    {
        let b = field[i];
        proof {
            assert(t[i - lo] == s[i as int]);
        }
        if b < 48 || b > 57 {
            proof {
                assert(!is_digit(t[i - lo]));
                assert(!all_digits(t));
                assert(spec_field_value(s) is None);
            }
            return None;
        }
        proof {
            lemma_pow10_small();
            lemma_pow10_mono((i - lo) as nat, 4);
        }
        acc = acc * 10 + (b - 48) as usize;
        i = i + 1;
        proof {
            let u = t.subrange(0, i - lo);
            assert(u.drop_last() =~= t.subrange(0, i - lo - 1));
            assert(u.last() == t[i - lo - 1]);
            assert forall|j: int| 0 <= j < u.len() implies is_digit(#[trigger] u[j]) by {
                assert(u[j] == t[j]);
                if j < i - lo - 1 {
                    assert(t.subrange(0, i - lo - 1)[j] == t[j]);
                }
            }
            assert(pow10((i - lo) as nat) == 10 * pow10((i - lo - 1) as nat));
        }
    }
    proof {
        assert(t.subrange(0, hi - lo) =~= t);
        lemma_pow10_mono((hi - lo) as nat, 5);
        lemma_pow10_small();
    }
    Some(acc)
}

/// An executable decoded frame.
pub struct Frame {
    pub number: usize,
    pub payload: Vec<u8>,
}

impl View for Frame {
    type V = FrameView;

    open spec fn view(&self) -> FrameView {
        FrameView { number: self.number as nat, payload: self.payload@ }
    }
}

/// A well-formed frame at the front of a stream decodes to exactly that
/// frame, whatever follows it: the tail is then decoded on its own as the
/// start of the next frame.
pub proof fn lemma_decode_frame_front(number: nat, payload: Seq<u8>, rest: Seq<u8>)
    requires
        number <= MAX_MESSAGE_NUMBER as nat,
        1 <= payload.len() <= MAX_PAYLOAD as nat,
    ensures
        ({
            let b = spec_frame(number, payload) + rest;
            let r = spec_decode(rest);
            spec_decode(b) == (seq![FrameView { number, payload }] + r.0, r.1, r.2)
        }),
{
    let b = spec_frame(number, payload) + rest;
    let plen = payload.len();
    lemma_pow10_small();
    lemma_spec_dec_len(number, 3);
    lemma_spec_dec_len(plen, 5);
    assert(spec_pad(spec_dec(number), 3).len() == 3);
    assert(spec_pad(spec_dec(plen), 5).len() == 5);
    assert(b.len() >= HEADER_SIZE as nat + plen);
    assert(b.subrange(0, 8) =~= magic_bytes());
    assert(b.subrange(8, 11) =~= spec_pad(spec_dec(number), 3));
    assert(b.subrange(11, 16) =~= spec_pad(spec_dec(plen), 5));
    lemma_field_value_of_padded(number, 3);
    lemma_field_value_of_padded(plen, 5);
    assert(spec_parse_header(b) == Some((number, plen)));
    assert(b.subrange(16, 16 + plen as int) =~= payload);
    assert(b.skip(16 + plen as int) =~= rest);
    let r = spec_decode(rest);
    assert(spec_decode(b).0 =~= seq![FrameView { number, payload }] + r.0);
}

/// Frame round trip: decoding one encoded frame yields exactly that frame
/// and consumes the whole buffer.
pub proof fn lemma_frame_round_trip(number: nat, payload: Seq<u8>)
    requires
        number <= MAX_MESSAGE_NUMBER as nat,
        1 <= payload.len() <= MAX_PAYLOAD as nat,
    ensures
        spec_decode(spec_frame(number, payload)) == (
            seq![FrameView { number, payload }],
            Seq::<u8>::empty(),
            true,
        ),
{
    lemma_decode_frame_front(number, payload, Seq::<u8>::empty());
    assert(spec_frame(number, payload) + Seq::<u8>::empty() =~= spec_frame(number, payload));
    assert(spec_decode(spec_frame(number, payload)).0 =~= seq![
        FrameView { number, payload },
    ]);
}

/// Streaming independence: however a stream is split into chunks, decoding
/// the concatenation yields the frames of the first part followed by the
/// frames of the leftover bytes joined with the next chunk. Feeding a
/// stream chunk by chunk therefore emits the same frames as feeding it
/// whole.
pub proof fn lemma_decode_append(a: Seq<u8>, b: Seq<u8>)
    requires
        spec_decode(a).2,
    ensures
        ({
            let whole = spec_decode(a + b);
            let part = spec_decode(spec_decode(a).1 + b);
            whole.0 == spec_decode(a).0 + part.0 && whole.1 == part.1 && whole.2 == part.2
        }),
    decreases a.len(),
{
    let whole = spec_decode(a + b);
    if a.len() < HEADER_SIZE as nat {
        assert(spec_decode(a) == (Seq::<FrameView>::empty(), a, true));
        assert(whole.0 =~= spec_decode(a).0 + spec_decode(spec_decode(a).1 + b).0);
    } else {
        match spec_parse_header(a) {
            None => {
                assert(!spec_decode(a).2);
            },
            Some((num, len)) => {
                assert((a + b).subrange(0, 8) =~= a.subrange(0, 8));
                assert((a + b).subrange(8, 11) =~= a.subrange(8, 11));
                assert((a + b).subrange(11, 16) =~= a.subrange(11, 16));
                assert(spec_parse_header(a + b) == Some((num, len)));
                if a.len() < HEADER_SIZE as nat + len {
                    assert(spec_decode(a) == (Seq::<FrameView>::empty(), a, true));
                    assert(whole.0 =~= spec_decode(a).0 + spec_decode(spec_decode(a).1 + b).0);
                } else {
                    assert((a + b).len() >= HEADER_SIZE as nat + len);
                    assert((a + b).subrange(16, 16 + len as int) =~= a.subrange(
                        16,
                        16 + len as int,
                    ));
                    assert((a + b).skip(16 + len as int) =~= a.skip(16 + len as int) + b);
                    lemma_decode_append(a.skip(16 + len as int), b);
                    let f = FrameView { number: num, payload: a.subrange(16, 16 + len as int) };
                    let ra = spec_decode(a.skip(16 + len as int));
                    assert(spec_decode(a).0 == seq![f] + ra.0);
                    assert(spec_decode(a).1 == ra.1);
                    assert(whole.0 =~= spec_decode(a).0 + spec_decode(spec_decode(a).1 + b).0);
                }
            },
        }
    }
}


/// The bytes of a run of frames, in order.
pub open spec fn frames_bytes(fs: Seq<FrameView>) -> Seq<u8>
    decreases fs.len(),
{
    if fs.len() == 0 {
        Seq::empty()
    } else {
        spec_frame(fs[0].number, fs[0].payload) + frames_bytes(fs.drop_first())
    }
}

pub open spec fn frame_wf(f: FrameView) -> bool {
    f.number <= MAX_MESSAGE_NUMBER as nat && 1 <= f.payload.len() <= MAX_PAYLOAD as nat
}

/// A byte stream built by concatenating encoded frames decodes to exactly
/// those frames, in order, with nothing left over. With
/// `lemma_decode_append`, the same frames come out however the stream is
/// cut into chunks.
pub proof fn lemma_decode_stream(fs: Seq<FrameView>)
    requires
        forall|i: int| 0 <= i < fs.len() ==> frame_wf(#[trigger] fs[i]),
    ensures
        spec_decode(frames_bytes(fs)) == (fs, Seq::<u8>::empty(), true),
    decreases fs.len(),
{
    if fs.len() == 0 {
        assert(frames_bytes(fs) =~= Seq::<u8>::empty());
        assert(spec_decode(frames_bytes(fs)).0 =~= fs);
    } else {
        assert(frame_wf(fs[0]));
        assert(forall|i: int| 0 <= i < fs.drop_first().len() ==> frame_wf(
            #[trigger] fs.drop_first()[i],
        )) by {
            assert(forall|i: int|
                0 <= i < fs.drop_first().len() ==> #[trigger] fs.drop_first()[i] == fs[i + 1]);
        }
        lemma_decode_stream(fs.drop_first());
        lemma_decode_frame_front(fs[0].number, fs[0].payload, frames_bytes(fs.drop_first()));
        assert(seq![FrameView { number: fs[0].number, payload: fs[0].payload }] + fs.drop_first()
            =~= fs);
        assert(FrameView { number: fs[0].number, payload: fs[0].payload } == fs[0]);
    }
}


/// A stream the decoder accepts leaves behind at most an incomplete
/// frame: fewer than HEADER_SIZE bytes, or a parsed header still waiting
/// for a payload of at most MAX_PAYLOAD bytes. Either way the remainder
/// is below MAX_PACKET_SIZE, so the inbound buffer always has room for
/// the next read.
pub proof fn lemma_decode_rest_bound(b: Seq<u8>)
    requires
        spec_decode(b).2,
    ensures
        spec_decode(b).1.len() < MAX_PACKET_SIZE as nat,
    decreases b.len(),
{
    if b.len() < HEADER_SIZE as nat {
    } else {
        match spec_parse_header(b) {
            None => {},
            Some((num, len)) => {
                if b.len() < HEADER_SIZE as nat + len {
                } else {
                    lemma_decode_rest_bound(b.skip(16 + len as int));
                }
            },
        }
    }
}

/// Once a stream has failed on a bad header, feeding more bytes changes
/// nothing: the same frames came out before the failure, and the bad
/// header still sits at the front of the (now longer) tail.
pub proof fn lemma_decode_append_failed(a: Seq<u8>, b: Seq<u8>)
    requires
        !spec_decode(a).2,
    ensures
        spec_decode(a + b) == (spec_decode(a).0, spec_decode(a).1 + b, false),
    decreases a.len(),
{
    let whole = spec_decode(a + b);
    assert(a.len() >= HEADER_SIZE as nat);
    assert((a + b).subrange(0, 8) =~= a.subrange(0, 8));
    assert((a + b).subrange(8, 11) =~= a.subrange(8, 11));
    assert((a + b).subrange(11, 16) =~= a.subrange(11, 16));
    match spec_parse_header(a) {
        None => {
            assert(spec_parse_header(a + b) is None);
            assert(whole.0 =~= spec_decode(a).0);
        },
        Some((num, len)) => {
            assert(spec_parse_header(a + b) == Some((num, len)));
            assert(a.len() >= HEADER_SIZE as nat + len);
            assert((a + b).subrange(16, 16 + len as int) =~= a.subrange(16, 16 + len as int));
            assert((a + b).skip(16 + len as int) =~= a.skip(16 + len as int) + b);
            lemma_decode_append_failed(a.skip(16 + len as int), b);
            let f = FrameView { number: num, payload: a.subrange(16, 16 + len as int) };
            let ra = spec_decode(a.skip(16 + len as int));
            assert(spec_decode(a).0 == seq![f] + ra.0);
            assert(whole.0 =~= spec_decode(a).0);
        },
    }
}

/// The bytes of a chunk list, in order.
pub open spec fn chunks_bytes(chunks: Seq<Seq<u8>>) -> Seq<u8>
    decreases chunks.len(),
{
    if chunks.len() == 0 {
        Seq::empty()
    } else {
        chunks[0] + chunks_bytes(chunks.drop_first())
    }
}

/// Decoding chunk by chunk: each chunk is appended to the carried-over
/// tail and decoded; the frames accumulate and the new tail is carried to
/// the next chunk. Decoding stops at the first bad header.
pub open spec fn spec_decode_chunked(carry: Seq<u8>, chunks: Seq<Seq<u8>>) -> (
    Seq<FrameView>,
    Seq<u8>,
    bool,
)
    decreases chunks.len(),
{
    if chunks.len() == 0 {
        (Seq::empty(), carry, true)
    } else {
        let d = spec_decode(carry + chunks[0]);
        if !d.2 {
            (d.0, d.1, false)
        } else {
            let r = spec_decode_chunked(d.1, chunks.drop_first());
            (d.0 + r.0, r.1, r.2)
        }
    }
}

/// Streaming independence in full: however a stream is cut into chunks,
/// feeding them to the decoder one by one emits exactly the frames of the
/// whole stream, with the same verdict; on a clean stream the leftover
/// tail is the same too. (On a failed stream the chunked run stops
/// feeding, so only the whole-stream tail holds the unread bytes.)
pub proof fn lemma_decode_chunked(carry: Seq<u8>, chunks: Seq<Seq<u8>>)
    requires
        spec_decode(carry) == (Seq::<FrameView>::empty(), carry, true),
    ensures
        spec_decode_chunked(carry, chunks).0 == spec_decode(carry + chunks_bytes(chunks)).0,
        spec_decode_chunked(carry, chunks).2 == spec_decode(carry + chunks_bytes(chunks)).2,
        spec_decode_chunked(carry, chunks).2 ==> spec_decode_chunked(carry, chunks).1
            == spec_decode(carry + chunks_bytes(chunks)).1,
    decreases chunks.len(),
{
    if chunks.len() == 0 {
        assert(carry + chunks_bytes(chunks) =~= carry);
    } else {
        let d = spec_decode(carry + chunks[0]);
        assert(carry + chunks_bytes(chunks) =~= (carry + chunks[0]) + chunks_bytes(
            chunks.drop_first(),
        ));
        if !d.2 {
            lemma_decode_append_failed(carry + chunks[0], chunks_bytes(chunks.drop_first()));
        } else {
            lemma_decode_rest_is_fixpoint(carry + chunks[0]);
            lemma_decode_chunked(d.1, chunks.drop_first());
            lemma_decode_append(carry + chunks[0], chunks_bytes(chunks.drop_first()));
        }
    }
}

/// The tail the decoder keeps is a fixpoint: decoding it again yields no
/// frames and the same tail.
pub proof fn lemma_decode_rest_is_fixpoint(b: Seq<u8>)
    requires
        spec_decode(b).2,
    ensures
        spec_decode(spec_decode(b).1) == (Seq::<FrameView>::empty(), spec_decode(b).1, true),
    decreases b.len(),
{
    if b.len() < HEADER_SIZE as nat {
    } else {
        match spec_parse_header(b) {
            None => {},
            Some((num, len)) => {
                if b.len() < HEADER_SIZE as nat + len {
                } else {
                    lemma_decode_rest_is_fixpoint(b.skip(16 + len as int));
                }
            },
        }
    }
}


} // verus!
