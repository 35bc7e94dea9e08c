//! Session descriptions as they travel in QR codes: framing, compression and the
//! decisions of the connection set-up.

use vstd::prelude::*;
use vstd::utf8::{decode_utf8, encode_scalar, encode_utf8, has_width_1_encoding, has_width_2_encoding, has_width_3_encoding, valid_utf8};
use crate::text::{chars_of, str_eq, trim_chars, trimmed};

verus! {

/// What `miniz_oxide::deflate::compress_to_vec_zlib` makes of `data` at compression `level`.
pub uninterp spec fn zlib_deflate(data: Seq<u8>, level: u8) -> Seq<u8>;

/// What `miniz_oxide::inflate::decompress_to_vec_zlib` makes of `data`: the bytes it
/// decompresses to, or none when `data` is not a complete zlib stream.
pub uninterp spec fn zlib_inflate(data: Seq<u8>) -> Option<Seq<u8>>;

/// Compresses `data` into a zlib stream with `miniz_oxide::deflate::compress_to_vec_zlib`.
/// Trusted: the result is the function's output for these arguments, and decompressing it
/// gives `data` back (the compression is lossless).
#[verifier::external_body]
fn compress_zlib(data: &[u8], level: u8) -> (r: Vec<u8>)
    requires
        level <= 10,
    ensures
        r@ == zlib_deflate(data@, level),
        zlib_inflate(r@) == Some(data@),
{
    miniz_oxide::deflate::compress_to_vec_zlib(data, level)
}

/// Decompresses a zlib stream with `miniz_oxide::inflate::decompress_to_vec_zlib`; its
/// error becomes `None`. Trusted: the result is the function's output for `data`.
#[verifier::external_body]
fn decompress_zlib(data: &[u8]) -> (r: Option<Vec<u8>>)
    ensures
        match r {
            Some(v) => zlib_inflate(data@) == Some(v@),
            None => zlib_inflate(data@) is None,
        },
{
    match miniz_oxide::inflate::decompress_to_vec_zlib(data) {
        Ok(v) => Some(v),
        Err(_) => None,
    }
}

/// Reads bytes as UTF-8 text with `std::str::from_utf8`; its error becomes `None`.
/// Trusted: text comes back exactly when the bytes are valid UTF-8, and it is what they encode.
#[verifier::external_body]
fn utf8_text(bytes: &[u8]) -> (r: Option<&str>)
    ensures
        r is Some <==> valid_utf8(bytes@),
        r matches Some(s) ==> s@ == decode_utf8(bytes@),
{
    match std::str::from_utf8(bytes) {
        Ok(s) => Some(s),
        Err(_) => None,
    }
}

/// The four bytes `SNK1` that start a compressed session description.
pub open spec fn signal_prefix() -> Seq<u8> {
    seq![0x53u8, 0x4Eu8, 0x4Bu8, 0x31u8]
}

/// The compression level of session descriptions.
pub const SIGNAL_LEVEL: u8 = 9;

/// A session description's JSON as it goes into a QR code: `SNK1` and the JSON compressed.
pub open spec fn spec_frame_signal(json: Seq<u8>) -> Seq<u8> {
    signal_prefix() + zlib_deflate(json, SIGNAL_LEVEL)
}

/// Puts `SNK1` in front of a compressed description.
pub fn frame_compressed(compressed: &[u8]) -> (payload: Vec<u8>)
    ensures
        payload@ == signal_prefix() + compressed@,
{
    let mut payload: Vec<u8> = Vec::with_capacity(4 + compressed.len() / 2);
    payload.push(0x53);
    payload.push(0x4E);
    payload.push(0x4B);
    payload.push(0x31);
    let n = compressed.len();
    for i in 0..n
        invariant
            n == compressed@.len(),
            payload@ == signal_prefix() + compressed@.take(i as int),
    {
        payload.push(compressed[i]);
        assert(compressed@.take(i + 1) =~= compressed@.take(i as int).push(compressed@[i as int]));
    }
    assert(compressed@.take(n as int) =~= compressed@);
    payload
}

/// Frames a session description's JSON for a QR code. What it gives unpacks to the same JSON.
pub fn frame_signal(json: &[u8]) -> (payload: Vec<u8>)
    ensures
        payload@ == spec_frame_signal(json@),
        spec_open_signal(payload@) == Ok::<SignalContent, SignalError>(SignalContent::Json(json@)),
{
    let compressed = compress_zlib(json, SIGNAL_LEVEL);
    let payload = frame_compressed(compressed.as_slice());
    assert(payload@.take(4) =~= signal_prefix());
    assert(payload@.skip(4) =~= compressed@);
    payload
}

/// What a scanned payload holds once unpacked.
pub enum SignalBody {
    /// The JSON of a compressed description.
    Json(Vec<u8>),
    /// Plain text, without surrounding white space: JSON, or JSON escaped as a URI component.
    Text(String),
}

/// Why a scanned payload could not be unpacked.
#[derive(Clone, Copy, PartialEq, Eq, Structural, Debug)]
pub enum SignalError {
    /// It starts with `SNK1` but what follows is not a zlib stream.
    BadCompression,
    /// It is not UTF-8 text.
    NotUtf8,
    /// It is text with nothing but white space.
    Empty,
}

/// What a scanned payload unpacks to, with the bytes of `Json` or the characters of `Text`.
pub enum SignalContent {
    Json(Seq<u8>),
    Text(Seq<char>),
}

/// How a scanned payload unpacks: after `SNK1` comes compressed JSON; otherwise it must
/// be UTF-8 text, of which the part without surrounding white space is kept.
pub open spec fn spec_open_signal(payload: Seq<u8>) -> Result<SignalContent, SignalError> {
    if payload.len() >= 4 && payload.take(4) == signal_prefix() {
        match zlib_inflate(payload.skip(4)) {
            Some(json) => Ok(SignalContent::Json(json)),
            None => Err(SignalError::BadCompression),
        }
    } else if !valid_utf8(payload) {
        Err(SignalError::NotUtf8)
    } else if trimmed(decode_utf8(payload)).len() == 0 {
        Err(SignalError::Empty)
    } else {
        Ok(SignalContent::Text(trimmed(decode_utf8(payload))))
    }
}

/// The mathematical content of an unpacked payload.
pub open spec fn body_content(b: SignalBody) -> SignalContent {
    match b {
        SignalBody::Json(v) => SignalContent::Json(v@),
        SignalBody::Text(s) => SignalContent::Text(s@),
    }
}

/// Unpacks a scanned payload into the JSON or text of a session description.
pub fn open_signal(payload: &[u8]) -> (r: Result<SignalBody, SignalError>)
    ensures
        match r {
            Ok(b) => spec_open_signal(payload@) == Ok::<SignalContent, SignalError>(body_content(b)),
            Err(e) => spec_open_signal(payload@) == Err::<SignalContent, SignalError>(e),
        },
{
    let n = payload.len();
    if n >= 4 && payload[0] == 0x53 && payload[1] == 0x4E && payload[2] == 0x4B && payload[3] == 0x31 {
        assert(payload@.take(4) =~= signal_prefix());
        let mut rest: Vec<u8> = Vec::new();
        for i in 4..n
            invariant
                n == payload@.len(),
                rest@ == payload@.subrange(4, i as int),
        {
            rest.push(payload[i]);
            assert(payload@.subrange(4, i + 1) =~= payload@.subrange(4, i as int).push(payload@[i as int]));
        }
        assert(rest@ =~= payload@.skip(4));
        return match decompress_zlib(rest.as_slice()) {
            Some(json) => Ok(SignalBody::Json(json)),
            None => Err(SignalError::BadCompression),
        };
    }
    proof {
        if n >= 4 && payload@.take(4) == signal_prefix() {
            assert(payload@[0] == payload@.take(4)[0]);
            assert(payload@[1] == payload@.take(4)[1]);
            assert(payload@[2] == payload@.take(4)[2]);
            assert(payload@[3] == payload@.take(4)[3]);
        }
    }
    match utf8_text(payload) {
        None => Err(SignalError::NotUtf8),
        Some(text) => {
            let t = trim_chars(text);
            if t.len() == 0 {
                Err(SignalError::Empty)
            } else {
                Ok(SignalBody::Text(crate::text::string_of(t.as_slice())))
            }
        },
    }
}


/// The kind of a session description.
#[derive(Clone, Copy, PartialEq, Eq, Structural, Debug)]
pub enum SdpKind {
    Offer,
    Answer,
    Pranswer,
    Rollback,
    Unknown,
}

/// The name under which a kind travels in a signal.
pub open spec fn spec_sdp_kind_name(kind: SdpKind) -> Seq<char> {
    match kind {
        SdpKind::Offer => "offer"@,
        SdpKind::Answer => "answer"@,
        SdpKind::Pranswer => "pranswer"@,
        SdpKind::Rollback => "rollback"@,
        SdpKind::Unknown => "unknown"@,
    }
}

/// The name under which a kind travels in a signal.
pub fn sdp_kind_name(kind: SdpKind) -> (name: String)
    ensures
        name@ == spec_sdp_kind_name(kind),
{
    let s = match kind {
        SdpKind::Offer => "offer",
        SdpKind::Answer => "answer",
        SdpKind::Pranswer => "pranswer",
        SdpKind::Rollback => "rollback",
        SdpKind::Unknown => "unknown",
    };
    String::from_str(s)
}

/// The kind a received signal names: only offers and answers are taken.
pub open spec fn spec_parse_sdp_kind(name: Seq<char>) -> Option<SdpKind> {
    if name == "offer"@ {
        Some(SdpKind::Offer)
    } else if name == "answer"@ {
        Some(SdpKind::Answer)
    } else {
        None
    }
}

/// The kind a received signal names; `None` for anything but an offer or an answer.
pub fn parse_sdp_kind(name: &str) -> (kind: Option<SdpKind>)
    ensures
        kind == spec_parse_sdp_kind(name@),
{
    if str_eq(name, "offer") {
        Some(SdpKind::Offer)
    } else if str_eq(name, "answer") {
        Some(SdpKind::Answer)
    } else {
        None
    }
}

/// Reading back the name of a kind gives the kind for offers and answers, and nothing
/// for the other kinds.
pub proof fn lemma_sdp_kind_round_trip(kind: SdpKind)
    ensures
        spec_parse_sdp_kind(spec_sdp_kind_name(kind)) == if kind == SdpKind::Offer || kind
            == SdpKind::Answer {
            Some(kind)
        } else {
            None
        },
{
    reveal_strlit("offer");
    reveal_strlit("answer");
    reveal_strlit("pranswer");
    reveal_strlit("rollback");
    reveal_strlit("unknown");
    if kind == SdpKind::Answer {
        assert("answer"@ != "offer"@) by {
            assert("answer"@[0] != "offer"@[0]);
        }
    }
    if kind == SdpKind::Pranswer {
        assert("pranswer"@ != "offer"@) by {
            assert("pranswer"@.len() != "offer"@.len());
        }
        assert("pranswer"@ != "answer"@) by {
            assert("pranswer"@.len() != "answer"@.len());
        }
    }
    if kind == SdpKind::Rollback {
        assert("rollback"@ != "offer"@) by {
            assert("rollback"@.len() != "offer"@.len());
        }
        assert("rollback"@ != "answer"@) by {
            assert("rollback"@.len() != "answer"@.len());
        }
    }
    if kind == SdpKind::Unknown {
        assert("unknown"@ != "offer"@) by {
            assert("unknown"@.len() != "offer"@.len());
        }
        assert("unknown"@ != "answer"@) by {
            assert("unknown"@.len() != "answer"@.len());
        }
    }
}

/// Whether `needle` occurs in `s` as a run of consecutive characters.
pub open spec fn contains_run(s: Seq<char>, needle: Seq<char>) -> bool {
    exists|i: int| 0 <= i <= s.len() - needle.len() && #[trigger] s.subrange(i, i + needle.len()) == needle
}

/// The marker of a network candidate in a session description.
pub open spec fn candidate_marker() -> Seq<char> {
    "a=candidate"@
}

/// Whether a session description already lists a network candidate.
pub fn sdp_has_candidate(sdp: &str) -> (r: bool)
    ensures
        r == contains_run(sdp@, candidate_marker()),
{
    let s = chars_of(sdp);
    let m = chars_of("a=candidate");
    let n = s.len();
    let k = m.len();
    if k > n {
        return false;
    }
    let mut i: usize = 0;
    while i <= n - k
        invariant
            i <= n - k + 1,
            s@ == sdp@,
            m@ == candidate_marker(),
            n == s@.len(),
            k == m@.len(),
            k <= n,
            forall|q: int| 0 <= q < i ==> #[trigger] s@.subrange(q, q + k) != m@,
        decreases n - k + 1 - i,
    {
        let mut j: usize = 0;
        while j < k && s[i + j] == m[j]
            invariant
                n == s@.len(),
                k == m@.len(),
                i + k <= n,
                j <= k,
                forall|p: int| 0 <= p < j ==> s@[i + p] == m@[p],
            decreases k - j,
        {
            j = j + 1;
        }
        if j == k {
            assert(s@.subrange(i as int, i + k) =~= m@);
            return true;
        }
        assert(s@.subrange(i as int, i + k)[j as int] == s@[i + j]);
        i = i + 1;
    }
    false
}

/// How long to wait for a candidate once one is listed, in milliseconds.
pub const ICE_GRACE_MS: u64 = 750;

/// How long to wait for network candidates at most, in milliseconds.
pub const ICE_TIMEOUT_MS: u64 = 3000;

/// Whether to stop waiting for network candidates: gathering is complete, or a
/// candidate is listed and the grace time has passed, or the time is up.
pub fn ice_wait_over(complete: bool, has_candidate: bool, elapsed_ms: u64) -> (r: bool)
    ensures
        r == (complete || (has_candidate && elapsed_ms >= ICE_GRACE_MS) || elapsed_ms
            >= ICE_TIMEOUT_MS),
{
    if complete {
        return true;
    }
    if has_candidate && elapsed_ms >= ICE_GRACE_MS {
        return true;
    }
    elapsed_ms >= ICE_TIMEOUT_MS
}


/// The text a QR code carries for a payload: one character per byte, from U+0000 to U+00FF.
pub open spec fn spec_signal_text(payload: Seq<u8>) -> Seq<char> {
    Seq::new(payload.len(), |i: int| payload[i] as char)
}

/// Writes a payload as the text of a QR code, one character per byte.
pub fn signal_text(payload: &[u8]) -> (text: String)
    ensures
        text@ == spec_signal_text(payload@),
{
    let mut text = String::new();
    let n = payload.len();
    for i in 0..n
        invariant
            n == payload@.len(),
            text@ == spec_signal_text(payload@.take(i as int)),
    {
        crate::text::push_char(&mut text, payload[i] as char);
        assert(text@ =~= spec_signal_text(payload@.take(i + 1)));
    }
    assert(payload@.take(n as int) =~= payload@);
    text
}

/// Whether text starts with the characters `SNK1`.
pub open spec fn starts_with_frame_mark(text: Seq<char>) -> bool {
    &&& text.len() >= 4
    &&& text[0] == 'S'
    &&& text[1] == 'N'
    &&& text[2] == 'K'
    &&& text[3] == '1'
}

/// Whether scanned text carries a framed payload: it starts with `SNK1` and every
/// character lies below U+0100, so that each stands for one byte.
pub open spec fn carries_frame(text: Seq<char>) -> bool {
    &&& starts_with_frame_mark(text)
    &&& forall|i: int| 0 <= i < text.len() ==> (#[trigger] text[i] as u32) < 256
}

/// The bytes of scanned text: one byte per character when it carries a framed payload,
/// its UTF-8 encoding otherwise.
pub open spec fn spec_signal_bytes(text: Seq<char>) -> Seq<u8> {
    if carries_frame(text) {
        Seq::new(text.len(), |i: int| (text[i] as u32) as u8)
    } else {
        encode_utf8(text)
    }
}

/// Reads the bytes of a scanned text: a framed payload one byte per character, any
/// other text as UTF-8.
pub fn signal_bytes(text: &str) -> (bytes: Vec<u8>)
    ensures
        bytes@ == spec_signal_bytes(text@),
{
    let cs = chars_of(text);
    let n = cs.len();
    let mut narrow = n >= 4 && cs[0] == 'S' && cs[1] == 'N' && cs[2] == 'K' && cs[3] == '1';
    let mut i: usize = 0;
    while narrow && i < n
        invariant
            n == cs@.len(),
            cs@ == text@,
            i <= n,
            narrow ==> starts_with_frame_mark(text@),
            narrow ==> forall|j: int| 0 <= j < i ==> (#[trigger] cs@[j] as u32) < 256,
            !narrow ==> !carries_frame(text@),
        decreases n - i,
    {
        if (cs[i] as u32) >= 256 {
            narrow = false;
        }
        i = i + 1;
    }
    if narrow {
        let mut bytes: Vec<u8> = Vec::new();
        for k in 0..n
            invariant
                n == cs@.len(),
                cs@ == text@,
                carries_frame(text@),
                bytes@ =~= Seq::new(k as nat, |j: int| (text@[j] as u32) as u8),
        {
            bytes.push((cs[k] as u32) as u8);
        }
        bytes
    } else {
        vstd::slice::slice_to_vec(text.as_bytes())
    }
}

proof fn lemma_encode_first_byte(c: char)
    ensures
        encode_scalar(c as u32).len() >= 1,
        encode_scalar(c as u32)[0] < 0x80 ==> (c as u32) < 0x80 && encode_scalar(c as u32) == seq![
            (c as u32) as u8,
        ],
{
    let u = c as u32;
    if has_width_1_encoding(u) {
        assert((u & 0x7F) == u) by (bit_vector)
            requires
                u <= 0x7F,
        ;
    } else if has_width_2_encoding(u) {
        assert((0xC0u8 | ((u >> 6) & 0x1F) as u8) >= 0xC0) by (bit_vector);
    } else if has_width_3_encoding(u) {
        assert((0xE0u8 | ((u >> 12) & 0x0F) as u8) >= 0xC0) by (bit_vector);
    } else {
        assert((0xF0u8 | ((u >> 18) & 0x7) as u8) >= 0xC0) by (bit_vector);
    }
}

proof fn lemma_encode_ascii_head(t: Seq<char>)
    requires
        t.len() > 0 || encode_utf8(t).len() > 0,
        encode_utf8(t).len() > 0 && encode_utf8(t)[0] < 0x80,
    ensures
        t.len() > 0,
        t[0] as u32 == encode_utf8(t)[0] as u32,
        encode_utf8(t).drop_first() == encode_utf8(t.drop_first()),
{
    lemma_encode_first_byte(t[0]);
    assert(encode_utf8(t).drop_first() =~= encode_utf8(t.drop_first()));
}

/// A text whose UTF-8 encoding starts with the bytes `SNK1` starts with `SNK1`.
proof fn lemma_encoded_frame_mark(t: Seq<char>)
    requires
        encode_utf8(t).len() >= 4,
        encode_utf8(t).take(4) == signal_prefix(),
    ensures
        starts_with_frame_mark(t),
{
    let e = encode_utf8(t);
    assert(e[0] == signal_prefix()[0]);
    assert(e[1] == signal_prefix()[1]);
    assert(e[2] == signal_prefix()[2]);
    assert(e[3] == signal_prefix()[3]);
    lemma_encode_ascii_head(t);
    let t1 = t.drop_first();
    assert(encode_utf8(t1)[0] == e[1]);
    lemma_encode_ascii_head(t1);
    let t2 = t1.drop_first();
    assert(encode_utf8(t2)[0] == e[2]);
    lemma_encode_ascii_head(t2);
    let t3 = t2.drop_first();
    assert(encode_utf8(t3)[0] == e[3]);
    lemma_encode_ascii_head(t3);
    assert(t[1] == t1[0]);
    assert(t[2] == t2[0]);
    assert(t[3] == t3[0]);
    vstd::utf8::char_u32_cast(t[0], 0x53);
    vstd::utf8::char_u32_cast('S', 0x53);
    vstd::utf8::char_u32_cast(t[1], 0x4E);
    vstd::utf8::char_u32_cast('N', 0x4E);
    vstd::utf8::char_u32_cast(t[2], 0x4B);
    vstd::utf8::char_u32_cast('K', 0x4B);
    vstd::utf8::char_u32_cast(t[3], 0x31);
    vstd::utf8::char_u32_cast('1', 0x31);
}

/// Writing a framed payload as text and reading the text back gives the payload.
pub proof fn lemma_signal_text_round_trip(payload: Seq<u8>)
    requires
        payload.len() >= 4,
        payload.take(4) == signal_prefix(),
    ensures
        spec_signal_bytes(spec_signal_text(payload)) == payload,
{
    let t = spec_signal_text(payload);
    assert(payload[0] == payload.take(4)[0]);
    assert(payload[1] == payload.take(4)[1]);
    assert(payload[2] == payload.take(4)[2]);
    assert(payload[3] == payload.take(4)[3]);
    assert(carries_frame(t));
    assert(spec_signal_bytes(t) =~= payload);
}

/// Scanned text that does not start with `SNK1` unpacks to its own characters without
/// surrounding white space, and is refused as empty when nothing else is left.
pub proof fn lemma_plain_text_signal(text: Seq<char>)
    requires
        !starts_with_frame_mark(text),
    ensures
        spec_open_signal(spec_signal_bytes(text)) == if trimmed(text).len() == 0 {
            Err::<SignalContent, SignalError>(SignalError::Empty)
        } else {
            Ok::<SignalContent, SignalError>(SignalContent::Text(trimmed(text)))
        },
{
    let b = encode_utf8(text);
    assert(spec_signal_bytes(text) == b);
    vstd::utf8::encode_utf8_valid_utf8(text);
    vstd::utf8::encode_utf8_decode_utf8(text);
    if b.len() >= 4 && b.take(4) == signal_prefix() {
        lemma_encoded_frame_mark(text);
    }
}
} // verus!
