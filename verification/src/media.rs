//! Media that the inference server takes and returns: Base64 payloads, data
//! URLs, and the files generated media are written to.
use vstd::prelude::*;

use base64::Engine;

use crate::text::{chars_of, concat, decimal, decimal_string, owned, string_from_chars};

verus! {

/// The character of the standard Base64 alphabet for the 6-bit value `v`.
pub open spec fn b64_char(v: int) -> char {
    if v < 26 {
        (65 + v) as char
    } else if v < 52 {
        (97 + v - 26) as char
    } else if v < 62 {
        (48 + v - 52) as char
    } else if v == 62 {
        '+'
    } else {
        '/'
    }
}

/// Standard Base64 with `=` padding (RFC 4648, section 4).
pub open spec fn base64_encode(b: Seq<u8>) -> Seq<char>
    decreases b.len(),
{
    if b.len() == 0 {
        Seq::<char>::empty()
    } else if b.len() == 1 {
        seq![b64_char(b[0] as int / 4), b64_char((b[0] % 4) * 16), '=', '=']
    } else if b.len() == 2 {
        seq![
            b64_char(b[0] as int / 4),
            b64_char((b[0] % 4) * 16 + b[1] / 16),
            b64_char((b[1] % 16) * 4),
            '=',
        ]
    } else {
        seq![
            b64_char(b[0] as int / 4),
            b64_char((b[0] % 4) * 16 + b[1] / 16),
            b64_char((b[1] % 16) * 4 + b[2] / 64),
            b64_char(b[2] as int % 64),
        ] + base64_encode(b.skip(3))
    }
}

/// Why Base64 text could not be decoded.
#[derive(Debug, Clone, Copy, PartialEq, Eq, Structural)]
pub enum Base64Error {
    /// A byte that is not in the alphabet, at an offset.
    InvalidByte(usize, u8),
    /// The input length cannot be that of an encoding.
    InvalidLength(usize),
    /// The last symbol has bits set that an encoding leaves clear.
    InvalidLastSymbol(usize, u8),
    /// The padding is missing or misplaced.
    InvalidPadding,
}

/// Which error the standard engine reports for text that is no encoding.
pub uninterp spec fn base64_failure(s: Seq<char>) -> Base64Error;

/// `base64::engine::general_purpose::STANDARD.encode`: the standard alphabet
/// with padding.
#[verifier::external_body]
fn standard_encode(bytes: &[u8]) -> (r: String)
    requires
        (bytes@.len() / 3) * 4 + 4 <= usize::MAX,
    ensures
        r@ == base64_encode(bytes@),
{
    base64::engine::general_purpose::STANDARD.encode(bytes)
}

/// `base64::engine::general_purpose::STANDARD.decode`, which requires
/// canonical padding and clear trailing bits: it decodes exactly the
/// encodings that `standard_encode` produces, and reports an error for any
/// other text.
#[verifier::external_body]
fn standard_decode(s: &str) -> (r: Result<Vec<u8>, Base64Error>)
    ensures
        match r {
            Ok(b) => base64_encode(b@) == s@,
            Err(e) => (forall|b: Seq<u8>| base64_encode(b) != s@) && e == base64_failure(s@),
        },
{
    match base64::engine::general_purpose::STANDARD.decode(s) {
        Ok(bytes) => Ok(bytes),
        Err(base64::DecodeError::InvalidByte(i, b)) => Err(Base64Error::InvalidByte(i, b)),
        Err(base64::DecodeError::InvalidLength(n)) => Err(Base64Error::InvalidLength(n)),
        Err(base64::DecodeError::InvalidLastSymbol(i, b)) => Err(
            Base64Error::InvalidLastSymbol(i, b),
        ),
        Err(base64::DecodeError::InvalidPadding) => Err(Base64Error::InvalidPadding),
    }
}

/// `bytes` in standard Base64 with padding.
pub fn encode_base64(bytes: &[u8]) -> (r: String)
    requires
        (bytes@.len() / 3) * 4 + 4 <= usize::MAX,
    ensures
        r@ == base64_encode(bytes@),
{
    standard_encode(bytes)
}

/// How a decoding error is described.
pub open spec fn base64_error_text(e: Base64Error) -> Seq<char> {
    match e {
        Base64Error::InvalidByte(i, b) => "Invalid symbol "@ + decimal(b as nat) + ", offset "@
            + decimal(i as nat) + "."@,
        Base64Error::InvalidLength(n) => "Invalid input length: "@ + decimal(n as nat),
        Base64Error::InvalidLastSymbol(i, b) => "Invalid last symbol "@ + decimal(b as nat)
            + ", offset "@ + decimal(i as nat) + "."@,
        Base64Error::InvalidPadding => "Invalid padding"@,
    }
}

/// The description of a decoding error.
pub fn base64_error_message(e: Base64Error) -> (r: String)
    ensures
        r@ == base64_error_text(e),
{
    match e {
        Base64Error::InvalidByte(i, b) => {
            let a = concat("Invalid symbol ", decimal_string(b as u64).as_str());
            let c = concat(a.as_str(), ", offset ");
            let d = concat(c.as_str(), decimal_string(i as u64).as_str());
            concat(d.as_str(), ".")
        },
        Base64Error::InvalidLength(n) => concat(
            "Invalid input length: ",
            decimal_string(n as u64).as_str(),
        ),
        Base64Error::InvalidLastSymbol(i, b) => {
            let a = concat("Invalid last symbol ", decimal_string(b as u64).as_str());
            let c = concat(a.as_str(), ", offset ");
            let d = concat(c.as_str(), decimal_string(i as u64).as_str());
            concat(d.as_str(), ".")
        },
        Base64Error::InvalidPadding => owned("Invalid padding"),
    }
}

/// The bytes of generated media from the Base64 text the server returned,
/// or the description of why that text is no Base64 encoding.
pub fn decode_media(b64: &str) -> (r: Result<Vec<u8>, String>)
    ensures
        match r {
            Ok(b) => base64_encode(b@) == b64@,
            Err(e) => (forall|b: Seq<u8>| base64_encode(b) != b64@) && e@ == base64_error_text(
                base64_failure(b64@),
            ),
        },
{
    match standard_decode(b64) {
        Ok(bytes) => Ok(bytes),
        Err(e) => Err(base64_error_message(e)),
    }
}

/// The data URL under which an image, given in Base64, is sent to a vision model.
pub fn image_data_url(b64: &str) -> (r: String)
    ensures
        r@ == "data:image/jpeg;base64,"@ + b64@,
{
    concat("data:image/jpeg;base64,", b64)
}

// ───────────────────────────── round trip ─────────────────────────────
/// The code of the Base64 character for a 6-bit value.
proof fn lemma_b64_char_code(v: int)
    requires
        0 <= v < 64,
    ensures
        b64_char(v) as u32 == (if v < 26 {
            65 + v
        } else if v < 52 {
            97 + v - 26
        } else if v < 62 {
            48 + v - 52
        } else if v == 62 {
            43
        } else {
            47
        }),
{
}

/// Distinct 6-bit values have distinct characters, none of them `=`.
proof fn lemma_b64_char_injective(x: int, y: int)
    requires
        0 <= x < 64,
        0 <= y < 64,
    ensures
        b64_char(x) == b64_char(y) ==> x == y,
        b64_char(x) != '=',
{
    lemma_b64_char_code(x);
    lemma_b64_char_code(y);
}

/// Three bytes are determined by the four 6-bit values they encode to.
proof fn lemma_triple_determined(a0: u8, a1: u8, a2: u8, b0: u8, b1: u8, b2: u8)
    requires
        a0 / 4 == b0 / 4,
        (a0 % 4) * 16 + a1 / 16 == (b0 % 4) * 16 + b1 / 16,
        (a1 % 16) * 4 + a2 / 64 == (b1 % 16) * 4 + b2 / 64,
        a2 % 64 == b2 % 64,
    ensures
        a0 == b0,
        a1 == b1,
        a2 == b2,
{
    assert(a0 == b0 && a1 == b1 && a2 == b2) by (bit_vector)
        requires
            a0 / 4 == b0 / 4,
            (a0 % 4) * 16 + a1 / 16 == (b0 % 4) * 16 + b1 / 16,
            (a1 % 16) * 4 + a2 / 64 == (b1 % 16) * 4 + b2 / 64,
            a2 % 64 == b2 % 64,
    ;
}

/// The six-bit values of a byte group are in range.
proof fn lemma_group_values(b0: u8, b1: u8, b2: u8)
    ensures
        0 <= b0 as int / 4 < 64,
        0 <= (b0 % 4) * 16 + b1 / 16 < 64,
        0 <= (b1 % 16) * 4 + b2 / 64 < 64,
        0 <= b2 as int % 64 < 64,
        0 <= (b0 % 4) * 16 < 64,
        0 <= (b1 % 16) * 4 < 64,
{
}

/// An encoding is empty only for no bytes, and has at least four
/// characters otherwise.
proof fn lemma_encode_len(b: Seq<u8>)
    ensures
        b.len() == 0 ==> base64_encode(b).len() == 0,
        b.len() > 0 ==> base64_encode(b).len() >= 4,
{
}

/// Standard Base64 encoding is one to one: decoding what `encode_base64`
/// produced gives back exactly the bytes that were encoded.
pub proof fn lemma_base64_round_trip(bytes: Seq<u8>, decoded: Seq<u8>)
    requires
        base64_encode(decoded) == base64_encode(bytes),
    ensures
        decoded == bytes,
    decreases bytes.len(),
{
    let a = bytes;
    let b = decoded;
    let e = base64_encode(a);
    lemma_encode_len(a);
    lemma_encode_len(b);
    if a.len() == 0 || b.len() == 0 {
        return;
    }
    lemma_group_values(a[0], if a.len() > 1 { a[1] } else { 0 }, if a.len() > 2 { a[2] } else { 0 });
    lemma_group_values(b[0], if b.len() > 1 { b[1] } else { 0 }, if b.len() > 2 { b[2] } else { 0 });
    // the fourth character tells one byte, two bytes, or a full group apart
    let a3 = if a.len() == 1 { 1int } else if a.len() == 2 { 2int } else { 3int };
    let b3 = if b.len() == 1 { 1int } else if b.len() == 2 { 2int } else { 3int };
    if a.len() >= 3 {
        lemma_b64_char_injective(a[2] as int % 64, 0);
        lemma_b64_char_injective((a[1] % 16) * 4 + a[2] / 64, 0);
    }
    if b.len() >= 3 {
        lemma_b64_char_injective(b[2] as int % 64, 0);
        lemma_b64_char_injective((b[1] % 16) * 4 + b[2] / 64, 0);
    }
    if a.len() == 2 {
        lemma_b64_char_injective((a[1] % 16) * 4, 0);
    }
    if b.len() == 2 {
        lemma_b64_char_injective((b[1] % 16) * 4, 0);
    }
    assert(a3 == b3);
    lemma_b64_char_injective(a[0] as int / 4, b[0] as int / 4);
    if a.len() == 1 {
        lemma_b64_char_injective((a[0] % 4) * 16, (b[0] % 4) * 16);
        lemma_triple_determined(a[0], 0, 0, b[0], 0, 0);
        assert(a =~= b);
    } else if a.len() == 2 {
        lemma_b64_char_injective((a[0] % 4) * 16 + a[1] / 16, (b[0] % 4) * 16 + b[1] / 16);
        lemma_b64_char_injective((a[1] % 16) * 4, (b[1] % 16) * 4);
        lemma_triple_determined(a[0], a[1], 0, b[0], b[1], 0);
        assert(a =~= b);
    } else {
        let qa = seq![
            b64_char(a[0] as int / 4),
            b64_char((a[0] % 4) * 16 + a[1] / 16),
            b64_char((a[1] % 16) * 4 + a[2] / 64),
            b64_char(a[2] as int % 64),
        ];
        let qb = seq![
            b64_char(b[0] as int / 4),
            b64_char((b[0] % 4) * 16 + b[1] / 16),
            b64_char((b[1] % 16) * 4 + b[2] / 64),
            b64_char(b[2] as int % 64),
        ];
        assert(e == qa + base64_encode(a.skip(3)));
        assert(e == qb + base64_encode(b.skip(3)));
        assert(e[0] == qa[0] && e[0] == qb[0]);
        assert(e[1] == qa[1] && e[1] == qb[1]);
        assert(e[2] == qa[2] && e[2] == qb[2]);
        assert(e[3] == qa[3] && e[3] == qb[3]);
        lemma_b64_char_injective((a[0] % 4) * 16 + a[1] / 16, (b[0] % 4) * 16 + b[1] / 16);
        lemma_b64_char_injective((a[1] % 16) * 4 + a[2] / 64, (b[1] % 16) * 4 + b[2] / 64);
        lemma_b64_char_injective(a[2] as int % 64, b[2] as int % 64);
        lemma_triple_determined(a[0], a[1], a[2], b[0], b[1], b[2]);
        assert(base64_encode(a.skip(3)) =~= e.skip(4));
        assert(base64_encode(b.skip(3)) =~= base64_encode(b).skip(4));
        lemma_base64_round_trip(a.skip(3), b.skip(3));
        assert(a =~= a.take(3) + a.skip(3));
        assert(b =~= b.take(3) + b.skip(3));
        assert(a.take(3) =~= b.take(3));
    }
}

// ───────────────────────────── WAV files ─────────────────────────────
/// The little-endian 32-bit number in bytes `i..i + 4` of `b`.
pub open spec fn le_u32(b: Seq<u8>, i: int) -> int {
    b[i] + 256 * b[i + 1] + 65536 * b[i + 2] + 16777216 * b[i + 3]
}

/// What a duration is computed from: the number of bytes after the 44-byte
/// header and the byte rate stored at offset 28; `None` for a file shorter
/// than the header or with a byte rate of zero.
pub open spec fn wav_timing_spec(data: Seq<u8>) -> Option<(int, int)> {
    if data.len() < 44 || le_u32(data, 28) == 0 {
        None
    } else {
        Some((data.len() - 44, le_u32(data, 28)))
    }
}

/// The audio bytes and byte rate of a WAV file's contents; the duration in
/// seconds is their quotient.
pub fn wav_timing(data: &[u8]) -> (r: Option<(usize, u32)>)
    ensures
        match r {
            Some((n, rate)) => wav_timing_spec(data@) == Some((n as int, rate as int)),
            None => wav_timing_spec(data@) is None,
        },
{
    if data.len() < 44 {
        return None;
    }
    let rate: u32 = data[28] as u32 + 256 * (data[29] as u32) + 65536 * (data[30] as u32)
        + 16777216 * (data[31] as u32);
    if rate == 0 {
        return None;
    }
    Some((data.len() - 44, rate))
}

// ───────────────────────────── output files ─────────────────────────────
/// A model id as it appears in a file name: `/` becomes `-`, space becomes `_`.
pub open spec fn media_slug(model: Seq<char>) -> Seq<char> {
    model.map_values(
        |c: char|
            if c == '/' {
                '-'
            } else if c == ' ' {
                '_'
            } else {
                c
            },
    )
}

/// A slug holds neither `/` nor a space, so the generated files stay
/// directly in `/tmp`.
pub proof fn lemma_slug_has_no_separator(model: Seq<char>)
    ensures
        media_slug(model).len() == model.len(),
        forall|i: int| 0 <= i < model.len() ==> #[trigger] media_slug(model)[i] != '/' && media_slug(model)[i] != ' ',
{
}

/// The slug of `model`.
pub fn media_slug_of(model: &str) -> (r: String)
    ensures
        r@ == media_slug(model@),
{
    let v = chars_of(model);
    let mut out: Vec<char> = Vec::new();
    for i in 0..v.len()
        invariant
            out@ == media_slug(v@.take(i as int)),
    {
        let c = if v[i] == '/' {
            '-'
        } else if v[i] == ' ' {
            '_'
        } else {
            v[i]
        };
        out.push(c);
        assert(media_slug(v@.take(i + 1)) =~= media_slug(v@.take(i as int)).push(c));
    }
    assert(v@.take(v@.len() as int) =~= v@);
    string_from_chars(&out)
}

/// Where an image generated by `model` is written.
pub fn generated_image_path(model: &str) -> (r: String)
    ensures
        r@ == "/tmp/ominix-chat-"@ + media_slug(model@) + ".png"@,
{
    let slug = media_slug_of(model);
    let a = concat("/tmp/ominix-chat-", slug.as_str());
    concat(a.as_str(), ".png")
}

/// Where a video generated by `model` is written.
pub fn generated_video_path(model: &str) -> (r: String)
    ensures
        r@ == "/tmp/ominix-chat-video-"@ + media_slug(model@) + ".mp4"@,
{
    let slug = media_slug_of(model);
    let a = concat("/tmp/ominix-chat-video-", slug.as_str());
    concat(a.as_str(), ".mp4")
}

/// Where audio is converted to WAV for transcription by the process `pid`.
pub fn asr_wav_path(pid: u32) -> (r: String)
    ensures
        r@ == "/tmp/ominix_asr_"@ + decimal(pid as nat) + ".wav"@,
{
    let n = decimal_string(pid as u64);
    let a = concat("/tmp/ominix_asr_", n.as_str());
    concat(a.as_str(), ".wav")
}

} // verus!
