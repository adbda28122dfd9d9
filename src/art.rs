//! Turning cover art into a self-contained `data:` payload.
//!
//! An art reference is either already embedded (a `data:` URL), a local file
//! (a `file:` URL) or a remote URL. Fetched bytes are typed by sniffing their
//! content and re-encoded as `data:<media type>;base64,<base64 of the bytes>`.

use vstd::prelude::*;
use vstd::string::*;
use crate::text::{is_prefix_of, opt_view, starts_with};

verus! {

/// Why art could not be turned into a payload.
#[derive(Clone, Copy, Debug, PartialEq, Eq, Structural)]
pub enum FetchError {
    /// The local file could not be read.
    Unreadable,
    /// The remote resource could not be fetched.
    Unreachable,
    /// The source held no bytes.
    Empty,
}

/// Where the art is.
pub enum ArtReference {
    /// An embedded payload, used as it is.
    Embedded(String),
    /// A path on the local file system.
    LocalPath(String),
    /// A remote URL.
    Remote(String),
}

/// `s` with every leading repetition of `p` removed.
pub open spec fn strip_prefixes(p: Seq<char>, s: Seq<char>) -> Seq<char>
    decreases s.len(),
{
    if p.len() > 0 && is_prefix_of(p, s) {
        strip_prefixes(p, s.subrange(p.len() as int, s.len() as int))
    } else {
        s
    }
}

/// Tells apart the kinds of art reference: a `data:` URL is embedded, a
/// `file:` URL names the path after its `file://` prefixes, anything else is
/// remote.
pub fn classify_art_reference(url: &str) -> (r: ArtReference)
    ensures
        match r {
            ArtReference::Embedded(s) => is_prefix_of("data:"@, url@) && s@ == url@,
            ArtReference::LocalPath(p) => !is_prefix_of("data:"@, url@) && is_prefix_of(
                "file:"@,
                url@,
            ) && p@ == strip_prefixes("file://"@, url@),
            ArtReference::Remote(s) => !is_prefix_of("data:"@, url@) && !is_prefix_of(
                "file:"@,
                url@,
            ) && s@ == url@,
        },
{
    if starts_with(url, "data:") {
        return ArtReference::Embedded(String::from_str(url));
    }
    if !starts_with(url, "file:") {
        return ArtReference::Remote(String::from_str(url));
    }
    let n = url.unicode_len();
    let plen = "file://".unicode_len();
    let mut i: usize = 0;
    assert(url@.subrange(0, n as int) =~= url@);
    while i < n && plen > 0 && starts_with(url.substring_char(i, n), "file://")
        invariant
            i <= n == url@.len(),
            plen == "file://"@.len(),
            strip_prefixes("file://"@, url@) == strip_prefixes(
                "file://"@,
                url@.subrange(i as int, n as int),
            ),
        decreases n - i,
    {
        assert(url@.subrange(i as int, n as int).subrange(plen as int, (n - i) as int)
            =~= url@.subrange(i + plen, n as int));
        i += plen;
    }
    proof {
        if i == n {
            assert(url@.subrange(i as int, n as int).len() == 0);
        }
    }
    ArtReference::LocalPath(String::from_str(url.substring_char(i, n)))
}

/// The base64 digit of value `v` (below 64) in the standard alphabet.
pub open spec fn b64_digit(v: int) -> char {
    if v < 26 {
        (v + 65) as char
    } else if v < 52 {
        (v + 71) as char
    } else if v < 62 {
        (v - 4) as char
    } else if v == 62 {
        '+'
    } else {
        '/'
    }
}

/// The value of a base64 digit of the standard alphabet.
pub open spec fn b64_value(c: char) -> int {
    let n = c as int;
    if 65 <= n <= 90 {
        n - 65
    } else if 97 <= n <= 122 {
        n - 71
    } else if 48 <= n <= 57 {
        n + 4
    } else if c == '+' {
        62
    } else {
        63
    }
}

/// Base64 of `b` (RFC 4648): each three bytes become four digits of six bits,
/// and a final one or two bytes become four characters padded with `=`.
pub open spec fn base64_text(b: Seq<u8>) -> Seq<char>
    decreases b.len(),
{
    let x = b[0] as int;
    let y = b[1] as int;
    let z = b[2] as int;
    if b.len() == 0 {
        seq![]
    } else if b.len() == 1 {
        seq![b64_digit(x / 4), b64_digit((x % 4) * 16), '=', '=']
    } else if b.len() == 2 {
        seq![b64_digit(x / 4), b64_digit((x % 4) * 16 + y / 16), b64_digit((y % 16) * 4), '=']
    } else {
        seq![
            b64_digit(x / 4),
            b64_digit((x % 4) * 16 + y / 16),
            b64_digit((y % 16) * 4 + z / 64),
            b64_digit(z % 64),
        ] + base64_text(b.subrange(3, b.len() as int))
    }
}

/// The bytes that the base64 text `s` encodes, four characters at a time.
pub open spec fn base64_bytes(s: Seq<char>) -> Seq<u8>
    decreases s.len(),
{
    if s.len() < 4 {
        seq![]
    } else {
        let v0 = b64_value(s[0]);
        let v1 = b64_value(s[1]);
        let v2 = b64_value(s[2]);
        let v3 = b64_value(s[3]);
        if s[2] == '=' {
            seq![(v0 * 4 + v1 / 16) as u8]
        } else if s[3] == '=' {
            seq![(v0 * 4 + v1 / 16) as u8, ((v1 % 16) * 16 + v2 / 4) as u8]
        } else {
            seq![
                (v0 * 4 + v1 / 16) as u8,
                ((v1 % 16) * 16 + v2 / 4) as u8,
                ((v2 % 4) * 64 + v3) as u8,
            ] + base64_bytes(s.subrange(4, s.len() as int))
        }
    }
}

proof fn lemma_digit_value(v: int)
    requires
        0 <= v < 64,
    ensures
        b64_value(b64_digit(v)) == v,
        b64_digit(v) != '=',
        b64_digit(v) != ';',
{
}

proof fn lemma_first_byte(x: int, y: int)
    requires
        0 <= x < 256,
        0 <= y < 256,
    ensures
        (x / 4) * 4 + ((x % 4) * 16 + y / 16) / 16 == x,
        0 <= (x % 4) * 16 + y / 16 < 64,
{
    assert(((x % 4) * 16 + y / 16) / 16 == x % 4) by (nonlinear_arith)
        requires
            0 <= x % 4 < 4,
            0 <= y / 16 < 16,
    ;
}

proof fn lemma_second_byte(x: int, y: int, z: int)
    requires
        0 <= x < 256,
        0 <= y < 256,
        0 <= z < 256,
    ensures
        (((x % 4) * 16 + y / 16) % 16) * 16 + ((y % 16) * 4 + z / 64) / 4 == y,
        0 <= (y % 16) * 4 + z / 64 < 64,
{
    assert(((x % 4) * 16 + y / 16) % 16 == y / 16) by (nonlinear_arith)
        requires
            0 <= x % 4 < 4,
            0 <= y / 16 < 16,
    ;
    assert(((y % 16) * 4 + z / 64) / 4 == y % 16) by (nonlinear_arith)
        requires
            0 <= y % 16 < 16,
            0 <= z / 64 < 4,
    ;
}

proof fn lemma_third_byte(y: int, z: int)
    requires
        0 <= y < 256,
        0 <= z < 256,
    ensures
        (((y % 16) * 4 + z / 64) % 4) * 64 + z % 64 == z,
{
    assert(((y % 16) * 4 + z / 64) % 4 == z / 64) by (nonlinear_arith)
        requires
            0 <= y % 16 < 16,
            0 <= z / 64 < 4,
    ;
}

/// Decoding base64 gives back the bytes encoded, and base64 text holds no
/// `;`.
pub proof fn lemma_base64_round_trip(b: Seq<u8>)
    ensures
        base64_bytes(base64_text(b)) == b,
        !base64_text(b).contains(';'),
    decreases b.len(),
{
    let e = base64_text(b);
    if b.len() == 0 {
    } else if b.len() == 1 {
        let x = b[0] as int;
        lemma_first_byte(x, 0);
        lemma_digit_value(x / 4);
        lemma_digit_value((x % 4) * 16);
        assert(base64_bytes(e) =~= b);
    } else if b.len() == 2 {
        let x = b[0] as int;
        let y = b[1] as int;
        lemma_first_byte(x, y);
        lemma_second_byte(x, y, 0);
        lemma_digit_value(x / 4);
        lemma_digit_value((x % 4) * 16 + y / 16);
        lemma_digit_value((y % 16) * 4);
        assert(base64_bytes(e) =~= b);
    } else {
        let x = b[0] as int;
        let y = b[1] as int;
        let z = b[2] as int;
        let rest = b.subrange(3, b.len() as int);
        lemma_first_byte(x, y);
        lemma_second_byte(x, y, z);
        lemma_third_byte(y, z);
        lemma_digit_value(x / 4);
        lemma_digit_value((x % 4) * 16 + y / 16);
        lemma_digit_value((y % 16) * 4 + z / 64);
        lemma_digit_value(z % 64);
        lemma_base64_round_trip(rest);
        assert(e.subrange(4, e.len() as int) =~= base64_text(rest));
        assert(base64_bytes(e) =~= b);
        assert forall|k: int| 0 <= k < e.len() implies e[k] != ';' by {
            if k >= 4 {
                assert(e[k] == base64_text(rest)[k - 4]);
            }
        }
    }
}

/// Relies on `base64::engine::general_purpose::STANDARD` (base64 0.22): RFC
/// 4648 base64 with the standard alphabet and `=` padding.
#[verifier::external_body]
fn encode_base64(b: &[u8]) -> (r: String)
    ensures
        r@ == base64_text(b@),
{
    base64::Engine::encode(&base64::engine::general_purpose::STANDARD, b)
}

/// A name for the media type that `infer::get` recognises from the leading
/// bytes of a payload, if it recognises one.
pub uninterp spec fn sniffed_type(b: Seq<u8>) -> Option<Seq<char>>;

/// Relies on `infer::get` and `Type::mime_type` (infer 0.16): the media type
/// of the first matcher that accepts the bytes, a function of the bytes alone.
#[verifier::external_body]
fn sniff_media_type(b: &[u8]) -> (r: Option<String>)
    ensures
        opt_view(r) == sniffed_type(b@),
{
    match infer::get(b) {
        Some(t) => Some(t.mime_type().to_string()),
        None => None,
    }
}

/// The media type given to bytes that no sniffing recognises.
pub open spec fn fallback_type() -> Seq<char> {
    "application/octet-stream"@
}

/// The media type of a payload: the one sniffed, else the fallback.
pub open spec fn type_or_fallback(sniffed: Option<Seq<char>>) -> Seq<char> {
    match sniffed {
        Some(t) => t,
        None => fallback_type(),
    }
}

/// The embeddable payload of `bytes` typed `media_type`.
pub open spec fn data_url(media_type: Seq<char>, bytes: Seq<u8>) -> Seq<char> {
    "data:"@ + media_type + ";base64,"@ + base64_text(bytes)
}

/// Builds the embeddable payload of `bytes` typed `media_type`.
pub fn data_url_of(media_type: &str, bytes: &[u8]) -> (r: String)
    ensures
        r@ == data_url(media_type@, bytes@),
{
    let mut out = String::from_str("data:");
    out.append(media_type);
    out.append(";base64,");
    let encoded = encode_base64(bytes);
    out.append(encoded.as_str());
    out
}

/// Builds the payload of `bytes` given the media type that sniffing found.
pub fn payload_with_type(sniffed: Option<&str>, bytes: &[u8]) -> (r: Result<String, FetchError>)
    ensures
        bytes@.len() == 0 ==> r == Err::<String, FetchError>(FetchError::Empty),
        bytes@.len() > 0 ==> r is Ok && r->Ok_0@ == data_url(
            type_or_fallback(
                match sniffed {
                    Some(t) => Some(t@),
                    None => None,
                },
            ),
            bytes@,
        ),
{
    if bytes.len() == 0 {
        return Err(FetchError::Empty);
    }
    match sniffed {
        Some(t) => Ok(data_url_of(t, bytes)),
        None => Ok(data_url_of("application/octet-stream", bytes)),
    }
}

/// Turns fetched bytes into an embeddable payload typed by sniffing them;
/// no bytes give `Empty`, never an empty payload.
pub fn embed_payload(bytes: &[u8]) -> (r: Result<String, FetchError>)
    ensures
        bytes@.len() == 0 ==> r == Err::<String, FetchError>(FetchError::Empty),
        bytes@.len() > 0 ==> r is Ok && r->Ok_0@ == data_url(
            type_or_fallback(sniffed_type(bytes@)),
            bytes@,
        ),
{
    if bytes.len() == 0 {
        return Err(FetchError::Empty);
    }
    let sniffed = sniff_media_type(bytes);
    match &sniffed {
        Some(t) => payload_with_type(Some(t.as_str()), bytes),
        None => payload_with_type(None, bytes),
    }
}

/// Index of the last `c` in `s`, or -1.
pub open spec fn last_index_of(s: Seq<char>, c: char) -> int
    decreases s.len(),
{
    if s.len() == 0 {
        -1
    } else if s.last() == c {
        s.len() - 1
    } else {
        last_index_of(s.drop_last(), c)
    }
}

/// The media type that a payload announces: what stands between `data:` and
/// its last `;`.
pub open spec fn payload_type(p: Seq<char>) -> Seq<char> {
    p.subrange(5, last_index_of(p, ';'))
}

/// The bytes that a payload carries: the base64 after its last `;base64,`.
pub open spec fn payload_bytes(p: Seq<char>) -> Seq<u8> {
    base64_bytes(p.subrange(last_index_of(p, ';') + 8, p.len() as int))
}

proof fn lemma_last_index_at(s: Seq<char>, c: char, k: int)
    requires
        0 <= k < s.len(),
        s[k] == c,
        forall|j: int| k < j < s.len() ==> s[j] != c,
    ensures
        last_index_of(s, c) == k,
    decreases s.len(),
{
    if s.len() - 1 > k {
        lemma_last_index_at(s.drop_last(), c, k);
    }
}

/// Reading a payload back gives the media type it was built with and,
/// decoding its base64, the very bytes it was built from.
pub proof fn lemma_payload_round_trip(media_type: Seq<char>, bytes: Seq<u8>)
    ensures
        payload_type(data_url(media_type, bytes)) == media_type,
        payload_bytes(data_url(media_type, bytes)) == bytes,
{
    reveal_strlit("data:");
    reveal_strlit(";base64,");
    let p = data_url(media_type, bytes);
    let e = base64_text(bytes);
    let k: int = 5 + media_type.len() as int;
    lemma_base64_round_trip(bytes);
    assert forall|j: int| k < j < p.len() implies p[j] != ';' by {
        if j >= k + 8 {
            assert(p[j] == e[j - k - 8]);
        }
    }
    lemma_last_index_at(p, ';', k);
    assert(p.subrange(5, k) =~= media_type);
    assert(p.subrange(k + 8, p.len() as int) =~= e);
}

} // verus!

