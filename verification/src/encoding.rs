//! Base64 payloads: extracting the data part of a data URL, decoding it,
//! and the names of saved screenshots.
use vstd::prelude::*;

use base64::Engine;
use base64::engine::general_purpose::STANDARD;

use crate::strutil::dec_str;
use crate::strutil::u64_to_dec;

verus! {

#[verifier::external_type_specification]
#[verifier::external_body]
pub struct ExDecodeError(base64::DecodeError);

/// What standard base64 encoding produces for the given bytes; a function
/// of the bytes alone.
pub uninterp spec fn b64_encode_of(bytes: Seq<u8>) -> Seq<char>;

/// Relies on the base64 crate's `Engine::encode` with the standard padded
/// alphabet: the encoding depends on the bytes alone; no input fails.
#[verifier::external_body]
pub fn b64_encode(bytes: &[u8]) -> (r: String)
    ensures
        r@ == b64_encode_of(bytes@),
{
    STANDARD.encode(bytes)
}

/// What standard base64 decoding yields for the given text, when the text
/// is valid base64; a function of the text alone.
pub uninterp spec fn b64_decode_of(s: Seq<char>) -> Option<Seq<u8>>;

/// Relies on the base64 crate's `Engine::decode` with the standard padded
/// alphabet: whether the text decodes, and to what, depends on the text
/// alone.
#[verifier::external_body]
fn b64_decode(s: &str) -> (r: Result<Vec<u8>, base64::DecodeError>)
    ensures
        match r {
            Ok(bytes) => b64_decode_of(s@) == Some(bytes@),
            Err(_) => b64_decode_of(s@) is None,
        },
{
    STANDARD.decode(s)
}

/// The payload of a data URL: everything after the last comma, or the
/// whole text when no comma occurs.
pub open spec fn data_url_payload(s: Seq<char>) -> Seq<char>
    decreases s.len(),
{
    if s.len() == 0 {
        s
    } else if s.last() == ',' {
        s.subrange(s.len() as int, s.len() as int)
    } else if s.contains(',') {
        data_url_payload(s.drop_last()).push(s.last())
    } else {
        s
    }
}

fn find_last_comma(s: &str) -> (r: Option<usize>)
    ensures
        match r {
            Some(k) => k < s@.len() && s@[k as int] == ',' && forall|j: int|
                k < j < s@.len() ==> s@[j] != ',',
            None => forall|j: int| 0 <= j < s@.len() ==> s@[j] != ',',
        },
{
    let n = s.unicode_len();
    let mut i: usize = n;
    while i > 0
        invariant
            i <= n,
            n == s@.len(),
            forall|j: int| i <= j < n ==> s@[j] != ',',
        decreases i,
    {
        i -= 1;
        if s.get_char(i) == ',' {
            return Some(i);
        }
    }
    None
}

proof fn lemma_data_url_payload_suffix(s: Seq<char>, k: int)
    requires
        0 <= k < s.len(),
        s[k] == ',',
        forall|j: int| k < j < s.len() ==> s[j] != ',',
    ensures
        data_url_payload(s) == s.subrange(k + 1, s.len() as int),
    decreases s.len(),
{
    if k == s.len() - 1 {
        assert(s.last() == ',');
        assert(data_url_payload(s) == s.subrange(s.len() as int, s.len() as int));
        assert(s.subrange(k + 1, s.len() as int) =~= s.subrange(s.len() as int, s.len() as int));
    } else {
        assert(s.last() != ',');
        assert(s.contains(',')) by {
            assert(s[k] == ',');
        }
        let h = s.drop_last();
        assert(h[k] == ',');
        assert forall|j: int| k < j < h.len() implies h[j] != ',' by {
            assert(h[j] == s[j]);
        }
        lemma_data_url_payload_suffix(h, k);
        assert(data_url_payload(s) == h.subrange(k + 1, h.len() as int).push(s.last()));
        assert(h.subrange(k + 1, h.len() as int).push(s.last()) =~= s.subrange(
            k + 1,
            s.len() as int,
        ));
    }
}

proof fn lemma_data_url_payload_whole(s: Seq<char>)
    requires
        forall|j: int| 0 <= j < s.len() ==> s[j] != ',',
    ensures
        data_url_payload(s) == s,
{
    if s.len() > 0 {
        assert(s.last() != ',');
        if s.contains(',') {
            let w = choose|w: int| 0 <= w < s.len() && s[w] == ',';
            assert(s[w] != ',');
        }
    }
}

/// Extracts the base64 payload of a data URL and decodes it. The text
/// after the last comma decides the outcome: it decodes, or the call
/// fails with the decoder's message.
pub fn decode_data_url(data: &str) -> (r: Result<Vec<u8>, String>)
    ensures
        match r {
            Ok(bytes) => b64_decode_of(data_url_payload(data@)) == Some(bytes@),
            Err(_) => b64_decode_of(data_url_payload(data@)) is None,
        },
{
    let n = s_len(data);
    let payload: &str = match find_last_comma(data) {
        Some(k) => {
            let p = data.substring_char(k + 1, n);
            proof {
                lemma_data_url_payload_suffix(data@, k as int);
            }
            p
        },
        None => {
            proof {
                lemma_data_url_payload_whole(data@);
            }
            data
        },
    };
    match b64_decode(payload) {
        Ok(bytes) => Ok(bytes),
        Err(e) => Err(e.to_string()),
    }
}

fn s_len(s: &str) -> (r: usize)
    ensures
        r == s@.len(),
{
    s.unicode_len()
}

/// The file name a saved screenshot receives from the clock value.
pub fn screenshot_file_name(millis: u64) -> (r: String)
    ensures
        r@ == "screenshot_"@ + dec_str(millis as nat) + ".png"@,
{
    let mut r = String::from_str("screenshot_");
    let digits = u64_to_dec(millis);
    r.append(digits.as_str());
    r.append(".png");
    r
}

} // verus!
