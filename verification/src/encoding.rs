//! The remote command encoding: a script transcoded to UTF-16LE bytes,
//! base64-encoded, and wrapped into the interpreter invocation. This
//! representation is the remote interpreter's encoded-command mode and
//! avoids every quoting hazard of a multi-line script.

use crate::text::{lemma_char_bounds, str_to_chars};
use vstd::prelude::*;
use vstd::string::StringExecFns;

verus! {

/// The UTF-16 little-endian bytes of one character: two bytes for codes
/// below the supplementary planes, else a surrogate pair.
pub open spec fn utf16le_units(c: char) -> Seq<u8> {
    let u = c as int;
    if u < 0x10000 {
        seq![(u % 256) as u8, (u / 256) as u8]
    } else {
        let v = u - 0x10000;
        let hi = 0xD800 + v / 0x400;
        let lo = 0xDC00 + v % 0x400;
        seq![(hi % 256) as u8, (hi / 256) as u8, (lo % 256) as u8, (lo / 256) as u8]
    }
}

/// The UTF-16 little-endian bytes of a character sequence.
pub open spec fn utf16le_of(s: Seq<char>) -> Seq<u8>
    decreases s.len(),
{
    if s.len() == 0 {
        Seq::<u8>::empty()
    } else {
        utf16le_of(s.drop_last()) + utf16le_units(s.last())
    }
}

/// Transcodes text to its UTF-16 little-endian bytes.
pub fn utf16le_bytes(s: &str) -> (r: Vec<u8>)
    ensures
        r@ == utf16le_of(s@),
{
    let cs = str_to_chars(s);
    let mut out: Vec<u8> = Vec::new();
    let mut i: usize = 0;
    proof {
        assert(cs@.subrange(0, 0) =~= Seq::<char>::empty());
        assert(out@ =~= utf16le_of(cs@.subrange(0, 0)));
    }
    while i < cs.len()
        invariant
            i <= cs@.len(),
            cs@ == s@,
            out@ == utf16le_of(cs@.subrange(0, i as int)),
        decreases cs@.len() - i,
    {
        let c = cs[i];
        proof {
            lemma_char_bounds(c);
        }
        let u = c as u32;
        if u < 0x10000 {
            out.push((u % 256) as u8);
            out.push(((u / 256) % 256) as u8);
        } else {
            let v = u - 0x10000;
            let hi = 0xD800 + v / 0x400;
            let lo = 0xDC00 + v % 0x400;
            out.push((hi % 256) as u8);
            out.push(((hi / 256) % 256) as u8);
            out.push((lo % 256) as u8);
            out.push(((lo / 256) % 256) as u8);
        }
        proof {
            let pre2 = cs@.subrange(0, i + 1 as int);
            assert(pre2.drop_last() =~= cs@.subrange(0, i as int));
            assert(pre2.last() == cs@[i as int]);
            assert(out@ =~= utf16le_of(pre2));
        }
        i = i + 1;
    }
    proof {
        assert(cs@.subrange(0, cs@.len() as int) =~= cs@);
    }
    out
}

/// The standard base64 text of a byte sequence.
pub uninterp spec fn base64_of(bytes: Seq<u8>) -> Seq<char>;

/// Relies on the base64 crate's standard engine: the encoding is a
/// function of the bytes alone, four characters for every started group of
/// three bytes, padded.
#[verifier::external_body]
fn b64_encode(bytes: &Vec<u8>) -> (r: String)
    ensures
        r@ == base64_of(bytes@),
        r@.len() == 4 * ((bytes@.len() + 2) / 3),
{
    base64::Engine::encode(&base64::engine::general_purpose::STANDARD, bytes)
}

/// The fixed interpreter invocation up to the encoded blob: non-interactive
/// mode, no profile loading, and the encoded-command flag.
pub open spec fn command_prefix() -> Seq<char> {
    "powershell -NonInteractive -NoProfile -EncodedCommand "@
}

/// Wraps a script into the full interpreter invocation: the fixed flags,
/// then the base64 text of the script's UTF-16LE bytes. The result is a
/// function of the script text alone.
pub fn encode_command(script: &str) -> (r: String)
    ensures
        r@ == command_prefix() + base64_of(utf16le_of(script@)),
{
    let bytes = utf16le_bytes(script);
    let blob = b64_encode(&bytes);
    String::from_str("powershell -NonInteractive -NoProfile -EncodedCommand ").concat(
        blob.as_str(),
    )
}

} // verus!
