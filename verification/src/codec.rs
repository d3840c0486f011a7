//! The wire form of an [`Envelope`]: a JSON object with one member, whose name
//! tells the variant.
//!
//! ```text
//! {"Message":{"channel_id":<number>,"content":<string>}}
//! {"KeepAlive":null}
//! ```
//!
//! [`encode`] writes exactly these bytes. [`decode`] reads every JSON spelling
//! of the same two values: whitespace between tokens, escapes inside strings
//! and names, and the two members of a message in either order. The module
//! [`grammar`](crate::grammar) says which inputs those are, and proves that
//! the decoder reads them and nothing else.

use vstd::prelude::*;
use vstd::string::StringSliceAdditionalSpecFns;
use vstd::utf8::{decode_utf8, encode_utf8, valid_utf8};
use crate::envelope::{DecodeError, Envelope, EnvelopeView};
use crate::grammar::{is_wire_form, lemma_decoder_reads_the_grammar, lemma_encoder_writes_wire_form};
use crate::json::{
    CLOSE_BRACE, COLON, COMMA, OPEN_BRACE, read_number, scan_number, skip_space, skip_whitespace,
    write_decimal, decimal,
};
use crate::quoted::{quoted, read_string, scan_string, write_quoted};

verus! {

/// The member name of the message variant.
pub open spec fn message_key() -> Seq<u8> {
    "Message".spec_bytes()
}

/// The member name of the heartbeat variant.
pub open spec fn keepalive_key() -> Seq<u8> {
    "KeepAlive".spec_bytes()
}

/// The member name of a message's channel.
pub open spec fn channel_key() -> Seq<u8> {
    "channel_id".spec_bytes()
}

/// The member name of a message's text.
pub open spec fn content_key() -> Seq<u8> {
    "content".spec_bytes()
}

/// The value of the heartbeat member.
pub open spec fn null_word() -> Seq<u8> {
    "null".spec_bytes()
}

/// The wire form of an envelope.
pub open spec fn envelope_text(e: EnvelopeView) -> Seq<u8> {
    match e {
        EnvelopeView::KeepAlive => seq![OPEN_BRACE] + quoted(keepalive_key()) + seq![COLON]
            + null_word() + seq![CLOSE_BRACE],
        EnvelopeView::Message { channel_id, content } => seq![OPEN_BRACE] + quoted(message_key())
            + seq![COLON] + seq![OPEN_BRACE] + quoted(channel_key()) + seq![COLON] + decimal(
            channel_id as nat,
        ) + seq![COMMA] + quoted(content_key()) + seq![COLON] + quoted(encode_utf8(content))
            + seq![CLOSE_BRACE] + seq![CLOSE_BRACE],
    }
}

/// Writes the wire form of `e`: the tokens of `e` without whitespace, every
/// name and the text as their canonical literals, the channel first.
pub fn encode(e: &Envelope) -> (bytes: Vec<u8>)
    ensures
        bytes@ == envelope_text(e@),
        is_wire_form(bytes@, e@),
{
    let mut out: Vec<u8> = Vec::new();
    out.push(OPEN_BRACE);
    match e {
        Envelope::KeepAlive => {
            write_quoted(&mut out, "KeepAlive".as_bytes());
            out.push(COLON);
            out.extend_from_slice("null".as_bytes());
        },
        Envelope::Message { channel_id, content } => {
            write_quoted(&mut out, "Message".as_bytes());
            out.push(COLON);
            out.push(OPEN_BRACE);
            write_quoted(&mut out, "channel_id".as_bytes());
            out.push(COLON);
            write_decimal(&mut out, *channel_id);
            out.push(COMMA);
            write_quoted(&mut out, "content".as_bytes());
            out.push(COLON);
            write_quoted(&mut out, content.as_str().as_bytes());
            out.push(CLOSE_BRACE);
        },
    }
    out.push(CLOSE_BRACE);
    assert(out@ =~= envelope_text(e@));
    proof {
        lemma_encoder_writes_wire_form(e@);
    }
    out
}

/// The byte `b` at `i`, and the whitespace behind it.
pub open spec fn scan_punct(s: Seq<u8>, i: int, b: u8) -> Option<int> {
    if 0 <= i < s.len() && s[i] == b {
        Some(skip_space(s, i + 1))
    } else {
        None
    }
}

/// The bytes of `word` at `i`, and the whitespace behind them.
pub open spec fn scan_word(s: Seq<u8>, i: int, word: Seq<u8>) -> Option<int> {
    if 0 <= i && i + word.len() <= s.len() && s.subrange(i, i + word.len()) == word {
        Some(skip_space(s, i + word.len()))
    } else {
        None
    }
}

/// A member name at `i`: a string literal and a colon, each with the
/// whitespace behind it. The result is what the literal denotes.
pub open spec fn scan_name(s: Seq<u8>, i: int) -> Option<(Seq<u8>, int)> {
    match scan_string(s, i) {
        Some((name, j)) => match scan_punct(s, skip_space(s, j), COLON) {
            Some(k) => Some((name, k)),
            None => None,
        },
        None => None,
    }
}

/// A channel number at `i`, and the whitespace behind it.
pub open spec fn scan_channel(s: Seq<u8>, i: int) -> Option<(u64, int)> {
    match scan_number(s, i) {
        Some((id, j)) => Some((id, skip_space(s, j))),
        None => None,
    }
}

/// A text at `i`: a string literal that denotes UTF-8, and the whitespace
/// behind it.
pub open spec fn scan_text(s: Seq<u8>, i: int) -> Option<(Seq<char>, int)> {
    match scan_string(s, i) {
        Some((bytes, j)) => if valid_utf8(bytes) {
            Some((decode_utf8(bytes), skip_space(s, j)))
        } else {
            None
        },
        None => None,
    }
}

/// The member `"channel_id": <number>` at `i`.
pub open spec fn scan_channel_member(s: Seq<u8>, i: int) -> Option<(u64, int)> {
    match scan_name(s, i) {
        Some((name, j)) => if name == channel_key() {
            scan_channel(s, j)
        } else {
            None
        },
        None => None,
    }
}

/// The member `"content": <string>` at `i`.
pub open spec fn scan_content_member(s: Seq<u8>, i: int) -> Option<(Seq<char>, int)> {
    match scan_name(s, i) {
        Some((name, j)) => if name == content_key() {
            scan_text(s, j)
        } else {
            None
        },
        None => None,
    }
}

/// The two members of a message at `i`, the channel first.
pub open spec fn scan_channel_then_content(s: Seq<u8>, i: int) -> Option<(u64, Seq<char>, int)> {
    match scan_channel_member(s, i) {
        Some((id, j)) => match scan_punct(s, j, COMMA) {
            Some(k) => match scan_content_member(s, k) {
                Some((content, m)) => Some((id, content, m)),
                None => None,
            },
            None => None,
        },
        None => None,
    }
}

/// The two members of a message at `i`, the text first.
pub open spec fn scan_content_then_channel(s: Seq<u8>, i: int) -> Option<(u64, Seq<char>, int)> {
    match scan_content_member(s, i) {
        Some((content, j)) => match scan_punct(s, j, COMMA) {
            Some(k) => match scan_channel_member(s, k) {
                Some((id, m)) => Some((id, content, m)),
                None => None,
            },
            None => None,
        },
        None => None,
    }
}

/// The object of a message at `i`: both members, once each, in either order,
/// between braces.
pub open spec fn scan_message(s: Seq<u8>, i: int) -> Option<(u64, Seq<char>, int)> {
    match scan_punct(s, i, OPEN_BRACE) {
        Some(j) => {
            let members = if scan_channel_member(s, j) is Some {
                scan_channel_then_content(s, j)
            } else {
                scan_content_then_channel(s, j)
            };
            match members {
                Some((id, content, k)) => match scan_punct(s, k, CLOSE_BRACE) {
                    Some(m) => Some((id, content, m)),
                    None => None,
                },
                None => None,
            }
        },
        None => None,
    }
}

/// The value of the member named `name` at `i`, as the envelope it makes.
pub open spec fn scan_variant(s: Seq<u8>, name: Seq<u8>, i: int) -> Option<(EnvelopeView, int)> {
    if name == keepalive_key() {
        match scan_word(s, i, null_word()) {
            Some(j) => Some((EnvelopeView::KeepAlive, j)),
            None => None,
        }
    } else if name == message_key() {
        match scan_message(s, i) {
            Some((channel_id, content, j)) => Some(
                (EnvelopeView::Message { channel_id, content }, j),
            ),
            None => None,
        }
    } else {
        None
    }
}

/// The envelope that `s` is a wire form of, if it is one of any.
///
/// `s` must be, between optional whitespace, one object with one member, named
/// `KeepAlive` with the value `null` or named `Message` with a message object
/// as its value, and nothing behind it.
pub open spec fn parse_envelope(s: Seq<u8>) -> Option<EnvelopeView> {
    match scan_punct(s, skip_space(s, 0), OPEN_BRACE) {
        Some(i) => match scan_name(s, i) {
            Some((name, j)) => match scan_variant(s, name, j) {
                Some((e, k)) => match scan_punct(s, k, CLOSE_BRACE) {
                    Some(m) => if m == s.len() {
                        Some(e)
                    } else {
                        None
                    },
                    None => None,
                },
                None => None,
            },
            None => None,
        },
        None => None,
    }
}

/// Converts bytes to a text with [`String::from_utf8`]: the text whose UTF-8
/// encoding the bytes are, and none where they are not UTF-8.
#[verifier::external_body]
pub(crate) fn text_from_utf8(bytes: Vec<u8>) -> (r: Option<String>)
    ensures
        r is Some <==> valid_utf8(bytes@),
        r matches Some(text) ==> text@ == decode_utf8(bytes@),
{
    String::from_utf8(bytes).ok()
}

/// Whether two byte strings are the same.
pub fn bytes_equal(a: &[u8], b: &[u8]) -> (r: bool)
    ensures
        r == (a@ == b@),
{
    if a.len() != b.len() {
        return false;
    }
    let mut i: usize = 0;
    while i < a.len()
        invariant
            a.len() == b.len(),
            i <= a.len(),
            forall|k: int| 0 <= k < i ==> a@[k] == b@[k],
        decreases a.len() - i,
    {
        if a[i] != b[i] {
            return false;
        }
        i = i + 1;
    }
    assert(a@ =~= b@);
    true
}

fn read_punct(s: &[u8], i: usize, b: u8) -> (r: Option<usize>)
    requires
        i <= s.len(),
    ensures
        match r {
            Some(j) => scan_punct(s@, i as int, b) == Some(j as int) && i < j <= s.len(),
            None => scan_punct(s@, i as int, b) is None,
        },
{
    if i < s.len() && s[i] == b {
        Some(skip_whitespace(s, i + 1))
    } else {
        None
    }
}

fn read_word(s: &[u8], i: usize, word: &[u8]) -> (r: Option<usize>)
    requires
        i <= s.len(),
    ensures
        match r {
            Some(j) => scan_word(s@, i as int, word@) == Some(j as int) && i <= j <= s.len(),
            None => scan_word(s@, i as int, word@) is None,
        },
{
    if s.len() - i < word.len() {
        return None;
    }
    let mut k: usize = 0;
    while k < word.len()
        invariant
            i + word.len() <= s.len(),
            k <= word.len(),
            forall|n: int| 0 <= n < k ==> s@[i + n] == word@[n],
        decreases word.len() - k,
    {
        if s[i + k] != word[k] {
            assert(s@.subrange(i as int, i + word.len())[k as int] != word@[k as int]);
            return None;
        }
        k = k + 1;
    }
    assert(s@.subrange(i as int, i + word.len()) =~= word@);
    Some(skip_whitespace(s, i + word.len()))
}

fn read_name(s: &[u8], i: usize) -> (r: Option<(Vec<u8>, usize)>)
    requires
        i <= s.len(),
    ensures
        match r {
            Some((name, j)) => scan_name(s@, i as int) == Some((name@, j as int)) && i < j
                <= s.len(),
            None => scan_name(s@, i as int) is None,
        },
{
    match read_string(s, i) {
        Some((name, j)) => {
            let k: usize = skip_whitespace(s, j);
            match read_punct(s, k, COLON) {
                Some(m) => Some((name, m)),
                None => None,
            }
        },
        None => None,
    }
}

fn read_channel(s: &[u8], i: usize) -> (r: Option<(u64, usize)>)
    requires
        i <= s.len(),
    ensures
        match r {
            Some((id, j)) => scan_channel(s@, i as int) == Some((id, j as int)) && i < j
                <= s.len(),
            None => scan_channel(s@, i as int) is None,
        },
{
    match read_number(s, i) {
        Some((id, j)) => Some((id, skip_whitespace(s, j))),
        None => None,
    }
}

fn read_text(s: &[u8], i: usize) -> (r: Option<(String, usize)>)
    requires
        i <= s.len(),
    ensures
        match r {
            Some((text, j)) => scan_text(s@, i as int) == Some((text@, j as int)) && i < j
                <= s.len(),
            None => scan_text(s@, i as int) is None,
        },
{
    match read_string(s, i) {
        Some((bytes, j)) => match text_from_utf8(bytes) {
            Some(text) => Some((text, skip_whitespace(s, j))),
            None => None,
        },
        None => None,
    }
}

fn read_channel_member(s: &[u8], i: usize) -> (r: Option<(u64, usize)>)
    requires
        i <= s.len(),
    ensures
        match r {
            Some((id, j)) => scan_channel_member(s@, i as int) == Some((id, j as int)) && i < j
                <= s.len(),
            None => scan_channel_member(s@, i as int) is None,
        },
{
    match read_name(s, i) {
        Some((name, j)) => if bytes_equal(name.as_slice(), "channel_id".as_bytes()) {
            read_channel(s, j)
        } else {
            None
        },
        None => None,
    }
}

fn read_content_member(s: &[u8], i: usize) -> (r: Option<(String, usize)>)
    requires
        i <= s.len(),
    ensures
        match r {
            Some((text, j)) => scan_content_member(s@, i as int) == Some((text@, j as int)) && i
                < j <= s.len(),
            None => scan_content_member(s@, i as int) is None,
        },
{
    match read_name(s, i) {
        Some((name, j)) => if bytes_equal(name.as_slice(), "content".as_bytes()) {
            read_text(s, j)
        } else {
            None
        },
        None => None,
    }
}

fn read_message(s: &[u8], i: usize) -> (r: Option<(u64, String, usize)>)
    requires
        i <= s.len(),
    ensures
        match r {
            Some((id, text, j)) => scan_message(s@, i as int) == Some((id, text@, j as int)) && i
                < j <= s.len(),
            None => scan_message(s@, i as int) is None,
        },
{
    let start: usize = match read_punct(s, i, OPEN_BRACE) {
        Some(j) => j,
        None => { return None; },
    };
    let (id, text, end): (u64, String, usize) = match read_channel_member(s, start) {
        Some((id, j)) => {
            let k: usize = match read_punct(s, j, COMMA) {
                Some(k) => k,
                None => { return None; },
            };
            match read_content_member(s, k) {
                Some((text, m)) => (id, text, m),
                None => { return None; },
            }
        },
        None => {
            let (text, j): (String, usize) = match read_content_member(s, start) {
                Some(found) => found,
                None => { return None; },
            };
            let k: usize = match read_punct(s, j, COMMA) {
                Some(k) => k,
                None => { return None; },
            };
            match read_channel_member(s, k) {
                Some((id, m)) => (id, text, m),
                None => { return None; },
            }
        },
    };
    match read_punct(s, end, CLOSE_BRACE) {
        Some(m) => Some((id, text, m)),
        None => None,
    }
}

fn read_variant(s: &[u8], name: &[u8], i: usize) -> (r: Option<(Envelope, usize)>)
    requires
        i <= s.len(),
    ensures
        match r {
            Some((e, j)) => scan_variant(s@, name@, i as int) == Some((e@, j as int)) && i <= j
                <= s.len(),
            None => scan_variant(s@, name@, i as int) is None,
        },
{
    if bytes_equal(name, "KeepAlive".as_bytes()) {
        match read_word(s, i, "null".as_bytes()) {
            Some(j) => Some((Envelope::KeepAlive, j)),
            None => None,
        }
    } else if bytes_equal(name, "Message".as_bytes()) {
        match read_message(s, i) {
            Some((channel_id, content, j)) => Some((Envelope::Message { channel_id, content }, j)),
            None => None,
        }
    } else {
        None
    }
}

fn read_envelope(bytes: &[u8]) -> (r: Option<Envelope>)
    ensures
        match r {
            Some(e) => parse_envelope(bytes@) == Some(e@),
            None => parse_envelope(bytes@) is None,
        },
{
    let start: usize = skip_whitespace(bytes, 0);
    let i: usize = match read_punct(bytes, start, OPEN_BRACE) {
        Some(i) => i,
        None => { return None; },
    };
    let (name, j): (Vec<u8>, usize) = match read_name(bytes, i) {
        Some(found) => found,
        None => { return None; },
    };
    let (e, k): (Envelope, usize) = match read_variant(bytes, name.as_slice(), j) {
        Some(found) => found,
        None => { return None; },
    };
    match read_punct(bytes, k, CLOSE_BRACE) {
        Some(m) => if m == bytes.len() {
            Some(e)
        } else {
            None
        },
        None => None,
    }
}

/// Reads an envelope from a wire form of it.
///
/// Succeeds on every wire form, whatever its whitespace and spelling, with
/// the envelope that it is a wire form of. Every other input, and so every
/// input that is cut short or carries anything behind its closing brace, is a
/// [`DecodeError`]. [`parse_envelope`] says the same as a function.
pub fn decode(bytes: &[u8]) -> (r: Result<Envelope, DecodeError>)
    ensures
        match r {
            Ok(e) => is_wire_form(bytes@, e@),
            Err(_) => forall|e: EnvelopeView| !is_wire_form(bytes@, e),
        },
        match r {
            Ok(e) => parse_envelope(bytes@) == Some(e@),
            Err(_) => parse_envelope(bytes@) is None,
        },
{
    match read_envelope(bytes) {
        Some(e) => {
            proof {
                lemma_decoder_reads_the_grammar(bytes@, e@);
            }
            Ok(e)
        },
        None => {
            proof {
                assert forall|e: EnvelopeView| !is_wire_form(bytes@, e) by {
                    lemma_decoder_reads_the_grammar(bytes@, e);
                }
            }
            Err(DecodeError)
        },
    }
}

} // verus!
