//! The wire format as a grammar, and the proof that the decoder reads exactly
//! what the grammar allows.
//!
//! A wire form is a sequence of parts: tokens, with a gap of whitespace in
//! front of each and behind the last. The tokens of a heartbeat are `{`, the
//! name `KeepAlive`, `:`, `null` and `}`; those of a message are `{`, the name
//! `Message`, `:`, `{`, the two members in either order with a `,` between
//! them, `}` and `}`. A name or a text may be spelled by any string literal
//! that denotes it; a number has one spelling.

use vstd::prelude::*;
use vstd::string::StringSliceAdditionalSpecFns;
use vstd::utf8::{
    decode_utf8_encode_utf8, encode_utf8, encode_utf8_decode_utf8, encode_utf8_valid_utf8,
    is_ascii_chars_encode_utf8,
};
use crate::codec::{
    channel_key, content_key, envelope_text, keepalive_key, message_key, null_word,
    parse_envelope, scan_channel, scan_channel_member, scan_channel_then_content,
    scan_content_member, scan_content_then_channel, scan_message, scan_name, scan_punct,
    scan_text, scan_variant, scan_word,
};
use crate::envelope::EnvelopeView;
use crate::json::{
    CLOSE_BRACE, COLON, COMMA, OPEN_BRACE, QUOTE, decimal, is_digit, is_space,
    lemma_decimal_shape, lemma_number_is_decimal, lemma_scan_decimal, lemma_skip_space_run,
    scan_number, skip_space,
};
use crate::quoted::{
    lemma_literal_spells, lemma_quoted_spells, lemma_scan_literal, quoted, scan_string, spells,
};

verus! {

/// Whether `w` is whitespace and nothing else.
pub open spec fn is_blank(w: Seq<u8>) -> bool {
    forall|k: int| 0 <= k < w.len() ==> is_space(#[trigger] w[k])
}

/// The parts one after another.
pub open spec fn join(parts: Seq<Seq<u8>>) -> Seq<u8>
    decreases parts.len(),
{
    if parts.len() == 0 {
        Seq::<u8>::empty()
    } else {
        join(parts.drop_last()) + parts.last()
    }
}

/// Whether the punctuation byte `b` and a gap stand at the part `k`.
pub open spec fn punct_at(parts: Seq<Seq<u8>>, k: int, b: u8) -> bool {
    parts[k] == seq![b] && is_blank(parts[k + 1])
}

/// Whether a literal that spells `name`, a gap, a colon and a gap stand at
/// the part `k`.
pub open spec fn name_at(parts: Seq<Seq<u8>>, k: int, name: Seq<u8>) -> bool {
    spells(parts[k], name) && is_blank(parts[k + 1]) && punct_at(parts, k + 2, COLON)
}

/// Whether the member `"channel_id": <number>` and a gap stand at the part
/// `k`.
pub open spec fn channel_member_at(parts: Seq<Seq<u8>>, k: int, channel_id: u64) -> bool {
    name_at(parts, k, channel_key()) && parts[k + 4] == decimal(channel_id as nat) && is_blank(
        parts[k + 5],
    )
}

/// Whether the member `"content": <string>` and a gap stand at the part `k`.
pub open spec fn content_member_at(parts: Seq<Seq<u8>>, k: int, content: Seq<char>) -> bool {
    name_at(parts, k, content_key()) && spells(parts[k + 4], encode_utf8(content)) && is_blank(
        parts[k + 5],
    )
}

/// Whether the parts are those of a heartbeat.
pub open spec fn keepalive_parts(parts: Seq<Seq<u8>>) -> bool {
    &&& parts.len() == 11
    &&& is_blank(parts[0])
    &&& punct_at(parts, 1, OPEN_BRACE)
    &&& name_at(parts, 3, keepalive_key())
    &&& parts[7] == null_word()
    &&& is_blank(parts[8])
    &&& punct_at(parts, 9, CLOSE_BRACE)
}

/// Whether the parts are those of a message for the channel `channel_id` with
/// the text `content`, the text in front of the channel or behind it.
pub open spec fn message_parts(
    parts: Seq<Seq<u8>>,
    channel_id: u64,
    content: Seq<char>,
    content_first: bool,
) -> bool {
    &&& parts.len() == 27
    &&& is_blank(parts[0])
    &&& punct_at(parts, 1, OPEN_BRACE)
    &&& name_at(parts, 3, message_key())
    &&& punct_at(parts, 7, OPEN_BRACE)
    &&& if content_first {
        content_member_at(parts, 9, content) && channel_member_at(parts, 17, channel_id)
    } else {
        channel_member_at(parts, 9, channel_id) && content_member_at(parts, 17, content)
    }
    &&& punct_at(parts, 15, COMMA)
    &&& punct_at(parts, 23, CLOSE_BRACE)
    &&& punct_at(parts, 25, CLOSE_BRACE)
}

/// Whether `s` is a wire form of `e`: the parts of `e`, in some spelling and
/// with some whitespace, one after another.
pub open spec fn is_wire_form(s: Seq<u8>, e: EnvelopeView) -> bool {
    match e {
        EnvelopeView::KeepAlive => exists|parts: Seq<Seq<u8>>|
            #![trigger keepalive_parts(parts)]
            keepalive_parts(parts) && s == join(parts),
        EnvelopeView::Message { channel_id, content } => exists|
            parts: Seq<Seq<u8>>,
            content_first: bool,
        |
            #![trigger message_parts(parts, channel_id, content, content_first)]
            message_parts(parts, channel_id, content, content_first) && s == join(parts),
    }
}

/// What the proofs need of the words of the format: the two variant names
/// differ, the two member names differ, and `null` is four bytes that do not
/// start with whitespace.
proof fn lemma_words()
    ensures
        message_key() != keepalive_key(),
        channel_key() != content_key(),
        null_word().len() == 4,
        !is_space(null_word()[0]),
{
    reveal_strlit("Message");
    reveal_strlit("KeepAlive");
    reveal_strlit("channel_id");
    reveal_strlit("content");
    reveal_strlit("null");
    is_ascii_chars_encode_utf8("Message"@);
    is_ascii_chars_encode_utf8("KeepAlive"@);
    is_ascii_chars_encode_utf8("channel_id"@);
    is_ascii_chars_encode_utf8("content"@);
    is_ascii_chars_encode_utf8("null"@);
    assert("null"@[0] as u8 == encode_utf8("null"@)[0]);
}

/// Where the part `k` starts in the whole.
spec fn start_of(parts: Seq<Seq<u8>>, k: int) -> int {
    join(parts.subrange(0, k)).len() as int
}

proof fn lemma_part(parts: Seq<Seq<u8>>, k: int)
    requires
        0 <= k < parts.len(),
    ensures
        0 <= start_of(parts, k),
        start_of(parts, k + 1) == start_of(parts, k) + parts[k].len(),
        start_of(parts, k + 1) <= join(parts).len(),
        join(parts).subrange(start_of(parts, k), start_of(parts, k + 1)) == parts[k],
    decreases parts.len(),
{
    let init = parts.drop_last();
    assert(parts.subrange(0, parts.len() as int) =~= parts);
    assert(parts.subrange(0, parts.len() - 1) =~= init);
    if k == parts.len() - 1 {
        assert(join(parts).subrange(start_of(parts, k), start_of(parts, k + 1)) =~= parts[k]);
    } else {
        lemma_part(init, k);
        assert(init.subrange(0, k) =~= parts.subrange(0, k));
        assert(init.subrange(0, k + 1) =~= parts.subrange(0, k + 1));
        assert(join(parts).subrange(start_of(parts, k), start_of(parts, k + 1)) =~= join(
            init,
        ).subrange(start_of(init, k), start_of(init, k + 1)));
    }
}

proof fn lemma_ends(parts: Seq<Seq<u8>>)
    ensures
        start_of(parts, 0) == 0,
        start_of(parts, parts.len() as int) == join(parts).len(),
{
    assert(parts.subrange(0, 0) =~= Seq::<Seq<u8>>::empty());
    assert(parts.subrange(0, parts.len() as int) =~= parts);
}

/// Whitespace is skipped up to the first byte that is none.
proof fn lemma_skip_gap(s: Seq<u8>, i: int, w: Seq<u8>)
    requires
        0 <= i,
        i + w.len() <= s.len(),
        s.subrange(i, i + w.len()) == w,
        is_blank(w),
        i + w.len() == s.len() || !is_space(s[i + w.len()]),
    ensures
        skip_space(s, i) == i + w.len(),
    decreases w.len(),
{
    if w.len() > 0 {
        assert(s[i] == s.subrange(i, i + w.len())[0]);
        assert(is_space(w[0]));
        assert(s.subrange(i + 1, i + w.len()) =~= w.drop_first());
        assert(is_blank(w.drop_first())) by {
            assert forall|k: int| 0 <= k < w.drop_first().len() implies is_space(
                #[trigger] w.drop_first()[k],
            ) by {
                assert(w.drop_first()[k] == w[k + 1]);
            }
        }
        lemma_skip_gap(s, i + 1, w.drop_first());
    }
}

/// Whether a token starts at the part `k`, or the parts end there.
spec fn token_starts(parts: Seq<Seq<u8>>, k: int) -> bool {
    k == parts.len() || (0 <= k < parts.len() && parts[k].len() > 0 && !is_space(parts[k][0]))
}

proof fn lemma_first_byte(parts: Seq<Seq<u8>>, k: int)
    requires
        0 <= k < parts.len(),
        parts[k].len() > 0,
    ensures
        0 <= start_of(parts, k) < join(parts).len(),
        join(parts)[start_of(parts, k)] == parts[k][0],
{
    lemma_part(parts, k);
    assert(join(parts).subrange(start_of(parts, k), start_of(parts, k + 1))[0] == join(
        parts,
    )[start_of(parts, k)]);
}

/// A literal starts with a quote.
proof fn lemma_literal_is_quoted(literal: Seq<u8>, bytes: Seq<u8>)
    requires
        spells(literal, bytes),
    ensures
        literal.len() > 0,
        literal[0] == QUOTE,
        !is_space(literal[0]),
        !is_digit(literal[0]),
{
}

/// A gap is skipped up to the token behind it.
proof fn lemma_gap_at(parts: Seq<Seq<u8>>, k: int)
    requires
        0 <= k < parts.len(),
        is_blank(parts[k]),
        token_starts(parts, k + 1),
    ensures
        skip_space(join(parts), start_of(parts, k)) == start_of(parts, k + 1),
{
    lemma_part(parts, k);
    lemma_ends(parts);
    if k + 1 < parts.len() {
        lemma_first_byte(parts, k + 1);
    }
    lemma_skip_gap(join(parts), start_of(parts, k), parts[k]);
}

/// A punctuation byte and the gap behind it are one step of the decoder.
proof fn lemma_punct_at(parts: Seq<Seq<u8>>, k: int, b: u8)
    requires
        0 <= k,
        k + 1 < parts.len(),
        punct_at(parts, k, b),
        token_starts(parts, k + 2),
    ensures
        scan_punct(join(parts), start_of(parts, k), b) == Some(start_of(parts, k + 2)),
{
    lemma_part(parts, k);
    lemma_first_byte(parts, k);
    lemma_gap_at(parts, k + 1);
}

/// A spelled name, a gap, a colon and a gap are one step of the decoder.
proof fn lemma_name_at(parts: Seq<Seq<u8>>, k: int, name: Seq<u8>)
    requires
        0 <= k,
        k + 3 < parts.len(),
        name_at(parts, k, name),
        token_starts(parts, k + 4),
    ensures
        scan_name(join(parts), start_of(parts, k)) == Some((name, start_of(parts, k + 4))),
{
    lemma_part(parts, k);
    lemma_scan_literal(join(parts), start_of(parts, k), parts[k], name);
    assert(token_starts(parts, k + 2));
    lemma_gap_at(parts, k + 1);
    lemma_punct_at(parts, k + 2, COLON);
}

/// A number and the gap behind it are one step of the decoder.
proof fn lemma_channel_at(parts: Seq<Seq<u8>>, k: int, channel_id: u64)
    requires
        0 <= k,
        k + 2 < parts.len(),
        parts[k] == decimal(channel_id as nat),
        is_blank(parts[k + 1]),
        token_starts(parts, k + 2),
        !is_digit(parts[k + 2][0]),
    ensures
        scan_channel(join(parts), start_of(parts, k)) == Some(
            (channel_id, start_of(parts, k + 2)),
        ),
{
    let s = join(parts);
    lemma_part(parts, k);
    lemma_part(parts, k + 1);
    lemma_first_byte(parts, k + 2);
    if parts[k + 1].len() > 0 {
        lemma_first_byte(parts, k + 1);
    }
    lemma_scan_decimal(s, start_of(parts, k), channel_id);
    lemma_gap_at(parts, k + 1);
}

/// A spelled text and the gap behind it are one step of the decoder.
proof fn lemma_text_at(parts: Seq<Seq<u8>>, k: int, content: Seq<char>)
    requires
        0 <= k,
        k + 1 < parts.len(),
        spells(parts[k], encode_utf8(content)),
        is_blank(parts[k + 1]),
        token_starts(parts, k + 2),
    ensures
        scan_text(join(parts), start_of(parts, k)) == Some((content, start_of(parts, k + 2))),
{
    lemma_part(parts, k);
    lemma_scan_literal(join(parts), start_of(parts, k), parts[k], encode_utf8(content));
    lemma_gap_at(parts, k + 1);
    encode_utf8_valid_utf8(content);
    encode_utf8_decode_utf8(content);
}

/// A word and the gap behind it are one step of the decoder.
proof fn lemma_word_at(parts: Seq<Seq<u8>>, k: int)
    requires
        0 <= k,
        k + 1 < parts.len(),
        is_blank(parts[k + 1]),
        token_starts(parts, k + 2),
    ensures
        scan_word(join(parts), start_of(parts, k), parts[k]) == Some(start_of(parts, k + 2)),
{
    lemma_part(parts, k);
    lemma_gap_at(parts, k + 1);
}

proof fn lemma_channel_member_at(parts: Seq<Seq<u8>>, k: int, channel_id: u64)
    requires
        0 <= k,
        k + 6 < parts.len(),
        channel_member_at(parts, k, channel_id),
        token_starts(parts, k + 6),
        !is_digit(parts[k + 6][0]),
    ensures
        scan_channel_member(join(parts), start_of(parts, k)) == Some(
            (channel_id, start_of(parts, k + 6)),
        ),
        scan_content_member(join(parts), start_of(parts, k)) is None,
{
    lemma_words();
    lemma_decimal_shape(channel_id as nat);
    assert(token_starts(parts, k + 4));
    lemma_name_at(parts, k, channel_key());
    lemma_channel_at(parts, k + 4, channel_id);
}

proof fn lemma_content_member_at(parts: Seq<Seq<u8>>, k: int, content: Seq<char>)
    requires
        0 <= k,
        k + 6 < parts.len(),
        content_member_at(parts, k, content),
        token_starts(parts, k + 6),
    ensures
        scan_content_member(join(parts), start_of(parts, k)) == Some(
            (content, start_of(parts, k + 6)),
        ),
        scan_channel_member(join(parts), start_of(parts, k)) is None,
{
    lemma_words();
    lemma_literal_is_quoted(parts[k + 4], encode_utf8(content));
    assert(token_starts(parts, k + 4));
    lemma_name_at(parts, k, content_key());
    lemma_text_at(parts, k + 4, content);
}

/// The decoder reads the object of a message whose channel comes first.
proof fn lemma_channel_first_at(parts: Seq<Seq<u8>>, channel_id: u64, content: Seq<char>)
    requires
        message_parts(parts, channel_id, content, false),
    ensures
        scan_message(join(parts), start_of(parts, 7)) == Some(
            (channel_id, content, start_of(parts, 25)),
        ),
{
    lemma_literal_is_quoted(parts[9], channel_key());
    lemma_literal_is_quoted(parts[17], content_key());
    assert(token_starts(parts, 9));
    assert(token_starts(parts, 15));
    assert(token_starts(parts, 17));
    assert(token_starts(parts, 23));
    assert(token_starts(parts, 25));
    lemma_punct_at(parts, 7, OPEN_BRACE);
    lemma_channel_member_at(parts, 9, channel_id);
    lemma_punct_at(parts, 15, COMMA);
    lemma_content_member_at(parts, 17, content);
    lemma_punct_at(parts, 23, CLOSE_BRACE);
    assert(scan_channel_then_content(join(parts), start_of(parts, 9)) == Some(
        (channel_id, content, start_of(parts, 23)),
    ));
}

/// The decoder reads the object of a message whose text comes first.
proof fn lemma_content_first_at(parts: Seq<Seq<u8>>, channel_id: u64, content: Seq<char>)
    requires
        message_parts(parts, channel_id, content, true),
    ensures
        scan_message(join(parts), start_of(parts, 7)) == Some(
            (channel_id, content, start_of(parts, 25)),
        ),
{
    lemma_literal_is_quoted(parts[9], content_key());
    lemma_literal_is_quoted(parts[17], channel_key());
    assert(token_starts(parts, 9));
    assert(token_starts(parts, 15));
    assert(token_starts(parts, 17));
    assert(token_starts(parts, 23));
    assert(token_starts(parts, 25));
    lemma_punct_at(parts, 7, OPEN_BRACE);
    lemma_content_member_at(parts, 9, content);
    lemma_punct_at(parts, 15, COMMA);
    lemma_channel_member_at(parts, 17, channel_id);
    lemma_punct_at(parts, 23, CLOSE_BRACE);
    assert(scan_content_then_channel(join(parts), start_of(parts, 9)) == Some(
        (channel_id, content, start_of(parts, 23)),
    ));
}

/// The decoder reads every layout of a message: whatever whitespace stands
/// around the tokens, however the names and the text are spelled, and
/// whichever member comes first.
pub proof fn lemma_reads_every_message(
    parts: Seq<Seq<u8>>,
    channel_id: u64,
    content: Seq<char>,
    content_first: bool,
)
    requires
        message_parts(parts, channel_id, content, content_first),
    ensures
        parse_envelope(join(parts)) == Some(EnvelopeView::Message { channel_id, content }),
{
    let s = join(parts);
    let e = EnvelopeView::Message { channel_id, content };
    lemma_words();
    lemma_ends(parts);
    lemma_literal_is_quoted(parts[3], message_key());
    assert(token_starts(parts, 1));
    assert(token_starts(parts, 3));
    assert(token_starts(parts, 7));
    assert(token_starts(parts, 27));
    lemma_gap_at(parts, 0);
    lemma_punct_at(parts, 1, OPEN_BRACE);
    lemma_name_at(parts, 3, message_key());
    if content_first {
        lemma_content_first_at(parts, channel_id, content);
    } else {
        lemma_channel_first_at(parts, channel_id, content);
    }
    lemma_punct_at(parts, 25, CLOSE_BRACE);
    assert(scan_variant(s, message_key(), start_of(parts, 7)) == Some((e, start_of(parts, 25))));
}

/// The decoder reads every layout of the heartbeat: whatever whitespace
/// stands around the tokens, and however the name is spelled.
pub proof fn lemma_reads_every_keepalive(parts: Seq<Seq<u8>>)
    requires
        keepalive_parts(parts),
    ensures
        parse_envelope(join(parts)) == Some(EnvelopeView::KeepAlive),
{
    lemma_words();
    lemma_ends(parts);
    lemma_literal_is_quoted(parts[3], keepalive_key());
    assert(token_starts(parts, 1));
    assert(token_starts(parts, 3));
    assert(token_starts(parts, 7));
    assert(token_starts(parts, 9));
    assert(token_starts(parts, 11));
    lemma_gap_at(parts, 0);
    lemma_punct_at(parts, 1, OPEN_BRACE);
    lemma_name_at(parts, 3, keepalive_key());
    lemma_word_at(parts, 7);
    lemma_punct_at(parts, 9, CLOSE_BRACE);
}

/// The decoder reads every wire form: whatever is a wire form of an envelope
/// parses, and parses as that envelope.
pub proof fn lemma_reads_every_wire_form(s: Seq<u8>, e: EnvelopeView)
    requires
        is_wire_form(s, e),
    ensures
        parse_envelope(s) == Some(e),
{
    match e {
        EnvelopeView::KeepAlive => {
            let parts = choose|parts: Seq<Seq<u8>>|
                #![trigger keepalive_parts(parts)]
                keepalive_parts(parts) && s == join(parts);
            lemma_reads_every_keepalive(parts);
        },
        EnvelopeView::Message { channel_id, content } => {
            let (parts, content_first) = choose|parts: Seq<Seq<u8>>, content_first: bool|
                #![trigger message_parts(parts, channel_id, content, content_first)]
                message_parts(parts, channel_id, content, content_first) && s == join(parts);
            lemma_reads_every_message(parts, channel_id, content, content_first);
        },
    }
}

/// A wire form is the wire form of one envelope only.
pub proof fn lemma_wire_form_names_one_envelope(s: Seq<u8>, a: EnvelopeView, b: EnvelopeView)
    requires
        is_wire_form(s, a),
        is_wire_form(s, b),
    ensures
        a == b,
{
    lemma_reads_every_wire_form(s, a);
    lemma_reads_every_wire_form(s, b);
}

/// The parts up to `count`, one after another, are those up to `count - 1`
/// and the part in front of `count`.
proof fn lemma_join_next(parts: Seq<Seq<u8>>, count: int)
    requires
        0 < count <= parts.len(),
    ensures
        join(parts.subrange(0, count)) == join(parts.subrange(0, count - 1)) + parts[count - 1],
{
    assert(parts.subrange(0, count).drop_last() =~= parts.subrange(0, count - 1));
}

/// An empty part adds nothing.
proof fn lemma_join_gap(parts: Seq<Seq<u8>>, count: int)
    requires
        0 < count <= parts.len(),
        parts[count - 1] == Seq::<u8>::empty(),
    ensures
        join(parts.subrange(0, count)) == join(parts.subrange(0, count - 1)),
{
    lemma_join_next(parts, count);
    assert(join(parts.subrange(0, count - 1)) + Seq::<u8>::empty() =~= join(
        parts.subrange(0, count - 1),
    ));
}

/// The part `k` of what the encoder writes for the heartbeat.
spec fn canonical_keepalive_part(k: int) -> Seq<u8> {
    if k == 1 {
        seq![OPEN_BRACE]
    } else if k == 3 {
        quoted(keepalive_key())
    } else if k == 5 {
        seq![COLON]
    } else if k == 7 {
        null_word()
    } else if k == 9 {
        seq![CLOSE_BRACE]
    } else {
        Seq::<u8>::empty()
    }
}

/// The parts that the encoder writes for the heartbeat.
spec fn canonical_keepalive() -> Seq<Seq<u8>> {
    Seq::new(11, |k: int| canonical_keepalive_part(k))
}

/// The part `k` of what the encoder writes for a message.
spec fn canonical_message_part(channel_id: u64, content: Seq<char>, k: int) -> Seq<u8> {
    if k == 1 || k == 7 {
        seq![OPEN_BRACE]
    } else if k == 3 {
        quoted(message_key())
    } else if k == 5 || k == 11 || k == 19 {
        seq![COLON]
    } else if k == 9 {
        quoted(channel_key())
    } else if k == 13 {
        decimal(channel_id as nat)
    } else if k == 15 {
        seq![COMMA]
    } else if k == 17 {
        quoted(content_key())
    } else if k == 21 {
        quoted(encode_utf8(content))
    } else if k == 23 || k == 25 {
        seq![CLOSE_BRACE]
    } else {
        Seq::<u8>::empty()
    }
}

/// The parts that the encoder writes for a message.
spec fn canonical_message(channel_id: u64, content: Seq<char>) -> Seq<Seq<u8>> {
    Seq::new(27, |k: int| canonical_message_part(channel_id, content, k))
}

proof fn lemma_canonical_keepalive_text()
    ensures
        join(canonical_keepalive()) == envelope_text(EnvelopeView::KeepAlive),
{
    let parts = canonical_keepalive();
    assert(parts.subrange(0, 0) =~= Seq::<Seq<u8>>::empty());
    assert(parts.subrange(0, 11) =~= parts);
    lemma_join_gap(parts, 1);
    lemma_join_next(parts, 2);
    lemma_join_gap(parts, 3);
    lemma_join_next(parts, 4);
    lemma_join_gap(parts, 5);
    lemma_join_next(parts, 6);
    lemma_join_gap(parts, 7);
    lemma_join_next(parts, 8);
    lemma_join_gap(parts, 9);
    lemma_join_next(parts, 10);
    lemma_join_gap(parts, 11);
    assert(join(parts.subrange(0, 0)) =~= Seq::<u8>::empty());
    assert(join(parts) =~= envelope_text(EnvelopeView::KeepAlive));
}

proof fn lemma_canonical_message_text(channel_id: u64, content: Seq<char>)
    ensures
        join(canonical_message(channel_id, content)) == envelope_text(
            EnvelopeView::Message { channel_id, content },
        ),
{
    let parts = canonical_message(channel_id, content);
    assert(parts.subrange(0, 0) =~= Seq::<Seq<u8>>::empty());
    assert(parts.subrange(0, 27) =~= parts);
    assert(join(parts.subrange(0, 0)) =~= Seq::<u8>::empty());
    lemma_join_gap(parts, 1);
    lemma_join_next(parts, 2);
    lemma_join_gap(parts, 3);
    lemma_join_next(parts, 4);
    lemma_join_gap(parts, 5);
    lemma_join_next(parts, 6);
    lemma_join_gap(parts, 7);
    lemma_join_next(parts, 8);
    lemma_join_gap(parts, 9);
    let first = seq![OPEN_BRACE] + quoted(message_key()) + seq![COLON] + seq![OPEN_BRACE];
    assert(join(parts.subrange(0, 9)) =~= first);
    lemma_join_next(parts, 10);
    lemma_join_gap(parts, 11);
    lemma_join_next(parts, 12);
    lemma_join_gap(parts, 13);
    lemma_join_next(parts, 14);
    lemma_join_gap(parts, 15);
    lemma_join_next(parts, 16);
    lemma_join_gap(parts, 17);
    let second = first + quoted(channel_key()) + seq![COLON] + decimal(channel_id as nat) + seq![
        COMMA,
    ];
    assert(join(parts.subrange(0, 17)) =~= second);
    lemma_join_next(parts, 18);
    lemma_join_gap(parts, 19);
    lemma_join_next(parts, 20);
    lemma_join_gap(parts, 21);
    lemma_join_next(parts, 22);
    lemma_join_gap(parts, 23);
    lemma_join_next(parts, 24);
    lemma_join_gap(parts, 25);
    lemma_join_next(parts, 26);
    lemma_join_gap(parts, 27);
    assert(join(parts) =~= second + quoted(content_key()) + seq![COLON] + quoted(
        encode_utf8(content),
    ) + seq![CLOSE_BRACE] + seq![CLOSE_BRACE]);
    assert(join(parts) =~= envelope_text(EnvelopeView::Message { channel_id, content }));
}

proof fn lemma_canonical_keepalive_parts()
    ensures
        keepalive_parts(canonical_keepalive()),
{
    let parts = canonical_keepalive();
    lemma_quoted_spells(keepalive_key());
    assert(is_blank(Seq::<u8>::empty()));
    assert(punct_at(parts, 1, OPEN_BRACE));
    assert(name_at(parts, 3, keepalive_key()));
    assert(punct_at(parts, 9, CLOSE_BRACE));
}

proof fn lemma_canonical_message_parts(channel_id: u64, content: Seq<char>)
    ensures
        message_parts(canonical_message(channel_id, content), channel_id, content, false),
{
    let parts = canonical_message(channel_id, content);
    lemma_quoted_spells(message_key());
    lemma_quoted_spells(channel_key());
    lemma_quoted_spells(content_key());
    lemma_quoted_spells(encode_utf8(content));
    assert(is_blank(Seq::<u8>::empty()));
    assert(punct_at(parts, 1, OPEN_BRACE));
    assert(name_at(parts, 3, message_key()));
    assert(punct_at(parts, 7, OPEN_BRACE));
    assert(channel_member_at(parts, 9, channel_id));
    assert(punct_at(parts, 15, COMMA));
    assert(content_member_at(parts, 17, content));
    assert(punct_at(parts, 23, CLOSE_BRACE));
    assert(punct_at(parts, 25, CLOSE_BRACE));
}

/// What the encoder writes is a wire form of what it was given.
pub proof fn lemma_encoder_writes_wire_form(e: EnvelopeView)
    ensures
        is_wire_form(envelope_text(e), e),
{
    match e {
        EnvelopeView::KeepAlive => {
            lemma_canonical_keepalive_text();
            lemma_canonical_keepalive_parts();
        },
        EnvelopeView::Message { channel_id, content } => {
            lemma_canonical_message_text(channel_id, content);
            lemma_canonical_message_parts(channel_id, content);
        },
    }
}

/// Decoding undoes encoding: what the encoder writes for an envelope parses,
/// and parses as that envelope.
pub proof fn lemma_round_trip(e: EnvelopeView)
    ensures
        parse_envelope(envelope_text(e)) == Some(e),
{
    lemma_encoder_writes_wire_form(e);
    lemma_reads_every_wire_form(envelope_text(e), e);
}

/// No two envelopes are written the same.
pub proof fn lemma_encoding_is_injective(a: EnvelopeView, b: EnvelopeView)
    requires
        envelope_text(a) == envelope_text(b),
    ensures
        a == b,
{
    lemma_round_trip(a);
    lemma_round_trip(b);
}

/// The input cut at the given positions.
spec fn pieces(s: Seq<u8>, cuts: Seq<int>) -> Seq<Seq<u8>> {
    Seq::new((cuts.len() - 1) as nat, |k: int| s.subrange(cuts[k], cuts[k + 1]))
}

/// Whether the positions go from the start of the input to its end, none
/// behind the next.
spec fn are_cuts(s: Seq<u8>, cuts: Seq<int>) -> bool {
    &&& cuts.len() >= 1
    &&& cuts[0] == 0
    &&& cuts[cuts.len() - 1] == s.len()
    &&& forall|k: int| 0 <= k < cuts.len() - 1 ==> #[trigger] cuts[k] <= cuts[k + 1]
}

proof fn lemma_pieces_prefix(s: Seq<u8>, cuts: Seq<int>, count: int)
    requires
        are_cuts(s, cuts),
        0 <= count < cuts.len(),
    ensures
        0 <= cuts[count] <= s.len(),
        join(pieces(s, cuts).subrange(0, count)) == s.subrange(0, cuts[count]),
    decreases count,
{
    let all = pieces(s, cuts);
    if count == 0 {
        assert(all.subrange(0, 0) =~= Seq::<Seq<u8>>::empty());
        assert(s.subrange(0, 0) =~= Seq::<u8>::empty());
    } else {
        lemma_pieces_prefix(s, cuts, count - 1);
        lemma_cuts_bounded(s, cuts, count);
        assert(cuts[count - 1] <= cuts[count]);
        assert(all.subrange(0, count).drop_last() =~= all.subrange(0, count - 1));
        assert(all.subrange(0, count).last() == s.subrange(cuts[count - 1], cuts[count]));
        assert(s.subrange(0, cuts[count - 1]) + s.subrange(cuts[count - 1], cuts[count])
            =~= s.subrange(0, cuts[count]));
    }
}

proof fn lemma_cuts_bounded(s: Seq<u8>, cuts: Seq<int>, k: int)
    requires
        are_cuts(s, cuts),
        0 <= k < cuts.len(),
    ensures
        0 <= cuts[k] <= s.len(),
    decreases cuts.len() - k,
{
    lemma_cuts_nonnegative(s, cuts, k);
    if k < cuts.len() - 1 {
        lemma_cuts_bounded(s, cuts, k + 1);
        assert(cuts[k] <= cuts[k + 1]);
    }
}

proof fn lemma_cuts_nonnegative(s: Seq<u8>, cuts: Seq<int>, k: int)
    requires
        are_cuts(s, cuts),
        0 <= k < cuts.len(),
    ensures
        0 <= cuts[k],
    decreases k,
{
    if k > 0 {
        lemma_cuts_nonnegative(s, cuts, k - 1);
        assert(cuts[k - 1] <= cuts[k]);
    }
}

/// The pieces of an input, one after another, are the input.
proof fn lemma_pieces_join(s: Seq<u8>, cuts: Seq<int>)
    requires
        are_cuts(s, cuts),
    ensures
        join(pieces(s, cuts)) == s,
{
    let all = pieces(s, cuts);
    lemma_pieces_prefix(s, cuts, cuts.len() - 1);
    assert(all.subrange(0, cuts.len() - 1) =~= all);
    assert(s.subrange(0, s.len() as int) =~= s);
}

/// What whitespace is skipped is a gap.
proof fn lemma_gap_cut(s: Seq<u8>, i: int)
    requires
        0 <= i <= s.len(),
    ensures
        i <= skip_space(s, i) <= s.len(),
        is_blank(s.subrange(i, skip_space(s, i))),
{
    lemma_skip_space_run(s, i);
    let w = s.subrange(i, skip_space(s, i));
    assert forall|k: int| 0 <= k < w.len() implies is_space(#[trigger] w[k]) by {
        assert(w[k] == s[i + k]);
    }
}

/// Where the gap behind the byte at `i` ends.
spec fn after(s: Seq<u8>, i: int) -> int {
    skip_space(s, i + 1)
}

/// Whether the byte `b` at `i` and the gap behind it are inside the input.
spec fn punct_cut(s: Seq<u8>, i: int, b: u8) -> bool {
    &&& 0 <= i
    &&& i + 1 <= after(s, i) <= s.len()
    &&& s.subrange(i, i + 1) == seq![b]
    &&& is_blank(s.subrange(i + 1, after(s, i)))
}

/// A step of the decoder over a punctuation byte read that byte and a gap.
proof fn lemma_punct_cut(s: Seq<u8>, i: int, b: u8)
    requires
        0 <= i,
        scan_punct(s, i, b) is Some,
    ensures
        scan_punct(s, i, b) == Some(after(s, i)),
        punct_cut(s, i, b),
{
    lemma_gap_cut(s, i + 1);
    assert(s.subrange(i, i + 1) =~= seq![b]);
}

/// Where the literal of the name at `i` ends.
spec fn name_end(s: Seq<u8>, i: int) -> int {
    scan_string(s, i).unwrap().1
}

/// Where the colon behind the name at `i` stands.
spec fn colon_at(s: Seq<u8>, i: int) -> int {
    skip_space(s, name_end(s, i))
}

/// Where the value behind the name at `i` starts.
spec fn value_at(s: Seq<u8>, i: int) -> int {
    after(s, colon_at(s, i))
}

/// Whether a literal that spells `name`, a gap, a colon and a gap stand at
/// `i`, inside the input.
spec fn name_cut(s: Seq<u8>, i: int, name: Seq<u8>) -> bool {
    &&& 0 <= i < name_end(s, i) <= colon_at(s, i)
    &&& spells(s.subrange(i, name_end(s, i)), name)
    &&& is_blank(s.subrange(name_end(s, i), colon_at(s, i)))
    &&& punct_cut(s, colon_at(s, i), COLON)
}

/// A step of the decoder over a name read a literal, a gap, a colon and a
/// gap.
proof fn lemma_name_cut(s: Seq<u8>, i: int)
    requires
        0 <= i,
        scan_name(s, i) is Some,
    ensures
        scan_name(s, i).unwrap().1 == value_at(s, i),
        name_cut(s, i, scan_name(s, i).unwrap().0),
{
    lemma_literal_spells(s, i);
    lemma_gap_cut(s, name_end(s, i));
    lemma_punct_cut(s, colon_at(s, i), COLON);
}

/// Where the number behind the name at `i` ends.
spec fn number_end(s: Seq<u8>, i: int) -> int {
    scan_number(s, value_at(s, i)).unwrap().1
}

/// Where the text behind the name at `i` ends.
spec fn text_end(s: Seq<u8>, i: int) -> int {
    scan_string(s, value_at(s, i)).unwrap().1
}

/// Whether the member `"channel_id": <number>` and a gap stand at `i`,
/// inside the input.
spec fn channel_member_cut(s: Seq<u8>, i: int, channel_id: u64) -> bool {
    &&& name_cut(s, i, channel_key())
    &&& value_at(s, i) < number_end(s, i) <= skip_space(s, number_end(s, i)) <= s.len()
    &&& s.subrange(value_at(s, i), number_end(s, i)) == decimal(channel_id as nat)
    &&& is_blank(s.subrange(number_end(s, i), skip_space(s, number_end(s, i))))
}

/// Whether the member `"content": <string>` and a gap stand at `i`, inside
/// the input.
spec fn content_member_cut(s: Seq<u8>, i: int, content: Seq<char>) -> bool {
    &&& name_cut(s, i, content_key())
    &&& value_at(s, i) < text_end(s, i) <= skip_space(s, text_end(s, i)) <= s.len()
    &&& spells(s.subrange(value_at(s, i), text_end(s, i)), encode_utf8(content))
    &&& is_blank(s.subrange(text_end(s, i), skip_space(s, text_end(s, i))))
}

/// A step of the decoder over the channel member read its parts.
proof fn lemma_channel_member_cut(s: Seq<u8>, i: int)
    requires
        0 <= i,
        scan_channel_member(s, i) is Some,
    ensures
        scan_channel_member(s, i).unwrap().1 == skip_space(s, number_end(s, i)),
        channel_member_cut(s, i, scan_channel_member(s, i).unwrap().0),
{
    lemma_name_cut(s, i);
    lemma_number_is_decimal(s, value_at(s, i));
    lemma_gap_cut(s, number_end(s, i));
}

/// A step of the decoder over the text member read its parts.
proof fn lemma_content_member_cut(s: Seq<u8>, i: int)
    requires
        0 <= i,
        scan_content_member(s, i) is Some,
    ensures
        scan_content_member(s, i).unwrap().1 == skip_space(s, text_end(s, i)),
        content_member_cut(s, i, scan_content_member(s, i).unwrap().0),
{
    lemma_name_cut(s, i);
    lemma_literal_spells(s, value_at(s, i));
    lemma_gap_cut(s, text_end(s, i));
    let bytes = scan_string(s, value_at(s, i)).unwrap().0;
    decode_utf8_encode_utf8(bytes);
}

/// Where the decoder cuts a heartbeat.
spec fn keepalive_cut(s: Seq<u8>, k: int) -> int {
    let c1 = skip_space(s, 0);
    let c3 = after(s, c1);
    let c7 = value_at(s, c3);
    let c9 = skip_space(s, c7 + 4);
    if k <= 0 {
        0
    } else if k == 1 {
        c1
    } else if k == 2 {
        c1 + 1
    } else if k == 3 {
        c3
    } else if k == 4 {
        name_end(s, c3)
    } else if k == 5 {
        colon_at(s, c3)
    } else if k == 6 {
        colon_at(s, c3) + 1
    } else if k == 7 {
        c7
    } else if k == 8 {
        c7 + 4
    } else if k == 9 {
        c9
    } else if k == 10 {
        c9 + 1
    } else {
        after(s, c9)
    }
}

/// What the decoder reads as a heartbeat, it cuts into the parts of a
/// heartbeat.
spec fn keepalive_cut_facts(s: Seq<u8>) -> bool {
    let c1 = skip_space(s, 0);
    let c3 = after(s, c1);
    let c7 = value_at(s, c3);
    let c9 = skip_space(s, c7 + 4);
    &&& 0 <= c1
    &&& is_blank(s.subrange(0, c1))
    &&& punct_cut(s, c1, OPEN_BRACE)
    &&& name_cut(s, c3, keepalive_key())
    &&& c7 + 4 <= c9
    &&& s.subrange(c7, c7 + 4) == null_word()
    &&& is_blank(s.subrange(c7 + 4, c9))
    &&& punct_cut(s, c9, CLOSE_BRACE)
    &&& after(s, c9) == s.len()
}

proof fn lemma_keepalive_cut_facts(s: Seq<u8>)
    requires
        parse_envelope(s) == Some(EnvelopeView::KeepAlive),
    ensures
        keepalive_cut_facts(s),
{
    lemma_words();
    let c1 = skip_space(s, 0);
    lemma_gap_cut(s, 0);
    lemma_punct_cut(s, c1, OPEN_BRACE);
    let c3 = after(s, c1);
    let (name, c7) = scan_name(s, c3).unwrap();
    lemma_name_cut(s, c3);
    assert(name == keepalive_key());
    let c9 = scan_word(s, c7, null_word()).unwrap();
    lemma_gap_cut(s, c7 + 4);
    lemma_punct_cut(s, c9, CLOSE_BRACE);
}

proof fn lemma_keepalive_pieces(s: Seq<u8>)
    requires
        keepalive_cut_facts(s),
    ensures
        are_cuts(s, Seq::new(12, |k: int| keepalive_cut(s, k))),
        keepalive_parts(pieces(s, Seq::new(12, |k: int| keepalive_cut(s, k)))),
{
    let cuts = Seq::new(12, |k: int| keepalive_cut(s, k));
    let parts = pieces(s, cuts);
    assert(parts.len() == 11);
    assert(punct_at(parts, 1, OPEN_BRACE));
    assert(name_at(parts, 3, keepalive_key()));
    assert(parts[7] == null_word());
    assert(punct_at(parts, 9, CLOSE_BRACE));
    assert forall|k: int| 0 <= k < cuts.len() - 1 implies #[trigger] cuts[k] <= cuts[k + 1] by {}
}

/// What the decoder reads as a heartbeat is a wire form of the heartbeat.
proof fn lemma_keepalive_is_wire_form(s: Seq<u8>)
    requires
        parse_envelope(s) == Some(EnvelopeView::KeepAlive),
    ensures
        is_wire_form(s, EnvelopeView::KeepAlive),
{
    let cuts = Seq::new(12, |k: int| keepalive_cut(s, k));
    lemma_keepalive_cut_facts(s);
    lemma_keepalive_pieces(s);
    lemma_pieces_join(s, cuts);
    assert(keepalive_parts(pieces(s, cuts)) && s == join(pieces(s, cuts)));
}

/// Where the value of the member at `i` ends.
spec fn value_end(s: Seq<u8>, i: int, is_text: bool) -> int {
    if is_text {
        text_end(s, i)
    } else {
        number_end(s, i)
    }
}

/// Where the gap behind the member at `i` ends.
spec fn member_end(s: Seq<u8>, i: int, is_text: bool) -> int {
    skip_space(s, value_end(s, i, is_text))
}

/// Whether the text member, or the channel member, and a gap stand at `i`,
/// inside the input.
spec fn member_cut(s: Seq<u8>, i: int, channel_id: u64, content: Seq<char>, is_text: bool) -> bool {
    if is_text {
        content_member_cut(s, i, content)
    } else {
        channel_member_cut(s, i, channel_id)
    }
}

/// Where the decoder cuts a message.
spec fn message_cut(s: Seq<u8>, content_first: bool, k: int) -> int {
    let c1 = skip_space(s, 0);
    let c3 = after(s, c1);
    let c7 = value_at(s, c3);
    let c9 = after(s, c7);
    let c15 = member_end(s, c9, content_first);
    let c17 = after(s, c15);
    let c23 = member_end(s, c17, !content_first);
    let c25 = after(s, c23);
    if k <= 0 {
        0
    } else if k == 1 {
        c1
    } else if k == 2 {
        c1 + 1
    } else if k == 3 {
        c3
    } else if k == 4 {
        name_end(s, c3)
    } else if k == 5 {
        colon_at(s, c3)
    } else if k == 6 {
        colon_at(s, c3) + 1
    } else if k == 7 {
        c7
    } else if k == 8 {
        c7 + 1
    } else if k == 9 {
        c9
    } else if k == 10 {
        name_end(s, c9)
    } else if k == 11 {
        colon_at(s, c9)
    } else if k == 12 {
        colon_at(s, c9) + 1
    } else if k == 13 {
        value_at(s, c9)
    } else if k == 14 {
        value_end(s, c9, content_first)
    } else if k == 15 {
        c15
    } else if k == 16 {
        c15 + 1
    } else if k == 17 {
        c17
    } else if k == 18 {
        name_end(s, c17)
    } else if k == 19 {
        colon_at(s, c17)
    } else if k == 20 {
        colon_at(s, c17) + 1
    } else if k == 21 {
        value_at(s, c17)
    } else if k == 22 {
        value_end(s, c17, !content_first)
    } else if k == 23 {
        c23
    } else if k == 24 {
        c23 + 1
    } else if k == 25 {
        c25
    } else if k == 26 {
        c25 + 1
    } else {
        after(s, c25)
    }
}

/// What the decoder reads as a message, it cuts into the parts of that
/// message.
spec fn message_cut_facts(
    s: Seq<u8>,
    channel_id: u64,
    content: Seq<char>,
    content_first: bool,
) -> bool {
    let c1 = skip_space(s, 0);
    let c3 = after(s, c1);
    let c7 = value_at(s, c3);
    let c9 = after(s, c7);
    let c15 = member_end(s, c9, content_first);
    let c17 = after(s, c15);
    let c23 = member_end(s, c17, !content_first);
    let c25 = after(s, c23);
    &&& 0 <= c1
    &&& is_blank(s.subrange(0, c1))
    &&& punct_cut(s, c1, OPEN_BRACE)
    &&& name_cut(s, c3, message_key())
    &&& punct_cut(s, c7, OPEN_BRACE)
    &&& member_cut(s, c9, channel_id, content, content_first)
    &&& punct_cut(s, c15, COMMA)
    &&& member_cut(s, c17, channel_id, content, !content_first)
    &&& punct_cut(s, c23, CLOSE_BRACE)
    &&& punct_cut(s, c25, CLOSE_BRACE)
    &&& after(s, c25) == s.len()
}

/// Whether the decoder finds the text of a message in front of its channel.
spec fn reads_content_first(s: Seq<u8>) -> bool {
    scan_channel_member(s, after(s, value_at(s, after(s, skip_space(s, 0))))) is None
}

/// What the decoder made of the two members, it cut as their parts.
proof fn lemma_members_cut_facts(s: Seq<u8>, c9: int, channel_id: u64, content: Seq<char>)
    requires
        0 <= c9,
        (if scan_channel_member(s, c9) is Some {
            scan_channel_then_content(s, c9)
        } else {
            scan_content_then_channel(s, c9)
        }) matches Some(found) && found.0 == channel_id && found.1 == content,
    ensures
        ({
            let content_first = scan_channel_member(s, c9) is None;
            let c15 = member_end(s, c9, content_first);
            let c17 = after(s, c15);
            let c23 = member_end(s, c17, !content_first);
            &&& member_cut(s, c9, channel_id, content, content_first)
            &&& punct_cut(s, c15, COMMA)
            &&& member_cut(s, c17, channel_id, content, !content_first)
            &&& (if scan_channel_member(s, c9) is Some {
                scan_channel_then_content(s, c9)
            } else {
                scan_content_then_channel(s, c9)
            }).unwrap().2 == c23
        }),
{
    if scan_channel_member(s, c9) is Some {
        lemma_channel_member_cut(s, c9);
        let c15 = member_end(s, c9, false);
        lemma_punct_cut(s, c15, COMMA);
        lemma_content_member_cut(s, after(s, c15));
    } else {
        lemma_content_member_cut(s, c9);
        let c15 = member_end(s, c9, true);
        lemma_punct_cut(s, c15, COMMA);
        lemma_channel_member_cut(s, after(s, c15));
    }
}

proof fn lemma_message_cut_facts(s: Seq<u8>, channel_id: u64, content: Seq<char>)
    requires
        parse_envelope(s) == Some(EnvelopeView::Message { channel_id, content }),
    ensures
        message_cut_facts(s, channel_id, content, reads_content_first(s)),
{
    lemma_words();
    let c1 = skip_space(s, 0);
    lemma_gap_cut(s, 0);
    lemma_punct_cut(s, c1, OPEN_BRACE);
    let c3 = after(s, c1);
    let (name, c7) = scan_name(s, c3).unwrap();
    lemma_name_cut(s, c3);
    assert(name == message_key());
    lemma_punct_cut(s, c7, OPEN_BRACE);
    let c9 = after(s, c7);
    lemma_members_cut_facts(s, c9, channel_id, content);
    let content_first = scan_channel_member(s, c9) is None;
    let c15 = member_end(s, c9, content_first);
    let c17 = after(s, c15);
    let c23 = member_end(s, c17, !content_first);
    lemma_punct_cut(s, c23, CLOSE_BRACE);
    lemma_punct_cut(s, after(s, c23), CLOSE_BRACE);
}

proof fn lemma_message_pieces(
    s: Seq<u8>,
    channel_id: u64,
    content: Seq<char>,
    content_first: bool,
)
    requires
        message_cut_facts(s, channel_id, content, content_first),
    ensures
        are_cuts(s, Seq::new(28, |k: int| message_cut(s, content_first, k))),
        message_parts(
            pieces(s, Seq::new(28, |k: int| message_cut(s, content_first, k))),
            channel_id,
            content,
            content_first,
        ),
{
    let cuts = Seq::new(28, |k: int| message_cut(s, content_first, k));
    let parts = pieces(s, cuts);
    assert(parts.len() == 27);
    assert(punct_at(parts, 1, OPEN_BRACE));
    assert(name_at(parts, 3, message_key()));
    assert(punct_at(parts, 7, OPEN_BRACE));
    assert(punct_at(parts, 15, COMMA));
    assert(punct_at(parts, 23, CLOSE_BRACE));
    assert(punct_at(parts, 25, CLOSE_BRACE));
    if content_first {
        assert(content_member_at(parts, 9, content));
        assert(channel_member_at(parts, 17, channel_id));
    } else {
        assert(channel_member_at(parts, 9, channel_id));
        assert(content_member_at(parts, 17, content));
    }
    assert forall|k: int| 0 <= k < cuts.len() - 1 implies #[trigger] cuts[k] <= cuts[k + 1] by {}
}

/// Parts of a message, one after another, are a wire form of that message.
proof fn lemma_message_parts_are_wire_form(
    s: Seq<u8>,
    parts: Seq<Seq<u8>>,
    channel_id: u64,
    content: Seq<char>,
    content_first: bool,
)
    requires
        message_parts(parts, channel_id, content, content_first),
        s == join(parts),
    ensures
        is_wire_form(s, EnvelopeView::Message { channel_id, content }),
{
    let e = EnvelopeView::Message { channel_id, content };
    assert(e->channel_id == channel_id && e->content == content);
    assert(message_parts(parts, e->channel_id, e->content, content_first) && s == join(parts));
}

/// An input that is cut into the parts of a message is a wire form of that
/// message.
proof fn lemma_cut_message_is_wire_form(
    s: Seq<u8>,
    channel_id: u64,
    content: Seq<char>,
    content_first: bool,
)
    requires
        message_cut_facts(s, channel_id, content, content_first),
    ensures
        is_wire_form(s, EnvelopeView::Message { channel_id, content }),
{
    let cuts = Seq::new(28, |k: int| message_cut(s, content_first, k));
    lemma_message_pieces(s, channel_id, content, content_first);
    lemma_pieces_join(s, cuts);
    lemma_message_parts_are_wire_form(s, pieces(s, cuts), channel_id, content, content_first);
}

/// What the decoder reads as a message is a wire form of that message.
proof fn lemma_message_is_wire_form(s: Seq<u8>, channel_id: u64, content: Seq<char>)
    requires
        parse_envelope(s) == Some(EnvelopeView::Message { channel_id, content }),
    ensures
        is_wire_form(s, EnvelopeView::Message { channel_id, content }),
{
    lemma_message_cut_facts(s, channel_id, content);
    lemma_cut_message_is_wire_form(s, channel_id, content, reads_content_first(s));
}

/// The decoder reads nothing but wire forms: whatever parses as an envelope
/// is a wire form of that envelope.
pub proof fn lemma_reads_only_wire_forms(s: Seq<u8>, e: EnvelopeView)
    requires
        parse_envelope(s) == Some(e),
    ensures
        is_wire_form(s, e),
{
    match e {
        EnvelopeView::KeepAlive => lemma_keepalive_is_wire_form(s),
        EnvelopeView::Message { channel_id, content } => lemma_message_is_wire_form(
            s,
            channel_id,
            content,
        ),
    }
}

/// The decoder reads exactly the grammar: an input parses as an envelope if
/// and only if it is a wire form of that envelope.
pub proof fn lemma_decoder_reads_the_grammar(s: Seq<u8>, e: EnvelopeView)
    ensures
        parse_envelope(s) == Some(e) <==> is_wire_form(s, e),
{
    if parse_envelope(s) == Some(e) {
        lemma_reads_only_wire_forms(s, e);
    }
    if is_wire_form(s, e) {
        lemma_reads_every_wire_form(s, e);
    }
}

} // verus!
