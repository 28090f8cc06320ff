//! Event decoding: one reassembled SSE frame is lossily decoded to text,
//! trimmed, and classified as a content delta, the upstream terminal
//! sentinel, or an ignorable line. Classification is a pure function of the
//! frame text; malformed JSON is never an error, only ignorable.

use vstd::prelude::*;
use vstd::string::*;

use crate::frame::raw_frames;
use crate::text::{trim_chars, trim_str, str_eq, str_has_prefix};

verus! {

/// What `String::from_utf8_lossy` returns for a byte sequence; a function of
/// the bytes alone.
pub uninterp spec fn lossy_decoded(bytes: Seq<u8>) -> Seq<char>;

/// Relies on String::from_utf8_lossy: the decoding depends on the bytes
/// alone, and valid UTF-8 decodes exactly (invalid sequences are replaced,
/// never fatal).
#[verifier::external_body]
pub(crate) fn utf8_lossy(bytes: &[u8]) -> (r: String)
    ensures
        r@ == lossy_decoded(bytes@),
        vstd::utf8::valid_utf8(bytes@) ==> r@ == vstd::utf8::decode_utf8(bytes@),
{
    String::from_utf8_lossy(bytes).into_owned()
}

/// What parsing an SSE data payload as JSON yields: `None` when the text is
/// not valid JSON; otherwise the string at choices[0].delta.content, with
/// the empty string standing in when that path is absent or not a string.
/// A function of the payload text alone.
pub uninterp spec fn delta_content_of(payload: Seq<char>) -> Option<Seq<char>>;

/// Relies on serde_json::from_str and serde_json::Value indexing: parsing is
/// deterministic in the text; a missing or non-string
/// choices[0].delta.content indexes to Null and reads back as empty.
#[verifier::external_body]
fn extract_delta_content(payload: &str) -> (r: Option<String>)
    ensures
        match r {
            Some(s) => delta_content_of(payload@) == Some(s@),
            None => delta_content_of(payload@) is None,
        },
{
    match serde_json::from_str::<serde_json::Value>(payload) {
        Ok(v) => Some(v["choices"][0]["delta"]["content"].as_str().unwrap_or("").to_string()),
        Err(_) => None,
    }
}

/// The classification of one event unit.
pub enum EventSpec {
    /// A non-empty incremental text delta.
    Delta(Seq<char>),
    /// The upstream's explicit end-of-stream marker.
    Terminal,
    /// Anything else: comments, keep-alives, malformed or empty deltas.
    Ignorable,
}

/// The terminal sentinel line of the source protocol.
pub open spec fn done_sentinel() -> Seq<char> {
    "data: [DONE]"@
}

/// The prefix that marks an SSE data line.
pub open spec fn data_prefix() -> Seq<char> {
    "data: "@
}

/// The classification rules, in order: an exact sentinel match (after
/// trimming) is terminal; a data line parses as JSON and yields a delta
/// exactly when the extracted content is non-empty; everything else,
/// including parse failures, is ignorable.
pub open spec fn decode_unit(u: Seq<char>) -> EventSpec {
    let t = trim_chars(u);
    if t == done_sentinel() {
        EventSpec::Terminal
    } else if t.len() >= data_prefix().len() && t.take(data_prefix().len() as int)
        == data_prefix() {
        match delta_content_of(t.skip(data_prefix().len() as int)) {
            Some(c) => if c.len() > 0 {
                EventSpec::Delta(c)
            } else {
                EventSpec::Ignorable
            },
            None => EventSpec::Ignorable,
        }
    } else {
        EventSpec::Ignorable
    }
}

/// Empty-delta suppression: a decoded delta is never empty, so a JSON delta
/// with an empty or missing content field never classifies as a delta.
pub proof fn lemma_empty_delta_suppression(u: Seq<char>)
    ensures
        forall|c: Seq<char>| decode_unit(u) == EventSpec::Delta(c) ==> c.len() > 0,
{
}

/// The decoded form of one event unit, as executable data.
pub enum DecodedEvent {
    /// A non-empty incremental text delta.
    ContentDelta(String),
    /// The upstream's explicit end-of-stream marker.
    Terminal,
    /// Anything else; produces no output.
    Ignorable,
}

/// Classifies one event unit. The result agrees with `decode_unit` on the
/// unit's text.
pub fn decode_event(line: &str) -> (ev: DecodedEvent)
    ensures
        match ev {
            DecodedEvent::ContentDelta(s) => decode_unit(line@) == EventSpec::Delta(s@),
            DecodedEvent::Terminal => decode_unit(line@) == EventSpec::Terminal,
            DecodedEvent::Ignorable => decode_unit(line@) == EventSpec::Ignorable,
        },
{
    proof {
        reveal_strlit("data: [DONE]");
        reveal_strlit("data: ");
    }
    let t = trim_str(line);
    if str_eq(t.as_str(), "data: [DONE]") {
        return DecodedEvent::Terminal;
    }
    if !str_has_prefix(t.as_str(), "data: ") {
        return DecodedEvent::Ignorable;
    }
    let n = t.as_str().unicode_len();
    assert(data_prefix().len() == 6);
    let payload = t.as_str().substring_char(6, n);
    assert(payload@ == trim_chars(line@).skip(data_prefix().len() as int));
    match extract_delta_content(payload) {
        Some(content) => {
            if content.as_str().is_empty() {
                DecodedEvent::Ignorable
            } else {
                DecodedEvent::ContentDelta(content)
            }
        },
        None => DecodedEvent::Ignorable,
    }
}

/// The event unit a raw frame yields: its text, trimmed.
pub open spec fn unit_of_frame(f: Seq<u8>) -> Seq<char> {
    trim_chars(lossy_decoded(f))
}

/// The non-empty event units of a sequence of raw frames, in order; empty
/// units are dropped.
pub open spec fn units_of_frames(frames: Seq<Seq<u8>>) -> Seq<Seq<char>>
    decreases frames.len(),
{
    if frames.len() == 0 {
        Seq::empty()
    } else {
        let u = unit_of_frame(frames[0]);
        let rest = units_of_frames(frames.skip(1));
        if u.len() > 0 {
            seq![u] + rest
        } else {
            rest
        }
    }
}

/// The event units of a byte stream: its complete frames, decoded, trimmed,
/// with empties dropped.
pub open spec fn event_units(s: Seq<u8>) -> Seq<Seq<char>> {
    units_of_frames(raw_frames(s))
}

/// Unit extraction distributes over frame concatenation.
pub proof fn lemma_units_concat(a: Seq<Seq<u8>>, b: Seq<Seq<u8>>)
    ensures
        units_of_frames(a + b) == units_of_frames(a) + units_of_frames(b),
    decreases a.len(),
{
    if a.len() == 0 {
        assert(a + b =~= b);
        assert(units_of_frames(a) + units_of_frames(b) =~= units_of_frames(b));
    } else {
        assert((a + b)[0] == a[0]);
        assert((a + b).skip(1) =~= a.skip(1) + b);
        lemma_units_concat(a.skip(1), b);
        let u = unit_of_frame(a[0]);
        if u.len() > 0 {
            assert(seq![u] + (units_of_frames(a.skip(1)) + units_of_frames(b)) =~= (seq![u]
                + units_of_frames(a.skip(1))) + units_of_frames(b));
        }
    }
}

/// Appending one frame appends its unit, when that unit is non-empty.
pub proof fn lemma_units_snoc(frames: Seq<Seq<u8>>, f: Seq<u8>)
    ensures
        units_of_frames(frames.push(f)) == units_of_frames(frames) + (if unit_of_frame(
            f,
        ).len() > 0 {
            seq![unit_of_frame(f)]
        } else {
            Seq::<Seq<char>>::empty()
        }),
{
    assert(frames.push(f) =~= frames + seq![f]);
    lemma_units_concat(frames, seq![f]);
    assert(seq![f].skip(1) =~= Seq::<Seq<u8>>::empty());
    assert(units_of_frames(Seq::<Seq<u8>>::empty()) == Seq::<Seq<char>>::empty());
    assert(seq![f][0] == f);
    let u = unit_of_frame(f);
    if u.len() > 0 {
        assert(units_of_frames(seq![f]) == seq![u] + units_of_frames(seq![f].skip(1)));
        assert(units_of_frames(seq![f]) =~= seq![u]);
    } else {
        assert(units_of_frames(seq![f]) == units_of_frames(seq![f].skip(1)));
        assert(units_of_frames(frames) + units_of_frames(seq![f]) =~= units_of_frames(frames));
    }
}

} // verus!
