//! Response encoding: one decoded event becomes exactly one NDJSON line.
//! The JSON text is built by verified code, including JSON string escaping,
//! so each emitted record is a single well-formed line whose exact text is
//! pinned by the contracts.

use vstd::prelude::*;
use vstd::string::*;

use crate::text::hex_digit;

verus! {

/// The target protocol shape of a response stream, fixed per request by the
/// inbound route: chat responses carry `message.content`, generate
/// responses carry `response`.
#[derive(Clone, Copy, PartialEq, Eq, Structural, Debug)]
pub enum ResponseShape {
    Chat,
    Generate,
}

/// A character that JSON string encoding copies through unchanged.
pub open spec fn json_plain(c: char) -> bool {
    c != '"' && c != '\\' && (c as u32) >= 0x20
}

/// The JSON string encoding of one character: the two-character escapes of
/// RFC 8259 for the quote, backslash and common control characters, the
/// `\u00XX` form for the remaining control characters, and the character
/// itself otherwise.
pub open spec fn json_escape_char(c: char) -> Seq<char> {
    if c == '"' {
        seq!['\\', '"']
    } else if c == '\\' {
        seq!['\\', '\\']
    } else if c == '\u{8}' {
        seq!['\\', 'b']
    } else if c == '\u{c}' {
        seq!['\\', 'f']
    } else if c == '\n' {
        seq!['\\', 'n']
    } else if c == '\r' {
        seq!['\\', 'r']
    } else if c == '\t' {
        seq!['\\', 't']
    } else if (c as u32) < 0x20 {
        seq!['\\', 'u', '0', '0', hex_digit(c as u32 as int / 16), hex_digit(c as u32 as int % 16)]
    } else {
        seq![c]
    }
}

/// The JSON string encoding of a character sequence, without the
/// surrounding quotes.
pub open spec fn json_escaped(s: Seq<char>) -> Seq<char>
    decreases s.len(),
{
    if s.len() == 0 {
        Seq::empty()
    } else {
        json_escape_char(s[0]) + json_escaped(s.skip(1))
    }
}

/// The JSON string literal for a character sequence: the escaped text in
/// quotes.
pub open spec fn json_quoted(s: Seq<char>) -> Seq<char> {
    seq!['"'] + json_escaped(s) + seq!['"']
}

/// Escaping distributes over concatenation.
pub proof fn lemma_escaped_concat(a: Seq<char>, b: Seq<char>)
    ensures
        json_escaped(a + b) == json_escaped(a) + json_escaped(b),
    decreases a.len(),
{
    if a.len() == 0 {
        assert(a + b =~= b);
        assert(json_escaped(a) + json_escaped(b) =~= json_escaped(b));
    } else {
        assert((a + b)[0] == a[0]);
        assert((a + b).skip(1) =~= a.skip(1) + b);
        lemma_escaped_concat(a.skip(1), b);
        assert(json_escape_char(a[0]) + (json_escaped(a.skip(1)) + json_escaped(b))
            =~= (json_escape_char(a[0]) + json_escaped(a.skip(1))) + json_escaped(b));
    }
}

/// A run of plain characters is copied through unchanged.
pub proof fn lemma_escaped_plain(s: Seq<char>)
    requires
        forall|i: int| 0 <= i < s.len() ==> json_plain(s[i]),
    ensures
        json_escaped(s) == s,
    decreases s.len(),
{
    if s.len() > 0 {
        assert(forall|i: int| 0 <= i < s.skip(1).len() ==> s.skip(1)[i] == s[i + 1]);
        lemma_escaped_plain(s.skip(1));
        assert(json_escape_char(s[0]) =~= seq![s[0]]);
        assert(seq![s[0]] + s.skip(1) =~= s);
    }
}

/// Whether `c` is copied through unchanged, as executable code.
fn char_is_json_plain(c: char) -> (r: bool)
    ensures
        r == json_plain(c),
{
    c != '"' && c != '\\' && (c as u32) >= 0x20
}

/// The JSON string literal for `s`, as executable code: the escaped text in
/// quotes.
pub fn json_quote(s: &str) -> (r: String)
    ensures
        r@ == json_quoted(s@),
{
    let n = s.unicode_len();
    let mut r = String::from_str("\"");
    proof {
        reveal_strlit("\"");
        assert(r@ =~= seq!['"'] + json_escaped(s@.take(0)));
    }
    let mut i: usize = 0;
    while i < n
        invariant
            n == s@.len(),
            i <= n,
            r@ == seq!['"'] + json_escaped(s@.take(i as int)),
        decreases n - i,
    {
        let c = s.get_char(i);
        if char_is_json_plain(c) {
            let mut j: usize = i + 1;
            while j < n && char_is_json_plain(s.get_char(j))
                invariant
                    n == s@.len(),
                    i < j <= n,
                    forall|k: int| i <= k < j ==> json_plain(s@[k]),
                decreases n - j,
            {
                j = j + 1;
            }
            let run = s.substring_char(i, j);
            r.append(run);
            proof {
                assert(s@.take(j as int) =~= s@.take(i as int) + run@);
                lemma_escaped_concat(s@.take(i as int), run@);
                lemma_escaped_plain(run@);
            }
            i = j;
        } else {
            let piece: &'static str = if c == '"' {
                "\\\""
            } else if c == '\\' {
                "\\\\"
            } else if c == '\u{8}' {
                "\\b"
            } else if c == '\u{c}' {
                "\\f"
            } else if c == '\n' {
                "\\n"
            } else if c == '\r' {
                "\\r"
            } else if c == '\t' {
                "\\t"
            } else {
                ""
            };
            proof {
                reveal_strlit("\\\"");
                reveal_strlit("\\\\");
                reveal_strlit("\\b");
                reveal_strlit("\\f");
                reveal_strlit("\\n");
                reveal_strlit("\\r");
                reveal_strlit("\\t");
                reveal_strlit("");
                reveal_strlit("\\u00");
            }
            if piece.unicode_len() > 0 {
                r.append(piece);
                proof {
                    assert(piece@ =~= json_escape_char(c));
                }
            } else {
                let code = c as u32;
                assert(code < 0x20);
                r.append("\\u00");
                r.append(crate::text::hex_digit_str((code / 16) as u8));
                r.append(crate::text::hex_digit_str((code % 16) as u8));
                proof {
                    assert("\\u00"@ + seq![hex_digit(code as int / 16)] + seq![
                        hex_digit(code as int % 16),
                    ] =~= json_escape_char(c));
                }
            }
            proof {
                assert(s@.take(i + 1) =~= s@.take(i as int) + seq![s@[i as int]]);
                lemma_escaped_concat(s@.take(i as int), seq![s@[i as int]]);
                assert(seq![s@[i as int]].skip(1) =~= Seq::<char>::empty());
                assert(json_escaped(Seq::<char>::empty()) == Seq::<char>::empty());
                assert(seq![s@[i as int]][0] == c);
                assert(json_escaped(seq![s@[i as int]]) == json_escape_char(c) + json_escaped(
                    seq![s@[i as int]].skip(1),
                ));
                assert(json_escaped(seq![s@[i as int]]) =~= json_escape_char(c));
                assert(r@ =~= seq!['"'] + json_escaped(s@.take(i + 1)));
            }
            i = i + 1;
        }
        assert(r@ =~= seq!['"'] + json_escaped(s@.take(i as int)));
    }
    r.append("\"");
    proof {
        reveal_strlit("\"");
        assert(s@.take(n as int) =~= s@);
        assert(r@ =~= json_quoted(s@));
    }
    r
}

/// The opening of every record: the model and the emission timestamp.
pub open spec fn record_head(model: Seq<char>, created: Seq<char>) -> Seq<char> {
    "{\"model\":"@ + json_quoted(model) + ",\"created_at\":"@ + json_quoted(created)
}

/// The chat-shape payload: an assistant message carrying the content.
pub open spec fn chat_payload(content: Seq<char>) -> Seq<char> {
    ",\"message\":{\"role\":\"assistant\",\"content\":"@ + json_quoted(content)
        + ",\"images\":null}"@
}

/// The generate-shape payload: the bare response text.
pub open spec fn generate_payload(content: Seq<char>) -> Seq<char> {
    ",\"response\":"@ + json_quoted(content)
}

/// The fixed synthetic metering fields of a terminal record. The values are
/// placeholders kept for compatibility with downstream consumers, not
/// measurements.
pub open spec fn metering_fields() -> Seq<char> {
    ",\"context\":[1,2,3],\"total_duration\":122112,\"load_duration\":123112,\"prompt_eval_count\":26,\"prompt_eval_duration\":130079000,\"eval_count\":259,\"eval_duration\":2433122"@
}

/// The full NDJSON line of one record: head, shape-selected payload, done
/// flag (with the metering fields on the terminal record), and one closing
/// newline.
pub open spec fn render_record(
    model: Seq<char>,
    created: Seq<char>,
    shape: ResponseShape,
    done: bool,
    content: Seq<char>,
) -> Seq<char> {
    record_head(model, created) + (if shape == ResponseShape::Chat {
        chat_payload(content)
    } else {
        generate_payload(content)
    }) + (if done {
        ",\"done\":true"@ + metering_fields()
    } else {
        ",\"done\":false"@
    }) + "}\n"@
}

/// No newline occurs anywhere in `s`.
pub open spec fn newline_free(s: Seq<char>) -> bool {
    forall|j: int| 0 <= j < s.len() ==> s[j] != '\n'
}

/// Concatenation preserves newline-freedom.
proof fn lemma_newline_free_concat(a: Seq<char>, b: Seq<char>)
    requires
        newline_free(a),
        newline_free(b),
    ensures
        newline_free(a + b),
{
    assert forall|j: int| 0 <= j < (a + b).len() implies (a + b)[j] != '\n' by {
        if j < a.len() {
            assert((a + b)[j] == a[j]);
        } else {
            assert((a + b)[j] == b[j - a.len()]);
        }
    }
}

/// The escape of one character never contains a newline: a raw newline is
/// escaped, and every escape is built from visible characters.
proof fn lemma_escape_char_newline_free(c: char)
    ensures
        newline_free(json_escape_char(c)),
{
}

/// An escaped string never contains a newline.
pub proof fn lemma_escaped_newline_free(s: Seq<char>)
    ensures
        newline_free(json_escaped(s)),
    decreases s.len(),
{
    if s.len() > 0 {
        lemma_escape_char_newline_free(s[0]);
        lemma_escaped_newline_free(s.skip(1));
        lemma_newline_free_concat(json_escape_char(s[0]), json_escaped(s.skip(1)));
    }
}

/// A JSON string literal never contains a newline, whatever the string.
pub proof fn lemma_quoted_newline_free(s: Seq<char>)
    ensures
        newline_free(json_quoted(s)),
{
    lemma_escaped_newline_free(s);
    assert(newline_free(seq!['"']));
    lemma_newline_free_concat(seq!['"'], json_escaped(s));
    lemma_newline_free_concat(seq!['"'] + json_escaped(s), seq!['"']);
}

/// Stream well-formedness: every rendered record is exactly one NDJSON
/// line. It ends with a newline, and that newline is the only one in it,
/// whatever the model name, timestamp or content contain.
pub proof fn lemma_record_single_line(
    model: Seq<char>,
    created: Seq<char>,
    shape: ResponseShape,
    done: bool,
    content: Seq<char>,
)
    ensures
        ({
            let line = render_record(model, created, shape, done, content);
            &&& line.len() > 0
            &&& line[line.len() - 1] == '\n'
            &&& forall|j: int| 0 <= j < line.len() - 1 ==> line[j] != '\n'
        }),
{
    reveal_strlit("{\"model\":");
    reveal_strlit(",\"created_at\":");
    reveal_strlit(",\"message\":{\"role\":\"assistant\",\"content\":");
    reveal_strlit(",\"images\":null}");
    reveal_strlit(",\"response\":");
    reveal_strlit(",\"done\":true");
    reveal_strlit(",\"done\":false");
    reveal_strlit(
        ",\"context\":[1,2,3],\"total_duration\":122112,\"load_duration\":123112,\"prompt_eval_count\":26,\"prompt_eval_duration\":130079000,\"eval_count\":259,\"eval_duration\":2433122",
    );
    reveal_strlit("}\n");
    lemma_quoted_newline_free(model);
    lemma_quoted_newline_free(created);
    lemma_quoted_newline_free(content);
    assert(newline_free("{\"model\":"@));
    assert(newline_free(",\"created_at\":"@));
    lemma_newline_free_concat("{\"model\":"@, json_quoted(model));
    lemma_newline_free_concat("{\"model\":"@ + json_quoted(model), ",\"created_at\":"@);
    lemma_newline_free_concat(
        "{\"model\":"@ + json_quoted(model) + ",\"created_at\":"@,
        json_quoted(created),
    );
    let head = record_head(model, created);
    assert(newline_free(head));
    let payload = if shape == ResponseShape::Chat {
        chat_payload(content)
    } else {
        generate_payload(content)
    };
    assert(newline_free(",\"message\":{\"role\":\"assistant\",\"content\":"@));
    assert(newline_free(",\"images\":null}"@));
    assert(newline_free(",\"response\":"@));
    if shape == ResponseShape::Chat {
        lemma_newline_free_concat(
            ",\"message\":{\"role\":\"assistant\",\"content\":"@,
            json_quoted(content),
        );
        lemma_newline_free_concat(
            ",\"message\":{\"role\":\"assistant\",\"content\":"@ + json_quoted(content),
            ",\"images\":null}"@,
        );
    } else {
        lemma_newline_free_concat(",\"response\":"@, json_quoted(content));
    }
    assert(newline_free(payload));
    let flag = if done {
        ",\"done\":true"@ + metering_fields()
    } else {
        ",\"done\":false"@
    };
    assert(newline_free(",\"done\":true"@));
    assert(newline_free(",\"done\":false"@));
    assert(newline_free(metering_fields()));
    if done {
        lemma_newline_free_concat(",\"done\":true"@, metering_fields());
    }
    assert(newline_free(flag));
    lemma_newline_free_concat(head, payload);
    lemma_newline_free_concat(head + payload, flag);
    let body = head + payload + flag;
    let line = render_record(model, created, shape, done, content);
    assert(line =~= body + "}\n"@);
    assert("}\n"@.len() == 2);
    assert("}\n"@[0] == '}');
    assert("}\n"@[1] == '\n');
    assert(line[line.len() - 1] == '\n');
    assert forall|j: int| 0 <= j < line.len() - 1 implies line[j] != '\n' by {
        if j < body.len() {
            assert(line[j] == body[j]);
        } else {
            assert(line[j] == "}\n"@[j - body.len()]);
            assert(j - body.len() == 0);
        }
    }
}

/// The abstract content of one emitted record: what the stream logic
/// determines, independent of the emission timestamp.
pub struct RecAbs {
    pub done: bool,
    pub shape: ResponseShape,
    pub content: Seq<char>,
}

/// One outbound NDJSON record, ready to render.
pub struct OutboundRecord {
    pub model: String,
    pub created_at: String,
    pub shape: ResponseShape,
    pub done: bool,
    pub content: String,
}

impl OutboundRecord {
    /// The record's abstract content.
    pub open spec fn abs(&self) -> RecAbs {
        RecAbs { done: self.done, shape: self.shape, content: self.content@ }
    }

    /// Renders the record as its one NDJSON line.
    pub fn render(&self) -> (line: String)
        ensures
            line@ == render_record(self.model@, self.created_at@, self.shape, self.done,
                self.content@),
    {
        let mut r = String::from_str("{\"model\":");
        let q_model = json_quote(self.model.as_str());
        r.append(q_model.as_str());
        r.append(",\"created_at\":");
        let q_created = json_quote(self.created_at.as_str());
        r.append(q_created.as_str());
        match self.shape {
            ResponseShape::Chat => {
                r.append(",\"message\":{\"role\":\"assistant\",\"content\":");
                let q_content = json_quote(self.content.as_str());
                r.append(q_content.as_str());
                r.append(",\"images\":null}");
            },
            ResponseShape::Generate => {
                r.append(",\"response\":");
                let q_content = json_quote(self.content.as_str());
                r.append(q_content.as_str());
            },
        }
        if self.done {
            r.append(",\"done\":true");
            r.append(
                ",\"context\":[1,2,3],\"total_duration\":122112,\"load_duration\":123112,\"prompt_eval_count\":26,\"prompt_eval_duration\":130079000,\"eval_count\":259,\"eval_duration\":2433122",
            );
        } else {
            r.append(",\"done\":false");
        }
        r.append("}\n");
        proof {
            assert(r@ =~= render_record(self.model@, self.created_at@, self.shape, self.done,
                self.content@));
        }
        r
    }
}

} // verus!
