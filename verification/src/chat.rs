//! A chat-completion exchange with an OpenAI-compatible service: the JSON
//! request body sent, and what is made of the reply.
use vstd::prelude::*;
use crate::hash::{hex_encode, hex_lower};
use crate::mock::take_up_to;
use crate::text::{chars_of, extend_chars, extend_str, string_of};

verus! {

/// One character of a JSON string literal, escaped as `serde_json` writes
/// it: quote, backslash and the control characters escaped, the latter as
/// `\u00xx` unless they have a short form.
pub open spec fn json_char(c: char) -> Seq<char> {
    if c == '"' {
        "\\\""@
    } else if c == '\\' {
        "\\\\"@
    } else if c == '\n' {
        "\\n"@
    } else if c == '\r' {
        "\\r"@
    } else if c == '\t' {
        "\\t"@
    } else if c == '\u{8}' {
        "\\b"@
    } else if c == '\u{c}' {
        "\\f"@
    } else if (c as u32) < 0x20 {
        "\\u00"@ + hex_lower(seq![(c as u32) as u8])
    } else {
        seq![c]
    }
}

/// The escaped characters of a string.
pub open spec fn json_escaped(s: Seq<char>) -> Seq<char>
    decreases s.len(),
{
    if s.len() == 0 {
        seq![]
    } else {
        json_escaped(s.drop_last()) + json_char(s.last())
    }
}

/// A string as a JSON string literal.
pub open spec fn json_string(s: Seq<char>) -> Seq<char> {
    seq!['"'] + json_escaped(s) + seq!['"']
}

/// The body of a chat request: the model, temperature 0, the system and
/// the user message, and, for a structured answer, a request for a JSON
/// object.
pub open spec fn chat_body(model: Seq<char>, system: Seq<char>, user: Seq<char>, structured: bool) -> Seq<char> {
    "{\"model\":"@ + json_string(model) + ",\"temperature\":0,\"messages\":[{\"role\":\"system\",\"content\":"@
        + json_string(system) + "},{\"role\":\"user\",\"content\":"@ + json_string(user) + "}]"@ + (if structured {
        ",\"response_format\":{\"type\":\"json_object\"}"@
    } else {
        seq![]
    }) + "}"@
}

fn push_json_string(v: &mut Vec<char>, s: &str)
    ensures
        final(v)@ == old(v)@ + json_string(s@),
{
    let c = chars_of(s);
    let ghost start = v@;
    v.push('"');
    let n = c.len();
    for i in 0..n
        invariant
            n == c@.len(),
            c@ == s@,
            v@ == start + seq!['"'] + json_escaped(s@.take(i as int)),
    {
        let ch = c[i];
        let ghost before = v@;
        assert(s@.take(i + 1).drop_last() == s@.take(i as int));
        assert(s@.take(i + 1).last() == ch);
        if ch == '"' {
            extend_str(v, "\\\"");
        } else if ch == '\\' {
            extend_str(v, "\\\\");
        } else if ch == '\n' {
            extend_str(v, "\\n");
        } else if ch == '\r' {
            extend_str(v, "\\r");
        } else if ch == '\t' {
            extend_str(v, "\\t");
        } else if ch == '\u{8}' {
            extend_str(v, "\\b");
        } else if ch == '\u{c}' {
            extend_str(v, "\\f");
        } else if (ch as u32) < 0x20 {
            extend_str(v, "\\u00");
            let b: u8 = (ch as u32) as u8;
            let h = hex_encode(&[b]);
            assert([b]@ == seq![(ch as u32) as u8]);
            extend_chars(v, h.as_slice());
        } else {
            v.push(ch);
        }
        assert(v@ == before + json_char(ch));
    }
    assert(s@.take(n as int) == s@);
    v.push('"');
}

/// The JSON body of a chat request (see `chat_body`).
pub fn chat_request(model: &str, system: &str, user: &str, structured: bool) -> (r: String)
    ensures
        r@ == chat_body(model@, system@, user@, structured),
{
    let mut v = chars_of("{\"model\":");
    push_json_string(&mut v, model);
    extend_str(&mut v, ",\"temperature\":0,\"messages\":[{\"role\":\"system\",\"content\":");
    push_json_string(&mut v, system);
    extend_str(&mut v, "},{\"role\":\"user\",\"content\":");
    push_json_string(&mut v, user);
    extend_str(&mut v, "}]");
    if structured {
        extend_str(&mut v, ",\"response_format\":{\"type\":\"json_object\"}");
    }
    extend_str(&mut v, "}");
    string_of(v.as_slice())
}

/// What `serde_json` makes of a chat reply: a parse error (as text), or
/// the string at `/choices/0/message/content` if there is one.
pub uninterp spec fn chat_reply(reply: Seq<char>) -> Result<Option<Seq<char>>, Seq<char>>;

pub open spec fn reply_view(r: Result<Option<String>, String>) -> Result<Option<Seq<char>>, Seq<char>> {
    match r {
        Ok(Some(s)) => Ok(Some(s@)),
        Ok(None) => Ok(None),
        Err(e) => Err(e@),
    }
}

/// Parses a chat reply with `serde_json::from_str` into a JSON value and
/// takes the string at `/choices/0/message/content` (`Value::pointer`,
/// `Value::as_str`); named by `chat_reply`.
#[verifier::external_body]
fn reply_content(reply: &str) -> (r: Result<Option<String>, String>)
    ensures
        reply_view(r) == chat_reply(reply@),
{
    match serde_json::from_str::<serde_json::Value>(reply) {
        Ok(v) => Ok(v.pointer("/choices/0/message/content").and_then(|c| c.as_str()).map(|c| c.to_string())),
        Err(e) => Err(e.to_string()),
    }
}

/// The answer a chat reply gives: for a failure status, an error naming
/// the service and the status with the first 500 characters of the reply;
/// otherwise the message content, or why there is none.
pub open spec fn chat_answer(name: Seq<char>, success: bool, status: Seq<char>, reply: Seq<char>) -> Result<
    Seq<char>,
    Seq<char>,
> {
    if !success {
        Err(name + " "@ + status + ": "@ + take_up_to(reply, 500))
    } else {
        match chat_reply(reply) {
            Err(e) => Err("invalid provider response: "@ + e),
            Ok(None) => Err("provider returned no content"@),
            Ok(Some(c)) => Ok(c),
        }
    }
}

pub open spec fn answer_view(r: Result<String, String>) -> Result<Seq<char>, Seq<char>> {
    match r {
        Ok(s) => Ok(s@),
        Err(e) => Err(e@),
    }
}

/// What the reply of service `name` with HTTP status `status` (a success
/// or not) answers (see `chat_answer`).
pub fn chat_outcome(name: &str, success: bool, status: &str, reply: &str) -> (r: Result<String, String>)
    ensures
        answer_view(r) == chat_answer(name@, success, status@, reply@),
{
    if !success {
        let mut v = chars_of(name);
        extend_str(&mut v, " ");
        extend_str(&mut v, status);
        extend_str(&mut v, ": ");
        let c = chars_of(reply);
        let k: usize = if c.len() <= 500 { c.len() } else { 500 };
        let head = crate::lines::slice_chars(c.as_slice(), 0, k);
        assert(head@ == take_up_to(reply@, 500));
        extend_chars(&mut v, head.as_slice());
        return Err(string_of(v.as_slice()));
    }
    match reply_content(reply) {
        Err(e) => {
            let mut v = chars_of("invalid provider response: ");
            extend_str(&mut v, e.as_str());
            Err(string_of(v.as_slice()))
        },
        Ok(None) => Err("provider returned no content".to_string()),
        Ok(Some(c)) => Ok(c),
    }
}

} // verus!
