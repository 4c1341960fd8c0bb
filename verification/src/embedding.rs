//! Unwrapping the backend's embedding response and the errors an embedding
//! call can surface.
//!
//! The backend answers an embedding request with an array of objects, each
//! carrying an array of vectors; the client keeps the last vector of the
//! last object. The transport lives outside the library: it hands in the
//! decoded nesting as plain fixed-point integers and maps its own failures
//! to the transport, status and decode errors below.

use vstd::prelude::*;
use crate::similarity::bounded;
use crate::similarity::COORD_LIMIT;
use crate::similarity::DIM_LIMIT;

verus! {

/// Why an embedding call produced no usable vector.
#[derive(PartialEq, Eq, Debug)]
pub enum EmbedError {
    /// The request never reached the backend.
    Transport(String),
    /// The backend answered with a non-success status and this body.
    Status(u16, String),
    /// The response body was not the expected JSON shape.
    Decode(String),
    /// The top-level array of the response was empty.
    EmptyOuter,
    /// The embedding array inside the last object was empty.
    EmptyInner,
    /// The embedding vector itself was empty.
    EmptyVector,
    /// A vector coordinate or the dimension exceeds the fixed-point range.
    OutOfRange,
    /// Fewer embedding outcomes than chunks were handed in.
    Incomplete,
}

/// The hexadecimal digit character of `d`.
pub open spec fn hex_char(d: int) -> char {
    if d == 0 {
        '0'
    } else if d == 1 {
        '1'
    } else if d == 2 {
        '2'
    } else if d == 3 {
        '3'
    } else if d == 4 {
        '4'
    } else if d == 5 {
        '5'
    } else if d == 6 {
        '6'
    } else if d == 7 {
        '7'
    } else if d == 8 {
        '8'
    } else if d == 9 {
        '9'
    } else if d == 10 {
        'a'
    } else if d == 11 {
        'b'
    } else if d == 12 {
        'c'
    } else if d == 13 {
        'd'
    } else if d == 14 {
        'e'
    } else {
        'f'
    }
}

/// The JSON escape of one code point inside a string literal: quote and
/// backslash escaped, the named control escapes, `\u00XX` for the other
/// control characters, every other code point as itself.
pub open spec fn json_escaped_char(c: char) -> Seq<char> {
    if c == '"' {
        seq!['\\', '"']
    } else if c == '\\' {
        seq!['\\', '\\']
    } else if c == '\u{8}' {
        seq!['\\', 'b']
    } else if c == '\t' {
        seq!['\\', 't']
    } else if c == '\n' {
        seq!['\\', 'n']
    } else if c == '\u{c}' {
        seq!['\\', 'f']
    } else if c == '\r' {
        seq!['\\', 'r']
    } else if (c as u32) < 0x20 {
        seq!['\\', 'u', '0', '0', hex_char((c as u32) as int / 16), hex_char((c as u32) as int % 16)]
    } else {
        seq![c]
    }
}

/// The JSON escape of a whole string, code point by code point.
pub open spec fn json_escaped(s: Seq<char>) -> Seq<char>
    decreases s.len(),
{
    if s.len() == 0 {
        Seq::empty()
    } else {
        json_escaped_char(s[0]) + json_escaped(s.drop_first())
    }
}

/// The embedding request body for one text segment: a JSON object whose
/// one member, `content`, holds the escaped text.
pub open spec fn request_body_spec(text: Seq<char>) -> Seq<char> {
    "{\"content\":\""@ + json_escaped(text) + "\"}"@
}

proof fn lemma_json_escaped_push(s: Seq<char>, c: char)
    ensures
        json_escaped(s.push(c)) == json_escaped(s) + json_escaped_char(c),
    decreases s.len(),
{
    reveal_with_fuel(json_escaped, 3);
    if s.len() == 0 {
        assert(s.push(c).drop_first() =~= Seq::<char>::empty());
        assert(json_escaped(s.push(c)) =~= json_escaped(s) + json_escaped_char(c));
    } else {
        lemma_json_escaped_push(s.drop_first(), c);
        assert(s.push(c).drop_first() =~= s.drop_first().push(c));
        assert(json_escaped_char(s[0]) + (json_escaped(s.drop_first()) + json_escaped_char(c))
            =~= (json_escaped_char(s[0]) + json_escaped(s.drop_first())) + json_escaped_char(c));
        assert(json_escaped(s.push(c)) =~= json_escaped(s) + json_escaped_char(c));
    }
}

/// Relies on String::push: appends exactly the one character.
#[verifier::external_body]
fn push_char(s: &mut String, c: char)
    ensures
        final(s)@ == old(s)@.push(c),
{
    s.push(c);
}

fn hex_str(d: u32) -> (r: &'static str)
    requires
        d < 16,
    ensures
        r@ == seq![hex_char(d as int)],
{
    let r: &'static str = if d == 0 {
        "0"
    } else if d == 1 {
        "1"
    } else if d == 2 {
        "2"
    } else if d == 3 {
        "3"
    } else if d == 4 {
        "4"
    } else if d == 5 {
        "5"
    } else if d == 6 {
        "6"
    } else if d == 7 {
        "7"
    } else if d == 8 {
        "8"
    } else if d == 9 {
        "9"
    } else if d == 10 {
        "a"
    } else if d == 11 {
        "b"
    } else if d == 12 {
        "c"
    } else if d == 13 {
        "d"
    } else if d == 14 {
        "e"
    } else {
        "f"
    };
    proof {
        reveal_strlit("0");
        reveal_strlit("1");
        reveal_strlit("2");
        reveal_strlit("3");
        reveal_strlit("4");
        reveal_strlit("5");
        reveal_strlit("6");
        reveal_strlit("7");
        reveal_strlit("8");
        reveal_strlit("9");
        reveal_strlit("a");
        reveal_strlit("b");
        reveal_strlit("c");
        reveal_strlit("d");
        reveal_strlit("e");
        reveal_strlit("f");
        assert(r@ =~= seq![hex_char(d as int)]);
    }
    r
}

/// Frames the embedding request for one text segment: the JSON object
/// `{"content": <text>}`, with the text escaped as a JSON string literal.
pub fn embedding_request_body(text: &str) -> (r: String)
    ensures
        r@ == request_body_spec(text@),
{
    let mut out: String = "{\"content\":\"".to_owned();
    let n = text.unicode_len();
    let mut i: usize = 0;
    while i < n
        invariant
            0 <= i <= n,
            n == text@.len(),
            out@ == "{\"content\":\""@ + json_escaped(text@.take(i as int)),
        decreases n - i,
    {
        let c = text.get_char(i);
        proof {
            lemma_json_escaped_push(text@.take(i as int), c);
            assert(text@.take(i as int).push(text@[i as int]) =~= text@.take(i as int + 1));
            reveal_strlit("\\\"");
            reveal_strlit("\\\\");
            reveal_strlit("\\b");
            reveal_strlit("\\t");
            reveal_strlit("\\n");
            reveal_strlit("\\f");
            reveal_strlit("\\r");
            reveal_strlit("\\u00");
        }
        if c == '"' {
            out.append("\\\"");
        } else if c == '\\' {
            out.append("\\\\");
        } else if c == '\u{8}' {
            out.append("\\b");
        } else if c == '\t' {
            out.append("\\t");
        } else if c == '\n' {
            out.append("\\n");
        } else if c == '\u{c}' {
            out.append("\\f");
        } else if c == '\r' {
            out.append("\\r");
        } else {
            let code = c as u32;
            if code < 0x20 {
                out.append("\\u00");
                out.append(hex_str(code / 16));
                out.append(hex_str(code % 16));
            } else {
                push_char(&mut out, c);
            }
        }
        proof {
            assert(out@ =~= "{\"content\":\""@ + json_escaped(text@.take(i as int + 1)));
        }
        i = i + 1;
    }
    proof {
        assert(text@.take(n as int) =~= text@);
    }
    out.append("\"}");
    proof {
        assert(out@ =~= request_body_spec(text@));
    }
    out
}

/// Whether a vector fits the scorer's fixed-point range.
pub fn embedding_within_limits(v: &Vec<i64>) -> (r: bool)
    ensures
        r == bounded(v@),
{
    if v.len() > DIM_LIMIT {
        return false;
    }
    let mut i: usize = 0;
    while i < v.len()
        invariant
            0 <= i <= v@.len(),
            v@.len() <= DIM_LIMIT,
            forall|j: int| 0 <= j < i ==> -COORD_LIMIT <= #[trigger] v@[j] <= COORD_LIMIT,
        decreases v@.len() - i,
    {
        let x = v[i];
        if x < -COORD_LIMIT || x > COORD_LIMIT {
            return false;
        }
        i = i + 1;
    }
    true
}

/// Keeps the last vector of the last object of an embedding response, and
/// rejects a response that is empty at any of its three nesting levels or
/// out of the fixed-point range.
pub fn extract_embedding(response: &Vec<Vec<Vec<i64>>>) -> (r: Result<Vec<i64>, EmbedError>)
    ensures
        response@.len() == 0 ==> r == Result::<Vec<i64>, EmbedError>::Err(EmbedError::EmptyOuter),
        response@.len() > 0 && response@.last()@.len() == 0 ==> r == Result::<
            Vec<i64>,
            EmbedError,
        >::Err(EmbedError::EmptyInner),
        response@.len() > 0 && response@.last()@.len() > 0 ==> {
            let v = response@.last()@.last();
            if v@.len() == 0 {
                r == Result::<Vec<i64>, EmbedError>::Err(EmbedError::EmptyVector)
            } else if !bounded(v@) {
                r == Result::<Vec<i64>, EmbedError>::Err(EmbedError::OutOfRange)
            } else {
                r matches Ok(out) && out@ == v@
            }
        },
        r matches Ok(out) ==> out@.len() >= 1 && bounded(out@),
{
    if response.len() == 0 {
        return Err(EmbedError::EmptyOuter);
    }
    let outer: &Vec<Vec<i64>> = &response[response.len() - 1];
    if outer.len() == 0 {
        return Err(EmbedError::EmptyInner);
    }
    let v: &Vec<i64> = &outer[outer.len() - 1];
    if v.len() == 0 {
        return Err(EmbedError::EmptyVector);
    }
    if !embedding_within_limits(v) {
        return Err(EmbedError::OutOfRange);
    }
    Ok(v.clone())
}

} // verus!
