//! Verified JSON text rendering for the pieces the core serialises itself:
//! escaped strings, metadata objects, and the reference context handed to
//! the prompt builder.

use vstd::prelude::*;

use crate::types::{EmbeddingVectorValue, Metadata};

verus! {

/// The hexadecimal digit character for `d < 16`.
pub open spec fn hex_char(d: nat) -> char {
    if d < 10 {
        crate::numfmt::digit_char(d)
    } else if d == 10 {
        'a'
    } else if d == 11 {
        'b'
    } else if d == 12 {
        'c'
    } else if d == 13 {
        'd'
    } else if d == 14 {
        'e'
    } else {
        'f'
    }
}

/// How one character appears inside a JSON string literal.
pub open spec fn spec_escape_char(c: char) -> Seq<char> {
    if c == '"' {
        seq!['\\', '"']
    } else if c == '\\' {
        seq!['\\', '\\']
    } else if c == '\n' {
        seq!['\\', 'n']
    } else if c == '\r' {
        seq!['\\', 'r']
    } else if c == '\t' {
        seq!['\\', 't']
    } else if (c as u32) < 32 {
        seq!['\\', 'u', '0', '0', hex_char((c as u32) as nat / 16), hex_char(
            (c as u32) as nat % 16,
        )]
    } else {
        seq![c]
    }
}

/// A whole string escaped for JSON.
pub open spec fn spec_escaped(s: Seq<char>) -> Seq<char>
    decreases s.len(),
{
    if s.len() == 0 {
        Seq::<char>::empty()
    } else {
        spec_escaped(s.drop_last()) + spec_escape_char(s.last())
    }
}

/// A JSON string literal: the escaped text between double quotes.
pub open spec fn spec_json_string(s: Seq<char>) -> Seq<char> {
    seq!['"'] + spec_escaped(s) + seq!['"']
}

/// The one-character string of the hexadecimal digit `d`.
fn hex_str(d: u32) -> (r: &'static str)
    requires
        d < 16,
    ensures
        r@.len() == 1,
        r@[0] == hex_char(d as nat),
{
    proof {
        reveal_strlit("0");
        reveal_strlit("1");
        reveal_strlit("2");
        reveal_strlit("3");
        reveal_strlit("4");
        reveal_strlit("5");
        reveal_strlit("6");
        reveal_strlit("7");
        reveal_strlit("8");
        reveal_strlit("9");
        reveal_strlit("a");
        reveal_strlit("b");
        reveal_strlit("c");
        reveal_strlit("d");
        reveal_strlit("e");
        reveal_strlit("f");
    }
    if d == 0 {
        "0"
    } else if d == 1 {
        "1"
    } else if d == 2 {
        "2"
    } else if d == 3 {
        "3"
    } else if d == 4 {
        "4"
    } else if d == 5 {
        "5"
    } else if d == 6 {
        "6"
    } else if d == 7 {
        "7"
    } else if d == 8 {
        "8"
    } else if d == 9 {
        "9"
    } else if d == 10 {
        "a"
    } else if d == 11 {
        "b"
    } else if d == 12 {
        "c"
    } else if d == 13 {
        "d"
    } else if d == 14 {
        "e"
    } else {
        "f"
    }
}

/// Appends the escaped form of one character.
fn push_escaped(out: String, c: char, one: &str) -> (r: String)
    requires
        one@ == seq![c],
    ensures
        r@ == out@ + spec_escape_char(c),
{
    proof {
        reveal_strlit("\\\"");
        reveal_strlit("\\\\");
        reveal_strlit("\\n");
        reveal_strlit("\\r");
        reveal_strlit("\\t");
        reveal_strlit("\\u00");
    }
    let r = if c == '"' {
        out.concat("\\\"")
    } else if c == '\\' {
        out.concat("\\\\")
    } else if c == '\n' {
        out.concat("\\n")
    } else if c == '\r' {
        out.concat("\\r")
    } else if c == '\t' {
        out.concat("\\t")
    } else if (c as u32) < 32 {
        let code = c as u32;
        out.concat("\\u00").concat(hex_str(code / 16)).concat(hex_str(code % 16))
    } else {
        out.concat(one)
    };
    proof {
        assert(r@ =~= out@ + spec_escape_char(c));
    }
    r
}

/// Escapes a string for use inside a JSON literal.
pub fn escape_json(text: &str) -> (r: String)
    ensures
        r@ == spec_escaped(text@),
{
    let n = text.unicode_len();
    let mut out = String::new();
    let mut i: usize = 0;
    while i < n
        invariant
            n == text@.len(),
            0 <= i <= n,
            out@ == spec_escaped(text@.take(i as int)),
        decreases n - i,
    {
        let c = text.get_char(i);
        let one = text.substring_char(i, i + 1);
        proof {
            assert(one@ =~= seq![c]);
        }
        out = push_escaped(out, c, one);
        proof {
            assert(text@.take(i + 1).drop_last() =~= text@.take(i as int));
            assert(text@.take(i + 1).last() == c);
        }
        i = i + 1;
    }
    proof {
        assert(text@.take(n as int) =~= text@);
    }
    out
}

/// A JSON string literal of the text.
pub fn json_string(text: &str) -> (r: String)
    ensures
        r@ == spec_json_string(text@),
{
    proof {
        reveal_strlit("\"");
    }
    let r = String::from_str("\"").concat(escape_json(text).as_str()).concat("\"");
    proof {
        assert(r@ =~= spec_json_string(text@));
    }
    r
}

/// The JSON object form of a chunk's metadata.
pub open spec fn spec_metadata_json(m: Metadata) -> Seq<char> {
    "{\"source\":"@ + spec_json_string(m.source@) + ",\"upload_time\":"@ + spec_json_string(
        m.upload_time@,
    ) + "}"@
}

/// Renders a chunk's metadata as a JSON object.
pub fn metadata_json(m: &Metadata) -> (r: String)
    ensures
        r@ == spec_metadata_json(*m),
{
    String::from_str("{\"source\":").concat(json_string(m.source.as_str()).as_str()).concat(
        ",\"upload_time\":",
    ).concat(json_string(m.upload_time.as_str()).as_str()).concat("}")
}

/// One reference entry of the prompt context: the chunk's text and its
/// metadata.
pub open spec fn spec_reference_json(v: EmbeddingVectorValue) -> Seq<char> {
    "{\"content\":"@ + spec_json_string(v.content_chunk@) + ",\"metadata\":"@
        + spec_metadata_json(v.metadata) + "}"@
}

/// The JSON array of reference entries handed to the prompt builder.
pub open spec fn spec_context_json(rows: Seq<EmbeddingVectorValue>) -> Seq<char>
    decreases rows.len(),
{
    if rows.len() == 0 {
        "[]"@
    } else if rows.len() == 1 {
        "["@ + spec_reference_json(rows[0]) + "]"@
    } else {
        spec_context_json(rows.drop_last()).drop_last() + ","@ + spec_reference_json(
            rows.last(),
        ) + "]"@
    }
}

/// Renders the retrieved references as a JSON array of content/metadata
/// objects, in order.
pub fn context_json(rows: &Vec<EmbeddingVectorValue>) -> (r: String)
    ensures
        r@ == spec_context_json(rows@),
{
    proof {
        reveal_strlit("[]");
        reveal_strlit("[");
        reveal_strlit("]");
        reveal_strlit(",");
        reveal_strlit("{\"content\":");
        reveal_strlit(",\"metadata\":");
        reveal_strlit("}");
    }
    if rows.len() == 0 {
        let r = String::from_str("[]");
        return r;
    }
    let mut body = String::from_str("[");
    let mut i: usize = 0;
    while i < rows.len()
        invariant
            0 < rows@.len(),
            0 <= i <= rows@.len(),
            i == 0 ==> body@ == "["@,
            i > 0 ==> body@ + "]"@ == spec_context_json(rows@.take(i as int)),
        decreases rows@.len() - i,
    {
        proof {
            reveal_strlit("[");
            reveal_strlit("]");
            reveal_strlit(",");
        }
        let ghost b0 = body@;
        if i > 0 {
            body = body.concat(",");
        }
        let row = &rows[i];
        let entry = String::from_str("{\"content\":").concat(
            json_string(row.content_chunk.as_str()).as_str(),
        ).concat(",\"metadata\":").concat(metadata_json(&row.metadata).as_str()).concat("}");
        proof {
            assert(entry@ =~= spec_reference_json(rows@[i as int]));
        }
        body = body.concat(entry.as_str());
        proof {
            let upto = rows@.take(i + 1);
            assert(upto.drop_last() =~= rows@.take(i as int));
            assert(upto.last() == rows@[i as int]);
            if i == 0 {
                assert(body@ + "]"@ =~= spec_context_json(upto));
            } else {
                assert(spec_context_json(upto) == spec_context_json(rows@.take(i as int))
                    .drop_last() + ","@ + spec_reference_json(rows@[i as int]) + "]"@);
                assert(spec_context_json(rows@.take(i as int)).drop_last() =~= b0);
                assert(body@ + "]"@ =~= spec_context_json(upto));
            }
        }
        i = i + 1;
    }
    let r = body.concat("]");
    proof {
        assert(rows@.take(rows@.len() as int) =~= rows@);
        assert(r@ =~= spec_context_json(rows@));
    }
    r
}

} // verus!
