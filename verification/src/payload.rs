use vstd::prelude::*;

verus! {

use crate::notification::{Embed, EmbedField};
use crate::text::{chars_vec, push_all, string_from_chars};

// The webhook body carries the notification as one JSON document under
// a fixed envelope: a fixed sender display name and avatar, and a
// one-element array holding the embed. The emitter below is the
// definition of that wire format: object keys in fixed order, strings
// escaped as JSON asks (quote, backslash, and control characters).

/// The hexadecimal digit for a value below sixteen (also the decimal
/// digit for a value below ten).
pub open spec fn hex_nibble(n: int) -> char {
    if n == 0 {
        '0'
    } else if n == 1 {
        '1'
    } else if n == 2 {
        '2'
    } else if n == 3 {
        '3'
    } else if n == 4 {
        '4'
    } else if n == 5 {
        '5'
    } else if n == 6 {
        '6'
    } else if n == 7 {
        '7'
    } else if n == 8 {
        '8'
    } else if n == 9 {
        '9'
    } else if n == 10 {
        'a'
    } else if n == 11 {
        'b'
    } else if n == 12 {
        'c'
    } else if n == 13 {
        'd'
    } else if n == 14 {
        'e'
    } else {
        'f'
    }
}

fn hex_nibble_exec(n: u32) -> (c: char)
    requires
        n < 16,
    ensures
        c == hex_nibble(n as int),
{
    if n == 0 {
        '0'
    } else if n == 1 {
        '1'
    } else if n == 2 {
        '2'
    } else if n == 3 {
        '3'
    } else if n == 4 {
        '4'
    } else if n == 5 {
        '5'
    } else if n == 6 {
        '6'
    } else if n == 7 {
        '7'
    } else if n == 8 {
        '8'
    } else if n == 9 {
        '9'
    } else if n == 10 {
        'a'
    } else if n == 11 {
        'b'
    } else if n == 12 {
        'c'
    } else if n == 13 {
        'd'
    } else if n == 14 {
        'e'
    } else {
        'f'
    }
}

/// How one character reads inside a JSON string literal.
pub open spec fn esc_char(c: char) -> Seq<char> {
    if c == '"' {
        seq!['\\', '"']
    } else if c == '\\' {
        seq!['\\', '\\']
    } else if c == '\n' {
        seq!['\\', 'n']
    } else if c == '\r' {
        seq!['\\', 'r']
    } else if c == '\t' {
        seq!['\\', 't']
    } else if (c as u32) < 32 {
        seq!['\\', 'u', '0', '0', hex_nibble(c as u32 as int / 16), hex_nibble(c as u32 as int % 16)]
    } else {
        seq![c]
    }
}

/// A whole string, escaped for a JSON string literal.
pub open spec fn json_escape_spec(s: Seq<char>) -> Seq<char>
    decreases s.len(),
{
    if s.len() == 0 {
        Seq::empty()
    } else {
        esc_char(s[0]) + json_escape_spec(s.drop_first())
    }
}

proof fn lemma_escape_snoc(s: Seq<char>, c: char)
    ensures
        json_escape_spec(s.push(c)) == json_escape_spec(s) + esc_char(c),
    decreases s.len(),
{
    if s.len() == 0 {
        let t = s.push(c);
        assert(t.len() == 1);
        assert(t.drop_first() =~= Seq::<char>::empty());
        assert(t[0] == c);
        assert(json_escape_spec(t) == esc_char(c) + json_escape_spec(Seq::<char>::empty()));
        assert(esc_char(c) + Seq::<char>::empty() =~= esc_char(c));
        assert(json_escape_spec(s) + esc_char(c) =~= esc_char(c));
    } else {
        lemma_escape_snoc(s.drop_first(), c);
        assert(s.push(c).drop_first() =~= s.drop_first().push(c));
        assert(s.push(c)[0] == s[0]);
        assert(esc_char(s[0]) + (json_escape_spec(s.drop_first()) + esc_char(c)) =~= (esc_char(
            s[0],
        ) + json_escape_spec(s.drop_first())) + esc_char(c));
    }
}

/// A JSON string literal: quotes around the escaped content.
pub open spec fn json_string_spec(s: Seq<char>) -> Seq<char> {
    seq!['"'] + json_escape_spec(s) + seq!['"']
}

/// The decimal digits of a non-negative number.
pub open spec fn dec_digits(n: int) -> Seq<char>
    decreases n,
{
    if n < 10 {
        seq![hex_nibble(n)]
    } else {
        dec_digits(n / 10).push(hex_nibble(n % 10))
    }
}

/// One embed field as a JSON object.
pub open spec fn field_json_spec(f: EmbedField) -> Seq<char> {
    "{\"name\":"@ + json_string_spec(f.name@) + ",\"value\":"@ + json_string_spec(f.value@)
        + ",\"inline\":"@ + (if f.inline {
        "true"@
    } else {
        "false"@
    }) + "}"@
}

/// The embed fields as a comma-separated JSON list, brackets aside.
pub open spec fn fields_json_spec(fs: Seq<EmbedField>) -> Seq<char>
    decreases fs.len(),
{
    if fs.len() == 0 {
        Seq::empty()
    } else if fs.len() == 1 {
        field_json_spec(fs[0])
    } else {
        fields_json_spec(fs.drop_last()) + ","@ + field_json_spec(fs.last())
    }
}

/// The embed as a JSON object: title, fields, color, description, in
/// that key order.
pub open spec fn embed_json_spec(e: Embed) -> Seq<char> {
    "{\"title\":"@ + json_string_spec(e.title@) + ",\"fields\":["@ + fields_json_spec(e.fields@)
        + "],\"color\":"@ + dec_digits(e.color as int) + ",\"description\":"@ + json_string_spec(
        e.description@,
    ) + "}"@
}

/// The whole webhook payload document: the fixed envelope around one
/// embed.
pub open spec fn payload_json_spec(e: Embed) -> Seq<char> {
    "{\"username\":\"メール転送\",\"avatar_url\":\"https://github.com/jizi-isct.png\",\"embeds\":["@
        + embed_json_spec(e) + "]}"@
}

/// Appends the characters of a string slice.
fn append_str(out: &mut Vec<char>, piece: &str)
    ensures
        final(out)@ == old(out)@ + piece@,
{
    let v = chars_vec(piece);
    push_all(out, &v);
}

/// Appends one character, escaped for a JSON string literal.
fn append_escaped_char(out: &mut Vec<char>, c: char)
    ensures
        final(out)@ == old(out)@ + esc_char(c),
{
    if c == '"' {
        out.push('\\');
        out.push('"');
    } else if c == '\\' {
        out.push('\\');
        out.push('\\');
    } else if c == '\n' {
        out.push('\\');
        out.push('n');
    } else if c == '\r' {
        out.push('\\');
        out.push('r');
    } else if c == '\t' {
        out.push('\\');
        out.push('t');
    } else if (c as u32) < 32 {
        out.push('\\');
        out.push('u');
        out.push('0');
        out.push('0');
        out.push(hex_nibble_exec(c as u32 / 16));
        out.push(hex_nibble_exec(c as u32 % 16));
    } else {
        out.push(c);
    }
    proof {
        assert(out@ =~= old(out)@ + esc_char(c));
    }
}

/// Appends a JSON string literal for `s`.
fn append_json_string(out: &mut Vec<char>, s: &str)
    ensures
        final(out)@ == old(out)@ + json_string_spec(s@),
{
    let v = chars_vec(s);
    let n = v.len();
    out.push('"');
    let mut i: usize = 0;
    while i < n
        invariant
            i <= n,
            n == v@.len(),
            v@ == s@,
            out@ == old(out)@ + seq!['"'] + json_escape_spec(s@.subrange(0, i as int)),
        decreases n - i,
    {
        append_escaped_char(out, v[i]);
        proof {
            assert(s@.subrange(0, i as int).push(s@[i as int]) =~= s@.subrange(0, i + 1));
            lemma_escape_snoc(s@.subrange(0, i as int), s@[i as int]);
        }
        i += 1;
    }
    out.push('"');
    proof {
        assert(s@.subrange(0, n as int) =~= s@);
        assert(out@ =~= old(out)@ + json_string_spec(s@));
    }
}

/// Appends the decimal digits of `n`.
fn append_decimal(out: &mut Vec<char>, n: u32)
    ensures
        final(out)@ == old(out)@ + dec_digits(n as int),
    decreases n,
{
    if n < 10 {
        out.push(hex_nibble_exec(n));
        proof {
            assert(out@ =~= old(out)@ + dec_digits(n as int));
        }
    } else {
        append_decimal(out, n / 10);
        out.push(hex_nibble_exec(n % 10));
        proof {
            assert(out@ =~= old(out)@ + dec_digits(n as int));
        }
    }
}

/// Appends one embed field as a JSON object.
fn append_field_json(out: &mut Vec<char>, f: &EmbedField)
    ensures
        final(out)@ == old(out)@ + field_json_spec(*f),
{
    append_str(out, "{\"name\":");
    append_json_string(out, f.name.as_str());
    append_str(out, ",\"value\":");
    append_json_string(out, f.value.as_str());
    append_str(out, ",\"inline\":");
    if f.inline {
        append_str(out, "true");
    } else {
        append_str(out, "false");
    }
    append_str(out, "}");
    proof {
        assert(out@ =~= old(out)@ + field_json_spec(*f));
    }
}

/// Serializes the webhook payload envelope around the embed as one JSON
/// document.
pub fn payload_json(e: &Embed) -> (r: String)
    ensures
        r@ == payload_json_spec(*e),
{
    let mut out: Vec<char> = Vec::new();
    append_str(
        &mut out,
        "{\"username\":\"メール転送\",\"avatar_url\":\"https://github.com/jizi-isct.png\",\"embeds\":[",
    );
    append_str(&mut out, "{\"title\":");
    append_json_string(&mut out, e.title.as_str());
    append_str(&mut out, ",\"fields\":[");
    let n = e.fields.len();
    let mut i: usize = 0;
    while i < n
        invariant
            i <= n,
            n == e.fields@.len(),
            out@ == out_prefix(*e) + fields_json_spec(e.fields@.subrange(0, i as int)),
        decreases n - i,
    {
        if i > 0 {
            append_str(&mut out, ",");
        }
        append_field_json(&mut out, &e.fields[i]);
        proof {
            let pre = e.fields@.subrange(0, i as int);
            let cur = e.fields@.subrange(0, i + 1);
            assert(cur.drop_last() =~= pre);
            assert(cur.last() == e.fields@[i as int]);
            if i == 0 {
                assert(cur.len() == 1);
                assert(cur[0] == e.fields@[0]);
                assert(out@ =~= out_prefix(*e) + fields_json_spec(cur));
            } else {
                assert(out@ =~= out_prefix(*e) + fields_json_spec(cur));
            }
        }
        i += 1;
    }
    proof {
        assert(e.fields@.subrange(0, n as int) =~= e.fields@);
    }
    append_str(&mut out, "],\"color\":");
    append_decimal(&mut out, e.color);
    append_str(&mut out, ",\"description\":");
    append_json_string(&mut out, e.description.as_str());
    append_str(&mut out, "}");
    append_str(&mut out, "]}");
    proof {
        assert(out@ =~= payload_json_spec(*e));
    }
    string_from_chars(&out)
}

/// The serialized document up to the opening bracket of the field list.
pub open spec fn out_prefix(e: Embed) -> Seq<char> {
    "{\"username\":\"メール転送\",\"avatar_url\":\"https://github.com/jizi-isct.png\",\"embeds\":["@
        + "{\"title\":"@ + json_string_spec(e.title@) + ",\"fields\":["@
}

/// The name of the `i`-th file field of the outbound multipart body.
pub fn file_field_name(i: u32) -> (r: String)
    ensures
        r@ == "files["@ + dec_digits(i as int) + "]"@,
{
    let mut out: Vec<char> = Vec::new();
    append_str(&mut out, "files[");
    append_decimal(&mut out, i);
    append_str(&mut out, "]");
    string_from_chars(&out)
}

} // verus!
