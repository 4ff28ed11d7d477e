//! Writing configuration files. SPA-JSON, the relaxed JSON of PipeWire:
//! objects as `key = value` lines and array items one per line, with
//! four-space indentation; and plain JSON with two-space indentation, which
//! SPA-JSON readers accept too.
use vstd::prelude::*;

use crate::text::{append_chars, chars_of, string_of};

verus! {

/// A JSON value; a number keeps the text it is written with.
#[derive(Debug)]
pub enum JsonValue {
    Null,
    Bool(bool),
    Number(String),
    String(String),
    Array(Vec<JsonValue>),
    Object(Vec<(String, JsonValue)>),
}

/// `n` spaces.
pub open spec fn spaces(n: nat) -> Seq<char> {
    Seq::new(n, |i: int| ' ')
}

/// The SPA-JSON text of `v` when it starts at indentation `ind`.
pub open spec fn render(v: JsonValue, ind: nat) -> Seq<char>
    decreases v,
{
    match v {
        JsonValue::Null => "null"@,
        JsonValue::Bool(b) => if b {
            "true"@
        } else {
            "false"@
        },
        JsonValue::Number(n) => n@,
        JsonValue::String(s) => "\""@ + s@ + "\""@,
        JsonValue::Array(items) => if items@.len() == 0 {
            "[]"@
        } else {
            "[\n"@ + render_items(items@, ind) + spaces(ind) + "]"@
        },
        JsonValue::Object(members) => "{\n"@ + render_members(members@, ind) + spaces(ind) + "}"@,
    }
}

/// Array items, one per line, one level deeper than `ind`.
pub open spec fn render_items(items: Seq<JsonValue>, ind: nat) -> Seq<char>
    decreases items,
{
    if items.len() == 0 {
        Seq::empty()
    } else {
        render_items(items.drop_last(), ind) + spaces(ind + 4) + render(items.last(), ind + 4) + "\n"@
    }
}

/// Object members as `key = value` lines, one level deeper than `ind`.
pub open spec fn render_members(members: Seq<(String, JsonValue)>, ind: nat) -> Seq<char>
    decreases members,
{
    if members.len() == 0 {
        Seq::empty()
    } else {
        render_members(members.drop_last(), ind) + spaces(ind + 4) + members.last().0@ + " = "@
            + render(members.last().1, ind + 4) + "\n"@
    }
}


fn spaces_chars(n: usize) -> (r: Vec<char>)
    ensures
        r@ == spaces(n as nat),
{
    let mut r: Vec<char> = Vec::new();
    let mut i: usize = 0;
    while i < n
        invariant
            i <= n,
            r@ == spaces(i as nat),
        decreases n - i,
    {
        r.push(' ');
        i += 1;
        assert(r@ =~= spaces(i as nat));
    }
    r
}

fn deeper(pad: &Vec<char>) -> (r: Vec<char>)
    ensures
        r@ == pad@ + spaces(4),
{
    let mut r = pad.clone();
    let four = spaces_chars(4);
    assert(r@ =~= pad@);
    append_chars(&mut r, &four);
    r
}

proof fn lemma_spaces_add(a: nat, b: nat)
    ensures
        spaces(a) + spaces(b) == spaces(a + b),
{
    assert(spaces(a) + spaces(b) =~= spaces(a + b));
}

fn render_into(v: &JsonValue, pad: &Vec<char>, out: &mut Vec<char>, Ghost(ind): Ghost<nat>)
    requires
        pad@ == spaces(ind),
    ensures
        final(out)@ == old(out)@ + render(*v, ind),
    decreases v,
{
    match v {
        JsonValue::Null => {
            append_chars(out, &chars_of("null"));
        },
        JsonValue::Bool(b) => {
            if *b {
                append_chars(out, &chars_of("true"));
            } else {
                append_chars(out, &chars_of("false"));
            }
        },
        JsonValue::Number(n) => {
            append_chars(out, &chars_of(n.as_str()));
        },
        JsonValue::String(s) => {
            append_chars(out, &chars_of("\""));
            append_chars(out, &chars_of(s.as_str()));
            append_chars(out, &chars_of("\""));
            assert(out@ =~= old(out)@ + render(*v, ind));
        },
        JsonValue::Array(items) => {
            if items.len() == 0 {
                append_chars(out, &chars_of("[]"));
            } else {
                append_chars(out, &chars_of("[\n"));
                let ghost start = out@;
                let inner = deeper(pad);
                proof {
                    lemma_spaces_add(ind, 4);
                }
                let mut i: usize = 0;
                assert(items@.take(0) =~= Seq::<JsonValue>::empty());
                assert(start =~= start + render_items(items@.take(0), ind));
                while i < items.len()
                    invariant
                        *v == JsonValue::Array(*items),
                        i <= items@.len(),
                        inner@ == spaces(ind + 4),
                        out@ == start + render_items(items@.take(i as int), ind),
                    decreases items.len() - i,
                {
                    assert(items@.take(i + 1).drop_last() =~= items@.take(i as int));
                    append_chars(out, &inner);
                    proof {
                        assert(*v == JsonValue::Array(*items));
                        assert(decreases_to!(*v => (*v)->Array_0));
                        assert(decreases_to!((*v)->Array_0 => (*v)->Array_0@));
                        assert(decreases_to!((*v)->Array_0@ => items@[i as int]));
                    }
                    render_into(&items[i], &inner, out, Ghost(ind + 4));
                    append_chars(out, &chars_of("\n"));
                    i += 1;
                    assert(out@ =~= start + render_items(items@.take(i as int), ind));
                }
                assert(items@.take(items@.len() as int) =~= items@);
                append_chars(out, pad);
                append_chars(out, &chars_of("]"));
                assert(out@ =~= old(out)@ + render(*v, ind));
            }
        },
        JsonValue::Object(members) => {
            append_chars(out, &chars_of("{\n"));
            let ghost start = out@;
            let inner = deeper(pad);
            proof {
                lemma_spaces_add(ind, 4);
            }
            let mut i: usize = 0;
            assert(members@.take(0) =~= Seq::<(String, JsonValue)>::empty());
            assert(start =~= start + render_members(members@.take(0), ind));
            while i < members.len()
                invariant
                    *v == JsonValue::Object(*members),
                    i <= members@.len(),
                    inner@ == spaces(ind + 4),
                    out@ == start + render_members(members@.take(i as int), ind),
                decreases members.len() - i,
            {
                assert(members@.take(i + 1).drop_last() =~= members@.take(i as int));
                let (key, value) = &members[i];
                append_chars(out, &inner);
                append_chars(out, &chars_of(key.as_str()));
                append_chars(out, &chars_of(" = "));
                proof {
                    assert(*v == JsonValue::Object(*members));
                    assert(decreases_to!(*v => (*v)->Object_0));
                    assert(decreases_to!((*v)->Object_0 => (*v)->Object_0@));
                    assert(decreases_to!((*v)->Object_0@ => members@[i as int]));
                    assert(decreases_to!(members@[i as int] => members@[i as int].1));
                }
                render_into(value, &inner, out, Ghost(ind + 4));
                append_chars(out, &chars_of("\n"));
                i += 1;
                assert(out@ =~= start + render_members(members@.take(i as int), ind));
            }
            assert(members@.take(members@.len() as int) =~= members@);
            append_chars(out, pad);
            append_chars(out, &chars_of("}"));
            assert(out@ =~= old(out)@ + render(*v, ind));
        },
    }
}

/// A JSON value to be written as SPA-JSON at an indentation.
pub struct SpaJson<'a> {
    pub value: &'a JsonValue,
    pub indent: usize,
}

impl<'a> SpaJson<'a> {
    pub fn new(value: &'a JsonValue) -> (r: Self)
        ensures
            r.value == value,
            r.indent == 0,
    {
        SpaJson { value, indent: 0 }
    }

    pub fn with_indent(&self, indent: usize) -> (r: Self)
        ensures
            r.value == self.value,
            r.indent == indent,
    {
        SpaJson { value: self.value, indent }
    }

    /// The SPA-JSON text.
    pub fn to_string(&self) -> (r: String)
        ensures
            r@ == render(*self.value, self.indent as nat),
    {
        let pad = spaces_chars(self.indent);
        let mut out: Vec<char> = Vec::new();
        render_into(self.value, &pad, &mut out, Ghost(self.indent as nat));
        assert(out@ =~= render(*self.value, self.indent as nat));
        string_of(out)
    }
}


/// The lowercase hexadecimal digit of a value below sixteen.
pub open spec fn hex_digit(d: nat) -> char {
    if d < 10 {
        (d + '0' as int) as char
    } else {
        (d - 10 + 'a' as int) as char
    }
}

/// How a character is written inside a quoted JSON string.
pub open spec fn escape_char(c: char) -> Seq<char> {
    if c == '"' {
        seq!['\\', '"']
    } else if c == '\\' {
        seq!['\\', '\\']
    } else if c == '\n' {
        seq!['\\', 'n']
    } else if c == '\t' {
        seq!['\\', 't']
    } else if c == '\r' {
        seq!['\\', 'r']
    } else if c == '\u{8}' {
        seq!['\\', 'b']
    } else if c == '\u{c}' {
        seq!['\\', 'f']
    } else if (c as int) < 0x20 {
        seq!['\\', 'u', '0', '0', hex_digit((c as nat) / 16), hex_digit((c as nat) % 16)]
    } else {
        seq![c]
    }
}

/// The characters of a JSON string, escaped.
pub open spec fn escape(s: Seq<char>) -> Seq<char>
    decreases s.len(),
{
    if s.len() == 0 {
        seq![]
    } else {
        escape(s.drop_last()) + escape_char(s.last())
    }
}

/// A JSON string literal.
pub open spec fn quoted(s: Seq<char>) -> Seq<char> {
    seq!['"'] + escape(s) + seq!['"']
}

/// The JSON text of `v` when it starts at indentation `ind`: two spaces
/// per level, one array item or object member per line.
pub open spec fn pretty(v: JsonValue, ind: nat) -> Seq<char>
    decreases v,
{
    match v {
        JsonValue::Null => "null"@,
        JsonValue::Bool(b) => if b {
            "true"@
        } else {
            "false"@
        },
        JsonValue::Number(n) => n@,
        JsonValue::String(s) => quoted(s@),
        JsonValue::Array(items) => if items@.len() == 0 {
            "[]"@
        } else {
            "[\n"@ + pretty_items(items@, ind) + "\n"@ + spaces(ind) + "]"@
        },
        JsonValue::Object(ms) => if ms@.len() == 0 {
            "{}"@
        } else {
            "{\n"@ + pretty_members(ms@, ind) + "\n"@ + spaces(ind) + "}"@
        },
    }
}

/// Array items, each on a line one level deeper than `ind`, separated by
/// commas.
pub open spec fn pretty_items(items: Seq<JsonValue>, ind: nat) -> Seq<char>
    decreases items,
{
    if items.len() == 0 {
        seq![]
    } else if items.len() == 1 {
        spaces(ind + 2) + pretty(items[0], ind + 2)
    } else {
        pretty_items(items.drop_last(), ind) + ",\n"@ + spaces(ind + 2) + pretty(items.last(), ind + 2)
    }
}

/// Object members as `"key": value` lines one level deeper than `ind`,
/// separated by commas.
pub open spec fn pretty_members(ms: Seq<(String, JsonValue)>, ind: nat) -> Seq<char>
    decreases ms,
{
    if ms.len() == 0 {
        seq![]
    } else if ms.len() == 1 {
        spaces(ind + 2) + quoted(ms[0].0@) + ": "@ + pretty(ms[0].1, ind + 2)
    } else {
        pretty_members(ms.drop_last(), ind) + ",\n"@ + spaces(ind + 2) + quoted(ms.last().0@) + ": "@
            + pretty(ms.last().1, ind + 2)
    }
}

fn hex_digit_char(d: u32) -> (c: char)
    requires
        d < 16,
    ensures
        c == hex_digit(d as nat),
{
    if d < 10 {
        ((d as u8) + 48u8) as char
    } else {
        ((d as u8) + 87u8) as char
    }
}

fn push_escaped(out: &mut Vec<char>, c: char)
    ensures
        final(out)@ == old(out)@ + escape_char(c),
{
    let ghost before = out@;
    if c == '"' {
        out.push('\\');
        out.push('"');
    } else if c == '\\' {
        out.push('\\');
        out.push('\\');
    } else if c == '\n' {
        out.push('\\');
        out.push('n');
    } else if c == '\t' {
        out.push('\\');
        out.push('t');
    } else if c == '\r' {
        out.push('\\');
        out.push('r');
    } else if c == '\u{8}' {
        out.push('\\');
        out.push('b');
    } else if c == '\u{c}' {
        out.push('\\');
        out.push('f');
    } else if (c as u32) < 0x20 {
        out.push('\\');
        out.push('u');
        out.push('0');
        out.push('0');
        out.push(hex_digit_char((c as u32) / 16));
        out.push(hex_digit_char((c as u32) % 16));
    } else {
        out.push(c);
    }
    assert(out@ =~= before + escape_char(c));
}

fn push_quoted(out: &mut Vec<char>, s: &str)
    ensures
        final(out)@ == old(out)@ + quoted(s@),
{
    let cs = chars_of(s);
    let ghost start = out@;
    out.push('"');
    let mut i: usize = 0;
    assert(cs@.take(0) =~= Seq::<char>::empty());
    while i < cs.len()
        invariant
            i <= cs@.len(),
            out@ == start + seq!['"'] + escape(cs@.take(i as int)),
        decreases cs.len() - i,
    {
        assert(cs@.take(i + 1).drop_last() =~= cs@.take(i as int));
        assert(cs@.take(i + 1).last() == cs@[i as int]);
        push_escaped(out, cs[i]);
        i += 1;
        assert(out@ =~= start + seq!['"'] + escape(cs@.take(i as int)));
    }
    assert(cs@.take(cs@.len() as int) =~= cs@);
    out.push('"');
    assert(out@ =~= start + quoted(s@));
}

fn pretty_into(v: &JsonValue, pad: &Vec<char>, out: &mut Vec<char>, Ghost(ind): Ghost<nat>)
    requires
        pad@ == spaces(ind),
    ensures
        final(out)@ == old(out)@ + pretty(*v, ind),
    decreases v,
{
    match v {
        JsonValue::Null => {
            append_chars(out, &chars_of("null"));
        },
        JsonValue::Bool(b) => {
            if *b {
                append_chars(out, &chars_of("true"));
            } else {
                append_chars(out, &chars_of("false"));
            }
        },
        JsonValue::Number(n) => {
            append_chars(out, &chars_of(n.as_str()));
        },
        JsonValue::String(s) => {
            push_quoted(out, s.as_str());
        },
        JsonValue::Array(items) => {
            if items.len() == 0 {
                append_chars(out, &chars_of("[]"));
            } else {
                append_chars(out, &chars_of("[\n"));
                let ghost start = out@;
                let mut inner = pad.clone();
                assert(inner@ =~= pad@);
                inner.push(' ');
                inner.push(' ');
                assert(inner@ =~= spaces(ind + 2));
                let mut i: usize = 0;
                while i < items.len()
                    invariant
                        *v == JsonValue::Array(*items),
                        0 < items@.len(),
                        i <= items@.len(),
                        inner@ == spaces(ind + 2),
                        out@ == start + pretty_items(items@.take(i as int), ind),
                    decreases items.len() - i,
                {
                    assert(items@.take(i + 1).drop_last() =~= items@.take(i as int));
                    assert(items@.take(i + 1).last() == items@[i as int]);
                    if i > 0 {
                        append_chars(out, &chars_of(",\n"));
                    }
                    append_chars(out, &inner);
                    proof {
                        assert(decreases_to!(*v => (*v)->Array_0));
                        assert(decreases_to!((*v)->Array_0 => (*v)->Array_0@));
                        assert(decreases_to!((*v)->Array_0@ => items@[i as int]));
                    }
                    pretty_into(&items[i], &inner, out, Ghost(ind + 2));
                    i += 1;
                    proof {
                        if i == 1 {
                            assert(items@.take(1)[0] == items@[0]);
                        }
                    }
                    assert(out@ =~= start + pretty_items(items@.take(i as int), ind));
                }
                assert(items@.take(items@.len() as int) =~= items@);
                append_chars(out, &chars_of("\n"));
                append_chars(out, pad);
                append_chars(out, &chars_of("]"));
                assert(out@ =~= old(out)@ + pretty(*v, ind));
            }
        },
        JsonValue::Object(members) => {
            if members.len() == 0 {
                append_chars(out, &chars_of("{}"));
            } else {
                append_chars(out, &chars_of("{\n"));
                let ghost start = out@;
                let mut inner = pad.clone();
                assert(inner@ =~= pad@);
                inner.push(' ');
                inner.push(' ');
                assert(inner@ =~= spaces(ind + 2));
                let mut i: usize = 0;
                while i < members.len()
                    invariant
                        *v == JsonValue::Object(*members),
                        0 < members@.len(),
                        i <= members@.len(),
                        inner@ == spaces(ind + 2),
                        out@ == start + pretty_members(members@.take(i as int), ind),
                    decreases members.len() - i,
                {
                    assert(members@.take(i + 1).drop_last() =~= members@.take(i as int));
                    assert(members@.take(i + 1).last() == members@[i as int]);
                    let (key, value) = &members[i];
                    if i > 0 {
                        append_chars(out, &chars_of(",\n"));
                    }
                    append_chars(out, &inner);
                    push_quoted(out, key.as_str());
                    append_chars(out, &chars_of(": "));
                    proof {
                        assert(decreases_to!(*v => (*v)->Object_0));
                        assert(decreases_to!((*v)->Object_0 => (*v)->Object_0@));
                        assert(decreases_to!((*v)->Object_0@ => members@[i as int]));
                        assert(decreases_to!(members@[i as int] => members@[i as int].1));
                    }
                    pretty_into(value, &inner, out, Ghost(ind + 2));
                    i += 1;
                    proof {
                        if i == 1 {
                            assert(members@.take(1)[0] == members@[0]);
                        }
                    }
                    assert(out@ =~= start + pretty_members(members@.take(i as int), ind));
                }
                assert(members@.take(members@.len() as int) =~= members@);
                append_chars(out, &chars_of("\n"));
                append_chars(out, pad);
                append_chars(out, &chars_of("}"));
                assert(out@ =~= old(out)@ + pretty(*v, ind));
            }
        },
    }
}

/// JSON text with two-space indentation, one array item or object member
/// per line.
pub fn to_string_pretty(v: &JsonValue) -> (r: String)
    ensures
        r@ == pretty(*v, 0),
{
    let pad: Vec<char> = Vec::new();
    assert(pad@ =~= spaces(0));
    let mut out: Vec<char> = Vec::new();
    pretty_into(v, &pad, &mut out, Ghost(0));
    assert(out@ =~= pretty(*v, 0));
    string_of(out)
}

} // verus!
