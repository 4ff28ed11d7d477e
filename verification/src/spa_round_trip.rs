//! Reading back what the writers write. An object or array written as
//! SPA-JSON reads back when its strings need no escape, its numbers are
//! number words and its keys are plain words; written as JSON it reads back
//! when its numbers are number words and its strings and keys hold only
//! control characters with a short escape.
use vstd::prelude::*;

use crate::spa_json::{
    escape, escape_char, pretty, pretty_items, pretty_members, quoted, render, render_items,
    render_members, spaces, JsonValue,
};
use crate::spa_read::{
    is_delim, is_number_word, is_sep, lemma_member_models_prepend, lemma_models_prepend,
    member_models, model, models, parse_document, parse_items, parse_key, parse_members,
    parse_value, skip_sep, string_rest, word_end, word_value, escaped, JsonModel,
};
use crate::text::{
    digit_run, float_char, is_decimal_number, is_digit, is_float_literal,
    lemma_float_literal_chars, mantissa_end, unsigned_part,
};

verus! {

/// A key that is written without quotes: a nonempty word without
/// delimiters.
pub open spec fn is_key_word(k: Seq<char>) -> bool {
    &&& k.len() > 0
    &&& forall|i: int| 0 <= i < k.len() ==> !is_delim(#[trigger] k[i])
}

/// A value that the writer writes so that it reads back: strings without
/// quotes or backslashes, numbers that are number words, keys that are
/// plain words.
pub open spec fn writable(v: JsonValue) -> bool
    decreases v,
{
    match v {
        JsonValue::Number(n) => is_number_word(n@),
        JsonValue::String(t) => !t@.contains('"') && !t@.contains('\\'),
        JsonValue::Array(items) => writable_items(items@),
        JsonValue::Object(ms) => writable_members(ms@),
        _ => true,
    }
}

pub open spec fn writable_items(items: Seq<JsonValue>) -> bool
    decreases items,
{
    if items.len() == 0 {
        true
    } else {
        writable_items(items.drop_last()) && writable(items.last())
    }
}

pub open spec fn writable_members(ms: Seq<(String, JsonValue)>) -> bool
    decreases ms,
{
    if ms.len() == 0 {
        true
    } else {
        writable_members(ms.drop_last()) && is_key_word(ms.last().0@) && writable(ms.last().1)
    }
}

proof fn lemma_writable_items(items: Seq<JsonValue>)
    requires
        writable_items(items),
    ensures
        forall|k: int| 0 <= k < items.len() ==> #[trigger] writable(items[k]),
    decreases items.len(),
{
    if items.len() > 0 {
        lemma_writable_items(items.drop_last());
        assert forall|k: int| 0 <= k < items.len() implies #[trigger] writable(items[k]) by {
            if k < items.len() - 1 {
                assert(items.drop_last()[k] == items[k]);
            }
        }
    }
}

proof fn lemma_writable_members(ms: Seq<(String, JsonValue)>)
    requires
        writable_members(ms),
    ensures
        forall|k: int| 0 <= k < ms.len() ==> is_key_word(#[trigger] ms[k].0@) && writable(ms[k].1),
    decreases ms.len(),
{
    if ms.len() > 0 {
        lemma_writable_members(ms.drop_last());
        assert forall|k: int| 0 <= k < ms.len() implies is_key_word(#[trigger] ms[k].0@) && writable(
            ms[k].1,
        ) by {
            if k < ms.len() - 1 {
                assert(ms.drop_last()[k] == ms[k]);
            }
        }
    }
}

/// `seg` stands in `s` from position `j` on.
spec fn at(s: Seq<char>, j: int, seg: Seq<char>) -> bool {
    &&& 0 <= j
    &&& j + seg.len() <= s.len()
    &&& forall|k: int| 0 <= k < seg.len() ==> s[j + k] == #[trigger] seg[k]
}

proof fn lemma_at_split(s: Seq<char>, j: int, a: Seq<char>, b: Seq<char>)
    requires
        at(s, j, a + b),
    ensures
        at(s, j, a),
        at(s, j + a.len(), b),
{
    assert forall|k: int| 0 <= k < a.len() implies s[j + k] == #[trigger] a[k] by {
        assert((a + b)[k] == a[k]);
    }
    assert forall|k: int| 0 <= k < b.len() implies s[j + a.len() + k] == #[trigger] b[k] by {
        assert((a + b)[a.len() + k] == b[k]);
    }
}

proof fn lemma_skip_run(s: Seq<char>, i: int, j: int)
    requires
        0 <= i <= j < s.len(),
        forall|k: int| i <= k < j ==> is_sep(#[trigger] s[k]),
        !is_sep(s[j]),
        s[j] != '#',
    ensures
        skip_sep(s, i) == j,
    decreases j - i,
{
    if i < j {
        lemma_skip_run(s, i + 1, j);
        assert(is_sep(s[i]));
    }
}

proof fn lemma_word_run(s: Seq<char>, i: int, j: int)
    requires
        0 <= i <= j <= s.len(),
        forall|k: int| i <= k < j ==> !is_delim(#[trigger] s[k]),
        j == s.len() || is_delim(s[j]),
    ensures
        word_end(s, i) == j,
    decreases j - i,
{
    if i < j {
        lemma_word_run(s, i + 1, j);
        assert(!is_delim(s[i]));
    }
}

/// A string without quotes and backslashes, closed by a quote, reads as
/// itself.
proof fn lemma_string_run(s: Seq<char>, j: int, c: Seq<char>)
    requires
        at(s, j, c + seq!['"']),
        !c.contains('"'),
        !c.contains('\\'),
    ensures
        string_rest(s, j) == Some((c, j + c.len() + 1)),
    decreases c.len(),
{
    assert(s[j + c.len()] == (c + seq!['"'])[c.len() as int]);
    if c.len() > 0 {
        let d = c.drop_first();
        assert(at(s, j + 1, d + seq!['"'])) by {
            assert forall|k: int| 0 <= k < (d + seq!['"']).len() implies s[j + 1 + k]
                == #[trigger] (d + seq!['"'])[k] by {
                assert((c + seq!['"'])[k + 1] == (d + seq!['"'])[k]);
            }
        }
        assert(!d.contains('"')) by {
            if d.contains('"') {
                let k = choose|k: int| 0 <= k < d.len() && d[k] == '"';
                assert(c[k + 1] == '"');
            }
        }
        assert(!d.contains('\\')) by {
            if d.contains('\\') {
                let k = choose|k: int| 0 <= k < d.len() && d[k] == '\\';
                assert(c[k + 1] == '\\');
            }
        }
        lemma_string_run(s, j + 1, d);
        assert(s[j] == (c + seq!['"'])[0]);
        assert(s[j] != '"' && s[j] != '\\');
        assert(seq![s[j]] + d =~= c);
    }
}


/// A number word is a nonempty run of non-delimiters that starts with a
/// minus sign, a digit or a point, and reads as a number.
proof fn lemma_number_word(w: Seq<char>)
    requires
        is_number_word(w),
    ensures
        w.len() > 0,
        w[0] == '-' || is_digit(w[0]) || w[0] == '.',
        forall|k: int| 0 <= k < w.len() ==> !is_delim(#[trigger] w[k]),
        word_value(w) == JsonModel::Number(w),
{
    reveal_strlit("true");
    reveal_strlit("false");
    reveal_strlit("null");
    let u = if w.len() > 0 && w[0] == '-' {
        w.drop_first()
    } else {
        w
    };
    assert(is_decimal_number(u));
    let a = digit_run(u, 0);
    assert(u.len() > 0 && (is_digit(u[0]) || u[0] == '.')) by {
        if u.len() == 0 || !is_digit(u[0]) {
            assert(a == 0);
            if u.len() == 0 || u[0] != '.' {
                assert(mantissa_end(u) == a);
            }
        }
    }
    assert(w.len() > 0);
    if w[0] != '-' {
        assert(w[0] == u[0]);
    }
    assert(unsigned_part(w) == u);
    assert(is_float_literal(w));
    lemma_float_literal_chars(w);
    assert forall|k: int| 0 <= k < w.len() implies !is_delim(#[trigger] w[k]) by {
        assert(float_char(w[k]));
    }
    assert(w != "true"@) by {
        assert("true"@[0] == 't');
    }
    assert(w != "false"@) by {
        assert("false"@[0] == 'f');
    }
    assert(w != "null"@) by {
        assert("null"@[0] == 'n');
    }
}

/// What the writer writes for a value starts with neither a separator nor
/// a comment sign.
proof fn lemma_render_start(v: JsonValue, ind: nat)
    requires
        writable(v),
    ensures
        render(v, ind).len() > 0,
        !is_sep(render(v, ind)[0]),
        render(v, ind)[0] != '#',
{
    reveal_strlit("null");
    reveal_strlit("true");
    reveal_strlit("false");
    reveal_strlit("\"");
    reveal_strlit("[]");
    reveal_strlit("[\n");
    reveal_strlit("{\n");
    match v {
        JsonValue::Number(n) => {
            lemma_number_word(n@);
        },
        JsonValue::String(t) => {
            assert(render(v, ind)[0] == '"');
        },
        JsonValue::Array(items) => {
            if items@.len() > 0 {
                assert(render(v, ind)[0] == '[');
            }
        },
        JsonValue::Object(ms) => {
            assert(render(v, ind)[0] == '{');
        },
        _ => {},
    }
}

proof fn lemma_render_items_prepend(x: JsonValue, xs: Seq<JsonValue>, ind: nat)
    ensures
        render_items(seq![x] + xs, ind) == spaces(ind + 4) + render(x, ind + 4) + "\n"@
            + render_items(xs, ind),
    decreases xs.len(),
{
    let l = seq![x] + xs;
    if xs.len() == 0 {
        assert(l.drop_last() =~= Seq::<JsonValue>::empty());
        assert(l.last() == x);
        assert(render_items(l.drop_last(), ind) == Seq::<char>::empty());
        assert(render_items(xs, ind) == Seq::<char>::empty());
        assert(render_items(l, ind) =~= spaces(ind + 4) + render(x, ind + 4) + "\n"@
            + render_items(xs, ind));
    } else {
        lemma_render_items_prepend(x, xs.drop_last(), ind);
        assert(l.drop_last() =~= seq![x] + xs.drop_last());
        assert(l.last() == xs.last());
        let a = spaces(ind + 4) + render(x, ind + 4) + "\n"@;
        let r = render_items(xs.drop_last(), ind);
        let b = spaces(ind + 4) + render(xs.last(), ind + 4) + "\n"@;
        assert(render_items(xs, ind) == r + b);
        assert(render_items(l, ind) == (a + r) + b);
        assert((a + r) + b =~= a + (r + b));
    }
}

proof fn lemma_render_members_prepend(
    m: (String, JsonValue),
    ms: Seq<(String, JsonValue)>,
    ind: nat,
)
    ensures
        render_members(seq![m] + ms, ind) == spaces(ind + 4) + m.0@ + " = "@ + render(m.1, ind + 4)
            + "\n"@ + render_members(ms, ind),
    decreases ms.len(),
{
    let l = seq![m] + ms;
    if ms.len() == 0 {
        assert(l.drop_last() =~= Seq::<(String, JsonValue)>::empty());
        assert(l.last() == m);
        assert(render_members(l.drop_last(), ind) == Seq::<char>::empty());
        assert(render_members(ms, ind) == Seq::<char>::empty());
        assert(render_members(l, ind) =~= spaces(ind + 4) + m.0@ + " = "@ + render(m.1, ind + 4)
            + "\n"@ + render_members(ms, ind));
    } else {
        lemma_render_members_prepend(m, ms.drop_last(), ind);
        assert(l.drop_last() =~= seq![m] + ms.drop_last());
        assert(l.last() == ms.last());
        let a = spaces(ind + 4) + m.0@ + " = "@ + render(m.1, ind + 4) + "\n"@;
        let r = render_members(ms.drop_last(), ind);
        let b = spaces(ind + 4) + ms.last().0@ + " = "@ + render(ms.last().1, ind + 4) + "\n"@;
        assert(render_members(ms, ind) == r + b);
        assert(render_members(l, ind) == (a + r) + b);
        assert((a + r) + b =~= a + (r + b));
    }
}


/// The text after `[`: the items, then the closing bracket on its own line.
spec fn items_tail(items: Seq<JsonValue>, ind: nat) -> Seq<char> {
    "\n"@ + render_items(items, ind) + spaces(ind) + "]"@
}

/// The text after `{`: the members, then the closing brace on its own line.
spec fn members_tail(ms: Seq<(String, JsonValue)>, ind: nat) -> Seq<char> {
    "\n"@ + render_members(ms, ind) + spaces(ind) + "}"@
}

/// A newline and indentation are separators.
proof fn lemma_skip_indent(s: Seq<char>, j: int, n: nat)
    requires
        at(s, j, "\n"@ + spaces(n)),
        j + 1 + n < s.len(),
        !is_sep(s[j + 1 + n]),
        s[j + 1 + n] != '#',
    ensures
        skip_sep(s, j) == j + 1 + n,
{
    reveal_strlit("\n");
    assert forall|k: int| j <= k < j + 1 + n implies is_sep(#[trigger] s[k]) by {
        assert(s[j + (k - j)] == ("\n"@ + spaces(n))[k - j]);
    }
    lemma_skip_run(s, j, j + 1 + n);
}

/// The value written at position `i` is read there, up to its end.
proof fn lemma_value_read(s: Seq<char>, i: int, v: JsonValue, ind: nat)
    requires
        writable(v),
        at(s, i, render(v, ind)),
        i + render(v, ind).len() == s.len() || is_delim(s[i + render(v, ind).len()]),
    ensures
        parse_value(s, i) == Some((model(v), i + render(v, ind).len())),
    decreases v, 0int,
{
    reveal_strlit("null");
    reveal_strlit("true");
    reveal_strlit("false");
    reveal_strlit("\"");
    reveal_strlit("[]");
    reveal_strlit("[\n");
    reveal_strlit("{\n");
    reveal_strlit("\n");
    reveal_strlit("]");
    reveal_strlit("}");
    let r = render(v, ind);
    let e = i + r.len();
    lemma_render_start(v, ind);
    assert(s[i] == r[0]);
    match v {
        JsonValue::String(t) => {
            assert(r =~= seq!['"'] + (t@ + seq!['"']));
            lemma_at_split(s, i, seq!['"'], t@ + seq!['"']);
            lemma_string_run(s, i + 1, t@);
        },
        JsonValue::Array(items) => {
            if items@.len() == 0 {
                assert(s[i + 1] == r[1]);
                lemma_skip_run(s, i + 1, i + 1);
                assert(models(items@) =~= Seq::<JsonModel>::empty());
            } else {
                let tail = items_tail(items@, ind);
                assert(r =~= seq!['['] + tail);
                lemma_at_split(s, i, seq!['['], tail);
                assert(decreases_to!(v => v->Array_0));
                assert(decreases_to!(v->Array_0 => v->Array_0@));
                lemma_writable_items(items@);
                lemma_items_read(s, i + 1, items@, ind);
            }
        },
        JsonValue::Object(ms) => {
            let tail = members_tail(ms@, ind);
            assert(r =~= seq!['{'] + tail);
            lemma_at_split(s, i, seq!['{'], tail);
            assert(decreases_to!(v => v->Object_0));
            assert(decreases_to!(v->Object_0 => v->Object_0@));
            lemma_writable_members(ms@);
            lemma_members_read(s, i + 1, ms@, ind);
        },
        _ => {
            let w = r;
            assert forall|k: int| i <= k < e implies !is_delim(#[trigger] s[k]) by {
                assert(s[i + (k - i)] == w[k - i]);
                match v {
                    JsonValue::Number(n) => {
                        lemma_number_word(n@);
                    },
                    _ => {},
                }
            }
            lemma_word_run(s, i, e);
            assert(s.subrange(i, e) =~= w);
            match v {
                JsonValue::Number(n) => {
                    lemma_number_word(n@);
                },
                JsonValue::Bool(b) => {
                    assert("true"@ != "false"@ && "true"@ != "null"@ && "false"@ != "null"@) by {
                        assert("true"@.len() == 4 && "false"@.len() == 5 && "null"@.len() == 4);
                        assert("true"@[0] == 't' && "null"@[0] == 'n');
                    }
                },
                _ => {
                    assert("null"@ != "true"@ && "null"@ != "false"@) by {
                        assert("true"@.len() == 4 && "false"@.len() == 5 && "null"@.len() == 4);
                        assert("true"@[0] == 't' && "null"@[0] == 'n');
                    }
                },
            }
        },
    }
}

/// The items written after `[` are read there, through the closing bracket.
proof fn lemma_items_read(s: Seq<char>, j: int, items: Seq<JsonValue>, ind: nat)
    requires
        forall|k: int| 0 <= k < items.len() ==> #[trigger] writable(items[k]),
        at(s, j, items_tail(items, ind)),
    ensures
        parse_items(s, j) == Some((models(items), j + items_tail(items, ind).len())),
    decreases items, 1int,
{
    reveal_strlit("\n");
    reveal_strlit("]");
    let tail = items_tail(items, ind);
    if items.len() == 0 {
        assert(render_items(items, ind) == Seq::<char>::empty());
        assert(tail =~= ("\n"@ + spaces(ind)) + "]"@);
        lemma_at_split(s, j, "\n"@ + spaces(ind), "]"@);
        assert(s[j + 1 + ind] == "]"@[0]);
        lemma_skip_indent(s, j, ind);
        assert(models(items) =~= Seq::<JsonModel>::empty());
    } else {
        let x = items[0];
        let xs = items.subrange(1, items.len() as int);
        assert(items =~= seq![x] + xs);
        lemma_render_items_prepend(x, xs, ind);
        let rx = render(x, ind + 4);
        let head = "\n"@ + spaces(ind + 4);
        let rest = items_tail(xs, ind);
        assert(tail =~= head + rx + rest);
        lemma_at_split(s, j, head + rx, rest);
        lemma_at_split(s, j, head, rx);
        assert(writable(items[0]));
        lemma_render_start(x, ind + 4);
        let k = j + head.len();
        assert(s[k] == rx[0]);
        lemma_skip_indent(s, j, ind + 4);
        assert(s[k + rx.len()] == rest[0]);
        assert(decreases_to!(items => items[0]));
        lemma_value_read(s, k, x, ind + 4);
        assert forall|q: int| 0 <= q < xs.len() implies #[trigger] writable(xs[q]) by {
            assert(xs[q] == items[q + 1]);
        }
        lemma_items_read(s, k + rx.len(), xs, ind);
        lemma_models_prepend(x, xs);
    }
}

/// The members written after `{` are read there, through the closing brace.
proof fn lemma_members_read(s: Seq<char>, j: int, ms: Seq<(String, JsonValue)>, ind: nat)
    requires
        forall|k: int| 0 <= k < ms.len() ==> is_key_word(#[trigger] ms[k].0@) && writable(ms[k].1),
        at(s, j, members_tail(ms, ind)),
    ensures
        parse_members(s, j, false) == Some((member_models(ms), j + members_tail(ms, ind).len())),
    decreases ms, 1int,
{
    reveal_strlit("\n");
    reveal_strlit("}");
    reveal_strlit(" = ");
    let tail = members_tail(ms, ind);
    if ms.len() == 0 {
        assert(render_members(ms, ind) == Seq::<char>::empty());
        assert(tail =~= ("\n"@ + spaces(ind)) + "}"@);
        lemma_at_split(s, j, "\n"@ + spaces(ind), "}"@);
        assert(s[j + 1 + ind] == "}"@[0]);
        lemma_skip_indent(s, j, ind);
        assert(member_models(ms) =~= Seq::<(Seq<char>, JsonModel)>::empty());
    } else {
        let m = ms[0];
        let rest_ms = ms.subrange(1, ms.len() as int);
        assert(ms =~= seq![m] + rest_ms);
        lemma_render_members_prepend(m, rest_ms, ind);
        let key = m.0@;
        let rv = render(m.1, ind + 4);
        let head = "\n"@ + spaces(ind + 4);
        let rest = members_tail(rest_ms, ind);
        assert(tail =~= head + key + " = "@ + rv + rest);
        lemma_at_split(s, j, head + key + " = "@ + rv, rest);
        lemma_at_split(s, j, head + key + " = "@, rv);
        lemma_at_split(s, j, head + key, " = "@);
        lemma_at_split(s, j, head, key);
        assert(is_key_word(ms[0].0@) && writable(ms[0].1));
        let k = j + head.len();
        assert(s[k] == key[0]);
        assert(!is_delim(key[0]));
        lemma_skip_indent(s, j, ind + 4);
        let ke = k + key.len();
        assert forall|q: int| k <= q < ke implies !is_delim(#[trigger] s[q]) by {
            assert(s[k + (q - k)] == key[q - k]);
        }
        assert(s[ke] == " = "@[0]);
        lemma_word_run(s, k, ke);
        assert(s.subrange(k, ke) =~= key);
        assert(parse_key(s, k) == Some((key, ke)));
        lemma_render_start(m.1, ind + 4);
        let v0 = ke + 3;
        assert(s[ke + 1] == " = "@[1] && s[ke + 2] == " = "@[2]);
        assert(s[v0] == rv[0]);
        lemma_skip_run(s, ke, v0);
        assert(s[v0 + rv.len()] == rest[0]);
        assert(decreases_to!(ms => ms[0]));
        assert(decreases_to!(ms[0] => ms[0].1));
        lemma_value_read(s, v0, m.1, ind + 4);
        assert forall|q: int| 0 <= q < rest_ms.len() implies is_key_word(#[trigger] rest_ms[q].0@)
            && writable(rest_ms[q].1) by {
            assert(rest_ms[q] == ms[q + 1]);
        }
        lemma_members_read(s, v0 + rv.len(), rest_ms, ind);
        lemma_member_models_prepend(m, rest_ms);
    }
}


/// Reading the text that the SPA-JSON writer writes for an object or an
/// array gives back its model, when its strings hold no quote or
/// backslash, its numbers are number words and its keys are plain words.
pub proof fn lemma_render_read_back(v: JsonValue)
    requires
        writable(v),
        v is Object || v is Array,
    ensures
        parse_document(render(v, 0)) == Some(model(v)),
{
    reveal_strlit("[]");
    reveal_strlit("[\n");
    reveal_strlit("{\n");
    let s = render(v, 0);
    lemma_render_start(v, 0);
    assert(at(s, 0, s));
    lemma_value_read(s, 0, v, 0);
    assert(skip_sep(s, s.len() as int) == s.len());
    match v {
        JsonValue::Array(items) => {
            if items@.len() == 0 {
                assert(s[0] == "[]"@[0]);
            } else {
                assert(s[0] == "[\n"@[0]);
            }
        },
        JsonValue::Object(_) => {
            assert(s[0] == "{\n"@[0]);
        },
        _ => {},
    }
    assert(skip_sep(s, 0) == 0);
}


/// Text whose control characters all have a short escape (`\n`, `\t`,
/// `\r`, `\b`, `\f`).
pub open spec fn escapable(t: Seq<char>) -> bool {
    forall|k: int|
        0 <= k < t.len() ==> (#[trigger] t[k] as int) >= 0x20 || t[k] == '\n' || t[k] == '\t'
            || t[k] == '\r' || t[k] == '\u{8}' || t[k] == '\u{c}'
}

/// A value whose JSON text reads back: numbers are number words, strings
/// and keys have only short-escaped control characters.
pub open spec fn json_writable(v: JsonValue) -> bool
    decreases v,
{
    match v {
        JsonValue::Number(n) => is_number_word(n@),
        JsonValue::String(t) => escapable(t@),
        JsonValue::Array(items) => json_writable_items(items@),
        JsonValue::Object(ms) => json_writable_members(ms@),
        _ => true,
    }
}

pub open spec fn json_writable_items(items: Seq<JsonValue>) -> bool
    decreases items,
{
    if items.len() == 0 {
        true
    } else {
        json_writable_items(items.drop_last()) && json_writable(items.last())
    }
}

pub open spec fn json_writable_members(ms: Seq<(String, JsonValue)>) -> bool
    decreases ms,
{
    if ms.len() == 0 {
        true
    } else {
        json_writable_members(ms.drop_last()) && escapable(ms.last().0@) && json_writable(
            ms.last().1,
        )
    }
}

proof fn lemma_json_writable_items(items: Seq<JsonValue>)
    requires
        json_writable_items(items),
    ensures
        forall|k: int| 0 <= k < items.len() ==> #[trigger] json_writable(items[k]),
    decreases items.len(),
{
    if items.len() > 0 {
        lemma_json_writable_items(items.drop_last());
        assert forall|k: int| 0 <= k < items.len() implies #[trigger] json_writable(items[k]) by {
            if k < items.len() - 1 {
                assert(items.drop_last()[k] == items[k]);
            }
        }
    }
}

/// A member whose key and value read back.
pub open spec fn json_member_ok(m: (String, JsonValue)) -> bool {
    escapable(m.0@) && json_writable(m.1)
}

proof fn lemma_json_writable_members(ms: Seq<(String, JsonValue)>)
    requires
        json_writable_members(ms),
    ensures
        forall|k: int| 0 <= k < ms.len() ==> #[trigger] json_member_ok(ms[k]),
    decreases ms.len(),
{
    if ms.len() > 0 {
        lemma_json_writable_members(ms.drop_last());
        assert forall|k: int| 0 <= k < ms.len() implies #[trigger] json_member_ok(ms[k]) by {
            if k < ms.len() - 1 {
                assert(ms.drop_last()[k] == ms[k]);
            }
        }
    }
}

proof fn lemma_escape_prepend(c: char, cs: Seq<char>)
    ensures
        escape(seq![c] + cs) == escape_char(c) + escape(cs),
    decreases cs.len(),
{
    let l = seq![c] + cs;
    if cs.len() == 0 {
        assert(l.drop_last() =~= Seq::<char>::empty());
        assert(l.last() == c);
        assert(escape(l.drop_last()) == Seq::<char>::empty());
        assert(escape(cs) == Seq::<char>::empty());
        assert(escape(l) =~= escape_char(c) + escape(cs));
    } else {
        lemma_escape_prepend(c, cs.drop_last());
        assert(l.drop_last() =~= seq![c] + cs.drop_last());
        assert(l.last() == cs.last());
        let a = escape_char(c);
        let r = escape(cs.drop_last());
        let b = escape_char(cs.last());
        assert(escape(cs) == r + b);
        assert(escape(l) == (a + r) + b);
        assert((a + r) + b =~= a + (r + b));
    }
}

/// An escaped string closed by a quote reads as the string.
proof fn lemma_escaped_read(s: Seq<char>, j: int, c: Seq<char>)
    requires
        escapable(c),
        at(s, j, escape(c) + seq!['"']),
    ensures
        string_rest(s, j) == Some((c, j + escape(c).len() + 1)),
    decreases c.len(),
{
    let t = escape(c) + seq!['"'];
    if c.len() == 0 {
        assert(escape(c) == Seq::<char>::empty());
        assert(s[j] == t[0]);
    } else {
        let c0 = c[0];
        let cs = c.subrange(1, c.len() as int);
        assert(c =~= seq![c0] + cs);
        lemma_escape_prepend(c0, cs);
        let e0 = escape_char(c0);
        assert(t =~= e0 + (escape(cs) + seq!['"']));
        lemma_at_split(s, j, e0, escape(cs) + seq!['"']);
        assert(escapable(cs)) by {
            assert forall|k: int| 0 <= k < cs.len() implies (#[trigger] cs[k] as int) >= 0x20
                || cs[k] == '\n' || cs[k] == '\t' || cs[k] == '\r' || cs[k] == '\u{8}' || cs[k]
                == '\u{c}' by {
                assert(cs[k] == c[k + 1]);
            }
        }
        lemma_escaped_read(s, j + e0.len(), cs);
        assert(c[0] as int >= 0x20 || c0 == '\n' || c0 == '\t' || c0 == '\r' || c0 == '\u{8}'
            || c0 == '\u{c}');
        assert(s[j] == e0[0]);
        if e0.len() == 2 {
            assert(s[j + 1] == e0[1]);
            assert(escaped(s[j + 1]) == c0);
        }
    }
}

/// The first item, then a comma before each of the others.
proof fn lemma_pretty_items_prepend(x: JsonValue, xs: Seq<JsonValue>, ind: nat)
    requires
        xs.len() > 0,
    ensures
        pretty_items(seq![x] + xs, ind) == spaces(ind + 2) + pretty(x, ind + 2) + ",\n"@
            + pretty_items(xs, ind),
    decreases xs.len(),
{
    let l = seq![x] + xs;
    assert(l.drop_last() =~= seq![x] + xs.drop_last());
    assert(l.last() == xs.last());
    let a = spaces(ind + 2) + pretty(x, ind + 2) + ",\n"@;
    let b = ",\n"@ + spaces(ind + 2) + pretty(xs.last(), ind + 2);
    if xs.len() == 1 {
        assert(l.drop_last() =~= seq![x]);
        assert(pretty_items(seq![x], ind) == spaces(ind + 2) + pretty(x, ind + 2));
        assert(pretty_items(xs, ind) == spaces(ind + 2) + pretty(xs[0], ind + 2));
        assert(xs.last() == xs[0]);
        assert(pretty_items(l, ind) =~= a + pretty_items(xs, ind));
    } else {
        lemma_pretty_items_prepend(x, xs.drop_last(), ind);
        let r = pretty_items(xs.drop_last(), ind);
        assert(pretty_items(xs, ind) == r + b);
        assert(pretty_items(l, ind) == (a + r) + b);
        assert((a + r) + b =~= a + (r + b));
    }
}

proof fn lemma_pretty_members_prepend(m: (String, JsonValue), ms: Seq<(String, JsonValue)>, ind: nat)
    requires
        ms.len() > 0,
    ensures
        pretty_members(seq![m] + ms, ind) == spaces(ind + 2) + quoted(m.0@) + ": "@ + pretty(
            m.1,
            ind + 2,
        ) + ",\n"@ + pretty_members(ms, ind),
    decreases ms.len(),
{
    let l = seq![m] + ms;
    assert(l.drop_last() =~= seq![m] + ms.drop_last());
    assert(l.last() == ms.last());
    let a = spaces(ind + 2) + quoted(m.0@) + ": "@ + pretty(m.1, ind + 2) + ",\n"@;
    let b = ",\n"@ + spaces(ind + 2) + quoted(ms.last().0@) + ": "@ + pretty(ms.last().1, ind + 2);
    if ms.len() == 1 {
        assert(l.drop_last() =~= seq![m]);
        assert(pretty_members(seq![m], ind) == spaces(ind + 2) + quoted(m.0@) + ": "@ + pretty(
            m.1,
            ind + 2,
        ));
        assert(ms.last() == ms[0]);
        assert(pretty_members(l, ind) =~= a + pretty_members(ms, ind));
    } else {
        lemma_pretty_members_prepend(m, ms.drop_last(), ind);
        let r = pretty_members(ms.drop_last(), ind);
        assert(pretty_members(ms, ind) == r + b);
        assert(pretty_members(l, ind) == (a + r) + b);
        assert((a + r) + b =~= a + (r + b));
    }
}

/// The JSON text of a value starts with neither a separator nor a comment
/// sign.
proof fn lemma_pretty_start(v: JsonValue, ind: nat)
    requires
        json_writable(v),
    ensures
        pretty(v, ind).len() > 0,
        !is_sep(pretty(v, ind)[0]),
        pretty(v, ind)[0] != '#',
{
    reveal_strlit("null");
    reveal_strlit("true");
    reveal_strlit("false");
    reveal_strlit("[]");
    reveal_strlit("[\n");
    reveal_strlit("{}");
    reveal_strlit("{\n");
    match v {
        JsonValue::Number(n) => {
            lemma_number_word(n@);
        },
        JsonValue::String(t) => {
            assert(pretty(v, ind)[0] == '"');
        },
        JsonValue::Array(items) => {
            if items@.len() > 0 {
                assert(pretty(v, ind)[0] == '[');
            } else {
                assert(pretty(v, ind)[0] == '[');
            }
        },
        JsonValue::Object(ms) => {
            if ms@.len() > 0 {
                assert(pretty(v, ind)[0] == '{');
            } else {
                assert(pretty(v, ind)[0] == '{');
            }
        },
        _ => {},
    }
}


/// Separators, then the items, then the closing bracket on its own line.
spec fn pretty_items_tail(p: Seq<char>, items: Seq<JsonValue>, ind: nat) -> Seq<char> {
    p + pretty_items(items, ind) + "\n"@ + spaces(ind) + "]"@
}

/// Separators, then the members, then the closing brace on its own line.
spec fn pretty_members_tail(p: Seq<char>, ms: Seq<(String, JsonValue)>, ind: nat) -> Seq<
    char,
> {
    p + pretty_members(ms, ind) + "\n"@ + spaces(ind) + "}"@
}

spec fn all_sep(p: Seq<char>) -> bool {
    forall|k: int| 0 <= k < p.len() ==> is_sep(#[trigger] p[k])
}

/// Separators and indentation are skipped.
proof fn lemma_skip_seps(s: Seq<char>, j: int, p: Seq<char>, n: nat)
    requires
        all_sep(p),
        at(s, j, p + spaces(n)),
        j + p.len() + n < s.len(),
        !is_sep(s[j + p.len() + n]),
        s[j + p.len() + n] != '#',
    ensures
        skip_sep(s, j) == j + p.len() + n,
{
    assert forall|k: int| j <= k < j + p.len() + n implies is_sep(#[trigger] s[k]) by {
        assert(s[j + (k - j)] == (p + spaces(n))[k - j]);
        if k - j < p.len() {
            assert((p + spaces(n))[k - j] == p[k - j]);
        }
    }
    lemma_skip_run(s, j, j + p.len() + n);
}

/// The JSON text of a value at position `i` is read there, up to its end.
#[verifier::spinoff_prover]
#[verifier::rlimit(40)]
proof fn lemma_pretty_value_read(s: Seq<char>, i: int, v: JsonValue, ind: nat)
    requires
        json_writable(v),
        at(s, i, pretty(v, ind)),
        i + pretty(v, ind).len() == s.len() || is_delim(s[i + pretty(v, ind).len()]),
    ensures
        parse_value(s, i) == Some((model(v), i + pretty(v, ind).len())),
    decreases v, 0int,
{
    reveal_strlit("null");
    reveal_strlit("true");
    reveal_strlit("false");
    reveal_strlit("[]");
    reveal_strlit("[\n");
    reveal_strlit("{}");
    reveal_strlit("{\n");
    reveal_strlit("\n");
    let r = pretty(v, ind);
    let e = i + r.len();
    lemma_pretty_start(v, ind);
    assert(s[i] == r[0]);
    match v {
        JsonValue::String(t) => {
            assert(r =~= seq!['"'] + (escape(t@) + seq!['"']));
            lemma_at_split(s, i, seq!['"'], escape(t@) + seq!['"']);
            lemma_escaped_read(s, i + 1, t@);
        },
        JsonValue::Array(items) => {
            if items@.len() == 0 {
                assert(s[i + 1] == r[1]);
                lemma_skip_run(s, i + 1, i + 1);
                assert(models(items@) =~= Seq::<JsonModel>::empty());
            } else {
                let tail = pretty_items_tail("\n"@, items@, ind);
                assert(r =~= seq!['['] + tail);
                lemma_at_split(s, i, seq!['['], tail);
                assert(decreases_to!(v => v->Array_0));
                assert(decreases_to!(v->Array_0 => v->Array_0@));
                lemma_json_writable_items(items@);
                lemma_pretty_items_read(s, i + 1, "\n"@, items@, ind);
            }
        },
        JsonValue::Object(ms) => {
            if ms@.len() == 0 {
                assert(s[i + 1] == r[1]);
                lemma_skip_run(s, i + 1, i + 1);
                assert(member_models(ms@) =~= Seq::<(Seq<char>, JsonModel)>::empty());
            } else {
                let tail = pretty_members_tail("\n"@, ms@, ind);
                assert(r =~= seq!['{'] + tail);
                lemma_at_split(s, i, seq!['{'], tail);
                assert(decreases_to!(v => v->Object_0));
                assert(decreases_to!(v->Object_0 => v->Object_0@));
                lemma_json_writable_members(ms@);
                assert(all_sep("\n"@));
                assert(at(s, i + 1, pretty_members_tail("\n"@, ms@, ind)));
                lemma_pretty_members_read(s, i + 1, "\n"@, ms@, ind);
            }
        },
        _ => {
            let w = r;
            assert forall|k: int| i <= k < e implies !is_delim(#[trigger] s[k]) by {
                assert(s[i + (k - i)] == w[k - i]);
                match v {
                    JsonValue::Number(n) => {
                        lemma_number_word(n@);
                    },
                    _ => {},
                }
            }
            lemma_word_run(s, i, e);
            assert(s.subrange(i, e) =~= w);
            match v {
                JsonValue::Number(n) => {
                    lemma_number_word(n@);
                },
                JsonValue::Bool(b) => {
                    assert("true"@ != "false"@ && "true"@ != "null"@ && "false"@ != "null"@) by {
                        assert("true"@.len() == 4 && "false"@.len() == 5 && "null"@.len() == 4);
                        assert("true"@[0] == 't' && "null"@[0] == 'n');
                    }
                },
                _ => {
                    assert("null"@ != "true"@ && "null"@ != "false"@) by {
                        assert("true"@.len() == 4 && "false"@.len() == 5 && "null"@.len() == 4);
                        assert("true"@[0] == 't' && "null"@[0] == 'n');
                    }
                },
            }
        },
    }
}

/// The items of a written array are read, through the closing bracket.
proof fn lemma_pretty_items_read(
    s: Seq<char>,
    j: int,
    p: Seq<char>,
    items: Seq<JsonValue>,
    ind: nat,
)
    requires
        items.len() > 0,
        all_sep(p),
        forall|k: int| 0 <= k < items.len() ==> #[trigger] json_writable(items[k]),
        at(s, j, pretty_items_tail(p, items, ind)),
    ensures
        parse_items(s, j) == Some((models(items), j + pretty_items_tail(p, items, ind).len())),
    decreases items, 1int,
{
    reveal_strlit("\n");
    reveal_strlit(",\n");
    reveal_strlit("]");
    let tail = pretty_items_tail(p, items, ind);
    let x = items[0];
    let xs = items.subrange(1, items.len() as int);
    assert(items =~= seq![x] + xs);
    let px = pretty(x, ind + 2);
    let close = "\n"@ + spaces(ind) + "]"@;
    let rest = if xs.len() == 0 {
        close
    } else {
        pretty_items_tail(",\n"@, xs, ind)
    };
    if xs.len() == 0 {
        assert(pretty_items(items, ind) == spaces(ind + 2) + px);
    } else {
        lemma_pretty_items_prepend(x, xs, ind);
    }
    assert(tail =~= p + spaces(ind + 2) + px + rest);
    lemma_at_split(s, j, p + spaces(ind + 2) + px, rest);
    lemma_at_split(s, j, p + spaces(ind + 2), px);
    assert(json_writable(items[0]));
    lemma_pretty_start(x, ind + 2);
    let k = j + p.len() + ind + 2;
    assert(s[k] == px[0]);
    lemma_skip_seps(s, j, p, ind + 2);
    let m = k + px.len();
    assert(s[m] == rest[0]);
    assert(decreases_to!(items => items[0]));
    lemma_pretty_value_read(s, k, x, ind + 2);
    if xs.len() == 0 {
        assert(close =~= ("\n"@ + spaces(ind)) + "]"@);
        lemma_at_split(s, m, "\n"@ + spaces(ind), "]"@);
        assert(s[m + 1 + ind] == "]"@[0]);
        lemma_skip_indent(s, m, ind);
        assert(models(xs) =~= Seq::<JsonModel>::empty());
        assert(parse_items(s, m) == Some((models(xs), m + close.len())));
    } else {
        assert forall|q: int| 0 <= q < xs.len() implies #[trigger] json_writable(xs[q]) by {
            assert(xs[q] == items[q + 1]);
        }
        assert(all_sep(",\n"@));
        lemma_pretty_items_read(s, m, ",\n"@, xs, ind);
    }
    lemma_models_prepend(x, xs);
}

/// The members of a written object are read, through the closing brace.
#[verifier::rlimit(40)]
proof fn lemma_pretty_members_read(
    s: Seq<char>,
    j: int,
    p: Seq<char>,
    ms: Seq<(String, JsonValue)>,
    ind: nat,
)
    requires
        ms.len() > 0,
        all_sep(p),
        forall|k: int| 0 <= k < ms.len() ==> #[trigger] json_member_ok(ms[k]),
        at(s, j, pretty_members_tail(p, ms, ind)),
    ensures
        parse_members(s, j, false) == Some(
            (member_models(ms), j + pretty_members_tail(p, ms, ind).len()),
        ),
    decreases ms, 1int,
{
    reveal_strlit("\n");
    reveal_strlit(",\n");
    reveal_strlit("}");
    reveal_strlit(": ");
    let tail = pretty_members_tail(p, ms, ind);
    let m0 = ms[0];
    let rest_ms = ms.subrange(1, ms.len() as int);
    assert(ms =~= seq![m0] + rest_ms);
    let key = m0.0@;
    let ek = escape(key);
    let pv = pretty(m0.1, ind + 2);
    let close = "\n"@ + spaces(ind) + "}"@;
    let rest = if rest_ms.len() == 0 {
        close
    } else {
        pretty_members_tail(",\n"@, rest_ms, ind)
    };
    if rest_ms.len() == 0 {
        assert(pretty_members(ms, ind) == spaces(ind + 2) + quoted(key) + ": "@ + pv);
    } else {
        lemma_pretty_members_prepend(m0, rest_ms, ind);
    }
    let lead = p + spaces(ind + 2);
    assert(tail =~= lead + seq!['"'] + (ek + seq!['"']) + ": "@ + pv + rest);
    lemma_at_split(s, j, lead + seq!['"'] + (ek + seq!['"']) + ": "@ + pv, rest);
    lemma_at_split(s, j, lead + seq!['"'] + (ek + seq!['"']) + ": "@, pv);
    lemma_at_split(s, j, lead + seq!['"'] + (ek + seq!['"']), ": "@);
    lemma_at_split(s, j, lead + seq!['"'], ek + seq!['"']);
    lemma_at_split(s, j, lead, seq!['"']);
    assert(json_member_ok(ms[0]));
    let k = j + lead.len();
    assert(s[j + lead.len() + 0] == seq!['"'][0]);
    lemma_skip_seps(s, j, p, ind + 2);
    lemma_escaped_read(s, k + 1, key);
    let ke = k + 1 + ek.len() + 1;
    assert(parse_key(s, k) == Some((key, ke)));
    lemma_pretty_start(m0.1, ind + 2);
    let v0 = ke + 2;
    assert(s[ke] == ": "@[0] && s[ke + 1] == ": "@[1]);
    assert(s[v0] == pv[0]);
    lemma_skip_run(s, ke, v0);
    let m = v0 + pv.len();
    assert(s[m] == rest[0]);
    assert(decreases_to!(ms => ms[0]));
    assert(decreases_to!(ms[0] => ms[0].1));
    lemma_pretty_value_read(s, v0, m0.1, ind + 2);
    if rest_ms.len() == 0 {
        assert(close =~= ("\n"@ + spaces(ind)) + "}"@);
        lemma_at_split(s, m, "\n"@ + spaces(ind), "}"@);
        assert(s[m + 1 + ind] == "}"@[0]);
        lemma_skip_indent(s, m, ind);
        assert(member_models(rest_ms) =~= Seq::<(Seq<char>, JsonModel)>::empty());
        assert(parse_members(s, m, false) == Some((member_models(rest_ms), m + close.len())));
    } else {
        assert forall|q: int| 0 <= q < rest_ms.len() implies #[trigger] json_member_ok(rest_ms[q]) by {
            assert(rest_ms[q] == ms[q + 1]);
        }
        assert(all_sep(",\n"@));
        lemma_pretty_members_read(s, m, ",\n"@, rest_ms, ind);
    }
    lemma_member_models_prepend(m0, rest_ms);
}

/// Reading the JSON text that [`crate::spa_json::to_string_pretty`] writes
/// for an object or an array gives back its model, when its numbers are
/// number words and its strings and keys hold no control character but
/// newline, tab, carriage return, backspace and form feed.
pub proof fn lemma_pretty_read_back(v: JsonValue)
    requires
        json_writable(v),
        v is Object || v is Array,
    ensures
        parse_document(pretty(v, 0)) == Some(model(v)),
{
    let s = pretty(v, 0);
    lemma_pretty_start(v, 0);
    assert(at(s, 0, s));
    lemma_pretty_value_read(s, 0, v, 0);
    assert(skip_sep(s, s.len() as int) == s.len());
    lemma_skip_run(s, 0, 0);
}

} // verus!
