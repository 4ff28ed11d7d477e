//! Reading SPA-JSON, the relaxed JSON of PipeWire configuration files:
//! `=`, `:` and `,` separate like whitespace, `#` comments to the end of the
//! line, keys and plain values need no quotes, and the whole text may be the
//! members of an object without its braces.
use vstd::prelude::*;

use crate::spa_json::JsonValue;
use crate::text::{chars_of, is_decimal_number, is_whitespace, is_ws, slice_chars, string_of};

verus! {

/// A JSON value as mathematical text and sequences.
pub ghost enum JsonModel {
    Null,
    Bool(bool),
    Number(Seq<char>),
    Str(Seq<char>),
    Array(Seq<JsonModel>),
    Object(Seq<(Seq<char>, JsonModel)>),
}

/// The model of a value.
pub open spec fn model(v: JsonValue) -> JsonModel
    decreases v,
{
    match v {
        JsonValue::Null => JsonModel::Null,
        JsonValue::Bool(b) => JsonModel::Bool(b),
        JsonValue::Number(t) => JsonModel::Number(t@),
        JsonValue::String(t) => JsonModel::Str(t@),
        JsonValue::Array(items) => JsonModel::Array(models(items@)),
        JsonValue::Object(ms) => JsonModel::Object(member_models(ms@)),
    }
}

pub open spec fn models(items: Seq<JsonValue>) -> Seq<JsonModel>
    decreases items,
{
    if items.len() == 0 {
        seq![]
    } else {
        models(items.drop_last()).push(model(items.last()))
    }
}

pub open spec fn member_models(ms: Seq<(String, JsonValue)>) -> Seq<(Seq<char>, JsonModel)>
    decreases ms,
{
    if ms.len() == 0 {
        seq![]
    } else {
        member_models(ms.drop_last()).push((ms.last().0@, model(ms.last().1)))
    }
}

pub proof fn lemma_models_prepend(v: JsonValue, vs: Seq<JsonValue>)
    ensures
        models(seq![v] + vs) == seq![model(v)] + models(vs),
    decreases vs.len(),
{
    if vs.len() == 0 {
        assert((seq![v] + vs).drop_last() =~= Seq::<JsonValue>::empty());
        assert((seq![v] + vs).last() == v);
        assert(models(Seq::<JsonValue>::empty()) =~= Seq::<JsonModel>::empty());
        assert(models(seq![v] + vs) =~= seq![model(v)] + models(vs));
    } else {
        lemma_models_prepend(v, vs.drop_last());
        assert((seq![v] + vs).drop_last() =~= seq![v] + vs.drop_last());
        assert(models(seq![v] + vs) =~= seq![model(v)] + models(vs));
    }
}

pub proof fn lemma_member_models_prepend(m: (String, JsonValue), ms: Seq<(String, JsonValue)>)
    ensures
        member_models(seq![m] + ms) == seq![(m.0@, model(m.1))] + member_models(ms),
    decreases ms.len(),
{
    if ms.len() == 0 {
        assert((seq![m] + ms).drop_last() =~= Seq::<(String, JsonValue)>::empty());
        assert((seq![m] + ms).last() == m);
        assert(member_models(Seq::<(String, JsonValue)>::empty()) =~= Seq::<(Seq<char>, JsonModel)>::empty());
        assert(member_models(seq![m] + ms) =~= seq![(m.0@, model(m.1))] + member_models(ms));
    } else {
        lemma_member_models_prepend(m, ms.drop_last());
        assert((seq![m] + ms).drop_last() =~= seq![m] + ms.drop_last());
        assert(member_models(seq![m] + ms) =~= seq![(m.0@, model(m.1))] + member_models(ms));
    }
}

/// Characters that separate tokens like whitespace.
pub open spec fn is_sep(c: char) -> bool {
    is_ws(c) || c == ',' || c == ':' || c == '='
}

/// Characters that end a plain word.
pub open spec fn is_delim(c: char) -> bool {
    is_sep(c) || c == '{' || c == '}' || c == '[' || c == ']' || c == '"' || c == '#'
}

/// The position after separators and comments from `i` on; `comment` says
/// whether `i` lies inside a comment.
pub open spec fn skip_from(s: Seq<char>, i: int, comment: bool) -> int
    decreases s.len() - i,
{
    if i < 0 || i >= s.len() {
        i
    } else if comment {
        skip_from(s, i + 1, s[i] != '\n')
    } else if is_sep(s[i]) {
        skip_from(s, i + 1, false)
    } else if s[i] == '#' {
        skip_from(s, i + 1, true)
    } else {
        i
    }
}

/// The position of the next token at or after `i`.
pub open spec fn skip_sep(s: Seq<char>, i: int) -> int {
    skip_from(s, i, false)
}

/// The end of the plain word that starts at `i`.
pub open spec fn word_end(s: Seq<char>, i: int) -> int
    decreases s.len() - i,
{
    if 0 <= i < s.len() && !is_delim(s[i]) {
        word_end(s, i + 1)
    } else {
        i
    }
}

/// A number: an optional minus sign and a decimal number.
pub open spec fn is_number_word(w: Seq<char>) -> bool {
    let u = if w.len() > 0 && w[0] == '-' {
        w.drop_first()
    } else {
        w
    };
    is_decimal_number(u)
}

/// The value a plain word stands for: `true`, `false`, `null`, a number, or
/// else a string.
pub open spec fn word_value(w: Seq<char>) -> JsonModel {
    if w == "true"@ {
        JsonModel::Bool(true)
    } else if w == "false"@ {
        JsonModel::Bool(false)
    } else if w == "null"@ {
        JsonModel::Null
    } else if is_number_word(w) {
        JsonModel::Number(w)
    } else {
        JsonModel::Str(w)
    }
}

/// The character a backslash escape stands for.
pub open spec fn escaped(c: char) -> char {
    if c == 'n' {
        '\n'
    } else if c == 't' {
        '\t'
    } else if c == 'r' {
        '\r'
    } else if c == 'b' {
        '\u{8}'
    } else if c == 'f' {
        '\u{c}'
    } else {
        c
    }
}

/// The contents of a quoted string from position `j` (after the opening
/// quote) and the position after its closing quote.
pub open spec fn string_rest(s: Seq<char>, j: int) -> Option<(Seq<char>, int)>
    decreases s.len() - j,
{
    if j < 0 || j >= s.len() {
        None
    } else if s[j] == '"' {
        Some((seq![], j + 1))
    } else if s[j] == '\\' {
        if j + 1 < s.len() {
            match string_rest(s, j + 2) {
                Some((c, e)) => Some((seq![escaped(s[j + 1])] + c, e)),
                None => None,
            }
        } else {
            None
        }
    } else {
        match string_rest(s, j + 1) {
            Some((c, e)) => Some((seq![s[j]] + c, e)),
            None => None,
        }
    }
}

/// The value that starts at `i` and the position after it.
pub open spec fn parse_value(s: Seq<char>, i: int) -> Option<(JsonModel, int)>
    decreases s.len() - i, 0int,
{
    if i < 0 || i >= s.len() {
        None
    } else if s[i] == '{' {
        match parse_members(s, i + 1, false) {
            Some((ms, j)) => Some((JsonModel::Object(ms), j)),
            None => None,
        }
    } else if s[i] == '[' {
        match parse_items(s, i + 1) {
            Some((vs, j)) => Some((JsonModel::Array(vs), j)),
            None => None,
        }
    } else if s[i] == '"' {
        match string_rest(s, i + 1) {
            Some((c, j)) => Some((JsonModel::Str(c), j)),
            None => None,
        }
    } else if is_delim(s[i]) {
        None
    } else {
        let e = word_end(s, i);
        Some((word_value(s.subrange(i, e)), e))
    }
}

/// The items of an array from `i` (after `[`) and the position after `]`.
pub open spec fn parse_items(s: Seq<char>, i: int) -> Option<(Seq<JsonModel>, int)>
    decreases s.len() - i, 1int,
{
    let k = skip_sep(s, i);
    if k < i || k >= s.len() {
        None
    } else if s[k] == ']' {
        Some((seq![], k + 1))
    } else {
        match parse_value(s, k) {
            None => None,
            Some((v, m)) => if k < m && m <= s.len() {
                match parse_items(s, m) {
                    Some((vs, e)) => Some((seq![v] + vs, e)),
                    None => None,
                }
            } else {
                None
            },
        }
    }
}

/// A key at `k`: a quoted string or a plain word.
pub open spec fn parse_key(s: Seq<char>, k: int) -> Option<(Seq<char>, int)> {
    if k < 0 || k >= s.len() {
        None
    } else if s[k] == '"' {
        string_rest(s, k + 1)
    } else if is_delim(s[k]) {
        None
    } else {
        Some((s.subrange(k, word_end(s, k)), word_end(s, k)))
    }
}

/// The members of an object from `i` and the position after them: up to
/// `}`, or for the top level (`top`) up to the end of the text.
pub open spec fn parse_members(s: Seq<char>, i: int, top: bool) -> Option<
    (Seq<(Seq<char>, JsonModel)>, int),
>
    decreases s.len() - i, 1int,
{
    let k = skip_sep(s, i);
    if k < i || k > s.len() {
        None
    } else if k == s.len() {
        if top {
            Some((seq![], k))
        } else {
            None
        }
    } else if s[k] == '}' {
        if top {
            None
        } else {
            Some((seq![], k + 1))
        }
    } else {
        match parse_key(s, k) {
            None => None,
            Some((key, ke)) => {
                let v0 = skip_sep(s, ke);
                if k < ke && ke <= v0 && v0 <= s.len() {
                    match parse_value(s, v0) {
                        None => None,
                        Some((v, m)) => if v0 < m && m <= s.len() {
                            match parse_members(s, m, top) {
                                Some((ms, e)) => Some((seq![(key, v)] + ms, e)),
                                None => None,
                            }
                        } else {
                            None
                        },
                    }
                } else {
                    None
                }
            },
        }
    }
}

/// The value of a whole text: a bracketed value followed only by
/// separators, or else the members of an object without braces.
pub open spec fn parse_document(s: Seq<char>) -> Option<JsonModel> {
    let k = skip_sep(s, 0);
    if 0 <= k < s.len() && (s[k] == '{' || s[k] == '[') {
        match parse_value(s, k) {
            Some((v, m)) => if skip_sep(s, m) == s.len() {
                Some(v)
            } else {
                None
            },
            None => None,
        }
    } else {
        match parse_members(s, 0, true) {
            Some((ms, _)) => Some(JsonModel::Object(ms)),
            None => None,
        }
    }
}

fn is_sep_char(c: char) -> (r: bool)
    ensures
        r == is_sep(c),
{
    is_whitespace(c) || c == ',' || c == ':' || c == '='
}

fn is_delim_char(c: char) -> (r: bool)
    ensures
        r == is_delim(c),
{
    is_sep_char(c) || c == '{' || c == '}' || c == '[' || c == ']' || c == '"' || c == '#'
}

fn skip_sep_at(s: &Vec<char>, i: usize) -> (r: usize)
    requires
        i <= s@.len(),
    ensures
        r == skip_sep(s@, i as int),
        i <= r <= s@.len(),
{
    let mut j = i;
    let mut comment = false;
    while j < s.len()
        invariant
            i <= j <= s@.len(),
            skip_from(s@, i as int, false) == skip_from(s@, j as int, comment),
        decreases s.len() - j,
    {
        if comment {
            comment = s[j] != '\n';
        } else if is_sep_char(s[j]) {
        } else if s[j] == '#' {
            comment = true;
        } else {
            return j;
        }
        j += 1;
    }
    j
}

fn word_end_at(s: &Vec<char>, i: usize) -> (r: usize)
    requires
        i <= s@.len(),
    ensures
        r == word_end(s@, i as int),
        i <= r <= s@.len(),
{
    let mut j = i;
    while j < s.len() && !is_delim_char(s[j])
        invariant
            i <= j <= s@.len(),
            word_end(s@, i as int) == word_end(s@, j as int),
        decreases s.len() - j,
    {
        j += 1;
    }
    j
}

fn escaped_char(c: char) -> (r: char)
    ensures
        r == escaped(c),
{
    if c == 'n' {
        '\n'
    } else if c == 't' {
        '\t'
    } else if c == 'r' {
        '\r'
    } else if c == 'b' {
        '\u{8}'
    } else if c == 'f' {
        '\u{c}'
    } else {
        c
    }
}

/// `r` is `rest` with `out` in front of its contents.
pub open spec fn after(out: Seq<char>, rest: Option<(Seq<char>, int)>) -> Option<(Seq<char>, int)> {
    match rest {
        Some((c, e)) => Some((out + c, e)),
        None => None,
    }
}

fn string_rest_at(s: &Vec<char>, j0: usize) -> (r: Option<(Vec<char>, usize)>)
    requires
        j0 <= s@.len(),
    ensures
        match r {
            Some((c, e)) => string_rest(s@, j0 as int) == Some((c@, e as int)) && e <= s@.len(),
            None => string_rest(s@, j0 as int) is None,
        },
{
    let mut out: Vec<char> = Vec::new();
    let mut j = j0;
    assert(after(out@, string_rest(s@, j0 as int)) =~= string_rest(s@, j0 as int)) by {
        match string_rest(s@, j0 as int) {
            Some((c, e)) => assert(out@ + c =~= c),
            None => {},
        }
    }
    while j < s.len()
        invariant
            j0 <= j <= s@.len(),
            string_rest(s@, j0 as int) == after(out@, string_rest(s@, j as int)),
        decreases s.len() - j,
    {
        if s[j] == '"' {
            assert(out@ + Seq::<char>::empty() =~= out@);
            return Some((out, j + 1));
        } else if s[j] == '\\' {
            if j + 1 < s.len() {
                let ghost before = out@;
                out.push(escaped_char(s[j + 1]));
                proof {
                    match string_rest(s@, j + 2) {
                        Some((c, e)) => {
                            assert(before + (seq![escaped(s@[j + 1])] + c) =~= out@ + c);
                        },
                        None => {},
                    }
                }
                j += 2;
            } else {
                return None;
            }
        } else {
            let ghost before = out@;
            out.push(s[j]);
            proof {
                match string_rest(s@, j + 1) {
                    Some((c, e)) => {
                        assert(before + (seq![s@[j as int]] + c) =~= out@ + c);
                    },
                    None => {},
                }
            }
            j += 1;
        }
    }
    None
}

fn word_value_of(w: Vec<char>) -> (r: JsonValue)
    ensures
        model(r) == word_value(w@),
{
    let t = chars_of("true");
    let f = chars_of("false");
    let n = chars_of("null");
    if crate::text::chars_eq(&w, &t) {
        JsonValue::Bool(true)
    } else if crate::text::chars_eq(&w, &f) {
        JsonValue::Bool(false)
    } else if crate::text::chars_eq(&w, &n) {
        JsonValue::Null
    } else if number_word(&w) {
        JsonValue::Number(string_of(w))
    } else {
        JsonValue::String(string_of(w))
    }
}

fn number_word(w: &Vec<char>) -> (r: bool)
    ensures
        r == is_number_word(w@),
{
    let start: usize = if w.len() > 0 && w[0] == '-' {
        1
    } else {
        0
    };
    let u = slice_chars(w, start, w.len());
    assert(u@ =~= (if w@.len() > 0 && w@[0] == '-' {
        w@.drop_first()
    } else {
        w@
    }));
    crate::text::decimal_number_chars(&u)
}

fn parse_value_at(s: &Vec<char>, i: usize) -> (r: Option<(JsonValue, usize)>)
    requires
        i <= s@.len(),
    ensures
        match r {
            Some((v, j)) => parse_value(s@, i as int) == Some((model(v), j as int)) && j <= s@.len(),
            None => parse_value(s@, i as int) is None,
        },
    decreases s@.len() - i, 0int,
{
    if i >= s.len() {
        return None;
    }
    let c = s[i];
    if c == '{' {
        match parse_members_at(s, i + 1, false) {
            Some((ms, j)) => Some((JsonValue::Object(ms), j)),
            None => None,
        }
    } else if c == '[' {
        match parse_items_at(s, i + 1) {
            Some((vs, j)) => Some((JsonValue::Array(vs), j)),
            None => None,
        }
    } else if c == '"' {
        match string_rest_at(s, i + 1) {
            Some((content, j)) => Some((JsonValue::String(string_of(content)), j)),
            None => None,
        }
    } else if is_delim_char(c) {
        None
    } else {
        let e = word_end_at(s, i);
        let w = slice_chars(s, i, e);
        Some((word_value_of(w), e))
    }
}

fn parse_items_at(s: &Vec<char>, i: usize) -> (r: Option<(Vec<JsonValue>, usize)>)
    requires
        i <= s@.len(),
    ensures
        match r {
            Some((vs, j)) => parse_items(s@, i as int) == Some((models(vs@), j as int)) && j <= s@.len(),
            None => parse_items(s@, i as int) is None,
        },
    decreases s@.len() - i, 1int,
{
    let k = skip_sep_at(s, i);
    if k >= s.len() {
        return None;
    }
    if s[k] == ']' {
        let vs: Vec<JsonValue> = Vec::new();
        assert(models(vs@) =~= Seq::<JsonModel>::empty());
        return Some((vs, k + 1));
    }
    match parse_value_at(s, k) {
        None => None,
        Some((v, m)) => {
            if k < m && m <= s.len() {
                match parse_items_at(s, m) {
                    Some((mut vs, e)) => {
                        let ghost rest = vs@;
                        let ghost vv = v;
                        vs.insert(0, v);
                        proof {
                            assert(vs@ =~= seq![vv] + rest);
                            lemma_models_prepend(vv, rest);
                        }
                        Some((vs, e))
                    },
                    None => None,
                }
            } else {
                None
            }
        },
    }
}

fn parse_key_at(s: &Vec<char>, k: usize) -> (r: Option<(String, usize)>)
    requires
        k <= s@.len(),
    ensures
        match r {
            Some((key, e)) => parse_key(s@, k as int) == Some((key@, e as int)) && e <= s@.len(),
            None => parse_key(s@, k as int) is None,
        },
{
    if k >= s.len() {
        return None;
    }
    if s[k] == '"' {
        match string_rest_at(s, k + 1) {
            Some((content, e)) => Some((string_of(content), e)),
            None => None,
        }
    } else if is_delim_char(s[k]) {
        None
    } else {
        let e = word_end_at(s, k);
        Some((string_of(slice_chars(s, k, e)), e))
    }
}

fn parse_members_at(s: &Vec<char>, i: usize, top: bool) -> (r: Option<(Vec<(String, JsonValue)>, usize)>)
    requires
        i <= s@.len(),
    ensures
        match r {
            Some((ms, j)) => parse_members(s@, i as int, top) == Some((member_models(ms@), j as int))
                && j <= s@.len(),
            None => parse_members(s@, i as int, top) is None,
        },
    decreases s@.len() - i, 1int,
{
    let k = skip_sep_at(s, i);
    if k == s.len() || s[k] == '}' {
        let at_end = k == s.len();
        if at_end == top {
            let ms: Vec<(String, JsonValue)> = Vec::new();
            assert(member_models(ms@) =~= Seq::<(Seq<char>, JsonModel)>::empty());
            return Some((ms, if at_end { k } else { k + 1 }));
        } else {
            return None;
        }
    }
    match parse_key_at(s, k) {
        None => None,
        Some((key, ke)) => {
            let v0 = skip_sep_at(s, ke);
            if k < ke {
                match parse_value_at(s, v0) {
                    None => None,
                    Some((v, m)) => {
                        if v0 < m && m <= s.len() {
                            match parse_members_at(s, m, top) {
                                Some((mut ms, e)) => {
                                    let ghost rest = ms@;
                                    let ghost kv = (key, v);
                                    ms.insert(0, (key, v));
                                    proof {
                                        assert(ms@ =~= seq![kv] + rest);
                                        lemma_member_models_prepend(kv, rest);
                                    }
                                    Some((ms, e))
                                },
                                None => None,
                            }
                        } else {
                            None
                        }
                    },
                }
            } else {
                None
            }
        },
    }
}

/// Why a text is not SPA-JSON.
#[derive(Debug, Clone, Copy, PartialEq, Eq, Structural)]
pub enum SpaParseError {
    Invalid,
}

/// Reads a SPA-JSON text: a bracketed value followed only by separators, or
/// the members of an object without braces.
pub fn parse(text: &str) -> (r: Result<JsonValue, SpaParseError>)
    ensures
        match r {
            Ok(v) => parse_document(text@) == Some(model(v)),
            Err(_) => parse_document(text@) is None,
        },
{
    let s = chars_of(text);
    let k = skip_sep_at(&s, 0);
    if k < s.len() && (s[k] == '{' || s[k] == '[') {
        match parse_value_at(&s, k) {
            Some((v, m)) => if skip_sep_at(&s, m) == s.len() {
                Ok(v)
            } else {
                Err(SpaParseError::Invalid)
            },
            None => Err(SpaParseError::Invalid),
        }
    } else {
        match parse_members_at(&s, 0, true) {
            Some((ms, _)) => Ok(JsonValue::Object(ms)),
            None => Err(SpaParseError::Invalid),
        }
    }
}

} // verus!
