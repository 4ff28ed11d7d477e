//! Writing an `.apo` file: a `Preamp:` line, then one `Filter` line per
//! filter, with the values written as given.
use vstd::prelude::*;

use crate::apo::{
    apo_config, apo_lines, apply_line, filter_line, scan_params, type_of_code, ApoErrorModel,
    Config, ConfigModel, FilterModel,
};
use crate::module::FilterType;
use crate::text::{
    append_chars, chars_of, decimal, decimal_chars, ends_with, float_char, is_digit, is_float_literal, is_ws,
    join, lemma_decimal, lemma_float_literal_chars, lemma_parse_decimal, lemma_split_on_concat,
    lemma_split_on_extend, lemma_split_on_free, lemma_trim_plain,
    lemma_trim_space_after, lemma_trim_space_before, lemma_words_concat, lemma_words_single,
    lines, parse_unsigned, split_on, starts_with, string_of, strip_prefix_all, strip_suffix_all,
    trim, words,
};

verus! {

pub open spec fn on_off(enabled: bool) -> Seq<char> {
    if enabled {
        "ON"@
    } else {
        "OFF"@
    }
}

/// The `.apo` code of a filter type.
pub open spec fn type_code(t: FilterType) -> Seq<char> {
    match t {
        FilterType::LowShelf => "LSC"@,
        FilterType::LowPass => "LPQ"@,
        FilterType::Peaking => "PK"@,
        FilterType::BandPass => "BP"@,
        FilterType::Notch => "NO"@,
        FilterType::HighPass => "HPQ"@,
        FilterType::HighShelf => "HSC"@,
    }
}

/// `ON PK Fc F Hz Gain G dB Q Q`.
pub open spec fn params_text(f: FilterModel) -> Seq<char> {
    on_off(f.enabled) + " "@ + type_code(f.filter_type) + " Fc "@ + f.frequency + " Hz Gain "@
        + f.gain + " dB Q "@ + f.q
}

/// `Filter N: ON PK Fc F Hz Gain G dB Q Q`.
pub open spec fn filter_text(f: FilterModel) -> Seq<char> {
    "Filter "@ + decimal(f.number as nat) + ": "@ + params_text(f)
}

/// `Preamp: P dB`.
pub open spec fn preamp_line(p: Seq<char>) -> Seq<char> {
    "Preamp: "@ + p + " dB"@
}

/// The filter lines, each ended by a newline.
pub open spec fn filters_text(fs: Seq<FilterModel>) -> Seq<char>
    decreases fs.len(),
{
    if fs.len() == 0 {
        seq![]
    } else {
        filters_text(fs.drop_last()) + filter_text(fs.last()) + "\n"@
    }
}

/// The text of an `.apo` file.
pub open spec fn apo_text(c: ConfigModel) -> Seq<char> {
    preamp_line(c.preamp) + "\n"@ + filters_text(c.filters)
}

/// The `.apo` code of a filter type.
pub fn type_code_str(t: FilterType) -> (r: &'static str)
    ensures
        r@ == type_code(t),
{
    match t {
        FilterType::LowShelf => "LSC",
        FilterType::LowPass => "LPQ",
        FilterType::Peaking => "PK",
        FilterType::BandPass => "BP",
        FilterType::Notch => "NO",
        FilterType::HighPass => "HPQ",
        FilterType::HighShelf => "HSC",
    }
}

fn params_chars(f: &crate::apo::Filter) -> (r: Vec<char>)
    ensures
        r@ == params_text(f@),
{
    let mut out = if f.enabled {
        chars_of("ON")
    } else {
        chars_of("OFF")
    };
    append_chars(&mut out, &chars_of(" "));
    append_chars(&mut out, &chars_of(type_code_str(f.filter_type)));
    append_chars(&mut out, &chars_of(" Fc "));
    let ghost a = out@;
    assert(a =~= on_off(f.enabled) + " "@ + type_code(f.filter_type) + " Fc "@);
    append_chars(&mut out, &chars_of(f.frequency.as_str()));
    append_chars(&mut out, &chars_of(" Hz Gain "));
    let ghost b = out@;
    assert(b =~= a + f.frequency@ + " Hz Gain "@);
    append_chars(&mut out, &chars_of(f.gain.as_str()));
    append_chars(&mut out, &chars_of(" dB Q "));
    let ghost c = out@;
    assert(c =~= b + f.gain@ + " dB Q "@);
    append_chars(&mut out, &chars_of(f.q.as_str()));
    assert(out@ =~= c + f.q@);
    out
}

fn filter_chars(f: &crate::apo::Filter) -> (r: Vec<char>)
    ensures
        r@ == filter_text(f@),
{
    let mut out = chars_of("Filter ");
    append_chars(&mut out, &decimal_chars(f.number as u64));
    append_chars(&mut out, &chars_of(": "));
    let ghost a = out@;
    assert(a =~= "Filter "@ + decimal(f.number as nat) + ": "@);
    append_chars(&mut out, &params_chars(f));
    out
}

impl Config {
    /// The text of the `.apo` file for this configuration.
    pub fn to_text(&self) -> (r: String)
        ensures
            r@ == apo_text(self@),
    {
        let mut out = chars_of("Preamp: ");
        append_chars(&mut out, &chars_of(self.preamp.as_str()));
        append_chars(&mut out, &chars_of(" dB"));
        append_chars(&mut out, &chars_of("\n"));
        let ghost head = out@;
        assert(head =~= preamp_line(self.preamp@) + "\n"@);
        let ghost fs = self@.filters;
        let mut i: usize = 0;
        assert(fs.take(0) =~= Seq::<FilterModel>::empty());
        assert(head =~= head + filters_text(fs.take(0)));
        while i < self.filters.len()
            invariant
                i <= self.filters@.len(),
                fs == self@.filters,
                fs.len() == self.filters@.len(),
                out@ == head + filters_text(fs.take(i as int)),
            decreases self.filters.len() - i,
        {
            let f = &self.filters[i];
            assert(fs[i as int] == f@);
            let ghost before = out@;
            append_chars(&mut out, &filter_chars(f));
            append_chars(&mut out, &chars_of("\n"));
            assert(fs.take(i + 1).drop_last() =~= fs.take(i as int));
            assert(fs.take(i + 1).last() == f@);
            i += 1;
            assert(filters_text(fs.take(i as int)) == filters_text(fs.take(i - 1)) + filter_text(f@)
                + "\n"@);
            assert(out@ =~= head + filters_text(fs.take(i as int)));
        }
        assert(fs.take(fs.len() as int) =~= fs);
        string_of(out)
    }
}


/// Text that is nonempty and holds neither whitespace nor a colon.
spec fn is_plain(x: Seq<char>) -> bool {
    &&& x.len() > 0
    &&& forall|i: int| 0 <= i < x.len() ==> !is_ws(#[trigger] x[i]) && x[i] != ':'
}

spec fn all_plain(toks: Seq<Seq<char>>) -> bool {
    forall|i: int| 0 <= i < toks.len() ==> is_plain(#[trigger] toks[i])
}

/// The frequency, gain and quality factor of a filter are floating-point
/// literals.
pub open spec fn numbers_are_literals(f: FilterModel) -> bool {
    &&& is_float_literal(f.frequency)
    &&& is_float_literal(f.gain)
    &&& is_float_literal(f.q)
}

proof fn lemma_float_plain(v: Seq<char>)
    requires
        is_float_literal(v),
    ensures
        is_plain(v),
{
    lemma_float_literal_chars(v);
    assert forall|i: int| 0 <= i < v.len() implies !is_ws(#[trigger] v[i]) && v[i] != ':' by {
        assert(float_char(v[i]));
    }
}

proof fn lemma_decimal_plain(n: nat)
    ensures
        is_plain(decimal(n)),
{
    lemma_decimal(n);
    let d = decimal(n);
    assert forall|i: int| 0 <= i < d.len() implies !is_ws(#[trigger] d[i]) && d[i] != ':' by {
        assert(is_digit(d[i]));
    }
}

proof fn lemma_join_push(s: Seq<Seq<char>>, x: Seq<char>, sep: Seq<char>)
    requires
        s.len() >= 1,
    ensures
        join(s.push(x), sep) == join(s, sep) + sep + x,
{
    assert(s.push(x).drop_last() =~= s);
}

/// Plain tokens joined by single spaces split back into the same words.
proof fn lemma_join_words(toks: Seq<Seq<char>>)
    requires
        toks.len() > 0,
        all_plain(toks),
    ensures
        words(join(toks, " "@)) == toks,
        join(toks, " "@).len() > 0,
        !is_ws(join(toks, " "@)[0]),
        !is_ws(join(toks, " "@).last()),
        !join(toks, " "@).contains(':'),
        !join(toks, " "@).contains('\n'),
    decreases toks.len(),
{
    reveal_strlit(" ");
    let j = join(toks, " "@);
    assert(is_plain(toks[0]));
    if toks.len() == 1 {
        lemma_words_single(toks[0]);
        assert(words(j) =~= toks);
        assert(!j.contains(':')) by {
            if j.contains(':') {
                let k = choose|k: int| 0 <= k < j.len() && j[k] == ':';
                assert(toks[0][k] == ':');
            }
        }
        assert(!j.contains('\n')) by {
            if j.contains('\n') {
                let k = choose|k: int| 0 <= k < j.len() && j[k] == '\n';
                assert(!is_ws(toks[0][k]));
            }
        }
    } else {
        let d = toks.drop_last();
        assert forall|i: int| 0 <= i < d.len() implies is_plain(#[trigger] d[i]) by {
            assert(d[i] == toks[i]);
        }
        lemma_join_words(d);
        let last = toks.last();
        assert(is_plain(toks[toks.len() - 1]));
        lemma_words_single(last);
        let jd = join(d, " "@);
        assert(j == jd + " "@ + last);
        assert(jd + " "@ + last =~= jd + seq![' '] + last);
        lemma_words_concat(jd, ' ', last);
        assert(d.push(last) =~= toks);
        assert(words(j) =~= toks);
        assert(j[0] == jd[0]);
        assert(j.last() == last[last.len() - 1]);
        assert(!j.contains(':')) by {
            if j.contains(':') {
                let k = choose|k: int| 0 <= k < j.len() && j[k] == ':';
                if k < jd.len() {
                    assert(jd[k] == ':');
                } else if k > jd.len() {
                    assert(last[k - jd.len() - 1] == ':');
                }
            }
        }
        assert(!j.contains('\n')) by {
            if j.contains('\n') {
                let k = choose|k: int| 0 <= k < j.len() && j[k] == '\n';
                if k < jd.len() {
                    assert(jd[k] == '\n');
                } else if k > jd.len() {
                    assert(!is_ws(last[k - jd.len() - 1]));
                }
            }
        }
    }
}

/// The parameter tokens of a filter line.
spec fn param_tokens(f: FilterModel) -> Seq<Seq<char>> {
    seq![
        on_off(f.enabled),
        type_code(f.filter_type),
        "Fc"@,
        f.frequency,
        "Hz"@,
        "Gain"@,
        f.gain,
        "dB"@,
        "Q"@,
        f.q,
    ]
}

proof fn lemma_params_join(f: FilterModel)
    ensures
        params_text(f) == join(param_tokens(f), " "@),
{
    reveal_strlit(" ");
    reveal_strlit(" Fc ");
    reveal_strlit(" Hz Gain ");
    reveal_strlit(" dB Q ");
    reveal_strlit("Fc");
    reveal_strlit("Hz");
    reveal_strlit("Gain");
    reveal_strlit("dB");
    reveal_strlit("Q");
    let t = param_tokens(f);
    let sp = " "@;
    let s1 = seq![t[0]];
    let s2 = s1.push(t[1]);
    let s3 = s2.push(t[2]);
    let s4 = s3.push(t[3]);
    let s5 = s4.push(t[4]);
    let s6 = s5.push(t[5]);
    let s7 = s6.push(t[6]);
    let s8 = s7.push(t[7]);
    let s9 = s8.push(t[8]);
    let s10 = s9.push(t[9]);
    assert(s10 =~= t);
    assert(join(s1, sp) == t[0]);
    lemma_join_push(s1, t[1], sp);
    lemma_join_push(s2, t[2], sp);
    lemma_join_push(s3, t[3], sp);
    lemma_join_push(s4, t[4], sp);
    lemma_join_push(s5, t[5], sp);
    lemma_join_push(s6, t[6], sp);
    lemma_join_push(s7, t[7], sp);
    lemma_join_push(s8, t[8], sp);
    lemma_join_push(s9, t[9], sp);
    let j2 = join(s2, sp);
    assert(j2 + sp + "Fc"@ + sp =~= j2 + " Fc "@);
    let j4 = join(s4, sp);
    assert(j4 + sp + "Hz"@ + sp + "Gain"@ + sp =~= j4 + " Hz Gain "@);
    let j7 = join(s7, sp);
    assert(j7 + sp + "dB"@ + sp + "Q"@ + sp =~= j7 + " dB Q "@);
}


proof fn lemma_type_code_read(t: FilterType)
    ensures
        type_of_code(type_code(t)) == Ok::<FilterType, ApoErrorModel>(t),
        is_plain(type_code(t)),
{
    reveal_strlit("LS");
    reveal_strlit("LP");
    reveal_strlit("HP");
    reveal_strlit("HS");
    reveal_strlit("LSC");
    reveal_strlit("LPQ");
    reveal_strlit("PK");
    reveal_strlit("BP");
    reveal_strlit("NO");
    reveal_strlit("HPQ");
    reveal_strlit("HSC");
    let ls = "LS"@;
    let lp = "LP"@;
    let hp = "HP"@;
    let hs = "HS"@;
    assert(ls.len() == 2 && lp.len() == 2 && hp.len() == 2 && hs.len() == 2);
    assert("LSC"@.len() == 3 && "LPQ"@.len() == 3 && "HPQ"@.len() == 3 && "HSC"@.len() == 3);
    assert("PK"@.len() == 2 && "BP"@.len() == 2 && "NO"@.len() == 2);
    assert("LSC"@[1] == 'S' && "LPQ"@[1] == 'P' && "HPQ"@[1] == 'P' && "HSC"@[1] == 'S');
    assert("LSC"@[0] == 'L' && "LPQ"@[0] == 'L' && "HPQ"@[0] == 'H' && "HSC"@[0] == 'H');
    assert(ls[0] == 'L' && ls[1] == 'S' && lp[1] == 'P' && hp[0] == 'H' && hp[1] == 'P' && hs[1]
        == 'S');
    match t {
        FilterType::LowShelf => {
            assert("LSC"@ != ls && "LSC"@ != lp && "LSC"@ != hp && "LSC"@ != hs);
        },
        FilterType::LowPass => {
            assert("LPQ"@ != ls && "LPQ"@ != lp && "LPQ"@ != hp && "LPQ"@ != hs);
            assert("LPQ"@ != "LSC"@);
        },
        FilterType::Peaking => {
            assert("PK"@[0] == 'P');
            assert("PK"@ != ls && "PK"@ != lp && "PK"@ != hp && "PK"@ != hs);
            assert("PK"@ != "LSC"@ && "PK"@ != "LPQ"@);
        },
        FilterType::BandPass => {
            assert("BP"@[0] == 'B');
            assert("BP"@ != ls && "BP"@ != lp && "BP"@ != hp && "BP"@ != hs);
            assert("BP"@ != "LSC"@ && "BP"@ != "LPQ"@ && "BP"@ != "PK"@);
        },
        FilterType::Notch => {
            assert("NO"@[0] == 'N');
            assert("NO"@ != ls && "NO"@ != lp && "NO"@ != hp && "NO"@ != hs);
            assert("NO"@ != "LSC"@ && "NO"@ != "LPQ"@ && "NO"@ != "PK"@ && "NO"@ != "BP"@);
        },
        FilterType::HighPass => {
            assert("HPQ"@ != ls && "HPQ"@ != lp && "HPQ"@ != hp && "HPQ"@ != hs);
            assert("HPQ"@ != "LSC"@ && "HPQ"@ != "LPQ"@ && "HPQ"@ != "PK"@ && "HPQ"@ != "BP"@
                && "HPQ"@ != "NO"@);
        },
        FilterType::HighShelf => {
            assert("HSC"@ != ls && "HSC"@ != lp && "HSC"@ != hp && "HSC"@ != hs);
            assert("HSC"@ != "LSC"@ && "HSC"@ != "LPQ"@ && "HSC"@ != "PK"@ && "HSC"@ != "BP"@
                && "HSC"@ != "NO"@ && "HSC"@ != "HPQ"@);
        },
    }
}

proof fn lemma_on_off_plain(enabled: bool)
    ensures
        is_plain(on_off(enabled)),
        on_off(enabled) == "ON"@ || on_off(enabled) == "OFF"@,
        (on_off(enabled) == "ON"@) == enabled,
{
    reveal_strlit("ON");
    reveal_strlit("OFF");
}

proof fn lemma_param_tokens_plain(f: FilterModel)
    requires
        numbers_are_literals(f),
    ensures
        all_plain(param_tokens(f)),
{
    reveal_strlit("Fc");
    reveal_strlit("Hz");
    reveal_strlit("Gain");
    reveal_strlit("dB");
    reveal_strlit("Q");
    lemma_on_off_plain(f.enabled);
    lemma_type_code_read(f.filter_type);
    lemma_float_plain(f.frequency);
    lemma_float_plain(f.gain);
    lemma_float_plain(f.q);
    let t = param_tokens(f);
    assert forall|i: int| 0 <= i < t.len() implies is_plain(#[trigger] t[i]) by {
        if i == 2 {
            assert(is_plain("Fc"@));
        } else if i == 4 {
            assert(is_plain("Hz"@));
        } else if i == 5 {
            assert(is_plain("Gain"@));
        } else if i == 7 {
            assert(is_plain("dB"@));
        } else if i == 8 {
            assert(is_plain("Q"@));
        }
    }
}

proof fn lemma_scan_written(f: FilterModel)
    requires
        numbers_are_literals(f),
    ensures
        scan_params(param_tokens(f), 2, "1000"@, "0"@, "1"@) == Ok::<
            (Seq<char>, Seq<char>, Seq<char>),
            ApoErrorModel,
        >((f.frequency, f.gain, f.q)),
{
    reveal_strlit("Fc");
    reveal_strlit("Gain");
    reveal_strlit("Q");
    let t = param_tokens(f);
    assert(t.len() == 10);
    assert(t[2] == "Fc"@);
    assert(t[5] == "Gain"@);
    assert(t[8] == "Q"@);
    assert(t[3] == f.frequency);
    assert(t[6] == f.gain);
    assert(t[9] == f.q);
    assert("Q"@.len() == 1 && "Fc"@.len() == 2 && "Gain"@.len() == 4);
    assert("Q"@ != "Fc"@ && "Q"@ != "Gain"@ && "Gain"@ != "Fc"@);
    assert(scan_params(t, 10, f.frequency, f.gain, f.q) == Ok::<
        (Seq<char>, Seq<char>, Seq<char>),
        ApoErrorModel,
    >((f.frequency, f.gain, f.q)));
    assert(scan_params(t, 8, f.frequency, f.gain, "1"@) == scan_params(
        t,
        10,
        f.frequency,
        f.gain,
        f.q,
    ));
    assert(scan_params(t, 5, f.frequency, "0"@, "1"@) == scan_params(
        t,
        8,
        f.frequency,
        f.gain,
        "1"@,
    ));
}


/// A written filter line is read back as the same filter.
proof fn lemma_filter_line_read(f: FilterModel)
    requires
        numbers_are_literals(f),
    ensures
        filter_line(filter_text(f)) == Ok::<FilterModel, ApoErrorModel>(f),
{
    reveal_strlit("Filter ");
    reveal_strlit("Filter");
    reveal_strlit(": ");
    reveal_strlit(" ");
    reveal_strlit("ON");
    reveal_strlit("OFF");
    let t = param_tokens(f);
    lemma_param_tokens_plain(f);
    lemma_join_words(t);
    lemma_params_join(f);
    let p = params_text(f);
    let n = f.number as nat;
    let dn = decimal(n);
    lemma_decimal_plain(n);
    let x = "Filter "@ + dn;
    let y = " "@ + p;
    let line = filter_text(f);
    assert(line =~= x + seq![':'] + y);
    assert(!x.contains(':')) by {
        if x.contains(':') {
            let k = choose|k: int| 0 <= k < x.len() && x[k] == ':';
            if k >= 7 {
                assert(dn[k - 7] == ':');
            }
        }
    }
    assert(!y.contains(':')) by {
        if y.contains(':') {
            let k = choose|k: int| 0 <= k < y.len() && y[k] == ':';
            assert(p[k - 1] == ':');
        }
    }
    lemma_split_on_concat(x, y, ':');
    lemma_split_on_free(x, ':');
    lemma_split_on_free(y, ':');
    let parts = split_on(line, ':');
    assert(parts =~= seq![x, y]);
    // The number.
    lemma_trim_plain(x);
    let z = " "@ + dn;
    assert(x.skip(6) =~= z);
    assert(starts_with(x, "Filter"@)) by {
        assert(x.take(6) =~= "Filter"@);
    }
    assert(!starts_with(z, "Filter"@)) by {
        if starts_with(z, "Filter"@) {
            assert(z.take(6)[0] == "Filter"@[0]);
        }
    }
    assert(strip_prefix_all(z, "Filter"@) == z);
    assert(strip_prefix_all(x, "Filter"@) == z);
    assert(z =~= seq![' '] + dn);
    lemma_trim_space_before(dn);
    lemma_parse_decimal(n, u32::MAX as nat);
    assert(parse_unsigned(trim(strip_prefix_all(trim(parts[0]), "Filter"@)), u32::MAX as nat)
        == Some(n));
    // The parameters.
    assert(y =~= seq![' '] + p);
    lemma_trim_space_before(p);
    assert(words(trim(parts[1])) == t);
    lemma_on_off_plain(f.enabled);
    lemma_type_code_read(f.filter_type);
    lemma_scan_written(f);
}


/// A written filter line is taken as a filter line when a text is read.
proof fn lemma_filter_line_applied(c: ConfigModel, f: FilterModel)
    requires
        numbers_are_literals(f),
    ensures
        !filter_text(f).contains('\n'),
        apply_line(c, trim(filter_text(f))) == Ok::<ConfigModel, ApoErrorModel>(
            ConfigModel { filters: c.filters.push(f), ..c },
        ),
{
    reveal_strlit("Filter ");
    reveal_strlit("Filter");
    reveal_strlit(": ");
    reveal_strlit("#");
    reveal_strlit("Preamp:");
    let t = param_tokens(f);
    lemma_param_tokens_plain(f);
    lemma_join_words(t);
    lemma_params_join(f);
    let p = params_text(f);
    let dn = decimal(f.number as nat);
    lemma_decimal_plain(f.number as nat);
    let line = filter_text(f);
    assert(line[0] == 'F');
    assert(line.last() == p.last());
    lemma_trim_plain(line);
    assert(!starts_with(line, "#"@)) by {
        if starts_with(line, "#"@) {
            assert(line.take(1)[0] == "#"@[0]);
        }
    }
    assert(!starts_with(line, "Preamp:"@)) by {
        if starts_with(line, "Preamp:"@) {
            assert(line.take(7)[0] == "Preamp:"@[0]);
        }
    }
    assert(starts_with(line, "Filter"@)) by {
        assert(line.take(6) =~= "Filter"@);
    }
    lemma_filter_line_read(f);
    assert(!line.contains('\n')) by {
        if line.contains('\n') {
            let k = choose|k: int| 0 <= k < line.len() && line[k] == '\n';
            if 7 <= k < 7 + dn.len() {
                assert(!is_ws(dn[k - 7]));
            } else if k >= 9 + dn.len() {
                assert(p[k - 9 - dn.len()] == '\n');
            }
        }
    }
}

/// A written `Preamp:` line sets the preamp when a text is read.
proof fn lemma_preamp_line_applied(c: ConfigModel, v: Seq<char>)
    requires
        is_float_literal(v),
    ensures
        !preamp_line(v).contains('\n'),
        apply_line(c, trim(preamp_line(v))) == Ok::<ConfigModel, ApoErrorModel>(
            ConfigModel { preamp: v, ..c },
        ),
{
    reveal_strlit("Preamp: ");
    reveal_strlit("Preamp:");
    reveal_strlit("Preamp");
    reveal_strlit(" dB");
    reveal_strlit(" ");
    reveal_strlit("#");
    reveal_strlit("dB");
    reveal_strlit("db");
    lemma_float_plain(v);
    let line = preamp_line(v);
    assert(line[0] == 'P');
    assert(line.last() == 'B');
    lemma_trim_plain(line);
    assert(!starts_with(line, "#"@)) by {
        if starts_with(line, "#"@) {
            assert(line.take(1)[0] == "#"@[0]);
        }
    }
    assert(starts_with(line, "Preamp:"@)) by {
        assert(line.take(7) =~= "Preamp:"@);
    }
    let rest = " "@ + v + " dB"@;
    assert(line =~= "Preamp"@ + seq![':'] + rest);
    assert(!"Preamp"@.contains(':')) by {
        if "Preamp"@.contains(':') {
            let k = choose|k: int| 0 <= k < "Preamp"@.len() && "Preamp"@[k] == ':';
        }
    }
    assert(!rest.contains(':')) by {
        if rest.contains(':') {
            let k = choose|k: int| 0 <= k < rest.len() && rest[k] == ':';
            if 1 <= k < 1 + v.len() {
                assert(v[k - 1] == ':');
            }
        }
    }
    lemma_split_on_concat("Preamp"@, rest, ':');
    lemma_split_on_free("Preamp"@, ':');
    lemma_split_on_free(rest, ':');
    assert(split_on(line, ':') =~= seq!["Preamp"@, rest]);
    let w = v + " dB"@;
    assert(rest =~= seq![' '] + w);
    assert(w[0] == v[0]);
    lemma_trim_space_before(w);
    let u = v + seq![' '];
    assert(ends_with(w, "dB"@)) by {
        assert(w.skip(w.len() - 2) =~= "dB"@);
    }
    assert(w.take(w.len() - 2) =~= u);
    assert(!ends_with(u, "dB"@)) by {
        if ends_with(u, "dB"@) {
            assert(u.skip(u.len() - 2)[1] == "dB"@[1]);
        }
    }
    assert(!ends_with(u, "db"@)) by {
        if ends_with(u, "db"@) {
            assert(u.skip(u.len() - 2)[1] == "db"@[1]);
        }
    }
    assert(strip_suffix_all(u, "dB"@) == u);
    assert(strip_suffix_all(w, "dB"@) == u);
    assert(strip_suffix_all(u, "db"@) == u);
    lemma_trim_space_after(v);
    assert(!line.contains('\n')) by {
        if line.contains('\n') {
            let k = choose|k: int| 0 <= k < line.len() && line[k] == '\n';
            if 8 <= k < 8 + v.len() {
                assert(!is_ws(v[k - 8]));
            }
        }
    }
}


/// The lines of a written `.apo` text.
spec fn written_lines(c: ConfigModel) -> Seq<Seq<char>> {
    seq![preamp_line(c.preamp)] + c.filters.map_values(|f: FilterModel| filter_text(f))
}

proof fn lemma_split_written(head: Seq<char>, fs: Seq<FilterModel>)
    requires
        !head.contains('\n'),
        forall|i: int| 0 <= i < fs.len() ==> numbers_are_literals(#[trigger] fs[i]),
    ensures
        split_on(head + "\n"@ + filters_text(fs), '\n') == seq![head] + fs.map_values(
            |f: FilterModel| filter_text(f),
        ) + seq![Seq::<char>::empty()],
    decreases fs.len(),
{
    reveal_strlit("\n");
    let e = Seq::<char>::empty();
    if fs.len() == 0 {
        assert(head + "\n"@ + filters_text(fs) =~= head + seq!['\n'] + e);
        lemma_split_on_concat(head, e, '\n');
        lemma_split_on_free(head, '\n');
        assert(split_on(e, '\n') == seq![e]);
        assert(fs.map_values(|f: FilterModel| filter_text(f)) =~= Seq::<Seq<char>>::empty());
        assert(seq![head] + fs.map_values(|f: FilterModel| filter_text(f)) + seq![e] =~= seq![
            head,
        ] + seq![e]);
    } else {
        let d = fs.drop_last();
        assert forall|i: int| 0 <= i < d.len() implies numbers_are_literals(#[trigger] d[i]) by {
            assert(d[i] == fs[i]);
        }
        lemma_split_written(head, d);
        let s = head + "\n"@ + filters_text(d);
        let last = fs.last();
        assert(numbers_are_literals(fs[fs.len() - 1]));
        let ft = filter_text(last);
        lemma_filter_line_applied(ConfigModel { preamp: e, filters: Seq::empty() }, last);
        lemma_split_on_extend(s, ft, '\n');
        let whole = head + "\n"@ + filters_text(fs);
        assert(whole =~= (s + ft).push('\n'));
        assert(whole.drop_last() =~= s + ft);
        assert(split_on(whole, '\n') == split_on(s + ft, '\n').push(e));
        assert(fs.map_values(|f: FilterModel| filter_text(f)) =~= d.map_values(
            |f: FilterModel| filter_text(f),
        ).push(ft));
        assert(split_on(whole, '\n') =~= seq![head] + fs.map_values(|f: FilterModel| filter_text(f))
            + seq![e]);
    }
}

proof fn lemma_read_written_lines(v: Seq<char>, fs: Seq<FilterModel>)
    requires
        is_float_literal(v),
        forall|i: int| 0 <= i < fs.len() ==> numbers_are_literals(#[trigger] fs[i]),
    ensures
        apo_lines(seq![preamp_line(v)] + fs.map_values(|f: FilterModel| filter_text(f))) == Ok::<
            ConfigModel,
            ApoErrorModel,
        >(ConfigModel { preamp: v, filters: fs }),
    decreases fs.len(),
{
    let ls = seq![preamp_line(v)] + fs.map_values(|f: FilterModel| filter_text(f));
    if fs.len() == 0 {
        assert(ls =~= seq![preamp_line(v)]);
        assert(ls.drop_last() =~= Seq::<Seq<char>>::empty());
        let start = ConfigModel { preamp: "0"@, filters: Seq::empty() };
        lemma_preamp_line_applied(start, v);
        assert(apo_lines(ls.drop_last()) == Ok::<ConfigModel, ApoErrorModel>(start));
        assert(ls.last() == preamp_line(v));
        assert(fs =~= Seq::<FilterModel>::empty());
        assert(apo_lines(ls) == apply_line(start, trim(preamp_line(v))));
    } else {
        let d = fs.drop_last();
        assert forall|i: int| 0 <= i < d.len() implies numbers_are_literals(#[trigger] d[i]) by {
            assert(d[i] == fs[i]);
        }
        lemma_read_written_lines(v, d);
        assert(ls.drop_last() =~= seq![preamp_line(v)] + d.map_values(
            |f: FilterModel| filter_text(f),
        ));
        assert(ls.last() == filter_text(fs.last()));
        assert(numbers_are_literals(fs[fs.len() - 1]));
        lemma_filter_line_applied(ConfigModel { preamp: v, filters: d }, fs.last());
        assert(d.push(fs.last()) =~= fs);
        assert(apo_lines(ls) == apply_line(
            ConfigModel { preamp: v, filters: d },
            trim(filter_text(fs.last())),
        ));
    }
}

/// Reading the text that [`Config::to_text`] writes gives the configuration
/// back, when the preamp and every frequency, gain and quality factor are
/// floating-point literals.
pub proof fn lemma_apo_round_trip(c: ConfigModel)
    requires
        is_float_literal(c.preamp),
        forall|i: int| 0 <= i < c.filters.len() ==> numbers_are_literals(#[trigger] c.filters[i]),
    ensures
        apo_config(apo_text(c)) == Ok::<ConfigModel, ApoErrorModel>(c),
{
    let head = preamp_line(c.preamp);
    lemma_preamp_line_applied(ConfigModel { preamp: "0"@, filters: Seq::empty() }, c.preamp);
    lemma_split_written(head, c.filters);
    let pieces = split_on(apo_text(c), '\n');
    assert(pieces.last().len() == 0);
    assert(lines(apo_text(c)) =~= written_lines(c));
    lemma_read_written_lines(c.preamp, c.filters);
}

} // verus!
