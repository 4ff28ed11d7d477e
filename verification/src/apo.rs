//! Parsing of AutoEQ parametric equalizer files in the Equalizer APO format.
//!
//! Numbers stay in the text form in which the file writes them; a number is
//! accepted when it is text that `str::parse::<f64>` accepts.
use vstd::prelude::*;

use crate::text::{
    append_chars, chars_eq_str, chars_of, float_literal, has_prefix, is_float_literal, lines, lines_of,
    parse_u32, parse_unsigned, slice_chars, split_char, split_on, split_whitespace, starts_with,
    string_of, strip_prefix_all, strip_suffix_all, trim, trim_chars, trim_end_matches,
    trim_start_matches, views, words,
};

pub use crate::module::FilterType;

verus! {

/// One `Filter N: ON|OFF TYPE Fc F Hz Gain G dB Q Q` line.
#[derive(Debug, Clone, PartialEq, Eq)]
pub struct Filter {
    pub number: u32,
    pub enabled: bool,
    pub filter_type: FilterType,
    /// Centre or corner frequency in Hz, as decimal text.
    pub frequency: String,
    /// Gain in dB, as decimal text.
    pub gain: String,
    /// Quality factor, as decimal text.
    pub q: String,
}

pub ghost struct FilterModel {
    pub number: u32,
    pub enabled: bool,
    pub filter_type: FilterType,
    pub frequency: Seq<char>,
    pub gain: Seq<char>,
    pub q: Seq<char>,
}

impl View for Filter {
    type V = FilterModel;

    open spec fn view(&self) -> FilterModel {
        FilterModel {
            number: self.number,
            enabled: self.enabled,
            filter_type: self.filter_type,
            frequency: self.frequency@,
            gain: self.gain@,
            q: self.q@,
        }
    }
}

/// A parsed `.apo` file.
#[derive(Debug, Clone)]
pub struct Config {
    /// Preamplification in dB, as decimal text.
    pub preamp: String,
    pub filters: Vec<Filter>,
}

pub ghost struct ConfigModel {
    pub preamp: Seq<char>,
    pub filters: Seq<FilterModel>,
}

impl View for Config {
    type V = ConfigModel;

    open spec fn view(&self) -> ConfigModel {
        ConfigModel { preamp: self.preamp@, filters: self.filters@.map_values(|f: Filter| f@) }
    }
}

/// Why an `.apo` text was refused.
#[derive(Debug, Clone, PartialEq, Eq)]
pub enum ApoError {
    InvalidPreamp(String),
    InvalidFilterLine(String),
    InvalidFilterNumber(String),
    /// The first parameter token was neither `ON` nor `OFF`.
    ExpectedOnOff(Option<String>),
    /// A first-order type code (`LS`, `LP`, `HP`, `HS`) in place of its
    /// second-order counterpart.
    FirstOrderType(String),
    UnknownFilterType(String),
    MissingFilterType,
    InvalidFrequency(String),
    InvalidGain(String),
    InvalidQ(String),
}

pub ghost enum ApoErrorModel {
    InvalidPreamp(Seq<char>),
    InvalidFilterLine(Seq<char>),
    InvalidFilterNumber(Seq<char>),
    ExpectedOnOff(Option<Seq<char>>),
    FirstOrderType(Seq<char>),
    UnknownFilterType(Seq<char>),
    MissingFilterType,
    InvalidFrequency(Seq<char>),
    InvalidGain(Seq<char>),
    InvalidQ(Seq<char>),
}

impl View for ApoError {
    type V = ApoErrorModel;

    open spec fn view(&self) -> ApoErrorModel {
        match self {
            ApoError::InvalidPreamp(s) => ApoErrorModel::InvalidPreamp(s@),
            ApoError::InvalidFilterLine(s) => ApoErrorModel::InvalidFilterLine(s@),
            ApoError::InvalidFilterNumber(s) => ApoErrorModel::InvalidFilterNumber(s@),
            ApoError::ExpectedOnOff(o) => ApoErrorModel::ExpectedOnOff(
                match o {
                    Some(s) => Some(s@),
                    None => None,
                },
            ),
            ApoError::FirstOrderType(s) => ApoErrorModel::FirstOrderType(s@),
            ApoError::UnknownFilterType(s) => ApoErrorModel::UnknownFilterType(s@),
            ApoError::MissingFilterType => ApoErrorModel::MissingFilterType,
            ApoError::InvalidFrequency(s) => ApoErrorModel::InvalidFrequency(s@),
            ApoError::InvalidGain(s) => ApoErrorModel::InvalidGain(s@),
            ApoError::InvalidQ(s) => ApoErrorModel::InvalidQ(s@),
        }
    }
}

/// The filter type that a type code names: only second-order filters with a
/// quality factor are accepted.
pub open spec fn type_of_code(code: Seq<char>) -> Result<FilterType, ApoErrorModel> {
    if code == "LS"@ || code == "LP"@ || code == "HP"@ || code == "HS"@ {
        Err(ApoErrorModel::FirstOrderType(code))
    } else if code == "LSC"@ {
        Ok(FilterType::LowShelf)
    } else if code == "LPQ"@ {
        Ok(FilterType::LowPass)
    } else if code == "PK"@ {
        Ok(FilterType::Peaking)
    } else if code == "BP"@ {
        Ok(FilterType::BandPass)
    } else if code == "NO"@ {
        Ok(FilterType::Notch)
    } else if code == "HPQ"@ {
        Ok(FilterType::HighPass)
    } else if code == "HSC"@ {
        Ok(FilterType::HighShelf)
    } else {
        Err(ApoErrorModel::UnknownFilterType(code))
    }
}

/// The frequency, gain and quality factor that the parameter tokens from
/// position `i` on set, starting from `f`, `g` and `q`. `Fc V` and `Gain V`
/// consume a unit token after the value; a keyword with no value after it is
/// skipped, as is any other token.
pub open spec fn scan_params(
    toks: Seq<Seq<char>>,
    i: int,
    f: Seq<char>,
    g: Seq<char>,
    q: Seq<char>,
) -> Result<(Seq<char>, Seq<char>, Seq<char>), ApoErrorModel>
    decreases toks.len() - i,
{
    if i < 0 || i >= toks.len() {
        Ok((f, g, q))
    } else if i + 1 < toks.len() && (toks[i] == "Fc"@ || toks[i] == "Gain"@ || toks[i] == "Q"@) {
        let v = toks[i + 1];
        let step: int = if toks[i] == "Q"@ {
            2
        } else {
            3
        };
        let next = if i + step < toks.len() {
            i + step
        } else {
            toks.len() as int
        };
        if !is_float_literal(v) {
            if toks[i] == "Fc"@ {
                Err(ApoErrorModel::InvalidFrequency(v))
            } else if toks[i] == "Gain"@ {
                Err(ApoErrorModel::InvalidGain(v))
            } else {
                Err(ApoErrorModel::InvalidQ(v))
            }
        } else if toks[i] == "Fc"@ {
            scan_params(toks, next, v, g, q)
        } else if toks[i] == "Gain"@ {
            scan_params(toks, next, f, v, q)
        } else {
            scan_params(toks, next, f, g, v)
        }
    } else {
        scan_params(toks, i + 1, f, g, q)
    }
}

/// The filter that a `Filter` line describes.
pub open spec fn filter_line(line: Seq<char>) -> Result<FilterModel, ApoErrorModel> {
    let parts = split_on(line, ':');
    if parts.len() < 2 {
        Err(ApoErrorModel::InvalidFilterLine(line))
    } else {
        let num_text = trim(strip_prefix_all(trim(parts[0]), "Filter"@));
        match parse_unsigned(num_text, u32::MAX as nat) {
            None => Err(ApoErrorModel::InvalidFilterNumber(num_text)),
            Some(n) => {
                let toks = words(trim(parts[1]));
                if toks.len() == 0 || (toks[0] != "ON"@ && toks[0] != "OFF"@) {
                    Err(
                        ApoErrorModel::ExpectedOnOff(
                            if toks.len() == 0 {
                                None
                            } else {
                                Some(toks[0])
                            },
                        ),
                    )
                } else if toks.len() < 2 {
                    Err(ApoErrorModel::MissingFilterType)
                } else {
                    match type_of_code(toks[1]) {
                        Err(e) => Err(e),
                        Ok(ft) => match scan_params(toks, 2, "1000"@, "0"@, "1"@) {
                            Err(e) => Err(e),
                            Ok(p) => Ok(
                                FilterModel {
                                    number: n as u32,
                                    enabled: toks[0] == "ON"@,
                                    filter_type: ft,
                                    frequency: p.0,
                                    gain: p.1,
                                    q: p.2,
                                },
                            ),
                        },
                    }
                }
            },
        }
    }
}

/// The value text of a `Preamp: V dB` line.
pub open spec fn preamp_text(line: Seq<char>) -> Seq<char> {
    trim(strip_suffix_all(strip_suffix_all(trim(split_on(line, ':')[1]), "dB"@), "db"@))
}

/// The configuration after one more (trimmed) line.
pub open spec fn apply_line(c: ConfigModel, t: Seq<char>) -> Result<ConfigModel, ApoErrorModel> {
    if t.len() == 0 || starts_with(t, "#"@) {
        Ok(c)
    } else if starts_with(t, "Preamp:"@) {
        let v = preamp_text(t);
        if split_on(t, ':').len() < 2 {
            Ok(c)
        } else if is_float_literal(v) {
            Ok(ConfigModel { preamp: v, ..c })
        } else {
            Err(ApoErrorModel::InvalidPreamp(v))
        }
    } else if starts_with(t, "Filter"@) {
        match filter_line(t) {
            Ok(f) => Ok(ConfigModel { filters: c.filters.push(f), ..c }),
            Err(e) => Err(e),
        }
    } else {
        Ok(c)
    }
}

/// The configuration that a sequence of lines describes; the first refused
/// line decides the error.
pub open spec fn apo_lines(ls: Seq<Seq<char>>) -> Result<ConfigModel, ApoErrorModel>
    decreases ls.len(),
{
    if ls.len() == 0 {
        Ok(ConfigModel { preamp: "0"@, filters: Seq::empty() })
    } else {
        match apo_lines(ls.drop_last()) {
            Err(e) => Err(e),
            Ok(c) => apply_line(c, trim(ls.last())),
        }
    }
}

/// A refused line refuses the whole text.
proof fn lemma_apo_lines_err(ls: Seq<Seq<char>>, j: int)
    requires
        0 <= j <= ls.len(),
        apo_lines(ls.take(j)) is Err,
    ensures
        apo_lines(ls) == apo_lines(ls.take(j)),
    decreases ls.len(),
{
    if j < ls.len() {
        assert(ls.drop_last().take(j) =~= ls.take(j));
        lemma_apo_lines_err(ls.drop_last(), j);
    } else {
        assert(ls.take(j) =~= ls);
    }
}

/// The configuration that an `.apo` text describes.
pub open spec fn apo_config(content: Seq<char>) -> Result<ConfigModel, ApoErrorModel> {
    apo_lines(lines(content))
}


fn copy_chars(v: &Vec<char>) -> (r: Vec<char>)
    ensures
        r@ == v@,
{
    let r = slice_chars(v, 0, v.len());
    assert(v@.subrange(0, v@.len() as int) =~= v@);
    r
}

fn type_from_code(code: &Vec<char>) -> (r: Result<FilterType, ApoError>)
    ensures
        match r {
            Ok(t) => type_of_code(code@) == Ok::<FilterType, ApoErrorModel>(t),
            Err(e) => type_of_code(code@) == Err::<FilterType, ApoErrorModel>(e@),
        },
{
    if chars_eq_str(code, "LS") || chars_eq_str(code, "LP") || chars_eq_str(code, "HP")
        || chars_eq_str(code, "HS") {
        Err(ApoError::FirstOrderType(string_of(copy_chars(code))))
    } else if chars_eq_str(code, "LSC") {
        Ok(FilterType::LowShelf)
    } else if chars_eq_str(code, "LPQ") {
        Ok(FilterType::LowPass)
    } else if chars_eq_str(code, "PK") {
        Ok(FilterType::Peaking)
    } else if chars_eq_str(code, "BP") {
        Ok(FilterType::BandPass)
    } else if chars_eq_str(code, "NO") {
        Ok(FilterType::Notch)
    } else if chars_eq_str(code, "HPQ") {
        Ok(FilterType::HighPass)
    } else if chars_eq_str(code, "HSC") {
        Ok(FilterType::HighShelf)
    } else {
        Err(ApoError::UnknownFilterType(string_of(copy_chars(code))))
    }
}

fn scan_param_tokens(toks: &Vec<Vec<char>>) -> (r: Result<(Vec<char>, Vec<char>, Vec<char>), ApoError>)
    ensures
        match r {
            Ok(p) => scan_params(views(toks@), 2, "1000"@, "0"@, "1"@) == Ok::<
                (Seq<char>, Seq<char>, Seq<char>),
                ApoErrorModel,
            >((p.0@, p.1@, p.2@)),
            Err(e) => scan_params(views(toks@), 2, "1000"@, "0"@, "1"@) == Err::<
                (Seq<char>, Seq<char>, Seq<char>),
                ApoErrorModel,
            >(e@),
        },
{
    let ghost tv = views(toks@);
    let mut f = chars_of("1000");
    let mut g = chars_of("0");
    let mut q = chars_of("1");
    let mut i: usize = 2;
    if toks.len() < 2 {
        i = toks.len();
    }
    while i < toks.len()
        invariant
            tv == views(toks@),
            i <= toks@.len(),
            scan_params(tv, 2, "1000"@, "0"@, "1"@) == scan_params(tv, i as int, f@, g@, q@),
        decreases toks.len() - i,
    {
        let t = &toks[i];
        assert(tv[i as int] == t@);
        let is_fc = chars_eq_str(t, "Fc");
        let is_gain = chars_eq_str(t, "Gain");
        let is_q = chars_eq_str(t, "Q");
        if i + 1 < toks.len() && (is_fc || is_gain || is_q) {
            let v = &toks[i + 1];
            assert(tv[i + 1] == v@);
            if !float_literal(v) {
                if is_fc {
                    return Err(ApoError::InvalidFrequency(string_of(copy_chars(v))));
                } else if is_gain {
                    return Err(ApoError::InvalidGain(string_of(copy_chars(v))));
                } else {
                    return Err(ApoError::InvalidQ(string_of(copy_chars(v))));
                }
            }
            let step: usize = if is_q {
                2
            } else {
                3
            };
            let next = if toks.len() - i > step {
                i + step
            } else {
                toks.len()
            };
            if is_fc {
                f = copy_chars(v);
            } else if is_gain {
                g = copy_chars(v);
            } else {
                q = copy_chars(v);
            }
            i = next;
        } else {
            i += 1;
        }
    }
    Ok((f, g, q))
}

fn filter_from_chars(lv: &Vec<char>) -> (r: Result<Filter, ApoError>)
    ensures
        match r {
            Ok(f) => filter_line(lv@) == Ok::<FilterModel, ApoErrorModel>(f@),
            Err(e) => filter_line(lv@) == Err::<FilterModel, ApoErrorModel>(e@),
        },
{
    let parts = split_char(lv, ':');
    if parts.len() < 2 {
        return Err(ApoError::InvalidFilterLine(string_of(copy_chars(lv))));
    }
    assert(views(parts@)[0] == parts@[0]@);
    assert(views(parts@)[1] == parts@[1]@);
    let p0 = trim_chars(&parts[0]);
    let keyword = chars_of("Filter");
    let stripped = trim_start_matches(&p0, &keyword);
    let num_text = trim_chars(&stripped);
    let number = match parse_u32(&num_text) {
        Some(n) => n,
        None => {
            return Err(ApoError::InvalidFilterNumber(string_of(num_text)));
        },
    };
    let params = trim_chars(&parts[1]);
    let toks = split_whitespace(&params);
    let ghost tv = views(toks@);
    if toks.len() == 0 {
        return Err(ApoError::ExpectedOnOff(None));
    }
    assert(tv[0] == toks@[0]@);
    let is_on = chars_eq_str(&toks[0], "ON");
    let is_off = chars_eq_str(&toks[0], "OFF");
    if !is_on && !is_off {
        return Err(ApoError::ExpectedOnOff(Some(string_of(copy_chars(&toks[0])))));
    }
    if toks.len() < 2 {
        return Err(ApoError::MissingFilterType);
    }
    assert(tv[1] == toks@[1]@);
    let filter_type = match type_from_code(&toks[1]) {
        Ok(t) => t,
        Err(e) => {
            return Err(e);
        },
    };
    match scan_param_tokens(&toks) {
        Err(e) => Err(e),
        Ok((f, g, q)) => Ok(
            Filter {
                number,
                enabled: is_on,
                filter_type,
                frequency: string_of(f),
                gain: string_of(g),
                q: string_of(q),
            },
        ),
    }
}

/// Parses one `Filter N: ON|OFF TYPE Fc F Hz Gain G dB Q Q` line.
pub fn parse_filter_line(line: &str) -> (r: Result<Filter, ApoError>)
    ensures
        match r {
            Ok(f) => filter_line(line@) == Ok::<FilterModel, ApoErrorModel>(f@),
            Err(e) => filter_line(line@) == Err::<FilterModel, ApoErrorModel>(e@),
        },
{
    let lv = chars_of(line);
    filter_from_chars(&lv)
}

impl Config {
    /// Parses the text of an `.apo` file: blank lines, `#` comments and
    /// unknown lines are skipped, the last `Preamp:` line sets the preamp
    /// (0 when there is none), and `Filter` lines give the filters in order.
    pub fn from_str(content: &str) -> (r: Result<Config, ApoError>)
        ensures
            match r {
                Ok(c) => apo_config(content@) == Ok::<ConfigModel, ApoErrorModel>(c@),
                Err(e) => apo_config(content@) == Err::<ConfigModel, ApoErrorModel>(e@),
            },
    {
        let cv = chars_of(content);
        let ls = lines_of(&cv);
        let ghost lv = views(ls@);
        let mut preamp = chars_of("0");
        let mut filters: Vec<Filter> = Vec::new();
        let mut k: usize = 0;
        assert(lv.take(0) =~= Seq::<Seq<char>>::empty());
        assert(filters@.map_values(|f: Filter| f@) =~= Seq::<FilterModel>::empty());
        while k < ls.len()
            invariant
                lv == views(ls@),
                lv == lines(cv@),
                cv@ == content@,
                k <= ls@.len(),
                apo_lines(lv.take(k as int)) == Ok::<ConfigModel, ApoErrorModel>(
                    ConfigModel {
                        preamp: preamp@,
                        filters: filters@.map_values(|f: Filter| f@),
                    },
                ),
            decreases ls.len() - k,
        {
            assert(lv.take(k + 1).drop_last() =~= lv.take(k as int));
            assert(lv.take(k + 1).last() == ls@[k as int]@);
            let t = trim_chars(&ls[k]);
            let hash = chars_of("#");
            let preamp_kw = chars_of("Preamp:");
            let filter_kw = chars_of("Filter");
            if t.len() == 0 || has_prefix(&t, &hash) {
            } else if has_prefix(&t, &preamp_kw) {
                let parts = split_char(&t, ':');
                if parts.len() >= 2 {
                    assert(views(parts@)[1] == parts@[1]@);
                    let a = trim_chars(&parts[1]);
                    let db_upper = chars_of("dB");
                    let db_lower = chars_of("db");
                    let b = trim_end_matches(&a, &db_upper);
                    let c = trim_end_matches(&b, &db_lower);
                    let v = trim_chars(&c);
                    if !float_literal(&v) {
                        proof {
                            lemma_apo_lines_err(lv, k + 1);
                        }
                        return Err(ApoError::InvalidPreamp(string_of(v)));
                    }
                    preamp = v;
                }
            } else if has_prefix(&t, &filter_kw) {
                match filter_from_chars(&t) {
                    Ok(f) => {
                        let ghost old_filters = filters@;
                        filters.push(f);
                        assert(filters@.map_values(|f: Filter| f@) =~= old_filters.map_values(
                            |f: Filter| f@,
                        ).push(f@));
                    },
                    Err(e) => {
                        proof {
                            lemma_apo_lines_err(lv, k + 1);
                        }
                        return Err(e);
                    },
                }
            }
            k += 1;
        }
        assert(lv.take(ls@.len() as int) =~= lv);
        Ok(Config { preamp: string_of(preamp), filters })
    }
}


/// What `{:?}` writes for a string: the string quoted, with its special
/// characters escaped.
pub uninterp spec fn str_debug(s: Seq<char>) -> Seq<char>;

/// `<str as Debug>::fmt`, through `format!("{:?}", ..)`.
#[verifier::external_body]
fn debug_str(s: &str) -> (r: String)
    ensures
        r@ == str_debug(s@),
{
    format!("{:?}", s)
}

/// The type code to use in place of a first-order one.
pub open spec fn second_order_code(code: Seq<char>) -> Seq<char> {
    if code == "LS"@ {
        "LSC"@
    } else if code == "LP"@ {
        "LPQ"@
    } else if code == "HP"@ {
        "HPQ"@
    } else {
        "HSC"@
    }
}

/// The message that explains why an `.apo` text was refused.
pub open spec fn apo_error_message(e: ApoErrorModel) -> Seq<char> {
    match e {
        ApoErrorModel::InvalidPreamp(v) => "Invalid preamp value: "@ + v,
        ApoErrorModel::InvalidFilterLine(l) => "Invalid filter line format: "@ + l,
        ApoErrorModel::InvalidFilterNumber(n) => "Invalid filter number: "@ + n,
        ApoErrorModel::ExpectedOnOff(o) => "Expected ON/OFF, got "@ + match o {
            Some(t) => "Some("@ + str_debug(t) + ")"@,
            None => "None"@,
        },
        ApoErrorModel::FirstOrderType(code) => "Use "@ + second_order_code(code) + " instead of "@
            + code,
        ApoErrorModel::UnknownFilterType(t) => "unknown filter type: "@ + t,
        ApoErrorModel::MissingFilterType => "Missing filter type"@,
        ApoErrorModel::InvalidFrequency(v) => "Invalid frequency: "@ + v,
        ApoErrorModel::InvalidGain(v) => "Invalid gain: "@ + v,
        ApoErrorModel::InvalidQ(v) => "Invalid Q: "@ + v,
    }
}

fn prefixed(prefix: &str, rest: &String) -> (r: String)
    ensures
        r@ == prefix@ + rest@,
{
    let mut v = chars_of(prefix);
    append_chars(&mut v, &chars_of(rest.as_str()));
    string_of(v)
}

impl ApoError {
    /// The message that explains the error.
    pub fn message(&self) -> (r: String)
        ensures
            r@ == apo_error_message(self@),
    {
        match self {
            ApoError::InvalidPreamp(v) => prefixed("Invalid preamp value: ", v),
            ApoError::InvalidFilterLine(l) => prefixed("Invalid filter line format: ", l),
            ApoError::InvalidFilterNumber(n) => prefixed("Invalid filter number: ", n),
            ApoError::ExpectedOnOff(o) => {
                let mut v = chars_of("Expected ON/OFF, got ");
                match o {
                    Some(t) => {
                        append_chars(&mut v, &chars_of("Some("));
                        append_chars(&mut v, &chars_of(debug_str(t.as_str()).as_str()));
                        append_chars(&mut v, &chars_of(")"));
                    },
                    None => {
                        append_chars(&mut v, &chars_of("None"));
                    },
                }
                string_of(v)
            },
            ApoError::FirstOrderType(code) => {
                let c = chars_of(code.as_str());
                let replacement = if chars_eq_str(&c, "LS") {
                    "LSC"
                } else if chars_eq_str(&c, "LP") {
                    "LPQ"
                } else if chars_eq_str(&c, "HP") {
                    "HPQ"
                } else {
                    "HSC"
                };
                let mut v = chars_of("Use ");
                append_chars(&mut v, &chars_of(replacement));
                append_chars(&mut v, &chars_of(" instead of "));
                append_chars(&mut v, &c);
                string_of(v)
            },
            ApoError::UnknownFilterType(t) => prefixed("unknown filter type: ", t),
            ApoError::MissingFilterType => string_of(chars_of("Missing filter type")),
            ApoError::InvalidFrequency(v) => prefixed("Invalid frequency: ", v),
            ApoError::InvalidGain(v) => prefixed("Invalid gain: ", v),
            ApoError::InvalidQ(v) => prefixed("Invalid Q: ", v),
        }
    }
}

/// The parameter a group of a `Filter` line sets.
pub ghost enum ParamKind {
    Fc,
    Gain,
    Q,
}

/// A parameter group of a `Filter` line: its kind and its value.
pub ghost struct ParamGroup {
    pub kind: ParamKind,
    pub value: Seq<char>,
}

/// The tokens a group is written as: `Fc F Hz`, `Gain G dB` or `Q V`.
pub open spec fn group_tokens(g: ParamGroup) -> Seq<Seq<char>> {
    match g.kind {
        ParamKind::Fc => seq!["Fc"@, g.value, "Hz"@],
        ParamKind::Gain => seq!["Gain"@, g.value, "dB"@],
        ParamKind::Q => seq!["Q"@, g.value],
    }
}

/// The tokens of groups written one after another.
pub open spec fn groups_tokens(gs: Seq<ParamGroup>) -> Seq<Seq<char>>
    decreases gs.len(),
{
    if gs.len() == 0 {
        seq![]
    } else {
        group_tokens(gs[0]) + groups_tokens(gs.drop_first())
    }
}

/// The value of the last group of a kind, or `d` when no group has it.
pub open spec fn last_value(gs: Seq<ParamGroup>, kind: ParamKind, d: Seq<char>) -> Seq<char>
    decreases gs.len(),
{
    if gs.len() == 0 {
        d
    } else if gs.last().kind == kind {
        gs.last().value
    } else {
        last_value(gs.drop_last(), kind, d)
    }
}

proof fn lemma_last_value_front(gs: Seq<ParamGroup>, kind: ParamKind, d: Seq<char>)
    requires
        gs.len() > 0,
    ensures
        last_value(gs, kind, d) == last_value(
            gs.drop_first(),
            kind,
            if gs[0].kind == kind {
                gs[0].value
            } else {
                d
            },
        ),
    decreases gs.len(),
{
    if gs.len() > 1 {
        lemma_last_value_front(gs.drop_last(), kind, d);
        assert(gs.drop_last().drop_first() =~= gs.drop_first().drop_last());
        assert(gs.drop_first().last() == gs.last());
        assert(gs.drop_last()[0] == gs[0]);
    } else {
        assert(gs.drop_first() =~= Seq::<ParamGroup>::empty());
        assert(gs.drop_last() =~= Seq::<ParamGroup>::empty());
    }
}

/// Each parameter is found by its keyword wherever its group stands: after
/// any leading tokens, parameter groups with valid values set frequency,
/// gain and quality factor each to the value of the last group of its kind,
/// and leave a parameter that no group names as it was.
pub proof fn lemma_params_by_keyword(
    pre: Seq<Seq<char>>,
    gs: Seq<ParamGroup>,
    f: Seq<char>,
    g: Seq<char>,
    q: Seq<char>,
)
    requires
        forall|i: int| 0 <= i < gs.len() ==> is_float_literal(#[trigger] gs[i].value),
    ensures
        scan_params(pre + groups_tokens(gs), pre.len() as int, f, g, q) == Ok::<
            (Seq<char>, Seq<char>, Seq<char>),
            ApoErrorModel,
        >(
            (
                last_value(gs, ParamKind::Fc, f),
                last_value(gs, ParamKind::Gain, g),
                last_value(gs, ParamKind::Q, q),
            ),
        ),
    decreases gs.len(),
{
    reveal_strlit("Fc");
    reveal_strlit("Gain");
    reveal_strlit("Q");
    reveal_strlit("Hz");
    reveal_strlit("dB");
    assert("Fc"@.len() == 2 && "Gain"@.len() == 4 && "Q"@.len() == 1);
    let toks = pre + groups_tokens(gs);
    let i = pre.len() as int;
    if gs.len() == 0 {
        assert(toks =~= pre);
    } else {
        let g0 = gs[0];
        let rest = gs.drop_first();
        let a = group_tokens(g0);
        let pre2 = pre + a;
        assert(toks =~= pre2 + groups_tokens(rest));
        assert(toks[i] == a[0]);
        assert(toks[i + 1] == a[1]);
        assert(a[1] == g0.value);
        assert(is_float_literal(gs[0].value));
        assert(forall|j: int| 0 <= j < rest.len() ==> rest[j] == gs[j + 1]);
        lemma_params_by_keyword(
            pre2,
            rest,
            if g0.kind == ParamKind::Fc { g0.value } else { f },
            if g0.kind == ParamKind::Gain { g0.value } else { g },
            if g0.kind == ParamKind::Q { g0.value } else { q },
        );
        lemma_last_value_front(gs, ParamKind::Fc, f);
        lemma_last_value_front(gs, ParamKind::Gain, g);
        lemma_last_value_front(gs, ParamKind::Q, q);
        assert(pre2.len() == i + a.len());
        assert(i + a.len() <= toks.len());
    }
}

/// On a `Filter` line whose parameters (after `ON`/`OFF` and the type) are
/// groups with valid values, the frequency, gain and quality factor read
/// are those of the last group of each kind, 1000, 0 and 1 where no group
/// names them: `Fc 20 Hz Q 0.7` reads as frequency 20, gain 0, Q 0.7.
pub proof fn lemma_filter_line_params(line: Seq<char>, on_off: Seq<char>, code: Seq<char>, gs: Seq<ParamGroup>)
    requires
        split_on(line, ':').len() >= 2,
        words(trim(split_on(line, ':')[1])) == seq![on_off, code] + groups_tokens(gs),
        forall|i: int| 0 <= i < gs.len() ==> is_float_literal(#[trigger] gs[i].value),
    ensures
        filter_line(line) matches Ok(m) ==> m.frequency == last_value(gs, ParamKind::Fc, "1000"@)
            && m.gain == last_value(gs, ParamKind::Gain, "0"@) && m.q == last_value(
            gs,
            ParamKind::Q,
            "1"@,
        ),
{
    lemma_params_by_keyword(seq![on_off, code], gs, "1000"@, "0"@, "1"@);
}

} // verus!
