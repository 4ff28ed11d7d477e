//! The JSON form of a filter-chain configuration, as PipeWire reads it: key
//! names, the order of members, flattened node kinds and number syntax.
use vstd::prelude::*;

use crate::module::{
    AudioPosition, CaptureProps, Config, Control, FilterGraph, FilterType, Link, Module, ModuleArgs,
    Node, NodeKind, ParamEqFilter, PlaybackProps, RateAndBiquadCoefficients,
};
use crate::spa_json::{render, JsonValue, SpaJson};
use crate::text::{
    all_digits, append_chars, chars_eq_ignore_ascii_case, chars_of, decimal, decimal_chars,
    eq_ignore_ascii_case, is_digit, string_of, unsigned_part, unsigned_part_chars,
};

verus! {

/// Text written without a fraction or an exponent: an optional minus sign
/// and one or more digits.
pub open spec fn integral_text(t: Seq<char>) -> bool {
    let u = if t.len() > 0 && t[0] == '-' {
        t.drop_first()
    } else {
        t
    };
    u.len() > 0 && all_digits(u)
}

/// The number text of a finite floating-point parameter: an integral value
/// gets a `.0`, anything else is kept as written. Callers hand the shortest
/// text that reads back as the value, which is how JSON writes a float.
pub open spec fn float_text(t: Seq<char>) -> Seq<char> {
    if integral_text(t) {
        t + ".0"@
    } else {
        t
    }
}

/// The text of a value that is not finite: `inf`, `infinity` or `nan` in
/// any ASCII case, with an optional sign.
pub open spec fn non_finite_text(t: Seq<char>) -> bool {
    let b = unsigned_part(t);
    eq_ignore_ascii_case(b, "inf"@) || eq_ignore_ascii_case(b, "infinity"@) || eq_ignore_ascii_case(
        b,
        "nan"@,
    )
}

/// `j` is a floating-point parameter written `t`: `null` for a value that is
/// not finite, which JSON has no number for; otherwise the number, written
/// as [`float_text`] says.
pub open spec fn is_float(j: JsonValue, t: Seq<char>) -> bool {
    if non_finite_text(t) {
        j == JsonValue::Null
    } else {
        is_num(j, float_text(t))
    }
}

/// The members of an object (none for anything else).
pub open spec fn members(j: JsonValue) -> Seq<(String, JsonValue)> {
    match j {
        JsonValue::Object(ms) => ms@,
        _ => seq![],
    }
}

/// The items of an array (none for anything else).
pub open spec fn items(j: JsonValue) -> Seq<JsonValue> {
    match j {
        JsonValue::Array(xs) => xs@,
        _ => seq![],
    }
}

/// `j` is the string `s`.
pub open spec fn is_str(j: JsonValue, s: Seq<char>) -> bool {
    j matches JsonValue::String(t) && t@ == s
}

/// `j` is the number written `s`.
pub open spec fn is_num(j: JsonValue, s: Seq<char>) -> bool {
    j matches JsonValue::Number(t) && t@ == s
}

/// `j` is the boolean `b`.
pub open spec fn is_bool(j: JsonValue, b: bool) -> bool {
    j == JsonValue::Bool(b)
}

/// The member has key `k`.
pub open spec fn key_is(m: (String, JsonValue), k: Seq<char>) -> bool {
    m.0@ == k
}

/// The member is `k = "s"`.
pub open spec fn str_member(m: (String, JsonValue), k: Seq<char>, s: Seq<char>) -> bool {
    key_is(m, k) && is_str(m.1, s)
}

/// The member is `k = v` for the floating-point parameter written `t`.
pub open spec fn float_member(m: (String, JsonValue), k: Seq<char>, t: Seq<char>) -> bool {
    key_is(m, k) && is_float(m.1, t)
}

/// The member is `k = t` for a number written `t`.
pub open spec fn num_member(m: (String, JsonValue), k: Seq<char>, t: Seq<char>) -> bool {
    key_is(m, k) && is_num(m.1, t)
}

pub open spec fn control_members(ms: Seq<(String, JsonValue)>, c: Control) -> bool {
    &&& ms.len() == 3
    &&& float_member(ms[0], "Freq"@, c.freq@)
    &&& float_member(ms[1], "Q"@, c.q@)
    &&& float_member(ms[2], "Gain"@, c.gain@)
}

/// `j` is the object `{ Freq, Q, Gain }` of a control.
pub open spec fn control_json(j: JsonValue, c: Control) -> bool {
    j is Object && control_members(members(j), c)
}

/// The PipeWire label of a biquad type.
pub open spec fn filter_type_label(t: FilterType) -> Seq<char> {
    match t {
        FilterType::LowShelf => "bq_lowshelf"@,
        FilterType::LowPass => "bq_lowpass"@,
        FilterType::Peaking => "bq_peaking"@,
        FilterType::BandPass => "bq_bandpass"@,
        FilterType::Notch => "bq_notch"@,
        FilterType::HighPass => "bq_highpass"@,
        FilterType::HighShelf => "bq_highshelf"@,
    }
}

/// The PipeWire label of a node kind.
pub open spec fn kind_label(k: NodeKind) -> Seq<char> {
    match k {
        NodeKind::Peaking { .. } => "bq_peaking"@,
        NodeKind::LowShelf { .. } => "bq_lowshelf"@,
        NodeKind::HighShelf { .. } => "bq_highshelf"@,
        NodeKind::LowPass { .. } => "bq_lowpass"@,
        NodeKind::BandPass { .. } => "bq_bandpass"@,
        NodeKind::Notch { .. } => "bq_notch"@,
        NodeKind::HighPass { .. } => "bq_highpass"@,
        NodeKind::Raw { .. } => "bq_raw"@,
        NodeKind::ParamEq { .. } => "param_eq"@,
    }
}

/// `{ type, Freq, Q, Gain }`: a filter of a `param_eq` node.
pub open spec fn param_eq_filter_json(j: JsonValue, f: ParamEqFilter) -> bool {
    let ms = members(j);
    &&& j is Object
    &&& ms.len() == 4
    &&& str_member(ms[0], "type"@, filter_type_label(f.ty))
    &&& control_members(ms.drop_first(), f.control)
}

/// `{ rate, b0, b1, b2, a1, a2 }`: coefficients for a sample rate.
pub open spec fn rate_coefficients_json(j: JsonValue, r: RateAndBiquadCoefficients) -> bool {
    let ms = members(j);
    let c = r.coefficients;
    &&& j is Object
    &&& ms.len() == 6
    &&& num_member(ms[0], "rate"@, decimal(r.rate as nat))
    &&& float_member(ms[1], "b0"@, c.b0@)
    &&& float_member(ms[2], "b1"@, c.b1@)
    &&& float_member(ms[3], "b2"@, c.b2@)
    &&& float_member(ms[4], "a1"@, c.a1@)
    &&& float_member(ms[5], "a2"@, c.a2@)
}

/// The configuration object of a node kind: `{ filters = [..] }` for
/// `param_eq`, `{ coefficients = [..] }` for `bq_raw`.
pub open spec fn kind_config_json(j: JsonValue, k: NodeKind) -> bool {
    let ms = members(j);
    &&& j is Object
    &&& ms.len() == 1
    &&& ms[0].1 is Array
    &&& match k {
        NodeKind::ParamEq { config } => {
            let xs = items(ms[0].1);
            &&& key_is(ms[0], "filters"@)
            &&& xs.len() == config.filters@.len()
            &&& forall|i: int| 0 <= i < xs.len() ==> param_eq_filter_json(#[trigger] xs[i], config.filters@[i])
        },
        NodeKind::Raw { config } => {
            let xs = items(ms[0].1);
            &&& key_is(ms[0], "coefficients"@)
            &&& xs.len() == config.coefficients@.len()
            &&& forall|i: int|
                0 <= i < xs.len() ==> rate_coefficients_json(#[trigger] xs[i], config.coefficients@[i])
        },
        _ => false,
    }
}

/// The members of a node kind, flattened into its node: the label, then
/// `control` for a biquad or `config` for `bq_raw` and `param_eq`.
pub open spec fn kind_members(ms: Seq<(String, JsonValue)>, k: NodeKind) -> bool {
    &&& ms.len() == 2
    &&& str_member(ms[0], "label"@, kind_label(k))
    &&& match k {
        NodeKind::Raw { .. } | NodeKind::ParamEq { .. } => key_is(ms[1], "config"@)
            && kind_config_json(ms[1].1, k),
        NodeKind::Peaking { control }
        | NodeKind::LowShelf { control }
        | NodeKind::HighShelf { control }
        | NodeKind::LowPass { control }
        | NodeKind::BandPass { control }
        | NodeKind::Notch { control }
        | NodeKind::HighPass { control } => key_is(ms[1], "control"@) && control_json(ms[1].1, control),
    }
}

/// `{ type = "builtin", name, label, control | config }`.
pub open spec fn node_json(j: JsonValue, n: Node) -> bool {
    let ms = members(j);
    &&& j is Object
    &&& ms.len() == 4
    &&& str_member(ms[0], "type"@, "builtin"@)
    &&& str_member(ms[1], "name"@, n.name@)
    &&& kind_members(ms.skip(2), n.kind)
}

/// `{ output, input }`.
pub open spec fn link_json(j: JsonValue, l: Link) -> bool {
    let ms = members(j);
    &&& j is Object
    &&& ms.len() == 2
    &&& str_member(ms[0], "output"@, l.output@)
    &&& str_member(ms[1], "input"@, l.input@)
}

/// `{ nodes = [..] }`, with `links = [..]` after it unless there are none.
pub open spec fn graph_json(j: JsonValue, g: FilterGraph) -> bool {
    let ms = members(j);
    let ns = items(ms[0].1);
    &&& j is Object
    &&& ms.len() == (if g.links@.len() == 0 {
        1int
    } else {
        2int
    })
    &&& key_is(ms[0], "nodes"@)
    &&& ms[0].1 is Array
    &&& ns.len() == g.nodes@.len()
    &&& forall|i: int| 0 <= i < ns.len() ==> node_json(#[trigger] ns[i], g.nodes@[i])
    &&& g.links@.len() > 0 ==> {
        let ls = items(ms[1].1);
        &&& key_is(ms[1], "links"@)
        &&& ms[1].1 is Array
        &&& ls.len() == g.links@.len()
        &&& forall|i: int| 0 <= i < ls.len() ==> link_json(#[trigger] ls[i], g.links@[i])
    }
}

/// The channel name of an audio position.
pub open spec fn position_name(p: AudioPosition) -> Seq<char> {
    match p {
        AudioPosition::FrontLeft => "FL"@,
        AudioPosition::FrontRight => "FR"@,
        AudioPosition::FrontCenter => "FC"@,
        AudioPosition::LowFrequency => "LFE"@,
        AudioPosition::SideLeft => "SL"@,
        AudioPosition::SideRight => "SR"@,
        AudioPosition::BackLeft => "BL"@,
        AudioPosition::BackRight => "BR"@,
    }
}

/// `{ node.name, node.passive }`.
pub open spec fn playback_json(j: JsonValue, p: PlaybackProps) -> bool {
    let ms = members(j);
    &&& j is Object
    &&& ms.len() == 2
    &&& str_member(ms[0], "node.name"@, p.node_name@)
    &&& key_is(ms[1], "node.passive"@) && is_bool(ms[1].1, p.node_passive)
}

/// `{ node.name, media.class, pweq.managed }`.
pub open spec fn capture_json(j: JsonValue, p: CaptureProps) -> bool {
    let ms = members(j);
    &&& j is Object
    &&& ms.len() == 3
    &&& str_member(ms[0], "node.name"@, p.node_name@)
    &&& str_member(ms[1], "media.class"@, p.media_class@)
    &&& key_is(ms[2], "pweq.managed"@) && is_bool(ms[2].1, p.pweq_managed)
}

/// The arguments of a filter-chain module, member by member.
pub open spec fn module_args_json(j: JsonValue, a: ModuleArgs) -> bool {
    let ms = members(j);
    let ps = items(ms[4].1);
    &&& j is Object
    &&& ms.len() == 7
    &&& str_member(ms[0], "node.description"@, a.node_description@)
    &&& str_member(ms[1], "media.name"@, a.media_name@)
    &&& key_is(ms[2], "filter.graph"@) && graph_json(ms[2].1, a.filter_graph)
    &&& num_member(ms[3], "audio.channels"@, decimal(a.audio_channels as nat))
    &&& key_is(ms[4], "audio_position"@) && ms[4].1 is Array
    &&& ps.len() == a.audio_position@.len()
    &&& forall|i: int| 0 <= i < ps.len() ==> is_str(#[trigger] ps[i], position_name(a.audio_position@[i]))
    &&& key_is(ms[5], "playback.props"@) && playback_json(ms[5].1, a.playback_props)
    &&& key_is(ms[6], "capture.props"@) && capture_json(ms[6].1, a.capture_props)
}

/// `{ name, args }`.
pub open spec fn module_json(j: JsonValue, m: Module) -> bool {
    let ms = members(j);
    &&& j is Object
    &&& ms.len() == 2
    &&& str_member(ms[0], "name"@, m.name@)
    &&& key_is(ms[1], "args"@) && module_args_json(ms[1].1, m.args)
}

/// `{ context.modules = [..] }`.
pub open spec fn config_json(j: JsonValue, c: Config) -> bool {
    let ms = members(j);
    let xs = items(ms[0].1);
    &&& j is Object
    &&& ms.len() == 1
    &&& key_is(ms[0], "context.modules"@)
    &&& ms[0].1 is Array
    &&& xs.len() == c.context_modules@.len()
    &&& forall|i: int| 0 <= i < xs.len() ==> module_json(#[trigger] xs[i], c.context_modules@[i])
}

fn text(s: &str) -> (r: String)
    ensures
        r@ == s@,
{
    string_of(chars_of(s))
}

fn integral(v: &Vec<char>) -> (r: bool)
    ensures
        r == integral_text(v@),
{
    let start: usize = if v.len() > 0 && v[0] == '-' {
        1
    } else {
        0
    };
    let ghost u = if v@.len() > 0 && v@[0] == '-' {
        v@.drop_first()
    } else {
        v@
    };
    assert(u =~= v@.skip(start as int));
    if start >= v.len() {
        return false;
    }
    let mut i = start;
    while i < v.len()
        invariant
            start <= i <= v@.len(),
            u =~= v@.skip(start as int),
            u == (if v@.len() > 0 && v@[0] == '-' {
                v@.drop_first()
            } else {
                v@
            }),
            forall|k: int| start <= k < i ==> is_digit(#[trigger] v@[k]),
        decreases v.len() - i,
    {
        if !('0' <= v[i] && v[i] <= '9') {
            assert(u[i - start] == v@[i as int]);
            assert(!is_digit(u[i - start]));
            return false;
        }
        i += 1;
    }
    assert forall|k: int| 0 <= k < u.len() implies is_digit(#[trigger] u[k]) by {
        assert(u[k] == v@[k + start]);
    }
    true
}

fn non_finite(v: &Vec<char>) -> (r: bool)
    ensures
        r == non_finite_text(v@),
{
    let b = unsigned_part_chars(v);
    chars_eq_ignore_ascii_case(&b, &chars_of("inf")) || chars_eq_ignore_ascii_case(
        &b,
        &chars_of("infinity"),
    ) || chars_eq_ignore_ascii_case(&b, &chars_of("nan"))
}

fn float_number(t: &String) -> (j: JsonValue)
    ensures
        is_float(j, t@),
{
    let mut v = chars_of(t.as_str());
    if non_finite(&v) {
        return JsonValue::Null;
    }
    if integral(&v) {
        let w = chars_of(".0");
        append_chars(&mut v, &w);
    }
    JsonValue::Number(string_of(v))
}

fn integer_number(n: u64) -> (j: JsonValue)
    ensures
        is_num(j, decimal(n as nat)),
{
    JsonValue::Number(string_of(decimal_chars(n)))
}

fn str_value(s: &String) -> (j: JsonValue)
    ensures
        is_str(j, s@),
{
    JsonValue::String(string_of(chars_of(s.as_str())))
}

fn control_entries(c: &Control) -> (ms: Vec<(String, JsonValue)>)
    ensures
        control_members(ms@, *c),
{
    let mut ms: Vec<(String, JsonValue)> = Vec::new();
    ms.push((text("Freq"), float_number(&c.freq)));
    ms.push((text("Q"), float_number(&c.q)));
    ms.push((text("Gain"), float_number(&c.gain)));
    ms
}

fn filter_type_name(t: FilterType) -> (r: String)
    ensures
        r@ == filter_type_label(t),
{
    match t {
        FilterType::LowShelf => text("bq_lowshelf"),
        FilterType::LowPass => text("bq_lowpass"),
        FilterType::Peaking => text("bq_peaking"),
        FilterType::BandPass => text("bq_bandpass"),
        FilterType::Notch => text("bq_notch"),
        FilterType::HighPass => text("bq_highpass"),
        FilterType::HighShelf => text("bq_highshelf"),
    }
}

fn kind_name(k: &NodeKind) -> (r: String)
    ensures
        r@ == kind_label(*k),
{
    match k {
        NodeKind::Peaking { .. } => text("bq_peaking"),
        NodeKind::LowShelf { .. } => text("bq_lowshelf"),
        NodeKind::HighShelf { .. } => text("bq_highshelf"),
        NodeKind::LowPass { .. } => text("bq_lowpass"),
        NodeKind::BandPass { .. } => text("bq_bandpass"),
        NodeKind::Notch { .. } => text("bq_notch"),
        NodeKind::HighPass { .. } => text("bq_highpass"),
        NodeKind::Raw { .. } => text("bq_raw"),
        NodeKind::ParamEq { .. } => text("param_eq"),
    }
}

fn param_eq_filter_value(f: &ParamEqFilter) -> (j: JsonValue)
    ensures
        param_eq_filter_json(j, *f),
{
    let mut ms: Vec<(String, JsonValue)> = Vec::new();
    ms.push((text("type"), JsonValue::String(filter_type_name(f.ty))));
    ms.push((text("Freq"), float_number(&f.control.freq)));
    ms.push((text("Q"), float_number(&f.control.q)));
    ms.push((text("Gain"), float_number(&f.control.gain)));
    assert(ms@.drop_first() =~= seq![ms@[1], ms@[2], ms@[3]]);
    JsonValue::Object(ms)
}

fn rate_coefficients_value(r: &RateAndBiquadCoefficients) -> (j: JsonValue)
    ensures
        rate_coefficients_json(j, *r),
{
    let c = &r.coefficients;
    let mut ms: Vec<(String, JsonValue)> = Vec::new();
    ms.push((text("rate"), integer_number(r.rate as u64)));
    ms.push((text("b0"), float_number(&c.b0)));
    ms.push((text("b1"), float_number(&c.b1)));
    ms.push((text("b2"), float_number(&c.b2)));
    ms.push((text("a1"), float_number(&c.a1)));
    ms.push((text("a2"), float_number(&c.a2)));
    JsonValue::Object(ms)
}

fn kind_config_value(k: &NodeKind) -> (j: JsonValue)
    requires
        k is Raw || k is ParamEq,
    ensures
        kind_config_json(j, *k),
{
    match k {
        NodeKind::ParamEq { config } => {
            let mut items: Vec<JsonValue> = Vec::new();
            let mut i: usize = 0;
            while i < config.filters.len()
                invariant
                    i <= config.filters@.len(),
                    items@.len() == i,
                    forall|m: int|
                        0 <= m < i ==> param_eq_filter_json(#[trigger] items@[m], config.filters@[m]),
                decreases config.filters.len() - i,
            {
                items.push(param_eq_filter_value(&config.filters[i]));
                i += 1;
            }
            let mut ms: Vec<(String, JsonValue)> = Vec::new();
            ms.push((text("filters"), JsonValue::Array(items)));
            JsonValue::Object(ms)
        },
        NodeKind::Raw { config } => {
            let mut items: Vec<JsonValue> = Vec::new();
            let mut i: usize = 0;
            while i < config.coefficients.len()
                invariant
                    i <= config.coefficients@.len(),
                    items@.len() == i,
                    forall|m: int|
                        0 <= m < i ==> rate_coefficients_json(
                            #[trigger] items@[m],
                            config.coefficients@[m],
                        ),
                decreases config.coefficients.len() - i,
            {
                items.push(rate_coefficients_value(&config.coefficients[i]));
                i += 1;
            }
            let mut ms: Vec<(String, JsonValue)> = Vec::new();
            ms.push((text("coefficients"), JsonValue::Array(items)));
            JsonValue::Object(ms)
        },
        _ => {
            assert(false);
            JsonValue::Null
        },
    }
}

fn control_value(c: &Control) -> (j: JsonValue)
    ensures
        control_json(j, *c),
{
    JsonValue::Object(control_entries(c))
}

/// The JSON object of a filter node.
pub fn node_value(n: &Node) -> (j: JsonValue)
    ensures
        node_json(j, *n),
{
    let mut ms: Vec<(String, JsonValue)> = Vec::new();
    ms.push((text("type"), JsonValue::String(text("builtin"))));
    ms.push((text("name"), str_value(&n.name)));
    ms.push((text("label"), JsonValue::String(kind_name(&n.kind))));
    match &n.kind {
        NodeKind::Raw { .. } | NodeKind::ParamEq { .. } => {
            ms.push((text("config"), kind_config_value(&n.kind)));
        },
        NodeKind::Peaking { control }
        | NodeKind::LowShelf { control }
        | NodeKind::HighShelf { control }
        | NodeKind::LowPass { control }
        | NodeKind::BandPass { control }
        | NodeKind::Notch { control }
        | NodeKind::HighPass { control } => {
            ms.push((text("control"), control_value(control)));
        },
    }
    assert(ms@.skip(2) =~= seq![ms@[2], ms@[3]]);
    JsonValue::Object(ms)
}

fn link_value(l: &Link) -> (j: JsonValue)
    ensures
        link_json(j, *l),
{
    let mut ms: Vec<(String, JsonValue)> = Vec::new();
    ms.push((text("output"), str_value(&l.output)));
    ms.push((text("input"), str_value(&l.input)));
    JsonValue::Object(ms)
}

fn graph_value(g: &FilterGraph) -> (j: JsonValue)
    ensures
        graph_json(j, *g),
{
    let mut ns: Vec<JsonValue> = Vec::new();
    let mut i: usize = 0;
    while i < g.nodes.len()
        invariant
            i <= g.nodes@.len(),
            ns@.len() == i,
            forall|m: int| 0 <= m < i ==> node_json(#[trigger] ns@[m], g.nodes@[m]),
        decreases g.nodes.len() - i,
    {
        ns.push(node_value(&g.nodes[i]));
        i += 1;
    }
    let mut ms: Vec<(String, JsonValue)> = Vec::new();
    ms.push((text("nodes"), JsonValue::Array(ns)));
    if g.links.len() > 0 {
        let mut ls: Vec<JsonValue> = Vec::new();
        let mut i: usize = 0;
        while i < g.links.len()
            invariant
                i <= g.links@.len(),
                ls@.len() == i,
                forall|m: int| 0 <= m < i ==> link_json(#[trigger] ls@[m], g.links@[m]),
            decreases g.links.len() - i,
        {
            ls.push(link_value(&g.links[i]));
            i += 1;
        }
        ms.push((text("links"), JsonValue::Array(ls)));
    }
    JsonValue::Object(ms)
}

fn position_value(p: AudioPosition) -> (j: JsonValue)
    ensures
        is_str(j, position_name(p)),
{
    JsonValue::String(
        match p {
            AudioPosition::FrontLeft => text("FL"),
            AudioPosition::FrontRight => text("FR"),
            AudioPosition::FrontCenter => text("FC"),
            AudioPosition::LowFrequency => text("LFE"),
            AudioPosition::SideLeft => text("SL"),
            AudioPosition::SideRight => text("SR"),
            AudioPosition::BackLeft => text("BL"),
            AudioPosition::BackRight => text("BR"),
        },
    )
}

/// The JSON object of a filter-chain module's arguments.
pub fn module_args_value(a: &ModuleArgs) -> (j: JsonValue)
    ensures
        module_args_json(j, *a),
{
    let mut ps: Vec<JsonValue> = Vec::new();
    let mut i: usize = 0;
    while i < a.audio_position.len()
        invariant
            i <= a.audio_position@.len(),
            ps@.len() == i,
            forall|m: int| 0 <= m < i ==> is_str(#[trigger] ps@[m], position_name(a.audio_position@[m])),
        decreases a.audio_position.len() - i,
    {
        ps.push(position_value(a.audio_position[i]));
        i += 1;
    }
    let mut pp: Vec<(String, JsonValue)> = Vec::new();
    pp.push((text("node.name"), str_value(&a.playback_props.node_name)));
    pp.push((text("node.passive"), JsonValue::Bool(a.playback_props.node_passive)));
    let mut cp: Vec<(String, JsonValue)> = Vec::new();
    cp.push((text("node.name"), str_value(&a.capture_props.node_name)));
    cp.push((text("media.class"), str_value(&a.capture_props.media_class)));
    cp.push((text("pweq.managed"), JsonValue::Bool(a.capture_props.pweq_managed)));
    let mut ms: Vec<(String, JsonValue)> = Vec::new();
    ms.push((text("node.description"), str_value(&a.node_description)));
    ms.push((text("media.name"), str_value(&a.media_name)));
    ms.push((text("filter.graph"), graph_value(&a.filter_graph)));
    ms.push((text("audio.channels"), integer_number(a.audio_channels as u64)));
    ms.push((text("audio_position"), JsonValue::Array(ps)));
    ms.push((text("playback.props"), JsonValue::Object(pp)));
    ms.push((text("capture.props"), JsonValue::Object(cp)));
    JsonValue::Object(ms)
}

fn module_value(m: &Module) -> (j: JsonValue)
    ensures
        module_json(j, *m),
{
    let mut ms: Vec<(String, JsonValue)> = Vec::new();
    ms.push((text("name"), str_value(&m.name)));
    ms.push((text("args"), module_args_value(&m.args)));
    JsonValue::Object(ms)
}

/// The JSON object of a configuration.
pub fn config_value(c: &Config) -> (j: JsonValue)
    ensures
        config_json(j, *c),
{
    let mut items: Vec<JsonValue> = Vec::new();
    let mut i: usize = 0;
    while i < c.context_modules.len()
        invariant
            i <= c.context_modules@.len(),
            items@.len() == i,
            forall|m: int| 0 <= m < i ==> module_json(#[trigger] items@[m], c.context_modules@[m]),
        decreases c.context_modules.len() - i,
    {
        items.push(module_value(&c.context_modules[i]));
        i += 1;
    }
    let mut ms: Vec<(String, JsonValue)> = Vec::new();
    ms.push((text("context.modules"), JsonValue::Array(items)));
    JsonValue::Object(ms)
}

/// A configuration as SPA-JSON text, ready for `pipewire.conf.d`.
pub fn to_spa_json(c: &Config) -> (r: String)
    ensures
        exists|j: JsonValue| config_json(j, *c) && r@ == render(j, 0),
{
    let j = config_value(c);
    SpaJson::new(&j).to_string()
}

/// A module's arguments as SPA-JSON text, as `load_module` takes them.
pub fn module_args_to_spa_json(a: &ModuleArgs) -> (r: String)
    ensures
        exists|j: JsonValue| module_args_json(j, *a) && r@ == render(j, 0),
{
    let j = module_args_value(a);
    SpaJson::new(&j).to_string()
}

} // verus!
