//! The PipeWire `filter-chain` module configuration that an equalizer loads.
//!
//! Numeric parameters are kept as decimal text.
use vstd::prelude::*;

use crate::apo;
use crate::text::{
    append_chars, chars_of, concat_str, decimal, decimal_chars, is_zero_literal,
    lemma_zero_text_is_zero, string_of, zero_literal,
};
use crate::number::{is_plain_decimal, lemma_zero_text_denotes_zero, same_value};

verus! {

/// Node property that marks the nodes an equalizer of this program manages.
pub const MANAGED_PROP: &'static str = "pweq.managed";

/// Prefix of the names of the filter nodes in a module's graph.
pub const FILTER_PREFIX: &'static str = "pweq.filter_";

/// The biquad filter kinds that an equalizer band can have.
#[derive(Debug, Clone, Copy, PartialEq, Eq, Structural)]
pub enum FilterType {
    LowShelf,
    LowPass,
    Peaking,
    BandPass,
    Notch,
    HighPass,
    HighShelf,
}

/// A `pipewire.conf` fragment that loads modules.
#[derive(Debug)]
pub struct Config {
    pub context_modules: Vec<Module>,
}

#[derive(Debug)]
pub struct Module {
    pub name: String,
    pub args: ModuleArgs,
}

#[derive(Debug)]
pub struct ModuleArgs {
    pub node_description: String,
    pub media_name: String,
    pub filter_graph: FilterGraph,
    pub audio_channels: usize,
    pub audio_position: Vec<AudioPosition>,
    pub playback_props: PlaybackProps,
    pub capture_props: CaptureProps,
}

#[derive(Debug)]
pub struct PlaybackProps {
    pub node_name: String,
    pub node_passive: bool,
}

#[derive(Debug)]
pub struct CaptureProps {
    pub node_name: String,
    pub media_class: String,
    /// Serialized under the name [`MANAGED_PROP`].
    pub pweq_managed: bool,
}

#[derive(Debug, Clone, Copy, PartialEq, Eq, Structural)]
pub enum AudioPosition {
    FrontLeft,
    FrontRight,
    FrontCenter,
    LowFrequency,
    SideLeft,
    SideRight,
    BackLeft,
    BackRight,
}

#[derive(Debug)]
pub struct FilterGraph {
    pub nodes: Vec<Node>,
    pub links: Vec<Link>,
}

#[derive(Debug)]
pub struct Node {
    pub node_type: NodeType,
    pub name: String,
    pub kind: NodeKind,
}

#[derive(Debug)]
#[allow(inconsistent_fields)]
pub enum NodeKind {
    Peaking { control: Control },
    LowShelf { control: Control },
    HighShelf { control: Control },
    LowPass { control: Control },
    BandPass { control: Control },
    Notch { control: Control },
    HighPass { control: Control },
    Raw { config: RawNodeConfig },
    ParamEq { config: ParamEqConfig },
}

#[derive(Debug)]
pub struct ParamEqConfig {
    pub filters: Vec<ParamEqFilter>,
}

#[derive(Debug)]
pub struct ParamEqFilter {
    pub ty: FilterType,
    pub control: Control,
}

#[derive(Debug)]
pub struct RawNodeConfig {
    pub coefficients: Vec<RateAndBiquadCoefficients>,
}

/// Sample rate mapped to biquad coefficients.
#[derive(Debug)]
pub struct RateAndBiquadCoefficients {
    pub rate: u32,
    pub coefficients: BiquadCoefficients,
}

/// Normalized biquad coefficients (a0 = 1), as decimal text.
#[derive(Debug)]
pub struct BiquadCoefficients {
    pub b0: String,
    pub b1: String,
    pub b2: String,
    pub a1: String,
    pub a2: String,
}

#[derive(Debug, Clone, Copy, PartialEq, Eq, Structural)]
pub enum NodeType {
    Builtin,
}

/// Frequency (Hz), quality factor and gain (dB) of a biquad, as decimal text.
#[derive(Debug)]
pub struct Control {
    pub freq: String,
    pub q: String,
    pub gain: String,
}

#[derive(Debug)]
pub struct Link {
    pub output: String,
    pub input: String,
}

impl Control {
    /// A copy of the control.
    pub fn copy(&self) -> (r: Control)
        ensures
            r == *self,
    {
        Control { freq: self.freq.clone(), q: self.q.clone(), gain: self.gain.clone() }
    }
}

/// The name of the node of the `i`-th filter, counted from 1.
pub open spec fn filter_node_name(i: nat) -> Seq<char> {
    FILTER_PREFIX@ + decimal(i)
}

/// The name of the node that applies the preamp.
pub open spec fn preamp_node_name() -> Seq<char> {
    FILTER_PREFIX@ + "preamp"@
}

/// A high shelf at 0 Hz, which PipeWire applies as a uniform gain.
pub open spec fn is_preamp_control(c: Control, preamp: String) -> bool {
    c.freq@ == "0"@ && c.q@ == "0"@ && c.gain == preamp
}

/// The graph of a module built from `kinds`: with a `param_eq` first kind,
/// its single node holds the preamp as a leading filter (and the other kinds
/// are not used); otherwise a preamp node comes first and each kind gets a
/// numbered node of its own.
pub open spec fn graph_nodes(nodes: Seq<Node>, preamp: String, kinds: Seq<NodeKind>) -> bool {
    if kinds.len() > 0 && kinds[0] is ParamEq {
        &&& nodes.len() == 1
        &&& nodes[0].node_type == NodeType::Builtin
        &&& nodes[0].name@ == filter_node_name(1)
        &&& nodes[0].kind matches NodeKind::ParamEq { config }
        &&& config.filters@.len() == kinds[0]->ParamEq_config.filters@.len() + 1
        &&& config.filters@[0].ty == FilterType::HighShelf
        &&& is_preamp_control(config.filters@[0].control, preamp)
        &&& config.filters@.drop_first() == kinds[0]->ParamEq_config.filters@
    } else {
        &&& nodes.len() == kinds.len() + 1
        &&& nodes[0].node_type == NodeType::Builtin
        &&& nodes[0].name@ == preamp_node_name()
        &&& nodes[0].kind matches NodeKind::HighShelf { control }
        &&& is_preamp_control(control, preamp)
        &&& forall|i: int|
            0 <= i < kinds.len() ==> {
                &&& (#[trigger] nodes[i + 1]).node_type == NodeType::Builtin
                &&& nodes[i + 1].name@ == filter_node_name((i + 1) as nat)
                &&& nodes[i + 1].kind == kinds[i]
            }
    }
}

/// Each node feeds the next one.
pub open spec fn chain_links(links: Seq<Link>, nodes: Seq<Node>) -> bool {
    &&& nodes.len() >= 1
    &&& links.len() == nodes.len() - 1
    &&& forall|i: int|
        0 <= i < links.len() ==> {
            &&& (#[trigger] links[i]).output@ == nodes[i].name@ + ":Out"@
            &&& links[i].input@ == nodes[i + 1].name@ + ":In"@
        }
}

/// The module that a filter chain named `name` with the given preamp and
/// filter kinds is loaded as.
pub open spec fn is_filter_chain_module(m: Module, name: Seq<char>, preamp: String, kinds: Seq<NodeKind>) -> bool {
    &&& m.name@ == "libpipewire-module-filter-chain"@
    &&& m.args.node_description@ == name + " equalizer"@
    &&& m.args.media_name@ == name
    &&& m.args.audio_channels == 2
    &&& m.args.audio_position@ == seq![AudioPosition::FrontLeft, AudioPosition::FrontRight]
    &&& m.args.playback_props.node_name@ == "effect_input.pweq."@ + name
    &&& !m.args.playback_props.node_passive
    &&& m.args.capture_props.node_name@ == "effect_output.pweq."@ + name
    &&& m.args.capture_props.media_class@ == "Audio/Sink"@
    &&& m.args.capture_props.pweq_managed
    &&& graph_nodes(m.args.filter_graph.nodes@, preamp, kinds)
    &&& chain_links(m.args.filter_graph.links@, m.args.filter_graph.nodes@)
}

fn preamp_control(preamp: &String) -> (c: Control)
    ensures
        is_preamp_control(c, *preamp),
{
    Control {
        freq: string_of(chars_of("0")),
        q: string_of(chars_of("0")),
        gain: preamp.clone(),
    }
}

fn node_name_for(i: usize) -> (r: String)
    ensures
        r@ == filter_node_name(i as nat),
{
    let mut v = chars_of(FILTER_PREFIX);
    let d = decimal_chars(i as u64);
    append_chars(&mut v, &d);
    string_of(v)
}

fn chain(nodes: &Vec<Node>) -> (links: Vec<Link>)
    requires
        nodes@.len() >= 1,
    ensures
        chain_links(links@, nodes@),
{
    let mut links: Vec<Link> = Vec::new();
    let mut i: usize = 0;
    while i < nodes.len() - 1
        invariant
            nodes@.len() >= 1,
            i <= nodes@.len() - 1,
            links@.len() == i,
            forall|k: int|
                0 <= k < i ==> {
                    &&& (#[trigger] links@[k]).output@ == nodes@[k].name@ + ":Out"@
                    &&& links@[k].input@ == nodes@[k + 1].name@ + ":In"@
                },
        decreases nodes.len() - i,
    {
        let output = concat_str(nodes[i].name.as_str(), ":Out");
        let input = concat_str(nodes[i + 1].name.as_str(), ":In");
        links.push(Link { output, input });
        i += 1;
    }
    links
}

impl Module {
    /// The filter-chain module for an equalizer named `name` with the given
    /// preamp (dB, as decimal text) and filter kinds.
    pub fn from_kinds(name: &str, preamp: String, kinds: Vec<NodeKind>) -> (m: Module)
        ensures
            is_filter_chain_module(m, name@, preamp, kinds@),
    {
        let ghost kinds0 = kinds@;
        let mut kinds = kinds;
        let nodes: Vec<Node> = if kinds.len() > 0 && matches!(kinds[0], NodeKind::ParamEq { .. }) {
            let first = kinds.remove(0);
            match first {
                NodeKind::ParamEq { config } => {
                    let mut filters = config.filters;
                    let ghost old_filters = filters@;
                    filters.insert(
                        0,
                        ParamEqFilter { ty: FilterType::HighShelf, control: preamp_control(&preamp) },
                    );
                    assert(filters@.drop_first() =~= old_filters);
                    let node = Node {
                        node_type: NodeType::Builtin,
                        name: node_name_for(1),
                        kind: NodeKind::ParamEq { config: ParamEqConfig { filters } },
                    };
                    let mut nodes: Vec<Node> = Vec::new();
                    nodes.push(node);
                    nodes
                },
                _ => {
                    assert(false);
                    Vec::new()
                },
            }
        } else {
            let mut nodes: Vec<Node> = Vec::new();
            nodes.push(
                Node {
                    node_type: NodeType::Builtin,
                    name: string_of(
                        {
                            let mut v = chars_of(FILTER_PREFIX);
                            let w = chars_of("preamp");
                            append_chars(&mut v, &w);
                            v
                        },
                    ),
                    kind: NodeKind::HighShelf { control: preamp_control(&preamp) },
                },
            );
            let mut rest = kinds;
            let mut i: usize = 0;
            assert(rest@ =~= kinds0.skip(0));
            while rest.len() > 0
                invariant
                    rest@.len() + i == kinds0.len(),
                    kinds0.len() <= usize::MAX,
                    rest@ == kinds0.skip(i as int),
                    nodes@.len() == i + 1,
                    nodes@[0].node_type == NodeType::Builtin,
                    nodes@[0].name@ == preamp_node_name(),
                    nodes@[0].kind matches NodeKind::HighShelf { control } && is_preamp_control(control, preamp),
                    forall|k: int|
                        0 <= k < i ==> {
                            &&& (#[trigger] nodes@[k + 1]).node_type == NodeType::Builtin
                            &&& nodes@[k + 1].name@ == filter_node_name((k + 1) as nat)
                            &&& nodes@[k + 1].kind == kinds0[k]
                        },
                decreases rest.len(),
            {
                let kind = rest.remove(0);
                assert(kind == kinds0[i as int]);
                nodes.push(Node { node_type: NodeType::Builtin, name: node_name_for(i + 1), kind });
                i += 1;
                assert(rest@ =~= kinds0.skip(i as int));
            }
            nodes
        };
        let links = chain(&nodes);
        let audio_position = vec![AudioPosition::FrontLeft, AudioPosition::FrontRight];
        Module {
            name: string_of(chars_of("libpipewire-module-filter-chain")),
            args: ModuleArgs {
                node_description: concat_str(name, " equalizer"),
                media_name: string_of(chars_of(name)),
                audio_channels: audio_position.len(),
                audio_position,
                filter_graph: FilterGraph { nodes, links },
                playback_props: PlaybackProps {
                    node_name: concat_str("effect_input.pweq.", name),
                    node_passive: false,
                },
                capture_props: CaptureProps {
                    node_name: concat_str("effect_output.pweq.", name),
                    media_class: string_of(chars_of("Audio/Sink")),
                    pweq_managed: true,
                },
            },
        }
    }
}


/// The node kind that applies a biquad of type `ft` with control `c`.
pub open spec fn kind_of(ft: FilterType, c: Control) -> NodeKind {
    match ft {
        FilterType::LowShelf => NodeKind::LowShelf { control: c },
        FilterType::LowPass => NodeKind::LowPass { control: c },
        FilterType::Peaking => NodeKind::Peaking { control: c },
        FilterType::BandPass => NodeKind::BandPass { control: c },
        FilterType::Notch => NodeKind::Notch { control: c },
        FilterType::HighPass => NodeKind::HighPass { control: c },
        FilterType::HighShelf => NodeKind::HighShelf { control: c },
    }
}

pub fn node_kind_for(ft: FilterType, control: Control) -> (k: NodeKind)
    ensures
        k == kind_of(ft, control),
{
    match ft {
        FilterType::LowShelf => NodeKind::LowShelf { control },
        FilterType::LowPass => NodeKind::LowPass { control },
        FilterType::Peaking => NodeKind::Peaking { control },
        FilterType::BandPass => NodeKind::BandPass { control },
        FilterType::Notch => NodeKind::Notch { control },
        FilterType::HighPass => NodeKind::HighPass { control },
        FilterType::HighShelf => NodeKind::HighShelf { control },
    }
}

/// The control of an `.apo` filter.
pub open spec fn apo_control(f: apo::Filter) -> Control {
    Control { freq: f.frequency, q: f.q, gain: f.gain }
}

/// The node kinds of the filters of an `.apo` configuration, in order; the
/// on/off flag of a filter is not carried over.
pub open spec fn apo_kinds(filters: Seq<apo::Filter>) -> Seq<NodeKind> {
    filters.map_values(|f: apo::Filter| kind_of(f.filter_type, apo_control(f)))
}

impl Module {
    /// The filter-chain module for the filters and preamp of an `.apo` file.
    pub fn from_apo(name: &str, apo: &apo::Config) -> (m: Module)
        ensures
            is_filter_chain_module(m, name@, apo.preamp, apo_kinds(apo.filters@)),
    {
        let mut kinds: Vec<NodeKind> = Vec::new();
        let mut i: usize = 0;
        while i < apo.filters.len()
            invariant
                i <= apo.filters@.len(),
                kinds@ == apo_kinds(apo.filters@).take(i as int),
            decreases apo.filters.len() - i,
        {
            let f = &apo.filters[i];
            let control = Control { freq: f.frequency.clone(), q: f.q.clone(), gain: f.gain.clone() };
            kinds.push(node_kind_for(f.filter_type, control));
            i += 1;
            assert(kinds@ =~= apo_kinds(apo.filters@).take(i as int));
        }
        assert(apo_kinds(apo.filters@).take(i as int) =~= apo_kinds(apo.filters@));
        Module::from_kinds(name, apo.preamp.clone(), kinds)
    }
}

impl Config {
    /// A configuration that loads the one module [`Module::from_kinds`] builds.
    pub fn from_kinds(name: &str, preamp: String, kinds: Vec<NodeKind>) -> (c: Config)
        ensures
            c.context_modules@.len() == 1,
            is_filter_chain_module(c.context_modules@[0], name@, preamp, kinds@),
    {
        let m = Module::from_kinds(name, preamp, kinds);
        let mut context_modules: Vec<Module> = Vec::new();
        context_modules.push(m);
        Config { context_modules }
    }

    /// A configuration that loads the one module [`Module::from_apo`] builds.
    pub fn from_apo(name: &str, apo: &apo::Config) -> (c: Config)
        ensures
            c.context_modules@.len() == 1,
            is_filter_chain_module(c.context_modules@[0], name@, apo.preamp, apo_kinds(apo.filters@)),
    {
        let m = Module::from_apo(name, apo);
        let mut context_modules: Vec<Module> = Vec::new();
        context_modules.push(m);
        Config { context_modules }
    }
}

/// Why the filters of a configuration could not be read back.
#[derive(Debug, Clone, PartialEq, Eq, Structural)]
pub enum ExtractError {
    /// The configuration holds no module.
    NoModule,
    /// A `bq_raw` node holds coefficients, not filter parameters.
    RawNode,
}

/// Filters and preamp read back so far: the preamp found, if any, and the
/// filters in order.
pub type Extracted = (Option<String>, Seq<ParamEqFilter>);

/// One `param_eq` filter read into the state: a high shelf at 0 Hz is the
/// preamp; any other filter is kept.
pub open spec fn extract_param(st: Extracted, f: ParamEqFilter) -> Extracted {
    if f.ty == FilterType::HighShelf && is_zero_literal(f.control.freq@) {
        (Some(f.control.gain), st.1)
    } else {
        (st.0, st.1.push(f))
    }
}

pub open spec fn extract_params(st: Extracted, fs: Seq<ParamEqFilter>) -> Extracted
    decreases fs.len(),
{
    if fs.len() == 0 {
        st
    } else {
        extract_param(extract_params(st, fs.drop_last()), fs.last())
    }
}

/// One node read into the state.
pub open spec fn extract_node(st: Extracted, n: Node) -> Option<Extracted> {
    match n.kind {
        NodeKind::Raw { .. } => None,
        NodeKind::ParamEq { config } => Some(extract_params(st, config.filters@)),
        NodeKind::LowShelf { control } => Some(extract_param(st, ParamEqFilter { ty: FilterType::LowShelf, control })),
        NodeKind::LowPass { control } => Some(extract_param(st, ParamEqFilter { ty: FilterType::LowPass, control })),
        NodeKind::Peaking { control } => Some(extract_param(st, ParamEqFilter { ty: FilterType::Peaking, control })),
        NodeKind::BandPass { control } => Some(extract_param(st, ParamEqFilter { ty: FilterType::BandPass, control })),
        NodeKind::Notch { control } => Some(extract_param(st, ParamEqFilter { ty: FilterType::Notch, control })),
        NodeKind::HighPass { control } => Some(extract_param(st, ParamEqFilter { ty: FilterType::HighPass, control })),
        NodeKind::HighShelf { control } => Some(extract_param(st, ParamEqFilter { ty: FilterType::HighShelf, control })),
    }
}

/// All nodes read in order; `None` when a node is a `bq_raw` node.
pub open spec fn extract_nodes(nodes: Seq<Node>) -> Option<Extracted>
    decreases nodes.len(),
{
    if nodes.len() == 0 {
        Some((None, Seq::empty()))
    } else {
        match extract_nodes(nodes.drop_last()) {
            None => None,
            Some(st) => extract_node(st, nodes.last()),
        }
    }
}

fn copy_param_filter(f: &ParamEqFilter) -> (r: ParamEqFilter)
    ensures
        r == *f,
{
    ParamEqFilter { ty: f.ty, control: f.control.copy() }
}

fn push_param(preamp: &mut Option<String>, out: &mut Vec<ParamEqFilter>, f: ParamEqFilter)
    ensures
        (*final(preamp), final(out)@) == extract_param((*old(preamp), old(out)@), f),
{
    if f.ty == FilterType::HighShelf && zero_literal(&chars_of(f.control.freq.as_str())) {
        *preamp = Some(f.control.gain);
    } else {
        out.push(f);
    }
}

proof fn lemma_extract_nodes_none(nodes: Seq<Node>, j: int)
    requires
        0 <= j <= nodes.len(),
        extract_nodes(nodes.take(j)) is None,
    ensures
        extract_nodes(nodes) is None,
    decreases nodes.len(),
{
    if j < nodes.len() {
        assert(nodes.drop_last().take(j) =~= nodes.take(j));
        lemma_extract_nodes_none(nodes.drop_last(), j);
    } else {
        assert(nodes.take(j) =~= nodes);
    }
}

/// Reads the filters and the preamp back from the first module of a
/// configuration (any further modules are not read): high shelves at 0 Hz
/// give the preamp (the last one wins; 0 when there is none), every other
/// filter node or `param_eq` filter is kept in order. A configuration with
/// no module is refused.
pub fn extract_pw_module_filters(conf: &Config) -> (r: Result<(String, Vec<ParamEqFilter>), ExtractError>)
    ensures
        conf.context_modules@.len() == 0 ==> r == Err::<(String, Vec<ParamEqFilter>), ExtractError>(
            ExtractError::NoModule,
        ),
        conf.context_modules@.len() >= 1 ==> match extract_nodes(conf.context_modules@[0].args.filter_graph.nodes@) {
            None => r == Err::<(String, Vec<ParamEqFilter>), ExtractError>(ExtractError::RawNode),
            Some(st) => r matches Ok(v) && v.1@ == st.1 && match st.0 {
                Some(p) => v.0 == p,
                None => v.0@ == "0"@,
            },
        },
{
    if conf.context_modules.len() == 0 {
        return Err(ExtractError::NoModule);
    }
    let nodes = &conf.context_modules[0].args.filter_graph.nodes;
    let mut preamp: Option<String> = None;
    let mut out: Vec<ParamEqFilter> = Vec::new();
    let mut i: usize = 0;
    assert(nodes@.take(0) =~= Seq::<Node>::empty());
    while i < nodes.len()
        invariant
            i <= nodes@.len(),
            conf.context_modules@.len() >= 1,
            nodes@ == conf.context_modules@[0].args.filter_graph.nodes@,
            extract_nodes(nodes@.take(i as int)) == Some::<Extracted>((preamp, out@)),
        decreases nodes.len() - i,
    {
        assert(nodes@.take(i + 1).drop_last() =~= nodes@.take(i as int));
        assert(nodes@.take(i + 1).last() == nodes@[i as int]);
        match &nodes[i].kind {
            NodeKind::Raw { .. } => {
                proof {
                    lemma_extract_nodes_none(nodes@, i + 1);
                }
                return Err(ExtractError::RawNode);
            },
            NodeKind::ParamEq { config } => {
                let fs = &config.filters;
                let ghost st0 = (preamp, out@);
                let mut j: usize = 0;
                assert(fs@.take(0) =~= Seq::<ParamEqFilter>::empty());
                while j < fs.len()
                    invariant
                        j <= fs@.len(),
                        (preamp, out@) == extract_params(st0, fs@.take(j as int)),
                    decreases fs.len() - j,
                {
                    assert(fs@.take(j + 1).drop_last() =~= fs@.take(j as int));
                    push_param(&mut preamp, &mut out, copy_param_filter(&fs[j]));
                    j += 1;
                }
                assert(fs@.take(fs@.len() as int) =~= fs@);
            },
            NodeKind::LowShelf { control } => {
                push_param(&mut preamp, &mut out, ParamEqFilter { ty: FilterType::LowShelf, control: control.copy() });
            },
            NodeKind::LowPass { control } => {
                push_param(&mut preamp, &mut out, ParamEqFilter { ty: FilterType::LowPass, control: control.copy() });
            },
            NodeKind::Peaking { control } => {
                push_param(&mut preamp, &mut out, ParamEqFilter { ty: FilterType::Peaking, control: control.copy() });
            },
            NodeKind::BandPass { control } => {
                push_param(&mut preamp, &mut out, ParamEqFilter { ty: FilterType::BandPass, control: control.copy() });
            },
            NodeKind::Notch { control } => {
                push_param(&mut preamp, &mut out, ParamEqFilter { ty: FilterType::Notch, control: control.copy() });
            },
            NodeKind::HighPass { control } => {
                push_param(&mut preamp, &mut out, ParamEqFilter { ty: FilterType::HighPass, control: control.copy() });
            },
            NodeKind::HighShelf { control } => {
                push_param(&mut preamp, &mut out, ParamEqFilter { ty: FilterType::HighShelf, control: control.copy() });
            },
        }
        i += 1;
    }
    assert(nodes@.take(nodes@.len() as int) =~= nodes@);
    let p = match preamp {
        Some(p) => p,
        None => string_of(chars_of("0")),
    };
    Ok((p, out))
}

/// Reading filters one list after another is reading their concatenation.
proof fn lemma_extract_params_concat(st: Extracted, a: Seq<ParamEqFilter>, b: Seq<ParamEqFilter>)
    ensures
        extract_params(st, a + b) == extract_params(extract_params(st, a), b),
    decreases b.len(),
{
    if b.len() == 0 {
        assert(a + b =~= a);
    } else {
        assert((a + b).drop_last() =~= a + b.drop_last());
        lemma_extract_params_concat(st, a, b.drop_last());
    }
}

/// Filters none of which is a high shelf at 0 Hz are all kept, in order.
proof fn lemma_extract_params_keeps(st: Extracted, fs: Seq<ParamEqFilter>)
    requires
        forall|i: int|
            0 <= i < fs.len() ==> !((#[trigger] fs[i]).ty == FilterType::HighShelf && is_zero_literal(
                fs[i].control.freq@,
            )),
    ensures
        extract_params(st, fs) == (st.0, st.1 + fs),
    decreases fs.len(),
{
    if fs.len() == 0 {
        assert(st.1 + fs =~= st.1);
    } else {
        lemma_extract_params_keeps(st, fs.drop_last());
        assert(!(fs[fs.len() - 1].ty == FilterType::HighShelf && is_zero_literal(
            fs[fs.len() - 1].control.freq@,
        )));
        assert(st.1 + fs.drop_last() + seq![fs.last()] =~= st.1 + fs);
    }
}

/// A module saved with one `param_eq` node reads back as its preamp and its
/// filters, provided no filter is a high shelf at 0 Hz (such a filter reads
/// back as the preamp).
pub proof fn lemma_param_eq_round_trip(
    m: Module,
    name: Seq<char>,
    preamp: String,
    config: ParamEqConfig,
)
    requires
        is_filter_chain_module(m, name, preamp, seq![NodeKind::ParamEq { config }]),
        forall|i: int|
            0 <= i < config.filters@.len() ==> !((#[trigger] config.filters@[i]).ty
                == FilterType::HighShelf && is_zero_literal(config.filters@[i].control.freq@)),
    ensures
        extract_nodes(m.args.filter_graph.nodes@) == Some::<Extracted>(
            (Some(preamp), config.filters@),
        ),
{
    reveal_strlit("0");
    let nodes = m.args.filter_graph.nodes@;
    let kinds = seq![NodeKind::ParamEq { config }];
    assert(kinds[0] is ParamEq);
    let all = nodes[0].kind->ParamEq_config.filters@;
    let first = all[0];
    assert(all =~= seq![first] + config.filters@);
    lemma_zero_text_is_zero();
    assert(is_zero_literal(first.control.freq@));
    assert(nodes.drop_last() =~= Seq::<Node>::empty());
    let st0: Extracted = (None, Seq::empty());
    assert(extract_params(st0, seq![first]) == extract_param(extract_params(st0, Seq::empty()), first)) by {
        assert(seq![first].drop_last() =~= Seq::<ParamEqFilter>::empty());
    }
    assert(extract_params(st0, Seq::empty()) == st0);
    assert(first.ty == FilterType::HighShelf && first.control.gain == preamp);
    assert(extract_param(st0, first) == (Some(preamp), Seq::<ParamEqFilter>::empty()));
    lemma_extract_params_concat(st0, seq![first], config.filters@);
    lemma_extract_params_keeps((Some(preamp), Seq::empty()), config.filters@);
    assert(Seq::<ParamEqFilter>::empty() + config.filters@ =~= config.filters@);
    assert(extract_params(st0, all) == (Some(preamp), config.filters@));
    assert(extract_nodes(nodes.drop_last()) == Some(st0));
    assert(extract_node(st0, nodes[0]) == Some(extract_params(st0, all)));
}


/// The filters that the nodes of `.apo` filters read back as, in order.
pub open spec fn apo_params(filters: Seq<apo::Filter>) -> Seq<ParamEqFilter> {
    filters.map_values(|f: apo::Filter| ParamEqFilter { ty: f.filter_type, control: apo_control(f) })
}

/// An `.apo` filter that would read back as the preamp: a high shelf at 0 Hz.
pub open spec fn is_preamp_like(f: apo::Filter) -> bool {
    f.filter_type == FilterType::HighShelf && is_zero_literal(f.frequency@)
}

proof fn lemma_extract_apo_prefix(
    nodes: Seq<Node>,
    preamp: String,
    filters: Seq<apo::Filter>,
    k: int,
)
    requires
        graph_nodes(nodes, preamp, apo_kinds(filters)),
        forall|i: int| 0 <= i < filters.len() ==> !is_preamp_like(#[trigger] filters[i]),
        0 <= k <= filters.len(),
    ensures
        extract_nodes(nodes.take(k + 1)) == Some::<Extracted>(
            (Some(preamp), apo_params(filters.take(k))),
        ),
    decreases k,
{
    let kinds = apo_kinds(filters);
    assert(kinds.len() == filters.len());
    if kinds.len() > 0 {
        assert(!(kinds[0] is ParamEq));
    }
    if k == 0 {
        reveal_strlit("0");
        lemma_zero_text_is_zero();
        let one = nodes.take(1);
        assert(one.drop_last() =~= Seq::<Node>::empty());
        assert(one.last() == nodes[0]);
        assert(apo_params(filters.take(0)) =~= Seq::<ParamEqFilter>::empty());
        let st0: Extracted = (None, Seq::empty());
        assert(extract_nodes(one.drop_last()) == Some(st0));
        let control = nodes[0].kind->HighShelf_control;
        assert(is_preamp_control(control, preamp));
        assert(is_zero_literal(control.freq@));
        assert(extract_node(st0, nodes[0]) == Some(
            extract_param(st0, ParamEqFilter { ty: FilterType::HighShelf, control }),
        ));
    } else {
        lemma_extract_apo_prefix(nodes, preamp, filters, k - 1);
        let pre = nodes.take(k + 1);
        assert(pre.drop_last() =~= nodes.take(k));
        assert(pre.last() == nodes[k]);
        let f = filters[k - 1];
        assert(nodes[(k - 1) + 1].kind == kinds[k - 1]);
        assert(kinds[k - 1] == kind_of(f.filter_type, apo_control(f)));
        assert(!is_preamp_like(f));
        let pf = ParamEqFilter { ty: f.filter_type, control: apo_control(f) };
        assert(apo_params(filters.take(k)) =~= apo_params(filters.take(k - 1)).push(pf));
        let st: Extracted = (Some(preamp), apo_params(filters.take(k - 1)));
        assert(extract_param(st, pf) == (Some(preamp), apo_params(filters.take(k))));
        assert(extract_node(st, nodes[k]) == Some(extract_param(st, pf))) by {
            match f.filter_type {
                FilterType::LowShelf => {},
                FilterType::LowPass => {},
                FilterType::Peaking => {},
                FilterType::BandPass => {},
                FilterType::Notch => {},
                FilterType::HighPass => {},
                FilterType::HighShelf => {},
            }
        }
    }
}

/// A module built from `.apo` filters reads back as its preamp and those
/// filters in order, each with its type, frequency, quality factor and gain
/// (the on/off flag is not carried), provided no filter is a high shelf at
/// 0 Hz (such a filter reads back as the preamp).
pub proof fn lemma_apo_module_round_trip(
    m: Module,
    name: Seq<char>,
    preamp: String,
    filters: Seq<apo::Filter>,
)
    requires
        is_filter_chain_module(m, name, preamp, apo_kinds(filters)),
        forall|i: int| 0 <= i < filters.len() ==> !is_preamp_like(#[trigger] filters[i]),
    ensures
        extract_nodes(m.args.filter_graph.nodes@) == Some::<Extracted>(
            (Some(preamp), apo_params(filters)),
        ),
{
    let nodes = m.args.filter_graph.nodes@;
    lemma_extract_apo_prefix(nodes, preamp, filters, filters.len() as int);
    assert(apo_kinds(filters).len() == filters.len());
    if filters.len() > 0 {
        assert(!(apo_kinds(filters)[0] is ParamEq));
    }
    assert(nodes.take(filters.len() as int + 1) =~= nodes);
    assert(filters.take(filters.len() as int) =~= filters);
}

/// A high shelf whose frequency denotes zero (`0`, `0.0`, `-0`, ...) is the
/// preamp, not a band: read after any filters, it sets the preamp to its
/// gain and leaves the bands as they were. Any other filter (of another
/// type, or at a frequency that denotes a number other than zero) is kept
/// as the next band, and the preamp stays as it was.
pub proof fn lemma_zero_shelf_is_preamp(st: Extracted, fs: Seq<ParamEqFilter>, f: ParamEqFilter)
    requires
        is_plain_decimal(f.control.freq@),
    ensures
        f.ty == FilterType::HighShelf && same_value(f.control.freq@, "0"@) ==> extract_params(
            st,
            fs.push(f),
        ) == (Some(f.control.gain), extract_params(st, fs).1),
        !(f.ty == FilterType::HighShelf && same_value(f.control.freq@, "0"@)) ==> extract_params(
            st,
            fs.push(f),
        ) == (extract_params(st, fs).0, extract_params(st, fs).1.push(f)),
{
    lemma_zero_text_denotes_zero(f.control.freq@);
    assert(fs.push(f).drop_last() =~= fs);
    assert(fs.push(f).last() == f);
}

/// The filters of a module whose graph is one `param_eq` node ending in a
/// high shelf at a frequency that denotes zero: the preamp is that shelf's
/// gain, and the bands are the node's other filters read in order.
pub proof fn lemma_param_eq_node_preamp(n: Node, config: ParamEqConfig, fs: Seq<ParamEqFilter>, z: ParamEqFilter)
    requires
        n.kind == (NodeKind::ParamEq { config }),
        config.filters@ == fs.push(z),
        z.ty == FilterType::HighShelf,
        is_plain_decimal(z.control.freq@),
        same_value(z.control.freq@, "0"@),
    ensures
        extract_nodes(seq![n]) == Some::<Extracted>(
            (Some(z.control.gain), extract_params((None, Seq::empty()), fs).1),
        ),
{
    let one = seq![n];
    assert(one.drop_last() =~= Seq::<Node>::empty());
    assert(one.last() == n);
    let st0: Extracted = (None, Seq::empty());
    assert(extract_nodes(one.drop_last()) == Some(st0));
    assert(extract_node(st0, n) == Some(extract_params(st0, config.filters@)));
    lemma_zero_shelf_is_preamp(st0, fs, z);
    assert(extract_nodes(one) == extract_node(st0, n));
}

} // verus!
