//! Routing of application audio streams: which nodes are streams to route,
//! where each is sent while the equalizer runs, and where each goes back
//! when it stops.
use vstd::prelude::*;

use crate::describe::{int_text, int_to_text};
use crate::text::{chars_of, contains_chars, contains_seq, str_eq, string_of};

verus! {

/// An application's audio output stream and the target it asked for.
#[derive(Debug)]
pub struct AudioStreamInfo {
    pub node_id: u32,
    pub node_name: String,
    pub original_target_object: Option<String>,
}

impl AudioStreamInfo {
    pub fn copy(&self) -> (r: AudioStreamInfo)
        ensures
            r == *self,
    {
        AudioStreamInfo {
            node_id: self.node_id,
            node_name: self.node_name.clone(),
            original_target_object: match &self.original_target_object {
                Some(t) => Some(t.clone()),
                None => None,
            },
        }
    }
}

/// A property to set on the default metadata object: `subject`'s `key`,
/// of type `value_type`, becomes `value`.
#[derive(Debug)]
pub struct RouteCommand {
    pub subject: u32,
    pub key: String,
    pub value_type: String,
    pub value: String,
}

/// The command sends the stream `subject` to the object named `target`.
pub open spec fn routes(r: RouteCommand, subject: u32, target: Seq<char>) -> bool {
    &&& r.subject == subject
    &&& r.key@ == "target.object"@
    &&& r.value_type@ == "Spa:Id"@
    &&& r.value@ == target
}

/// Sets the stream's `target.object` (an `Spa:Id`) to `target`.
pub fn do_route_stream(stream_node: &AudioStreamInfo, target: &str) -> (r: RouteCommand)
    ensures
        routes(r, stream_node.node_id, target@),
{
    RouteCommand {
        subject: stream_node.node_id,
        key: string_of(chars_of("target.object")),
        value_type: string_of(chars_of("Spa:Id")),
        value: string_of(chars_of(target)),
    }
}

/// Whether a metadata object named so is the default one.
pub fn is_default_metadata(name: Option<&str>) -> (r: bool)
    ensures
        r == (name matches Some(n) && n@ == "default"@),
{
    match name {
        Some(n) => str_eq(n, "default"),
        None => false,
    }
}

/// A node is an application stream to route when both its name and media
/// class are known, the class is `Stream/Output/Audio` and the name does
/// not contain `pw-eq` (the equalizer's own streams).
pub open spec fn is_routed_stream(node_name: Option<&str>, media_class: Option<&str>) -> bool {
    &&& node_name is Some
    &&& media_class matches Some(c) && c@ == "Stream/Output/Audio"@
    &&& !contains_seq(node_name.unwrap()@, "pw-eq"@)
}

/// The stream of a node with these properties, if it is one to route.
pub fn detect_audio_stream(
    node_id: u32,
    node_name: Option<&str>,
    media_class: Option<&str>,
    target_object: Option<&str>,
) -> (r: Option<AudioStreamInfo>)
    ensures
        match r {
            Some(s) => {
                &&& is_routed_stream(node_name, media_class)
                &&& s.node_id == node_id
                &&& s.node_name@ == node_name.unwrap()@
                &&& (match target_object {
                    Some(t) => s.original_target_object matches Some(o) && o@ == t@,
                    None => s.original_target_object is None,
                })
            },
            None => !is_routed_stream(node_name, media_class),
        },
{
    let name = match node_name {
        Some(n) => n,
        None => return None,
    };
    let class = match media_class {
        Some(c) => c,
        None => return None,
    };
    if str_eq(class, "Stream/Output/Audio") && !contains_chars(&chars_of(name), &chars_of("pw-eq")) {
        Some(
            AudioStreamInfo {
                node_id,
                node_name: string_of(chars_of(name)),
                original_target_object: match target_object {
                    Some(t) => Some(string_of(chars_of(t))),
                    None => None,
                },
            },
        )
    } else {
        None
    }
}

/// No node is held twice.
pub open spec fn distinct_nodes(ss: Seq<AudioStreamInfo>) -> bool {
    forall|i: int, j: int| 0 <= i < j < ss.len() ==> ss[i].node_id != ss[j].node_id
}

/// The streams after `info` is recorded: it replaces the stream of the same
/// node, or joins the end.
pub open spec fn stored(ss: Seq<AudioStreamInfo>, info: AudioStreamInfo) -> Seq<AudioStreamInfo> {
    if exists|k: int| 0 <= k < ss.len() && ss[k].node_id == info.node_id {
        ss.update(choose|k: int| 0 <= k < ss.len() && ss[k].node_id == info.node_id, info)
    } else {
        ss.push(info)
    }
}

/// The commands send every stream, in order, to `target`.
pub open spec fn routes_all(rs: Seq<RouteCommand>, ss: Seq<AudioStreamInfo>, target: Seq<char>) -> bool {
    &&& rs.len() == ss.len()
    &&& forall|k: int| 0 <= k < rs.len() ==> routes(#[trigger] rs[k], ss[k].node_id, target)
}

/// Where a stream goes back to: the target it asked for, else the default
/// sink (by its serial), else nowhere.
pub open spec fn restore_target(s: AudioStreamInfo, default_sink_serial: Option<i64>) -> Option<
    Seq<char>,
> {
    match s.original_target_object {
        Some(t) => Some(t@),
        None => match default_sink_serial {
            Some(n) => Some(int_text(n as int)),
            None => None,
        },
    }
}

/// The streams that have somewhere to go back to, with that place.
pub open spec fn restorations(ss: Seq<AudioStreamInfo>, default_sink_serial: Option<i64>) -> Seq<
    (u32, Seq<char>),
>
    decreases ss.len(),
{
    if ss.len() == 0 {
        seq![]
    } else {
        let s = ss.last();
        let rest = restorations(ss.drop_last(), default_sink_serial);
        match restore_target(s, default_sink_serial) {
            Some(t) => rest.push((s.node_id, t)),
            None => rest,
        }
    }
}

/// The commands carry out these (stream, target) pairs, in order.
pub open spec fn performs(rs: Seq<RouteCommand>, pairs: Seq<(u32, Seq<char>)>) -> bool {
    &&& rs.len() == pairs.len()
    &&& forall|k: int| 0 <= k < rs.len() ==> routes(#[trigger] rs[k], pairs[k].0, pairs[k].1)
}

/// What stream routing remembers: the serial of the default sink when the
/// editor started, whether the default metadata object is bound, the
/// serial of the equalizer's node once it is active, and the streams seen.
pub struct Router {
    pub default_sink_serial: Option<i64>,
    pub metadata_bound: bool,
    pub active_serial: Option<i64>,
    pub streams: Vec<AudioStreamInfo>,
}

impl Router {
    pub open spec fn wf(&self) -> bool {
        distinct_nodes(self.streams@)
    }

    pub fn new(default_sink_serial: Option<i64>) -> (r: Router)
        ensures
            r.wf(),
            r.default_sink_serial == default_sink_serial,
            !r.metadata_bound,
            r.active_serial is None,
            r.streams@.len() == 0,
    {
        Router { default_sink_serial, metadata_bound: false, active_serial: None, streams: Vec::new() }
    }

    /// The default metadata object is bound: routing can start.
    pub fn bind_metadata(&mut self)
        requires
            old(self).wf(),
        ensures
            final(self).wf(),
            final(self).metadata_bound,
            final(self).default_sink_serial == old(self).default_sink_serial,
            final(self).active_serial == old(self).active_serial,
            final(self).streams == old(self).streams,
    {
        self.metadata_bound = true;
    }

    /// A stream appeared: it is recorded, and sent to the equalizer when
    /// the metadata is bound and the equalizer is active.
    pub fn on_stream(&mut self, info: AudioStreamInfo) -> (r: Vec<RouteCommand>)
        requires
            old(self).wf(),
        ensures
            final(self).wf(),
            final(self).streams@ == stored(old(self).streams@, info),
            final(self).default_sink_serial == old(self).default_sink_serial,
            final(self).metadata_bound == old(self).metadata_bound,
            final(self).active_serial == old(self).active_serial,
            (old(self).metadata_bound && old(self).active_serial is Some) ==> (r@.len() == 1
                && routes(r@[0], info.node_id, int_text(old(self).active_serial.unwrap() as int))),
            !(old(self).metadata_bound && old(self).active_serial is Some) ==> r@.len() == 0,
    {
        let ghost ss = self.streams@;
        let mut k: usize = 0;
        while k < self.streams.len() && self.streams[k].node_id != info.node_id
            invariant
                self.streams@ == ss,
                k <= ss.len(),
                forall|m: int| 0 <= m < k ==> ss[m].node_id != info.node_id,
            decreases self.streams.len() - k,
        {
            k += 1;
        }
        let found = k < self.streams.len();
        let mut r: Vec<RouteCommand> = Vec::new();
        if self.metadata_bound {
            if let Some(serial) = self.active_serial {
                let target = string_of(int_to_text(serial));
                r.push(do_route_stream(&info, target.as_str()));
            }
        }
        if found {
            proof {
                let c = choose|m: int| 0 <= m < ss.len() && ss[m].node_id == info.node_id;
                assert(0 <= k < ss.len() && ss[k as int].node_id == info.node_id);
                assert(c == k) by {
                    if c != k {
                        if c < k {
                            assert(ss[c].node_id != info.node_id);
                        } else {
                            assert(ss[k as int].node_id != ss[c].node_id);
                        }
                    }
                }
            }
            self.streams.set(k, info);
        } else {
            self.streams.push(info);
        }
        assert(distinct_nodes(self.streams@)) by {
            assert forall|i: int, j: int| 0 <= i < j < self.streams@.len() implies self.streams@[i].node_id
                != self.streams@[j].node_id by {
                if found {
                    if i != k && j != k {
                        assert(ss[i].node_id != ss[j].node_id);
                    }
                } else {
                    if j < ss.len() {
                        assert(ss[i].node_id != ss[j].node_id);
                    }
                }
            }
        }
        r
    }

    /// The equalizer's node became active: every stream seen is sent to
    /// it, when the metadata is bound.
    pub fn set_active_node(&mut self, serial: i64) -> (r: Vec<RouteCommand>)
        requires
            old(self).wf(),
        ensures
            final(self).wf(),
            final(self).active_serial == Some(serial),
            final(self).default_sink_serial == old(self).default_sink_serial,
            final(self).metadata_bound == old(self).metadata_bound,
            final(self).streams == old(self).streams,
            old(self).metadata_bound ==> routes_all(r@, old(self).streams@, int_text(serial as int)),
            !old(self).metadata_bound ==> r@.len() == 0,
    {
        self.active_serial = Some(serial);
        let mut r: Vec<RouteCommand> = Vec::new();
        if !self.metadata_bound {
            return r;
        }
        let target = string_of(int_to_text(serial));
        let mut k: usize = 0;
        while k < self.streams.len()
            invariant
                k <= self.streams@.len(),
                target@ == int_text(serial as int),
                routes_all(r@, self.streams@.take(k as int), target@),
            decreases self.streams.len() - k,
        {
            r.push(do_route_stream(&self.streams[k], target.as_str()));
            k += 1;
        }
        assert(self.streams@.take(self.streams@.len() as int) =~= self.streams@);
        r
    }

    /// The editor stops: every stream goes back where it asked to play, or
    /// to the default sink, when the metadata is bound.
    pub fn cleanup(&self) -> (r: Vec<RouteCommand>)
        requires
            self.wf(),
        ensures
            self.metadata_bound ==> performs(r@, restorations(self.streams@, self.default_sink_serial)),
            !self.metadata_bound ==> r@.len() == 0,
    {
        let mut r: Vec<RouteCommand> = Vec::new();
        if !self.metadata_bound {
            return r;
        }
        let sink: Option<String> = match self.default_sink_serial {
            Some(n) => Some(string_of(int_to_text(n))),
            None => None,
        };
        let mut k: usize = 0;
        while k < self.streams.len()
            invariant
                k <= self.streams@.len(),
                match sink {
                    Some(t) => self.default_sink_serial matches Some(n) && t@ == int_text(n as int),
                    None => self.default_sink_serial is None,
                },
                performs(r@, restorations(self.streams@.take(k as int), self.default_sink_serial)),
            decreases self.streams.len() - k,
        {
            let s = &self.streams[k];
            assert(self.streams@.take(k + 1).drop_last() =~= self.streams@.take(k as int));
            assert(self.streams@.take(k + 1).last() == self.streams@[k as int]);
            match &s.original_target_object {
                Some(t) => {
                    r.push(do_route_stream(s, t.as_str()));
                },
                None => match &sink {
                    Some(t) => {
                        r.push(do_route_stream(s, t.as_str()));
                    },
                    None => {},
                },
            }
            k += 1;
        }
        assert(self.streams@.take(self.streams@.len() as int) =~= self.streams@);
        r
    }
}

/// What the PipeWire side reports to the editor.
#[derive(Debug)]
pub enum Notif {
    /// A filter-chain module is loaded (or one for as many bands was
    /// reused) for the equalizer named `media_name`.
    ModuleLoaded { id: u32, name: String, media_name: String, reused: bool },
    /// Something failed; the message says what.
    Error(String),
}


/// The module id of the first chain in the cache loaded for `nodes` nodes.
pub open spec fn cached_module(entries: Seq<(usize, u32)>, nodes: usize) -> Option<u32>
    decreases entries.len(),
{
    if entries.len() == 0 {
        None
    } else {
        match cached_module(entries.drop_last(), nodes) {
            Some(id) => Some(id),
            None => if entries.last().0 == nodes {
                Some(entries.last().1)
            } else {
                None
            },
        }
    }
}

proof fn lemma_cached_none(entries: Seq<(usize, u32)>, nodes: usize)
    requires
        forall|j: int| 0 <= j < entries.len() ==> (#[trigger] entries[j]).0 != nodes,
    ensures
        cached_module(entries, nodes) is None,
    decreases entries.len(),
{
    if entries.len() > 0 {
        let d = entries.drop_last();
        assert forall|j: int| 0 <= j < d.len() implies (#[trigger] d[j]).0 != nodes by {
            assert(d[j] == entries[j]);
        }
        lemma_cached_none(d, nodes);
        assert(entries[entries.len() - 1] == entries.last());
    }
}

proof fn lemma_cached_first(entries: Seq<(usize, u32)>, nodes: usize, k: int)
    requires
        0 <= k < entries.len(),
        entries[k].0 == nodes,
        forall|j: int| 0 <= j < k ==> (#[trigger] entries[j]).0 != nodes,
    ensures
        cached_module(entries, nodes) == Some(entries[k].1),
    decreases entries.len(),
{
    let d = entries.drop_last();
    if k < entries.len() - 1 {
        assert(d[k] == entries[k]);
        assert forall|j: int| 0 <= j < k implies (#[trigger] d[j]).0 != nodes by {
            assert(d[j] == entries[j]);
        }
        lemma_cached_first(d, nodes, k);
    } else {
        assert forall|j: int| 0 <= j < d.len() implies (#[trigger] d[j]).0 != nodes by {
            assert(d[j] == entries[j]);
        }
        lemma_cached_none(d, nodes);
    }
}

/// The cache after a sequence of load requests, each with the node count
/// asked for and, for a request that loads, the id of the loaded module
/// (`None` when loading failed): a request whose count is cached loads
/// nothing; one that loads adds its module, unless loading failed.
pub open spec fn served(entries: Seq<(usize, u32)>, reqs: Seq<(usize, Option<u32>)>) -> Seq<
    (usize, u32),
>
    decreases reqs.len(),
{
    if reqs.len() == 0 {
        entries
    } else {
        let e = served(entries, reqs.drop_last());
        let req = reqs.last();
        if cached_module(e, req.0) is Some {
            e
        } else {
            match req.1 {
                Some(id) => e.push((req.0, id)),
                None => e,
            }
        }
    }
}

/// The module of the first request for `nodes` nodes that loaded one.
pub open spec fn first_loaded(reqs: Seq<(usize, Option<u32>)>, nodes: usize) -> Option<u32>
    decreases reqs.len(),
{
    if reqs.len() == 0 {
        None
    } else {
        match first_loaded(reqs.drop_last(), nodes) {
            Some(id) => Some(id),
            None => if reqs.last().0 == nodes {
                reqs.last().1
            } else {
                None
            },
        }
    }
}

/// Serving load requests one after another: a node count is loaded once.
/// After any sequence of requests, the chain kept for a node count is the
/// one cached before, or else the one the first successful load for that
/// count gave; so a request reuses a chain exactly when an earlier request
/// (or the cache it started from) loaded one for its count, and reuses that
/// chain.
pub proof fn lemma_served_loads_once(
    entries: Seq<(usize, u32)>,
    reqs: Seq<(usize, Option<u32>)>,
    nodes: usize,
)
    ensures
        cached_module(served(entries, reqs), nodes) == match cached_module(entries, nodes) {
            Some(id) => Some(id),
            None => first_loaded(reqs, nodes),
        },
    decreases reqs.len(),
{
    if reqs.len() > 0 {
        let d = reqs.drop_last();
        lemma_served_loads_once(entries, d, nodes);
        let e = served(entries, d);
        let req = reqs.last();
        if cached_module(e, req.0) is None {
            if let Some(id) = req.1 {
                let p = e.push((req.0, id));
                assert(p.drop_last() =~= e);
                assert(p.last() == (req.0, id));
                lemma_served_loads_once(entries, d, req.0);
            }
        }
    }
}

/// What to do with a request to load a filter chain whose graph has a given
/// number of nodes: a loaded chain cannot change its number of filters, so
/// one loaded for that many nodes is reused; otherwise a new one is loaded.
#[derive(Debug, Clone, Copy, PartialEq, Eq, Structural)]
pub enum LoadStep {
    /// Reuse the chain at this position of the cache, with this module id.
    Reuse { index: usize, id: u32 },
    Load,
}

/// The first cached chain loaded for `nodes` nodes, among the
/// `(node count, module id)` pairs of the cache; else a new load.
pub fn load_step(cached: &Vec<(usize, u32)>, nodes: usize) -> (r: LoadStep)
    ensures
        match r {
            LoadStep::Reuse { id, .. } => cached_module(cached@, nodes) == Some(id),
            LoadStep::Load => cached_module(cached@, nodes) is None,
        },
        match r {
            LoadStep::Reuse { index, id } => {
                &&& index < cached@.len()
                &&& cached@[index as int].0 == nodes
                &&& cached@[index as int].1 == id
                &&& forall|j: int| 0 <= j < index ==> (#[trigger] cached@[j]).0 != nodes
            },
            LoadStep::Load => forall|j: int| 0 <= j < cached@.len() ==> (#[trigger] cached@[j]).0 != nodes,
        },
{
    let mut i: usize = 0;
    while i < cached.len()
        invariant
            i <= cached@.len(),
            forall|j: int| 0 <= j < i ==> (#[trigger] cached@[j]).0 != nodes,
        decreases cached.len() - i,
    {
        if cached[i].0 == nodes {
            proof {
                lemma_cached_first(cached@, nodes, i as int);
            }
            return LoadStep::Reuse { index: i, id: cached[i].1 };
        }
        i += 1;
    }
    proof {
        lemma_cached_none(cached@, nodes);
    }
    LoadStep::Load
}

} // verus!
