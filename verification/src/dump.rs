//! The objects that `pw-dump` lists, reduced to what the equalizer reads:
//! managed equalizer nodes, lookup by name or id, the default sink.
use vstd::prelude::*;

use crate::module::MANAGED_PROP;
use crate::text::{
    chars_eq, chars_of, lines, lines_of, parse_u32, parse_unsigned, split_whitespace,
    strip_suffix_all, trim_end_matches, views, words,
};

verus! {

#[derive(Debug, Clone, Copy, PartialEq, Eq, Structural)]
pub enum PwObjectType {
    Core,
    Module,
    Client,
    SecurityContext,
    Profiler,
    Factory,
    Device,
    Metadata,
    Node,
    Port,
    Link,
}

/// A property value: JSON booleans, strings and integers as such, other
/// numbers as decimal text, anything else opaque.
#[derive(Debug)]
pub enum PropValue {
    Null,
    Bool(bool),
    Int(i64),
    Number(String),
    Str(String),
    Other,
}

/// An object of the `pw-dump` listing with the properties of its info.
#[derive(Debug)]
pub struct PwObject {
    pub id: u32,
    pub object_type: PwObjectType,
    pub props: Vec<(String, PropValue)>,
}

/// An equalizer as `list` shows it.
#[derive(Debug)]
pub struct EqMeta {
    pub id: u32,
    pub name: String,
}

/// A node with the name and serial that routing needs.
#[derive(Debug, Clone)]
pub struct NodeInfo {
    pub node_id: u32,
    pub node_name: String,
    pub object_serial: i64,
}

/// The value of the first property named `key`.
pub open spec fn prop_lookup(props: Seq<(String, PropValue)>, key: Seq<char>) -> Option<PropValue>
    decreases props.len(),
{
    if props.len() == 0 {
        None
    } else if props[0].0@ == key {
        Some(props[0].1)
    } else {
        prop_lookup(props.drop_first(), key)
    }
}

/// The index of the first property named `key`.
pub fn find_prop(props: &Vec<(String, PropValue)>, key: &str) -> (r: Option<usize>)
    ensures
        match r {
            Some(i) => i < props@.len() && prop_lookup(props@, key@) == Some(props@[i as int].1),
            None => prop_lookup(props@, key@) is None,
        },
{
    let kv = chars_of(key);
    let mut i: usize = 0;
    assert(props@.skip(0) =~= props@);
    while i < props.len()
        invariant
            i <= props@.len(),
            kv@ == key@,
            prop_lookup(props@, key@) == prop_lookup(props@.skip(i as int), key@),
        decreases props.len() - i,
    {
        assert(props@.skip(i as int)[0] == props@[i as int]);
        assert(props@.skip(i as int).drop_first() =~= props@.skip(i + 1));
        if chars_eq(&chars_of(props[i].0.as_str()), &kv) {
            return Some(i);
        }
        i += 1;
    }
    None
}

/// Whether the object is an equalizer node that this program manages: its
/// managed property is `true`.
pub open spec fn managed(obj: PwObject) -> bool {
    prop_lookup(obj.props@, MANAGED_PROP@) == Some(PropValue::Bool(true))
}

pub fn is_managed_eq(obj: &PwObject) -> (r: bool)
    ensures
        r == managed(*obj),
{
    match find_prop(&obj.props, MANAGED_PROP) {
        Some(i) => match obj.props[i].1 {
            PropValue::Bool(b) => b,
            _ => false,
        },
        None => false,
    }
}

/// Whether the object is a node of this program's equalizers.
pub open spec fn is_eq_node(obj: PwObject) -> bool {
    obj.object_type == PwObjectType::Node && managed(obj)
}

/// The name an equalizer is listed under: its `media.name` when that is a
/// string, else `Unknown`.
pub open spec fn listed_name(obj: PwObject) -> Seq<char> {
    match prop_lookup(obj.props@, "media.name"@) {
        Some(PropValue::Str(s)) => s@,
        _ => "Unknown"@,
    }
}

/// The equalizers among `objects`, in order.
pub open spec fn eq_list(objects: Seq<PwObject>) -> Seq<(u32, Seq<char>)>
    decreases objects.len(),
{
    if objects.len() == 0 {
        Seq::empty()
    } else {
        let rest = eq_list(objects.drop_last());
        let o = objects.last();
        if is_eq_node(o) {
            rest.push((o.id, listed_name(o)))
        } else {
            rest
        }
    }
}

fn listed_name_of(obj: &PwObject) -> (r: String)
    ensures
        r@ == listed_name(*obj),
{
    match find_prop(&obj.props, "media.name") {
        Some(i) => match &obj.props[i].1 {
            PropValue::Str(s) => s.clone(),
            _ => crate::text::string_of(chars_of("Unknown")),
        },
        None => crate::text::string_of(chars_of("Unknown")),
    }
}

/// The managed equalizer nodes among the listed objects, with their names.
pub fn list_eqs(objects: &Vec<PwObject>) -> (r: Vec<EqMeta>)
    ensures
        r@.map_values(|m: EqMeta| (m.id, m.name@)) == eq_list(objects@),
{
    let mut r: Vec<EqMeta> = Vec::new();
    let mut i: usize = 0;
    assert(objects@.take(0) =~= Seq::<PwObject>::empty());
    assert(r@.map_values(|m: EqMeta| (m.id, m.name@)) =~= eq_list(objects@.take(0)));
    while i < objects.len()
        invariant
            i <= objects@.len(),
            r@.map_values(|m: EqMeta| (m.id, m.name@)) == eq_list(objects@.take(i as int)),
        decreases objects.len() - i,
    {
        assert(objects@.take(i + 1).drop_last() =~= objects@.take(i as int));
        let o = &objects[i];
        if o.object_type == PwObjectType::Node && is_managed_eq(o) {
            let ghost before = r@;
            r.push(EqMeta { id: o.id, name: listed_name_of(o) });
            assert(r@.map_values(|m: EqMeta| (m.id, m.name@)) =~= before.map_values(
                |m: EqMeta| (m.id, m.name@),
            ).push((o.id, listed_name(*o))));
        }
        i += 1;
    }
    assert(objects@.take(objects@.len() as int) =~= objects@);
    r
}

/// Whether `obj` is the equalizer that `profile` names: by id when `profile`
/// parses as one, else by its `media.name`.
pub open spec fn matches_profile(obj: PwObject, profile: Seq<char>) -> bool {
    &&& is_eq_node(obj)
    &&& match parse_unsigned(profile, u32::MAX as nat) {
        Some(id) => obj.id == id,
        None => prop_lookup(obj.props@, "media.name"@) matches Some(PropValue::Str(s)) && s@
            == profile,
    }
}

/// The index of the first equalizer node that `profile` names.
pub fn find_eq_node(objects: &Vec<PwObject>, profile: &str) -> (r: Option<usize>)
    ensures
        match r {
            Some(i) => i < objects@.len() && matches_profile(objects@[i as int], profile@)
                && forall|j: int| 0 <= j < i ==> !matches_profile(#[trigger] objects@[j], profile@),
            None => forall|j: int|
                0 <= j < objects@.len() ==> !matches_profile(#[trigger] objects@[j], profile@),
        },
{
    let pv = chars_of(profile);
    let target = parse_u32(&pv);
    let mut i: usize = 0;
    while i < objects.len()
        invariant
            i <= objects@.len(),
            pv@ == profile@,
            target matches Some(t) ==> parse_unsigned(profile@, u32::MAX as nat) == Some(t as nat),
            target is None ==> parse_unsigned(profile@, u32::MAX as nat) is None,
            forall|j: int| 0 <= j < i ==> !matches_profile(#[trigger] objects@[j], profile@),
        decreases objects.len() - i,
    {
        let o = &objects[i];
        if o.object_type == PwObjectType::Node && is_managed_eq(o) {
            let hit = match target {
                Some(t) => o.id == t,
                None => match find_prop(&o.props, "media.name") {
                    Some(k) => match &o.props[k].1 {
                        PropValue::Str(s) => chars_eq(&chars_of(s.as_str()), &pv),
                        _ => false,
                    },
                    None => false,
                },
            };
            if hit {
                return Some(i);
            }
        }
        i += 1;
    }
    None
}

/// Why the default sink could not be read from `wpctl inspect` output.
#[derive(Debug, Clone, Copy, PartialEq, Eq, Structural)]
pub enum WpctlError {
    EmptyOutput,
    InvalidNodeId,
}

/// The node id on the first line of `wpctl inspect` output, such as
/// `id 123, type PipeWire:Interface:Node`: the second word without its
/// trailing commas.
pub open spec fn wpctl_node_id(out: Seq<char>) -> Result<u32, WpctlError> {
    let ls = lines(out);
    if ls.len() == 0 {
        Err(WpctlError::EmptyOutput)
    } else {
        let ws = words(ls[0]);
        if ws.len() < 2 {
            Err(WpctlError::InvalidNodeId)
        } else {
            match parse_unsigned(strip_suffix_all(ws[1], ","@), u32::MAX as nat) {
                Some(n) => Ok(n as u32),
                None => Err(WpctlError::InvalidNodeId),
            }
        }
    }
}

pub fn parse_wpctl_node_id(out: &str) -> (r: Result<u32, WpctlError>)
    ensures
        r == wpctl_node_id(out@),
{
    let ov = chars_of(out);
    let ls = lines_of(&ov);
    if ls.len() == 0 {
        return Err(WpctlError::EmptyOutput);
    }
    assert(views(ls@)[0] == ls@[0]@);
    let ws = split_whitespace(&ls[0]);
    if ws.len() < 2 {
        return Err(WpctlError::InvalidNodeId);
    }
    assert(views(ws@)[1] == ws@[1]@);
    let trimmed = trim_end_matches(&ws[1], &chars_of(","));
    match parse_u32(&trimmed) {
        Some(n) => Ok(n),
        None => Err(WpctlError::InvalidNodeId),
    }
}

/// Why the default sink node could not be described.
#[derive(Debug, Clone, Copy, PartialEq, Eq, Structural)]
pub enum SinkError {
    NotFound,
    MissingNodeName,
    MissingObjectSerial,
}

/// The description of node `node_id` among `objects`: the first object with
/// that id, its `node.name` string and its `object.serial` integer.
pub open spec fn sink_info(node_id: u32, objects: Seq<PwObject>) -> Result<(Seq<char>, i64), SinkError> {
    if !exists|j: int| 0 <= j < objects.len() && (#[trigger] objects[j]).id == node_id {
        Err(SinkError::NotFound)
    } else {
        let j = choose|j: int|
            0 <= j < objects.len() && (#[trigger] objects[j]).id == node_id && forall|k: int|
                0 <= k < j ==> objects[k].id != node_id;
        let o = objects[j];
        match prop_lookup(o.props@, "node.name"@) {
            Some(PropValue::Str(name)) => match prop_lookup(o.props@, "object.serial"@) {
                Some(PropValue::Int(serial)) => Ok((name@, serial)),
                _ => Err(SinkError::MissingObjectSerial),
            },
            _ => Err(SinkError::MissingNodeName),
        }
    }
}

/// Describes the default sink node `node_id` from the listed objects.
pub fn get_default_audio_sink(node_id: u32, objects: &Vec<PwObject>) -> (r: Result<NodeInfo, SinkError>)
    ensures
        match r {
            Ok(info) => info.node_id == node_id && sink_info(node_id, objects@) == Ok::<
                (Seq<char>, i64),
                SinkError,
            >((info.node_name@, info.object_serial)),
            Err(e) => sink_info(node_id, objects@) == Err::<(Seq<char>, i64), SinkError>(e),
        },
{
    let mut i: usize = 0;
    while i < objects.len()
        invariant
            i <= objects@.len(),
            forall|k: int| 0 <= k < i ==> (#[trigger] objects@[k]).id != node_id,
        decreases objects.len() - i,
    {
        if objects[i].id == node_id {
            let o = &objects[i];
            proof {
                let j = choose|j: int|
                    0 <= j < objects@.len() && (#[trigger] objects@[j]).id == node_id && forall|k: int|
                        0 <= k < j ==> objects@[k].id != node_id;
                assert(0 <= i < objects@.len() && objects@[i as int].id == node_id);
                if j < i {
                } else if j > i {
                    assert(objects@[i as int].id != node_id);
                }
                assert(j == i);
            }
            let name = match find_prop(&o.props, "node.name") {
                Some(k) => match &o.props[k].1 {
                    PropValue::Str(s) => s.clone(),
                    _ => {
                        return Err(SinkError::MissingNodeName);
                    },
                },
                None => {
                    return Err(SinkError::MissingNodeName);
                },
            };
            let serial = match find_prop(&o.props, "object.serial") {
                Some(k) => match &o.props[k].1 {
                    PropValue::Int(n) => *n,
                    _ => {
                        return Err(SinkError::MissingObjectSerial);
                    },
                },
                None => {
                    return Err(SinkError::MissingObjectSerial);
                },
            };
            return Ok(NodeInfo { node_id, node_name: name, object_serial: serial });
        }
        i += 1;
    }
    Err(SinkError::NotFound)
}

} // verus!
