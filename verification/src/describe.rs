//! Reading the band parameters of a running equalizer node back from the
//! `Props` parameters that `pw-dump` lists for it.
use vstd::prelude::*;

use crate::dump::PropValue;
use crate::filter_id::{filter_id_of, FilterId, FilterIdError};
use crate::module::FILTER_PREFIX;
use crate::text::{
    append_chars, chars_eq_str, chars_of, decimal, decimal_chars, has_prefix, slice_chars,
    starts_with, string_of,
};

verus! {

/// A parameter of a band.
#[derive(Debug, Clone, Copy, PartialEq, Eq, Structural)]
pub enum FilterParam {
    Freq,
    Gain,
    Q,
    A0,
    A1,
    A2,
    B0,
    B1,
    B2,
}

/// The parameters found for one band, each as decimal text.
#[derive(Debug)]
pub struct FilterInfo {
    pub freq: Option<String>,
    pub gain: Option<String>,
    pub q: Option<String>,
    pub a0: Option<String>,
    pub a1: Option<String>,
    pub a2: Option<String>,
    pub b0: Option<String>,
    pub b1: Option<String>,
    pub b2: Option<String>,
}

pub ghost struct InfoModel {
    pub freq: Option<Seq<char>>,
    pub gain: Option<Seq<char>>,
    pub q: Option<Seq<char>>,
    pub a0: Option<Seq<char>>,
    pub a1: Option<Seq<char>>,
    pub a2: Option<Seq<char>>,
    pub b0: Option<Seq<char>>,
    pub b1: Option<Seq<char>>,
    pub b2: Option<Seq<char>>,
}

pub open spec fn opt_view(o: Option<String>) -> Option<Seq<char>> {
    match o {
        Some(s) => Some(s@),
        None => None,
    }
}

impl View for FilterInfo {
    type V = InfoModel;

    open spec fn view(&self) -> InfoModel {
        InfoModel {
            freq: opt_view(self.freq),
            gain: opt_view(self.gain),
            q: opt_view(self.q),
            a0: opt_view(self.a0),
            a1: opt_view(self.a1),
            a2: opt_view(self.a2),
            b0: opt_view(self.b0),
            b1: opt_view(self.b1),
            b2: opt_view(self.b2),
        }
    }
}

/// Why the parameters could not be read.
#[derive(Debug, Clone, PartialEq, Eq)]
pub enum DescribeError {
    /// The band in a parameter name (the whole name is given) is not valid.
    InvalidFilterId(String, FilterIdError),
    /// The value of a parameter (its name is given) is not a number.
    InvalidValue(String),
    /// A parameter name this program does not set.
    UnknownParam(String),
}

pub ghost enum DescribeErrorModel {
    InvalidFilterId(Seq<char>, FilterIdError),
    InvalidValue(Seq<char>),
    UnknownParam(Seq<char>),
}

impl View for DescribeError {
    type V = DescribeErrorModel;

    open spec fn view(&self) -> DescribeErrorModel {
        match self {
            DescribeError::InvalidFilterId(k, e) => DescribeErrorModel::InvalidFilterId(k@, *e),
            DescribeError::InvalidValue(k) => DescribeErrorModel::InvalidValue(k@),
            DescribeError::UnknownParam(n) => DescribeErrorModel::UnknownParam(n@),
        }
    }
}

/// The first position of `c` in `s`.
pub open spec fn first_index(s: Seq<char>, c: char) -> Option<int>
    decreases s.len(),
{
    if s.len() == 0 {
        None
    } else if s[0] == c {
        Some(0)
    } else {
        match first_index(s.drop_first(), c) {
            Some(i) => Some(i + 1),
            None => None,
        }
    }
}

/// Band text and parameter name of a parameter key `pweq.filter_<band>:<name>`;
/// `None` for keys of other parameters.
pub open spec fn key_parts(key: Seq<char>) -> Option<(Seq<char>, Seq<char>)> {
    if starts_with(key, FILTER_PREFIX@) {
        let rest = key.skip(FILTER_PREFIX@.len() as int);
        match first_index(rest, ':') {
            Some(i) => Some((rest.take(i), rest.skip(i + 1))),
            None => None,
        }
    } else {
        None
    }
}

/// The parameter a name stands for.
pub open spec fn param_of(name: Seq<char>) -> Option<FilterParam> {
    if name == "Freq"@ {
        Some(FilterParam::Freq)
    } else if name == "Gain"@ {
        Some(FilterParam::Gain)
    } else if name == "Q"@ {
        Some(FilterParam::Q)
    } else if name == "a0"@ {
        Some(FilterParam::A0)
    } else if name == "a1"@ {
        Some(FilterParam::A1)
    } else if name == "a2"@ {
        Some(FilterParam::A2)
    } else if name == "b0"@ {
        Some(FilterParam::B0)
    } else if name == "b1"@ {
        Some(FilterParam::B1)
    } else if name == "b2"@ {
        Some(FilterParam::B2)
    } else {
        None
    }
}

/// The decimal text of a signed integer.
pub open spec fn int_text(n: int) -> Seq<char> {
    if n < 0 {
        "-"@ + decimal((-n) as nat)
    } else {
        decimal(n as nat)
    }
}

/// The text of a numeric value.
pub open spec fn value_text(v: PropValue) -> Option<Seq<char>> {
    match v {
        PropValue::Int(n) => Some(int_text(n as int)),
        PropValue::Number(t) => Some(t@),
        _ => None,
    }
}

pub open spec fn empty_info() -> InfoModel {
    InfoModel {
        freq: None,
        gain: None,
        q: None,
        a0: None,
        a1: None,
        a2: None,
        b0: None,
        b1: None,
        b2: None,
    }
}

pub open spec fn set_param(i: InfoModel, p: FilterParam, t: Seq<char>) -> InfoModel {
    match p {
        FilterParam::Freq => InfoModel { freq: Some(t), ..i },
        FilterParam::Gain => InfoModel { gain: Some(t), ..i },
        FilterParam::Q => InfoModel { q: Some(t), ..i },
        FilterParam::A0 => InfoModel { a0: Some(t), ..i },
        FilterParam::A1 => InfoModel { a1: Some(t), ..i },
        FilterParam::A2 => InfoModel { a2: Some(t), ..i },
        FilterParam::B0 => InfoModel { b0: Some(t), ..i },
        FilterParam::B1 => InfoModel { b1: Some(t), ..i },
        FilterParam::B2 => InfoModel { b2: Some(t), ..i },
    }
}

/// The order of bands: the preamp first, then filters by index.
pub open spec fn id_lt(a: FilterId, b: FilterId) -> bool {
    match (a, b) {
        (FilterId::Preamp, FilterId::Index(_)) => true,
        (FilterId::Index(x), FilterId::Index(y)) => x < y,
        _ => false,
    }
}

/// Sets parameter `p` of band `id` in a list of bands ordered by band.
pub open spec fn upsert(s: Seq<(FilterId, InfoModel)>, id: FilterId, p: FilterParam, t: Seq<char>) -> Seq<(FilterId, InfoModel)>
    decreases s.len(),
{
    if s.len() == 0 {
        seq![(id, set_param(empty_info(), p, t))]
    } else if s[0].0 == id {
        s.update(0, (id, set_param(s[0].1, p, t)))
    } else if id_lt(id, s[0].0) {
        seq![(id, set_param(empty_info(), p, t))] + s
    } else {
        seq![s[0]] + upsert(s.drop_first(), id, p, t)
    }
}

/// The bands after one more parameter.
pub open spec fn describe_entry(st: Seq<(FilterId, InfoModel)>, key: Seq<char>, value: PropValue) -> Result<Seq<(FilterId, InfoModel)>, DescribeErrorModel> {
    match key_parts(key) {
        None => Ok(st),
        Some((id_text, name)) => match filter_id_of(id_text) {
            Err(e) => Err(DescribeErrorModel::InvalidFilterId(key, e)),
            Ok(id) => match value_text(value) {
                None => Err(DescribeErrorModel::InvalidValue(key)),
                Some(t) => match param_of(name) {
                    None => Err(DescribeErrorModel::UnknownParam(name)),
                    Some(p) => Ok(upsert(st, id, p, t)),
                },
            },
        },
    }
}

/// The bands after the parameters of one `Props` object, in order.
pub open spec fn describe_params(st: Seq<(FilterId, InfoModel)>, ps: Seq<(String, PropValue)>) -> Result<Seq<(FilterId, InfoModel)>, DescribeErrorModel>
    decreases ps.len(),
{
    if ps.len() == 0 {
        Ok(st)
    } else {
        match describe_params(st, ps.drop_last()) {
            Err(e) => Err(e),
            Ok(st2) => describe_entry(st2, ps.last().0@, ps.last().1),
        }
    }
}

/// The bands of the first `Props` object that names any, in band order.
pub open spec fn describe_props(props: Seq<Seq<(String, PropValue)>>) -> Result<Seq<(FilterId, InfoModel)>, DescribeErrorModel>
    decreases props.len(),
{
    if props.len() == 0 {
        Ok(Seq::empty())
    } else {
        match describe_params(Seq::empty(), props[0]) {
            Err(e) => Err(e),
            Ok(st) => if st.len() > 0 {
                Ok(st)
            } else {
                describe_props(props.drop_first())
            },
        }
    }
}


/// The bands with their parameter models.
pub open spec fn bands_view(s: Seq<(FilterId, FilterInfo)>) -> Seq<(FilterId, InfoModel)> {
    s.map_values(|e: (FilterId, FilterInfo)| (e.0, e.1@))
}

fn first_index_of(v: &Vec<char>, c: char) -> (r: Option<usize>)
    ensures
        match r {
            Some(i) => first_index(v@, c) == Some(i as int) && i < v@.len(),
            None => first_index(v@, c) is None,
        },
{
    let mut i: usize = 0;
    assert(v@.skip(0) =~= v@);
    while i < v.len()
        invariant
            i <= v@.len(),
            forall|k: int| 0 <= k < i ==> v@[k] != c,
            first_index(v@, c) == match first_index(v@.skip(i as int), c) {
                Some(j) => Some(j + i),
                None => None::<int>,
            },
        decreases v.len() - i,
    {
        assert(v@.skip(i as int).drop_first() =~= v@.skip(i + 1));
        if v[i] == c {
            return Some(i);
        }
        i += 1;
    }
    None
}

fn split_key(key: &Vec<char>) -> (r: Option<(Vec<char>, Vec<char>)>)
    ensures
        match r {
            Some(p) => key_parts(key@) == Some((p.0@, p.1@)),
            None => key_parts(key@) is None,
        },
{
    let prefix = chars_of(FILTER_PREFIX);
    if !has_prefix(key, &prefix) {
        return None;
    }
    let rest = slice_chars(key, prefix.len(), key.len());
    assert(rest@ =~= key@.skip(FILTER_PREFIX@.len() as int));
    match first_index_of(&rest, ':') {
        None => None,
        Some(i) => {
            let a = slice_chars(&rest, 0, i);
            let b = slice_chars(&rest, i + 1, rest.len());
            assert(a@ =~= rest@.take(i as int));
            assert(b@ =~= rest@.skip(i + 1));
            Some((a, b))
        },
    }
}

fn param_from(name: &Vec<char>) -> (r: Option<FilterParam>)
    ensures
        r == param_of(name@),
{
    if chars_eq_str(name, "Freq") {
        Some(FilterParam::Freq)
    } else if chars_eq_str(name, "Gain") {
        Some(FilterParam::Gain)
    } else if chars_eq_str(name, "Q") {
        Some(FilterParam::Q)
    } else if chars_eq_str(name, "a0") {
        Some(FilterParam::A0)
    } else if chars_eq_str(name, "a1") {
        Some(FilterParam::A1)
    } else if chars_eq_str(name, "a2") {
        Some(FilterParam::A2)
    } else if chars_eq_str(name, "b0") {
        Some(FilterParam::B0)
    } else if chars_eq_str(name, "b1") {
        Some(FilterParam::B1)
    } else if chars_eq_str(name, "b2") {
        Some(FilterParam::B2)
    } else {
        None
    }
}

/// The decimal text of a signed integer.
pub fn int_to_text(n: i64) -> (r: Vec<char>)
    ensures
        r@ == int_text(n as int),
{
    if n < 0 {
        let m: u64 = (-(n as i128)) as u64;
        let mut r = chars_of("-");
        append_chars(&mut r, &decimal_chars(m));
        r
    } else {
        decimal_chars(n as u64)
    }
}

fn value_text_of(v: &PropValue) -> (r: Option<Vec<char>>)
    ensures
        match r {
            Some(t) => value_text(*v) == Some(t@),
            None => value_text(*v) is None,
        },
{
    match v {
        PropValue::Int(n) => Some(int_to_text(*n)),
        PropValue::Number(t) => Some(chars_of(t.as_str())),
        _ => None,
    }
}

fn empty_filter_info() -> (r: FilterInfo)
    ensures
        r@ == empty_info(),
{
    FilterInfo {
        freq: None,
        gain: None,
        q: None,
        a0: None,
        a1: None,
        a2: None,
        b0: None,
        b1: None,
        b2: None,
    }
}

fn set_info(info: FilterInfo, p: FilterParam, t: String) -> (r: FilterInfo)
    ensures
        r@ == set_param(info@, p, t@),
{
    match p {
        FilterParam::Freq => FilterInfo { freq: Some(t), ..info },
        FilterParam::Gain => FilterInfo { gain: Some(t), ..info },
        FilterParam::Q => FilterInfo { q: Some(t), ..info },
        FilterParam::A0 => FilterInfo { a0: Some(t), ..info },
        FilterParam::A1 => FilterInfo { a1: Some(t), ..info },
        FilterParam::A2 => FilterInfo { a2: Some(t), ..info },
        FilterParam::B0 => FilterInfo { b0: Some(t), ..info },
        FilterParam::B1 => FilterInfo { b1: Some(t), ..info },
        FilterParam::B2 => FilterInfo { b2: Some(t), ..info },
    }
}

fn id_less(a: FilterId, b: FilterId) -> (r: bool)
    ensures
        r == id_lt(a, b),
{
    match (a, b) {
        (FilterId::Preamp, FilterId::Index(_)) => true,
        (FilterId::Index(x), FilterId::Index(y)) => x < y,
        _ => false,
    }
}

proof fn lemma_upsert_skip(s: Seq<(FilterId, InfoModel)>, id: FilterId, p: FilterParam, t: Seq<char>, pos: int)
    requires
        0 <= pos <= s.len(),
        forall|k: int| 0 <= k < pos ==> id_lt(#[trigger] s[k].0, id),
    ensures
        upsert(s, id, p, t) == s.take(pos) + upsert(s.skip(pos), id, p, t),
    decreases pos,
{
    if pos == 0 {
        assert(s.skip(0) =~= s);
        assert(s.take(0) + upsert(s, id, p, t) =~= upsert(s, id, p, t));
    } else {
        assert(id_lt(s[0].0, id));
        assert(s[0].0 != id);
        assert(!id_lt(id, s[0].0));
        lemma_upsert_skip(s.drop_first(), id, p, t, pos - 1);
        assert(s.drop_first().skip(pos - 1) =~= s.skip(pos));
        assert(seq![s[0]] + s.drop_first().take(pos - 1) =~= s.take(pos));
    }
}

fn upsert_band(list: &mut Vec<(FilterId, FilterInfo)>, id: FilterId, p: FilterParam, t: String)
    ensures
        bands_view(final(list)@) == upsert(bands_view(old(list)@), id, p, t@),
{
    let ghost sv = bands_view(list@);
    let mut pos: usize = 0;
    while pos < list.len() && id_less(list[pos].0, id)
        invariant
            pos <= list@.len(),
            sv == bands_view(list@),
            forall|k: int| 0 <= k < pos ==> id_lt(#[trigger] sv[k].0, id),
        decreases list.len() - pos,
    {
        pos += 1;
    }
    proof {
        lemma_upsert_skip(sv, id, p, t@, pos as int);
    }
    if pos < list.len() && list[pos].0 == id {
        let (old_id, info) = list.remove(pos);
        let updated = set_info(info, p, t);
        list.insert(pos, (old_id, updated));
        assert(sv.skip(pos as int)[0] == sv[pos as int]);
        assert(bands_view(list@) =~= sv.take(pos as int) + upsert(sv.skip(pos as int), id, p, t@));
    } else {
        let info = set_info(empty_filter_info(), p, t);
        list.insert(pos, (id, info));
        proof {
            if pos < sv.len() {
                assert(sv.skip(pos as int)[0] == sv[pos as int]);
                assert(sv[pos as int].0 != id);
                assert(!id_lt(sv[pos as int].0, id));
                assert(id_lt(id, sv[pos as int].0));
            } else {
                assert(sv.skip(pos as int) =~= Seq::<(FilterId, InfoModel)>::empty());
            }
        }
        assert(bands_view(list@) =~= sv.take(pos as int) + upsert(sv.skip(pos as int), id, p, t@));
    }
}

fn describe_one(list: &mut Vec<(FilterId, FilterInfo)>, key: &String, value: &PropValue) -> (r: Result<(), DescribeError>)
    ensures
        match r {
            Ok(_) => describe_entry(bands_view(old(list)@), key@, *value) == Ok::<
                Seq<(FilterId, InfoModel)>,
                DescribeErrorModel,
            >(bands_view(final(list)@)),
            Err(e) => describe_entry(bands_view(old(list)@), key@, *value) == Err::<
                Seq<(FilterId, InfoModel)>,
                DescribeErrorModel,
            >(e@),
        },
{
    let kv = chars_of(key.as_str());
    match split_key(&kv) {
        None => Ok(()),
        Some((id_text, name)) => match FilterId::from_str(string_of(id_text).as_str()) {
            Err(e) => Err(DescribeError::InvalidFilterId(key.clone(), e)),
            Ok(id) => match value_text_of(value) {
                None => Err(DescribeError::InvalidValue(key.clone())),
                Some(t) => match param_from(&name) {
                    None => Err(DescribeError::UnknownParam(string_of(name))),
                    Some(p) => {
                        upsert_band(list, id, p, string_of(t));
                        Ok(())
                    },
                },
            },
        },
    }
}

/// The bands named by the first `Props` object that names any, each with the
/// parameters found for it, in band order.
pub fn describe_filters(props: &Vec<Vec<(String, PropValue)>>) -> (r: Result<Vec<(FilterId, FilterInfo)>, DescribeError>)
    ensures
        match r {
            Ok(list) => describe_props(props@.map_values(|ps: Vec<(String, PropValue)>| ps@)) == Ok::<
                Seq<(FilterId, InfoModel)>,
                DescribeErrorModel,
            >(bands_view(list@)),
            Err(e) => describe_props(props@.map_values(|ps: Vec<(String, PropValue)>| ps@)) == Err::<
                Seq<(FilterId, InfoModel)>,
                DescribeErrorModel,
            >(e@),
        },
{
    let ghost pv = props@.map_values(|ps: Vec<(String, PropValue)>| ps@);
    let mut i: usize = 0;
    assert(pv.skip(0) =~= pv);
    while i < props.len()
        invariant
            i <= props@.len(),
            pv == props@.map_values(|ps: Vec<(String, PropValue)>| ps@),
            describe_props(pv) == describe_props(pv.skip(i as int)),
        decreases props.len() - i,
    {
        let ps = &props[i];
        let mut list: Vec<(FilterId, FilterInfo)> = Vec::new();
        let mut j: usize = 0;
        assert(ps@.take(0) =~= Seq::<(String, PropValue)>::empty());
        assert(bands_view(list@) =~= Seq::<(FilterId, InfoModel)>::empty());
        while j < ps.len()
            invariant
                j <= ps@.len(),
                i < props@.len(),
                *ps == props@[i as int],
                pv == props@.map_values(|ps: Vec<(String, PropValue)>| ps@),
                describe_props(pv) == describe_props(pv.skip(i as int)),
                describe_params(Seq::empty(), ps@.take(j as int)) == Ok::<
                    Seq<(FilterId, InfoModel)>,
                    DescribeErrorModel,
                >(bands_view(list@)),
            decreases ps.len() - j,
        {
            assert(ps@.take(j + 1).drop_last() =~= ps@.take(j as int));
            match describe_one(&mut list, &ps[j].0, &ps[j].1) {
                Ok(()) => {},
                Err(e) => {
                    proof {
                        lemma_describe_params_err(ps@, j + 1);
                        assert(pv.skip(i as int)[0] == ps@);
                    }
                    return Err(e);
                },
            }
            j += 1;
        }
        assert(ps@.take(ps@.len() as int) =~= ps@);
        assert(pv.skip(i as int)[0] == ps@);
        assert(pv.skip(i as int).drop_first() =~= pv.skip(i + 1));
        if list.len() > 0 {
            return Ok(list);
        }
        i += 1;
    }
    assert(pv.skip(i as int) =~= Seq::<Seq<(String, PropValue)>>::empty());
    let r: Vec<(FilterId, FilterInfo)> = Vec::new();
    assert(bands_view(r@) =~= Seq::<(FilterId, InfoModel)>::empty());
    Ok(r)
}

proof fn lemma_describe_params_err(ps: Seq<(String, PropValue)>, j: int)
    requires
        0 <= j <= ps.len(),
        describe_params(Seq::empty(), ps.take(j)) is Err,
    ensures
        describe_params(Seq::empty(), ps) == describe_params(Seq::empty(), ps.take(j)),
    decreases ps.len(),
{
    if j < ps.len() {
        assert(ps.drop_last().take(j) =~= ps.take(j));
        lemma_describe_params_err(ps.drop_last(), j);
    } else {
        assert(ps.take(j) =~= ps);
    }
}

/// The first of frequency, gain and Q that a band lacks, if any.
pub fn first_missing(info: &FilterInfo) -> (r: Option<FilterParam>)
    ensures
        r == (if info.freq is None {
            Some(FilterParam::Freq)
        } else if info.gain is None {
            Some(FilterParam::Gain)
        } else if info.q is None {
            Some(FilterParam::Q)
        } else {
            None
        }),
{
    if info.freq.is_none() {
        Some(FilterParam::Freq)
    } else if info.gain.is_none() {
        Some(FilterParam::Gain)
    } else if info.q.is_none() {
        Some(FilterParam::Q)
    } else {
        None
    }
}

proof fn lemma_upsert_single(id: FilterId, before: InfoModel, p: FilterParam, t: Seq<char>)
    ensures
        upsert(seq![(id, before)], id, p, t) == seq![(id, set_param(before, p, t))],
{
    assert(seq![(id, before)].update(0, (id, set_param(before, p, t))) =~= seq![
        (id, set_param(before, p, t)),
    ]);
}

/// A parameter `pweq.filter_<band>:<name>` is stored in the field of that
/// band called `<name>`: for each of `Freq`, `Gain`, `Q`, `a0`, `a1`, `a2`,
/// `b0`, `b1` and `b2`, the band holds the value in that field and keeps its
/// other fields; a band not seen before starts with that field alone. Any
/// other name is refused.
pub proof fn lemma_value_lands_in_named_field(
    key: Seq<char>,
    id_text: Seq<char>,
    name: Seq<char>,
    id: FilterId,
    t: String,
    before: InfoModel,
)
    requires
        key_parts(key) == Some((id_text, name)),
        filter_id_of(id_text) == Ok::<FilterId, FilterIdError>(id),
    ensures
        name == "Freq"@ ==> describe_entry(seq![(id, before)], key, PropValue::Number(t)) == Ok::<
            Seq<(FilterId, InfoModel)>,
            DescribeErrorModel,
        >(seq![(id, InfoModel { freq: Some(t@), ..before })]),
        name == "Gain"@ ==> describe_entry(seq![(id, before)], key, PropValue::Number(t)) == Ok::<
            Seq<(FilterId, InfoModel)>,
            DescribeErrorModel,
        >(seq![(id, InfoModel { gain: Some(t@), ..before })]),
        name == "Q"@ ==> describe_entry(seq![(id, before)], key, PropValue::Number(t)) == Ok::<
            Seq<(FilterId, InfoModel)>,
            DescribeErrorModel,
        >(seq![(id, InfoModel { q: Some(t@), ..before })]),
        name == "a0"@ ==> describe_entry(seq![(id, before)], key, PropValue::Number(t)) == Ok::<
            Seq<(FilterId, InfoModel)>,
            DescribeErrorModel,
        >(seq![(id, InfoModel { a0: Some(t@), ..before })]),
        name == "a1"@ ==> describe_entry(seq![(id, before)], key, PropValue::Number(t)) == Ok::<
            Seq<(FilterId, InfoModel)>,
            DescribeErrorModel,
        >(seq![(id, InfoModel { a1: Some(t@), ..before })]),
        name == "a2"@ ==> describe_entry(seq![(id, before)], key, PropValue::Number(t)) == Ok::<
            Seq<(FilterId, InfoModel)>,
            DescribeErrorModel,
        >(seq![(id, InfoModel { a2: Some(t@), ..before })]),
        name == "b0"@ ==> describe_entry(seq![(id, before)], key, PropValue::Number(t)) == Ok::<
            Seq<(FilterId, InfoModel)>,
            DescribeErrorModel,
        >(seq![(id, InfoModel { b0: Some(t@), ..before })]),
        name == "b1"@ ==> describe_entry(seq![(id, before)], key, PropValue::Number(t)) == Ok::<
            Seq<(FilterId, InfoModel)>,
            DescribeErrorModel,
        >(seq![(id, InfoModel { b1: Some(t@), ..before })]),
        name == "b2"@ ==> describe_entry(seq![(id, before)], key, PropValue::Number(t)) == Ok::<
            Seq<(FilterId, InfoModel)>,
            DescribeErrorModel,
        >(seq![(id, InfoModel { b2: Some(t@), ..before })]),
        name == "Freq"@ ==> describe_entry(Seq::empty(), key, PropValue::Number(t)) == Ok::<
            Seq<(FilterId, InfoModel)>,
            DescribeErrorModel,
        >(seq![(id, InfoModel { freq: Some(t@), ..empty_info() })]),
        name == "Gain"@ ==> describe_entry(Seq::empty(), key, PropValue::Number(t)) == Ok::<
            Seq<(FilterId, InfoModel)>,
            DescribeErrorModel,
        >(seq![(id, InfoModel { gain: Some(t@), ..empty_info() })]),
        name == "Q"@ ==> describe_entry(Seq::empty(), key, PropValue::Number(t)) == Ok::<
            Seq<(FilterId, InfoModel)>,
            DescribeErrorModel,
        >(seq![(id, InfoModel { q: Some(t@), ..empty_info() })]),
        name == "a0"@ ==> describe_entry(Seq::empty(), key, PropValue::Number(t)) == Ok::<
            Seq<(FilterId, InfoModel)>,
            DescribeErrorModel,
        >(seq![(id, InfoModel { a0: Some(t@), ..empty_info() })]),
        name == "a1"@ ==> describe_entry(Seq::empty(), key, PropValue::Number(t)) == Ok::<
            Seq<(FilterId, InfoModel)>,
            DescribeErrorModel,
        >(seq![(id, InfoModel { a1: Some(t@), ..empty_info() })]),
        name == "a2"@ ==> describe_entry(Seq::empty(), key, PropValue::Number(t)) == Ok::<
            Seq<(FilterId, InfoModel)>,
            DescribeErrorModel,
        >(seq![(id, InfoModel { a2: Some(t@), ..empty_info() })]),
        name == "b0"@ ==> describe_entry(Seq::empty(), key, PropValue::Number(t)) == Ok::<
            Seq<(FilterId, InfoModel)>,
            DescribeErrorModel,
        >(seq![(id, InfoModel { b0: Some(t@), ..empty_info() })]),
        name == "b1"@ ==> describe_entry(Seq::empty(), key, PropValue::Number(t)) == Ok::<
            Seq<(FilterId, InfoModel)>,
            DescribeErrorModel,
        >(seq![(id, InfoModel { b1: Some(t@), ..empty_info() })]),
        name == "b2"@ ==> describe_entry(Seq::empty(), key, PropValue::Number(t)) == Ok::<
            Seq<(FilterId, InfoModel)>,
            DescribeErrorModel,
        >(seq![(id, InfoModel { b2: Some(t@), ..empty_info() })]),
        !(name == "Freq"@ || name == "Gain"@ || name == "Q"@ || name == "a0"@ || name == "a1"@
            || name == "a2"@ || name == "b0"@ || name == "b1"@ || name == "b2"@) ==> describe_entry(
            Seq::empty(),
            key,
            PropValue::Number(t),
        ) == Err::<Seq<(FilterId, InfoModel)>, DescribeErrorModel>(
            DescribeErrorModel::UnknownParam(name),
        ),
{
    reveal_strlit("Freq");
    reveal_strlit("Gain");
    reveal_strlit("Q");
    reveal_strlit("a0");
    reveal_strlit("a1");
    reveal_strlit("a2");
    reveal_strlit("b0");
    reveal_strlit("b1");
    reveal_strlit("b2");
    let ns: Seq<Seq<char>> = seq!["Freq"@, "Gain"@, "Q"@, "a0"@, "a1"@, "a2"@, "b0"@, "b1"@, "b2"@];
    assert(ns[0].len() == 4 && ns[1].len() == 4 && ns[2].len() == 1);
    assert(ns[0][0] != ns[1][0]);
    assert forall|x: int, y: int| 3 <= x < y < 9 implies ns[x] != ns[y] by {
        assert(ns[x].len() == 2 && ns[y].len() == 2);
        assert(ns[x][0] != ns[y][0] || ns[x][1] != ns[y][1]);
    }
    assert forall|x: int, y: int| 0 <= x < 3 && 3 <= y < 9 implies ns[x] != ns[y] by {
        assert(ns[x].len() != ns[y].len());
    }
    if name == "Freq"@ {
        assert(param_of(name) == Some(FilterParam::Freq));
        lemma_upsert_single(id, before, FilterParam::Freq, t@);
    }
    if name == "Gain"@ {
        assert(param_of(name) == Some(FilterParam::Gain));
        lemma_upsert_single(id, before, FilterParam::Gain, t@);
    }
    if name == "Q"@ {
        assert(param_of(name) == Some(FilterParam::Q));
        lemma_upsert_single(id, before, FilterParam::Q, t@);
    }
    if name == "a0"@ {
        assert(param_of(name) == Some(FilterParam::A0));
        lemma_upsert_single(id, before, FilterParam::A0, t@);
    }
    if name == "a1"@ {
        assert(param_of(name) == Some(FilterParam::A1));
        lemma_upsert_single(id, before, FilterParam::A1, t@);
    }
    if name == "a2"@ {
        assert(param_of(name) == Some(FilterParam::A2));
        lemma_upsert_single(id, before, FilterParam::A2, t@);
    }
    if name == "b0"@ {
        assert(param_of(name) == Some(FilterParam::B0));
        lemma_upsert_single(id, before, FilterParam::B0, t@);
    }
    if name == "b1"@ {
        assert(param_of(name) == Some(FilterParam::B1));
        lemma_upsert_single(id, before, FilterParam::B1, t@);
    }
    if name == "b2"@ {
        assert(param_of(name) == Some(FilterParam::B2));
        lemma_upsert_single(id, before, FilterParam::B2, t@);
    }
}

} // verus!
