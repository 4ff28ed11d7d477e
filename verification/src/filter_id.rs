//! Filter bands addressed on a running equalizer node, and the `pw-cli
//! set-param` call that updates their parameters.
use vstd::prelude::*;

use crate::module::{BiquadCoefficients, FILTER_PREFIX};
use crate::text::{
    append_chars, ascii_lower, chars_eq_ignore_ascii_case, chars_of, decimal, decimal_chars,
    eq_ignore_ascii_case, lemma_decimal, lemma_parse_decimal, parse_unsigned,
    parse_usize, string_of, join, join_chars,
};

verus! {

/// A band of an equalizer node: the preamp, or a filter counted from 1.
#[derive(Debug, Clone, Copy, PartialEq, Eq, PartialOrd, Ord, Hash, Structural)]
pub enum FilterId {
    Preamp,
    Index(usize),
}

/// Why text does not name a band.
#[derive(Debug, Clone, Copy, PartialEq, Eq, Structural)]
pub enum FilterIdError {
    InvalidIndex,
    ZeroIndex,
}

impl FilterId {
    /// Filter indices count from 1.
    pub open spec fn wf(self) -> bool {
        self matches FilterId::Index(n) ==> n > 0
    }

    /// The text a band is written as: `preamp` or its index.
    pub open spec fn text(self) -> Seq<char> {
        match self {
            FilterId::Preamp => "preamp"@,
            FilterId::Index(n) => decimal(n as nat),
        }
    }

    pub fn to_string(&self) -> (r: String)
        ensures
            r@ == self.text(),
    {
        match self {
            FilterId::Preamp => string_of(chars_of("preamp")),
            FilterId::Index(n) => string_of(decimal_chars(*n as u64)),
        }
    }

    /// Reads a band: `preamp` in any ASCII case, or a non-zero index.
    pub fn from_str(s: &str) -> (r: Result<FilterId, FilterIdError>)
        ensures
            r == filter_id_of(s@),
            r matches Ok(id) ==> id.wf(),
    {
        let v = chars_of(s);
        if chars_eq_ignore_ascii_case(&v, &chars_of("preamp")) {
            return Ok(FilterId::Preamp);
        }
        match parse_usize(&v) {
            None => Err(FilterIdError::InvalidIndex),
            Some(0) => Err(FilterIdError::ZeroIndex),
            Some(n) => Ok(FilterId::Index(n)),
        }
    }
}

/// The band that text names.
pub open spec fn filter_id_of(s: Seq<char>) -> Result<FilterId, FilterIdError> {
    if eq_ignore_ascii_case(s, "preamp"@) {
        Ok(FilterId::Preamp)
    } else {
        match parse_unsigned(s, usize::MAX as nat) {
            None => Err(FilterIdError::InvalidIndex),
            Some(n) => if n == 0 {
                Err(FilterIdError::ZeroIndex)
            } else {
                Ok(FilterId::Index(n as usize))
            },
        }
    }
}

/// Reading back the text of a band gives the band.
pub proof fn lemma_filter_id_roundtrip(id: FilterId)
    requires
        id.wf(),
    ensures
        filter_id_of(id.text()) == Ok::<FilterId, FilterIdError>(id),
{
    reveal_strlit("preamp");
    match id {
        FilterId::Preamp => {
        },
        FilterId::Index(n) => {
            lemma_decimal(n as nat);
            lemma_parse_decimal(n as nat, usize::MAX as nat);
            let d = decimal(n as nat);
            assert(ascii_lower(d[0]) != ascii_lower("preamp"@[0]));
            assert(!eq_ignore_ascii_case(d, "preamp"@));
        },
    }
}

/// New parameter values for a band, each as decimal text; `None` leaves a
/// parameter as it is.
#[derive(Debug)]
pub struct UpdateFilter {
    pub frequency: Option<String>,
    pub gain: Option<String>,
    pub q: Option<String>,
    pub coeffs: Option<BiquadCoefficients>,
}

/// The quoted name of parameter `name` of band `id`.
pub open spec fn param_name(id: FilterId, name: Seq<char>) -> Seq<char> {
    "\""@ + FILTER_PREFIX@ + id.text() + ":"@ + name + "\""@
}

/// Name and value, for a value that is set.
pub open spec fn param_pair(id: FilterId, name: Seq<char>, value: Option<String>) -> Seq<Seq<char>> {
    match value {
        Some(v) => seq![param_name(id, name), v@],
        None => Seq::empty(),
    }
}

/// The name-value pairs of one band's update: frequency, gain and quality
/// factor, then the five biquad coefficients.
pub open spec fn update_params(id: FilterId, u: UpdateFilter) -> Seq<Seq<char>> {
    param_pair(id, "Freq"@, u.frequency) + param_pair(id, "Gain"@, u.gain) + param_pair(
        id,
        "Q"@,
        u.q,
    ) + match u.coeffs {
        Some(c) => seq![
            param_name(id, "b0"@),
            c.b0@,
            param_name(id, "b1"@),
            c.b1@,
            param_name(id, "b2"@),
            c.b2@,
            param_name(id, "a1"@),
            c.a1@,
            param_name(id, "a2"@),
            c.a2@,
        ],
        None => Seq::empty(),
    }
}

/// The name-value pairs of all updates, in order.
pub open spec fn all_params(updates: Seq<(FilterId, UpdateFilter)>) -> Seq<Seq<char>>
    decreases updates.len(),
{
    if updates.len() == 0 {
        Seq::empty()
    } else {
        all_params(updates.drop_last()) + update_params(updates.last().0, updates.last().1)
    }
}


fn quoted_param(id: &FilterId, name: &str) -> (r: Vec<char>)
    ensures
        r@ == param_name(*id, name@),
{
    let mut v = chars_of("\"");
    append_chars(&mut v, &chars_of(FILTER_PREFIX));
    append_chars(&mut v, &chars_of(id.to_string().as_str()));
    append_chars(&mut v, &chars_of(":"));
    append_chars(&mut v, &chars_of(name));
    append_chars(&mut v, &chars_of("\""));
    v
}

fn push_pair(out: &mut Vec<Vec<char>>, id: &FilterId, name: &str, value: &Option<String>)
    ensures
        final(out)@.map_values(|x: Vec<char>| x@) == old(out)@.map_values(|x: Vec<char>| x@)
            + param_pair(*id, name@, *value),
{
    let ghost before = out@.map_values(|x: Vec<char>| x@);
    match value {
        Some(v) => {
            out.push(quoted_param(id, name));
            out.push(chars_of(v.as_str()));
            assert(out@.map_values(|x: Vec<char>| x@) =~= before + param_pair(*id, name@, *value));
        },
        None => {
            assert(out@.map_values(|x: Vec<char>| x@) =~= before + param_pair(*id, name@, *value));
        },
    }
}

fn push_update(out: &mut Vec<Vec<char>>, id: &FilterId, u: &UpdateFilter)
    ensures
        final(out)@.map_values(|x: Vec<char>| x@) == old(out)@.map_values(|x: Vec<char>| x@)
            + update_params(*id, *u),
{
    let ghost before = out@.map_values(|x: Vec<char>| x@);
    push_pair(out, id, "Freq", &u.frequency);
    push_pair(out, id, "Gain", &u.gain);
    push_pair(out, id, "Q", &u.q);
    let ghost mid = out@.map_values(|x: Vec<char>| x@);
    match &u.coeffs {
        Some(c) => {
            out.push(quoted_param(id, "b0"));
            out.push(chars_of(c.b0.as_str()));
            out.push(quoted_param(id, "b1"));
            out.push(chars_of(c.b1.as_str()));
            out.push(quoted_param(id, "b2"));
            out.push(chars_of(c.b2.as_str()));
            out.push(quoted_param(id, "a1"));
            out.push(chars_of(c.a1.as_str()));
            out.push(quoted_param(id, "a2"));
            out.push(chars_of(c.a2.as_str()));
            assert(out@.map_values(|x: Vec<char>| x@) =~= mid + seq![
                param_name(*id, "b0"@),
                c.b0@,
                param_name(*id, "b1"@),
                c.b1@,
                param_name(*id, "b2"@),
                c.b2@,
                param_name(*id, "a1"@),
                c.a1@,
                param_name(*id, "a2"@),
                c.a2@,
            ]);
        },
        None => {},
    }
    assert(out@.map_values(|x: Vec<char>| x@) =~= before + update_params(*id, *u));
}


/// The arguments of the `pw-cli` call that applies `updates` to node
/// `node_id`; `None` when there is nothing to update.
pub fn pw_cli_args(node_id: u32, updates: &Vec<(FilterId, UpdateFilter)>) -> (r: Option<Vec<String>>)
    ensures
        updates@.len() == 0 <==> r is None,
        r matches Some(args) ==> args@.map_values(|s: String| s@) == seq![
            "set-param"@,
            decimal(node_id as nat),
            "Props"@,
            "{ params = [ "@ + join(all_params(updates@), ", "@) + " ] }"@,
        ],
{
    if updates.len() == 0 {
        return None;
    }
    let mut params: Vec<Vec<char>> = Vec::new();
    let mut i: usize = 0;
    assert(updates@.take(0) =~= Seq::<(FilterId, UpdateFilter)>::empty());
    assert(params@.map_values(|x: Vec<char>| x@) =~= all_params(updates@.take(0)));
    while i < updates.len()
        invariant
            i <= updates@.len(),
            params@.map_values(|x: Vec<char>| x@) == all_params(updates@.take(i as int)),
        decreases updates.len() - i,
    {
        assert(updates@.take(i + 1).drop_last() =~= updates@.take(i as int));
        push_update(&mut params, &updates[i].0, &updates[i].1);
        i += 1;
    }
    assert(updates@.take(updates@.len() as int) =~= updates@);
    let mut props = chars_of("{ params = [ ");
    append_chars(&mut props, &join_chars(&params, &chars_of(", ")));
    append_chars(&mut props, &chars_of(" ] }"));
    let mut args: Vec<String> = Vec::new();
    args.push(string_of(chars_of("set-param")));
    args.push(string_of(decimal_chars(node_id as u64)));
    args.push(string_of(chars_of("Props")));
    args.push(string_of(props));
    assert(args@.map_values(|s: String| s@) =~= seq![
        "set-param"@,
        decimal(node_id as nat),
        "Props"@,
        "{ params = [ "@ + join(all_params(updates@), ", "@) + " ] }"@,
    ]);
    Some(args)
}

/// One update: the name-value pairs of its filter alone.
pub proof fn lemma_single_update_params(id: FilterId, u: UpdateFilter)
    ensures
        all_params(seq![(id, u)]) == update_params(id, u),
{
    let one = seq![(id, u)];
    assert(one.drop_last() =~= Seq::<(FilterId, UpdateFilter)>::empty());
    assert(one.last() == (id, u));
    assert(all_params(one.drop_last()) == Seq::<Seq<char>>::empty());
    assert(Seq::<Seq<char>>::empty() + update_params(id, u) =~= update_params(id, u));
}

/// The arguments of the `pw-cli` call that applies one update to node
/// `node_id`: the same call as [`pw_cli_args`] makes for a list holding
/// only that update, carrying only the fields of filter `id`.
pub fn update_filter_args(node_id: u32, id: FilterId, update: UpdateFilter) -> (r: Vec<String>)
    ensures
        r@.map_values(|s: String| s@) == seq![
            "set-param"@,
            decimal(node_id as nat),
            "Props"@,
            "{ params = [ "@ + join(update_params(id, update), ", "@) + " ] }"@,
        ],
{
    let ghost u = update;
    let mut updates: Vec<(FilterId, UpdateFilter)> = Vec::new();
    updates.push((id, update));
    proof {
        lemma_single_update_params(id, u);
        assert(updates@ =~= seq![(id, u)]);
    }
    match pw_cli_args(node_id, &updates) {
        Some(args) => args,
        None => Vec::new(),
    }
}

} // verus!
