//! Browsing the AutoEQ catalogue: headphone measurements filtered by name,
//! the chosen measurement and the chosen target curve.
use vstd::prelude::*;
use vstd::arithmetic::div_mod::{lemma_add_mod_noop, lemma_small_mod};

use crate::actions::{lowercase_of, to_lowercase};
use crate::module::FilterType;
use crate::text::{
    append_chars, chars_eq_ignore_ascii_case, chars_of, contains_chars, contains_seq,
    eq_ignore_ascii_case, lemma_text_lt_irreflexive, occurs_at, string_of, text_lt,
};

verus! {

/// How a headphone is worn.
#[derive(Debug, Clone, Copy, PartialEq, Eq, Structural)]
pub enum Form {
    Earbud,
    InEar,
    OverEar,
}

/// One measurement of a headphone: its form, the rig it was measured on
/// and who measured it.
#[derive(Debug)]
pub struct Entry {
    pub form: Form,
    pub rig: Option<String>,
    pub source: String,
}

impl Entry {
    pub fn copy(&self) -> (r: Entry)
        ensures
            r == *self,
    {
        Entry {
            form: self.form,
            rig: match &self.rig {
                Some(s) => Some(s.clone()),
                None => None,
            },
            source: self.source.clone(),
        }
    }
}

/// The bass shelf of a target: corner frequency, quality factor and gain,
/// as decimal text.
#[derive(Debug)]
pub struct Filter {
    pub fc: String,
    pub q: String,
    pub gain: String,
}

/// A target curve and the measurements it suits.
#[derive(Debug)]
pub struct Target {
    pub label: String,
    pub compatible: Vec<Entry>,
    pub recommended: Vec<Entry>,
    pub bass_boost: Filter,
}


/// The headphone names come in strictly increasing order, as the keys of
/// the catalogue's map do.
pub open spec fn names_in_order(groups: Seq<(String, Vec<Entry>)>) -> bool {
    forall|i: int, j: int| 0 <= i < j < groups.len() ==> text_lt(groups[i].0@, groups[j].0@)
}

/// A name is shown for a lowercased query when the query is empty or the
/// lowercased name contains it.
pub open spec fn name_matches(name: Seq<char>, query: Seq<char>) -> bool {
    query.len() == 0 || contains_seq(lowercase_of(name), query)
}

/// Each measurement of a headphone, with its name.
pub open spec fn named(name: String, es: Seq<Entry>) -> Seq<(String, Entry)> {
    es.map_values(|e: Entry| (name, e))
}

/// The measurements of the headphones whose names match, in catalogue
/// order.
pub open spec fn matching(groups: Seq<(String, Vec<Entry>)>, query: Seq<char>) -> Seq<(String, Entry)>
    decreases groups.len(),
{
    if groups.len() == 0 {
        seq![]
    } else {
        let g = groups.last();
        matching(groups.drop_last(), query) + if name_matches(g.0@, query) {
            named(g.0, g.1@)
        } else {
            seq![]
        }
    }
}

/// The label of the target chosen when the catalogue arrives.
pub open spec fn default_target_label() -> Seq<char> {
    "harman over-ear 2018"@
}

/// The position of the first target whose label is the default label in
/// any ASCII case.
pub open spec fn default_target(ts: Seq<Target>) -> Option<int>
    decreases ts.len(),
{
    if ts.len() == 0 {
        None
    } else if eq_ignore_ascii_case(ts[0].label@, default_target_label()) {
        Some(0)
    } else {
        match default_target(ts.drop_first()) {
            Some(i) => Some(i + 1),
            None => None,
        }
    }
}

/// State of the AutoEQ browser.
pub struct AutoEqBrowser {
    pub filter_query: String,
    pub entries: Option<Vec<(String, Vec<Entry>)>>,
    pub targets: Option<Vec<Target>>,
    pub filtered_results: Vec<(String, Entry)>,
    pub selected_index: usize,
    pub selected_target_index: usize,
    pub loading: bool,
}

impl Default for AutoEqBrowser {
    /// Nothing loaded, nothing typed, the first results selected.
    fn default() -> (r: AutoEqBrowser)
        ensures
            r.filter_query@.len() == 0,
            r.entries is None,
            r.targets is None,
            r.filtered_results@.len() == 0,
            r.selected_index == 0,
            r.selected_target_index == 0,
            !r.loading,
    {
        AutoEqBrowser {
            filter_query: String::new(),
            entries: None,
            targets: None,
            filtered_results: Vec::new(),
            selected_index: 0,
            selected_target_index: 0,
            loading: false,
        }
    }
}

/// The texts of a vector of strings.
pub open spec fn texts_of(v: Seq<String>) -> Seq<Seq<char>> {
    v.map_values(|t: String| t@)
}

/// The lowercased names of the headphones.
pub open spec fn lowered_names(groups: Seq<(String, Vec<Entry>)>) -> Seq<Seq<char>> {
    groups.map_values(|g: (String, Vec<Entry>)| lowercase_of(g.0@))
}

/// The measurements of the headphones whose lowercased name (given in
/// `lowered`, one per headphone) contains `query`, or all when it is empty,
/// in catalogue order.
pub open spec fn matching_lowered(
    groups: Seq<(String, Vec<Entry>)>,
    lowered: Seq<Seq<char>>,
    query: Seq<char>,
) -> Seq<(String, Entry)>
    decreases groups.len(),
{
    if groups.len() == 0 {
        seq![]
    } else {
        let g = groups.last();
        matching_lowered(groups.drop_last(), lowered.drop_last(), query) + if query.len() == 0
            || contains_seq(lowered[groups.len() - 1], query) {
            named(g.0, g.1@)
        } else {
            seq![]
        }
    }
}

/// Every measurement of a headphone whose lowercased name holds the query
/// anywhere (at position `at`) is listed: a brand, a model, or any part of
/// the name finds it.
pub proof fn lemma_matching_finds_substring(
    groups: Seq<(String, Vec<Entry>)>,
    query: Seq<char>,
    k: int,
    at: int,
    j: int,
)
    requires
        0 <= k < groups.len(),
        0 <= at,
        at + query.len() <= lowercase_of(groups[k].0@).len(),
        lowercase_of(groups[k].0@).subrange(at, at + query.len()) == query,
        0 <= j < groups[k].1@.len(),
    ensures
        matching(groups, query).contains((groups[k].0, groups[k].1@[j])),
    decreases groups.len(),
{
    let n = groups.len();
    let pre = matching(groups.drop_last(), query);
    if k == n - 1 {
        assert(occurs_at(lowercase_of(groups[k].0@), query, at));
        assert(name_matches(groups[k].0@, query));
        let g = groups.last();
        let tail = named(g.0, g.1@);
        assert(matching(groups, query) == pre + tail);
        assert(matching(groups, query)[pre.len() + j] == tail[j]);
    } else {
        assert(groups.drop_last()[k] == groups[k]);
        lemma_matching_finds_substring(groups.drop_last(), query, k, at, j);
        let x = (groups[k].0, groups[k].1@[j]);
        let idx = choose|idx: int| 0 <= idx < pre.len() && pre[idx] == x;
        assert(matching(groups, query)[idx] == pre[idx]);
    }
}

/// Every listed measurement belongs to a headphone whose name matches.
proof fn lemma_matching_members(groups: Seq<(String, Vec<Entry>)>, query: Seq<char>, m: int)
    requires
        0 <= m < matching(groups, query).len(),
    ensures
        exists|g: int|
            0 <= g < groups.len() && matching(groups, query)[m].0 == (#[trigger] groups[g]).0
                && name_matches(groups[g].0@, query),
    decreases groups.len(),
{
    let n = groups.len();
    let pre = matching(groups.drop_last(), query);
    if m < pre.len() {
        lemma_matching_members(groups.drop_last(), query, m);
        let g = choose|g: int|
            0 <= g < groups.drop_last().len() && pre[m].0 == (#[trigger] groups.drop_last()[g]).0
                && name_matches(groups.drop_last()[g].0@, query);
        assert(groups.drop_last()[g] == groups[g]);
        assert(matching(groups, query)[m] == pre[m]);
    } else {
        assert(name_matches(groups[n - 1].0@, query));
        assert(matching(groups, query)[m].0 == groups[n - 1].0);
    }
}

/// With a query that is not empty, no measurement of a headphone is listed
/// when its lowercased name does not hold the query anywhere (the names of
/// the catalogue being distinct).
pub proof fn lemma_matching_skips_non_matching(
    groups: Seq<(String, Vec<Entry>)>,
    query: Seq<char>,
    k: int,
)
    requires
        names_in_order(groups),
        0 <= k < groups.len(),
        query.len() > 0,
        forall|at: int|
            0 <= at && at + query.len() <= lowercase_of(groups[k].0@).len() ==> #[trigger] lowercase_of(
                groups[k].0@,
            ).subrange(at, at + query.len()) != query,
    ensures
        forall|m: int|
            0 <= m < matching(groups, query).len() ==> (#[trigger] matching(groups, query)[m]).0@
                != groups[k].0@,
{
    assert forall|m: int| 0 <= m < matching(groups, query).len() implies (
    #[trigger] matching(groups, query)[m]).0@ != groups[k].0@ by {
        lemma_matching_members(groups, query, m);
        let g = choose|g: int|
            0 <= g < groups.len() && matching(groups, query)[m].0 == (#[trigger] groups[g]).0
                && name_matches(groups[g].0@, query);
        if matching(groups, query)[m].0@ == groups[k].0@ {
            lemma_text_lt_irreflexive(groups[k].0@);
            if g < k {
                assert(text_lt(groups[g].0@, groups[k].0@));
            } else if g > k {
                assert(text_lt(groups[k].0@, groups[g].0@));
            }
            assert(g == k);
            assert(contains_seq(lowercase_of(groups[k].0@), query));
            let at = choose|at: int| occurs_at(lowercase_of(groups[k].0@), query, at);
            assert(false);
        }
    }
}

proof fn lemma_matching_lowered(groups: Seq<(String, Vec<Entry>)>, query: Seq<char>)
    ensures
        matching(groups, query) == matching_lowered(groups, lowered_names(groups), query),
    decreases groups.len(),
{
    if groups.len() > 0 {
        lemma_matching_lowered(groups.drop_last(), query);
        assert(lowered_names(groups).drop_last() =~= lowered_names(groups.drop_last()));
    }
}

/// The measurements of the headphones whose lowercased name contains the
/// lowercased query, or all when it is empty, given the lowercased names,
/// one per headphone, and the lowercased query.
pub fn matching_results(
    groups: &Vec<(String, Vec<Entry>)>,
    lowered: &Vec<String>,
    query: &str,
) -> (r: Vec<(String, Entry)>)
    requires
        lowered@.len() == groups@.len(),
    ensures
        r@ == matching_lowered(groups@, texts_of(lowered@), query@),
{
    let q = chars_of(query);
    let ghost lv = texts_of(lowered@);
    let mut results: Vec<(String, Entry)> = Vec::new();
    let mut i: usize = 0;
    while i < groups.len()
        invariant
            i <= groups@.len(),
            lowered@.len() == groups@.len(),
            lv == texts_of(lowered@),
            q@ == query@,
            results@ == matching_lowered(groups@.take(i as int), lv.take(i as int), query@),
        decreases groups.len() - i,
    {
        let name = &groups[i].0;
        let lname = chars_of(lowered[i].as_str());
        let shown = q.len() == 0 || contains_chars(&lname, &q);
        assert(groups@.take(i + 1).drop_last() =~= groups@.take(i as int));
        assert(lv.take(i + 1).drop_last() =~= lv.take(i as int));
        assert(groups@.take(i + 1).last() == groups@[i as int]);
        assert(lv.take(i + 1)[i as int] == lowered@[i as int]@);
        if shown {
            let es = &groups[i].1;
            let ghost before = results@;
            let mut j: usize = 0;
            while j < es.len()
                invariant
                    j <= es@.len(),
                    results@ == before + named(*name, es@.take(j as int)),
                decreases es.len() - j,
            {
                results.push((name.clone(), es[j].copy()));
                assert(named(*name, es@.take(j + 1)) =~= named(*name, es@.take(j as int)).push(
                    (*name, es@[j as int]),
                ));
                j += 1;
            }
            assert(es@.take(es@.len() as int) =~= es@);
        } else {
            assert(results@ =~= results@ + Seq::<(String, Entry)>::empty());
        }
        i += 1;
    }
    assert(groups@.take(groups@.len() as int) =~= groups@);
    assert(lv.take(lv.len() as int) =~= lv);
    results
}

/// The selection moves back to the first result when it lies past the
/// results.
pub open spec fn kept_selection(selected: usize, count: nat) -> usize {
    if selected >= count {
        0
    } else {
        selected
    }
}

impl AutoEqBrowser {
    pub open spec fn wf(&self) -> bool {
        self.entries matches Some(g) ==> names_in_order(g@)
    }

    /// Recomputes the measurements shown for the query: those of the
    /// headphones whose lowercased name contains the lowercased query, or
    /// all when it is empty; with no catalogue, none.
    pub fn update_filtered_results(&mut self)
        requires
            old(self).wf(),
        ensures
            final(self).wf(),
            final(self).filter_query == old(self).filter_query,
            final(self).entries == old(self).entries,
            final(self).targets == old(self).targets,
            final(self).selected_target_index == old(self).selected_target_index,
            final(self).loading == old(self).loading,
            match old(self).entries {
                None => final(self).filtered_results@.len() == 0 && final(self).selected_index
                    == old(self).selected_index,
                Some(g) => {
                    &&& final(self).filtered_results@ == matching(
                        g@,
                        lowercase_of(old(self).filter_query@),
                    )
                    &&& final(self).selected_index == kept_selection(
                        old(self).selected_index,
                        final(self).filtered_results@.len(),
                    )
                },
            },
    {
        let results = match &self.entries {
            None => {
                self.filtered_results = Vec::new();
                return;
            },
            Some(groups) => {
                let query = to_lowercase(self.filter_query.as_str());
                let mut lowered: Vec<String> = Vec::new();
                let mut i: usize = 0;
                while i < groups.len()
                    invariant
                        i <= groups@.len(),
                        lowered@.len() == i,
                        forall|k: int|
                            0 <= k < i ==> (#[trigger] lowered@[k])@ == lowercase_of(groups@[k].0@),
                    decreases groups.len() - i,
                {
                    lowered.push(to_lowercase(groups[i].0.as_str()));
                    i += 1;
                }
                proof {
                    assert(texts_of(lowered@) =~= lowered_names(groups@));
                    lemma_matching_lowered(groups@, query@);
                }
                matching_results(groups, &lowered, query.as_str())
            },
        };
        self.filtered_results = results;
        if self.selected_index >= self.filtered_results.len() {
            self.selected_index = 0;
        }
    }

    /// The measurement under the selection, if any.
    pub fn selected_entry(&self) -> (r: Option<&(String, Entry)>)
        ensures
            r == (if self.selected_index < self.filtered_results@.len() {
                Some(&self.filtered_results@[self.selected_index as int])
            } else {
                None
            }),
    {
        if self.selected_index < self.filtered_results.len() {
            Some(&self.filtered_results[self.selected_index])
        } else {
            None
        }
    }

    /// The header of the browser: `AutoEQ Browser - Target: LABEL` for the
    /// selected target, `(none)` in place of the label when the selection
    /// lies past the targets, and `AutoEQ Browser - Loading...` before the
    /// targets arrive.
    pub fn header_text(&self) -> (r: String)
        ensures
            r@ == (match self.targets {
                Some(ts) => if self.selected_target_index < ts@.len() {
                    "AutoEQ Browser - Target: "@ + ts@[self.selected_target_index as int].label@
                } else {
                    "AutoEQ Browser - Target: (none)"@
                },
                None => "AutoEQ Browser - Loading..."@,
            }),
    {
        match self.selected_target() {
            Some(t) => {
                let mut v = chars_of("AutoEQ Browser - Target: ");
                append_chars(&mut v, &chars_of(t.label.as_str()));
                string_of(v)
            },
            None => {
                if self.targets.is_some() {
                    string_of(chars_of("AutoEQ Browser - Target: (none)"))
                } else {
                    string_of(chars_of("AutoEQ Browser - Loading..."))
                }
            },
        }
    }

    /// Moves the selection to the next result, if there is one.
    pub fn select_next(&mut self)
        ensures
            final(self).selected_index == (if old(self).selected_index + 1
                < old(self).filtered_results@.len() {
                old(self).selected_index + 1
            } else {
                old(self).selected_index as int
            }),
            final(self).filtered_results == old(self).filtered_results,
            final(self).entries == old(self).entries,
            final(self).targets == old(self).targets,
            final(self).filter_query == old(self).filter_query,
            final(self).selected_target_index == old(self).selected_target_index,
            final(self).loading == old(self).loading,
    {
        if self.selected_index < self.filtered_results.len() && self.selected_index + 1
            < self.filtered_results.len() {
            self.selected_index = self.selected_index + 1;
        }
    }

    /// Moves the selection to the previous result, stopping at the first.
    pub fn select_previous(&mut self)
        ensures
            final(self).selected_index == (if old(self).selected_index > 0 {
                old(self).selected_index - 1
            } else {
                0
            }),
            final(self).filtered_results == old(self).filtered_results,
            final(self).entries == old(self).entries,
            final(self).targets == old(self).targets,
            final(self).filter_query == old(self).filter_query,
            final(self).selected_target_index == old(self).selected_target_index,
            final(self).loading == old(self).loading,
    {
        if self.selected_index > 0 {
            self.selected_index = self.selected_index - 1;
        }
    }

    /// The number of loaded targets (none before they arrive).
    pub open spec fn target_count(&self) -> nat {
        match self.targets {
            Some(ts) => ts@.len(),
            None => 0,
        }
    }

    /// Moves the target selection one forward, wrapping round after the
    /// last; nothing changes while there are no targets.
    pub fn next_target(&mut self)
        ensures
            final(self).selected_target_index == (if old(self).target_count() > 0 {
                (old(self).selected_target_index + 1) % (old(self).target_count() as int)
            } else {
                old(self).selected_target_index as int
            }),
            final(self).filtered_results == old(self).filtered_results,
            final(self).entries == old(self).entries,
            final(self).targets == old(self).targets,
            final(self).filter_query == old(self).filter_query,
            final(self).selected_index == old(self).selected_index,
            final(self).loading == old(self).loading,
    {
        let n: usize = match &self.targets {
            Some(ts) => ts.len(),
            None => 0,
        };
        if n > 0 {
            let i = self.selected_target_index;
            let r = i % n;
            let next: usize = if r + 1 == n {
                0
            } else {
                r + 1
            };
            proof {
                lemma_add_mod_noop(i as int, 1, n as int);
                vstd::arithmetic::div_mod::lemma_mod_self_0(n as int);
                if n > 1 {
                    lemma_small_mod(1, n as nat);
                    if r + 1 < n {
                        lemma_small_mod((r + 1) as nat, n as nat);
                    }
                } else {
                    lemma_small_mod(0, 1);
                }
                assert(next == (i + 1) % (n as int));
            }
            self.selected_target_index = next;
        }
    }

    /// Moves the target selection one back, wrapping round before the
    /// first; nothing changes while there are no targets.
    pub fn previous_target(&mut self)
        ensures
            final(self).selected_target_index == (if old(self).target_count() > 0 {
                (old(self).selected_target_index + old(self).target_count() - 1) % (old(
                    self,
                ).target_count() as int)
            } else {
                old(self).selected_target_index as int
            }),
            final(self).filtered_results == old(self).filtered_results,
            final(self).entries == old(self).entries,
            final(self).targets == old(self).targets,
            final(self).filter_query == old(self).filter_query,
            final(self).selected_index == old(self).selected_index,
            final(self).loading == old(self).loading,
    {
        let n: usize = match &self.targets {
            Some(ts) => ts.len(),
            None => 0,
        };
        if n > 0 {
            let i = self.selected_target_index;
            let r = i % n;
            let prev: usize = if r == 0 {
                n - 1
            } else {
                r - 1
            };
            proof {
                lemma_add_mod_noop(i as int, n - 1, n as int);
                lemma_small_mod((n - 1) as nat, n as nat);
                if r == 0 {
                    lemma_small_mod((n - 1) as nat, n as nat);
                } else {
                    lemma_add_mod_noop(n as int, r - 1, n as int);
                    vstd::arithmetic::div_mod::lemma_mod_self_0(n as int);
                    lemma_small_mod((r - 1) as nat, n as nat);
                    assert(r + (n - 1) == n + (r - 1));
                }
                assert(prev == (i + n - 1) % (n as int));
            }
            self.selected_target_index = prev;
        }
    }

    /// The target under the selection, if the targets are loaded.
    pub fn selected_target(&self) -> (r: Option<&Target>)
        ensures
            r == (match self.targets {
                Some(ts) => if self.selected_target_index < ts@.len() {
                    Some(&ts@[self.selected_target_index as int])
                } else {
                    None
                },
                None => None,
            }),
    {
        match &self.targets {
            Some(ts) => if self.selected_target_index < ts.len() {
                Some(&ts[self.selected_target_index])
            } else {
                None
            },
            None => None,
        }
    }

    /// Takes in the catalogue: the results are recomputed, and the target
    /// labelled "Harman over-ear 2018" (in any ASCII case), if present,
    /// is selected.
    pub fn on_data_loaded(&mut self, entries: Vec<(String, Vec<Entry>)>, targets: Vec<Target>)
        requires
            names_in_order(entries@),
        ensures
            final(self).wf(),
            final(self).filter_query == old(self).filter_query,
            final(self).entries == Some(entries),
            final(self).targets == Some(targets),
            !final(self).loading,
            final(self).filtered_results@ == matching(entries@, lowercase_of(old(self).filter_query@)),
            final(self).selected_index == kept_selection(
                old(self).selected_index,
                final(self).filtered_results@.len(),
            ),
            final(self).selected_target_index == (match default_target(targets@) {
                Some(i) => i as usize,
                None => old(self).selected_target_index,
            }),
    {
        let ghost ts = targets@;
        let label = chars_of("harman over-ear 2018");
        let mut found: Option<usize> = None;
        let mut i: usize = 0;
        while i < targets.len()
            invariant
                i <= ts.len(),
                ts == targets@,
                label@ == default_target_label(),
                match found {
                    Some(k) => k < i && default_target(ts) == Some(k as int),
                    None => forall|k: int|
                        0 <= k < i ==> !eq_ignore_ascii_case(#[trigger] ts[k].label@, label@),
                },
            decreases targets.len() - i,
        {
            if found.is_none() && chars_eq_ignore_ascii_case(&chars_of(targets[i].label.as_str()), &label) {
                proof {
                    lemma_default_target_first(ts, i as int);
                }
                found = Some(i);
            }
            i += 1;
        }
        proof {
            if found is None {
                lemma_default_target_none(ts);
            }
        }
        self.entries = Some(entries);
        self.targets = Some(targets);
        self.loading = false;
        self.update_filtered_results();
        if let Some(k) = found {
            self.selected_target_index = k;
        }
    }
}

proof fn lemma_default_target_first(ts: Seq<Target>, i: int)
    requires
        0 <= i < ts.len(),
        eq_ignore_ascii_case(ts[i].label@, default_target_label()),
        forall|k: int| 0 <= k < i ==> !eq_ignore_ascii_case(#[trigger] ts[k].label@, default_target_label()),
    ensures
        default_target(ts) == Some(i),
    decreases i,
{
    if i > 0 {
        let rest = ts.drop_first();
        assert forall|k: int| 0 <= k < i - 1 implies !eq_ignore_ascii_case(
            #[trigger] rest[k].label@,
            default_target_label(),
        ) by {
            assert(rest[k] == ts[k + 1]);
        }
        lemma_default_target_first(rest, i - 1);
    }
}

proof fn lemma_default_target_none(ts: Seq<Target>)
    requires
        forall|k: int| 0 <= k < ts.len() ==> !eq_ignore_ascii_case(#[trigger] ts[k].label@, default_target_label()),
    ensures
        default_target(ts) is None,
    decreases ts.len(),
{
    if ts.len() > 0 {
        let rest = ts.drop_first();
        assert forall|k: int| 0 <= k < rest.len() implies !eq_ignore_ascii_case(
            #[trigger] rest[k].label@,
            default_target_label(),
        ) by {
            assert(rest[k] == ts[k + 1]);
        }
        lemma_default_target_none(rest);
        assert(!eq_ignore_ascii_case(ts[0].label@, default_target_label()));
    }
}

/// The filter type of band `idx` of `count` in an AutoEQ result: the first
/// band is a low shelf when below 100 Hz, the last a high shelf when above
/// 8 kHz, and every other band peaking.
pub fn band_filter_type(idx: usize, count: usize, below_100_hz: bool, above_8000_hz: bool) -> (t:
    FilterType)
    requires
        idx < count,
    ensures
        t == (if idx == 0 && below_100_hz {
            FilterType::LowShelf
        } else if idx == count - 1 && above_8000_hz {
            FilterType::HighShelf
        } else {
            FilterType::Peaking
        }),
{
    if idx == 0 && below_100_hz {
        FilterType::LowShelf
    } else if idx == count - 1 && above_8000_hz {
        FilterType::HighShelf
    } else {
        FilterType::Peaking
    }
}

/// What the AutoEQ service is asked to fit: a measurement of a headphone
/// to a target curve at a sample rate.
#[derive(Debug)]
pub struct EqualizeRequest {
    pub target: String,
    pub name: String,
    pub source: String,
    pub rig: Option<String>,
    pub sample_rate: u32,
}

/// Seconds a downloaded catalogue stays fresh: one day.
pub const CACHE_DURATION_SECS: u64 = 86400;

/// Whether a catalogue saved at `timestamp` is still fresh at `now` (both
/// in seconds since the epoch).
pub fn cache_fresh(now: u64, timestamp: u64) -> (r: bool)
    requires
        timestamp <= now,
    ensures
        r == (now - timestamp <= CACHE_DURATION_SECS),
{
    now - timestamp <= CACHE_DURATION_SECS
}

impl AutoEqBrowser {
    /// Starts loading the catalogue unless both entries and targets are
    /// there; says whether loading started.
    pub fn begin_loading(&mut self) -> (started: bool)
        requires
            old(self).wf(),
        ensures
            final(self).wf(),
            started == !(old(self).entries is Some && old(self).targets is Some),
            final(self).loading == (started || old(self).loading),
            final(self).filter_query == old(self).filter_query,
            final(self).entries == old(self).entries,
            final(self).targets == old(self).targets,
            final(self).filtered_results == old(self).filtered_results,
            final(self).selected_index == old(self).selected_index,
            final(self).selected_target_index == old(self).selected_target_index,
    {
        if self.entries.is_some() && self.targets.is_some() {
            return false;
        }
        self.loading = true;
        true
    }

    /// The request for the selected measurement and target, and the status
    /// message `Fetching EQ for NAME from SOURCE...`; `None` unless both are
    /// selected.
    pub fn apply_selected(&self, sample_rate: u32) -> (r: Option<(EqualizeRequest, String)>)
        ensures
            match r {
                None => self.selected_index >= self.filtered_results@.len() || !(match self.targets {
                    Some(ts) => self.selected_target_index < ts@.len(),
                    None => false,
                }),
                Some((req, msg)) => {
                    let e = self.filtered_results@[self.selected_index as int];
                    let t = self.targets.unwrap()@[self.selected_target_index as int];
                    &&& self.selected_index < self.filtered_results@.len()
                    &&& self.targets is Some
                    &&& self.selected_target_index < self.targets.unwrap()@.len()
                    &&& req.target@ == t.label@
                    &&& req.name@ == e.0@
                    &&& req.source@ == e.1.source@
                    &&& req.rig == e.1.rig
                    &&& req.sample_rate == sample_rate
                    &&& msg@ == "Fetching EQ for "@ + e.0@ + " from "@ + e.1.source@ + "..."@
                },
            },
    {
        let (name, entry) = match self.selected_entry() {
            Some(x) => x,
            None => return None,
        };
        let target = match self.selected_target() {
            Some(t) => t,
            None => return None,
        };
        let mut msg = chars_of("Fetching EQ for ");
        append_chars(&mut msg, &chars_of(name.as_str()));
        append_chars(&mut msg, &chars_of(" from "));
        append_chars(&mut msg, &chars_of(entry.source.as_str()));
        append_chars(&mut msg, &chars_of("..."));
        let req = EqualizeRequest {
            target: target.label.clone(),
            name: name.clone(),
            source: entry.source.clone(),
            rig: match &entry.rig {
                Some(r) => Some(r.clone()),
                None => None,
            },
            sample_rate,
        };
        Some((req, string_of(msg)))
    }
}

} // verus!
