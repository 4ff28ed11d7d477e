//! The equalizer being edited: its bands, the selected band, preamp and bypass.
//!
//! Numeric band parameters are decimal text; computing new values is the
//! caller's, storing them and everything about selection is here.
use vstd::prelude::*;

use crate::apo;
use crate::filter_id::{FilterId, UpdateFilter};
use crate::module::{
    BiquadCoefficients, Config, Control, FilterType, Module, ModuleArgs, NodeKind, ParamEqConfig,
    ParamEqFilter, RateAndBiquadCoefficients, RawNodeConfig, is_filter_chain_module,
};
use crate::text::{append_chars, chars_of, decimal, decimal_chars, string_of};

verus! {

/// A direction to cycle through a list of choices.
#[derive(Debug, Clone, Copy, PartialEq, Eq, Structural)]
pub enum Rotation {
    Clockwise,
    CounterClockwise,
}

/// The position of a filter type in the order the editor cycles through.
pub open spec fn type_index(t: FilterType) -> int {
    match t {
        FilterType::LowShelf => 0,
        FilterType::LowPass => 1,
        FilterType::Peaking => 2,
        FilterType::BandPass => 3,
        FilterType::Notch => 4,
        FilterType::HighPass => 5,
        FilterType::HighShelf => 6,
    }
}

/// The filter type at a position of the cycle.
pub open spec fn type_at(i: int) -> FilterType {
    if i == 0 {
        FilterType::LowShelf
    } else if i == 1 {
        FilterType::LowPass
    } else if i == 2 {
        FilterType::Peaking
    } else if i == 3 {
        FilterType::BandPass
    } else if i == 4 {
        FilterType::Notch
    } else if i == 5 {
        FilterType::HighPass
    } else {
        FilterType::HighShelf
    }
}

/// The next filter type in the cycle, or the previous one.
pub open spec fn rotated(t: FilterType, r: Rotation) -> FilterType {
    match r {
        Rotation::Clockwise => type_at((type_index(t) + 1) % 7),
        Rotation::CounterClockwise => type_at((type_index(t) + 6) % 7),
    }
}

impl FilterType {
    /// The filter type after this one in the given direction, wrapping around.
    pub fn rotate(self, r: Rotation) -> (n: FilterType)
        ensures
            n == rotated(self, r),
    {
        match (self, r) {
            (FilterType::LowShelf, Rotation::Clockwise) => FilterType::LowPass,
            (FilterType::LowPass, Rotation::Clockwise) => FilterType::Peaking,
            (FilterType::Peaking, Rotation::Clockwise) => FilterType::BandPass,
            (FilterType::BandPass, Rotation::Clockwise) => FilterType::Notch,
            (FilterType::Notch, Rotation::Clockwise) => FilterType::HighPass,
            (FilterType::HighPass, Rotation::Clockwise) => FilterType::HighShelf,
            (FilterType::HighShelf, Rotation::Clockwise) => FilterType::LowShelf,
            (FilterType::LowShelf, Rotation::CounterClockwise) => FilterType::HighShelf,
            (FilterType::LowPass, Rotation::CounterClockwise) => FilterType::LowShelf,
            (FilterType::Peaking, Rotation::CounterClockwise) => FilterType::LowPass,
            (FilterType::BandPass, Rotation::CounterClockwise) => FilterType::Peaking,
            (FilterType::Notch, Rotation::CounterClockwise) => FilterType::BandPass,
            (FilterType::HighPass, Rotation::CounterClockwise) => FilterType::Notch,
            (FilterType::HighShelf, Rotation::CounterClockwise) => FilterType::HighPass,
        }
    }

    /// Pass and notch filters change the signal whatever their gain.
    pub fn ignores_gain(self) -> (r: bool)
        ensures
            r == (self == FilterType::BandPass || self == FilterType::Notch || self
                == FilterType::HighPass || self == FilterType::LowPass),
    {
        match self {
            FilterType::BandPass | FilterType::Notch | FilterType::HighPass | FilterType::LowPass => true,
            _ => false,
        }
    }
}

/// Cycling one way and then the other gives the filter type back.
pub proof fn lemma_rotate_inverse(t: FilterType)
    ensures
        rotated(rotated(t, Rotation::Clockwise), Rotation::CounterClockwise) == t,
        rotated(rotated(t, Rotation::CounterClockwise), Rotation::Clockwise) == t,
{
}

/// A band of the equalizer.
#[derive(Debug)]
pub struct Band {
    /// Hz, as decimal text.
    pub frequency: String,
    /// dB, as decimal text.
    pub gain: String,
    pub q: String,
    pub filter_type: FilterType,
    pub muted: bool,
}

impl Band {
    pub fn copy(&self) -> (r: Band)
        ensures
            r == *self,
    {
        Band {
            frequency: self.frequency.clone(),
            gain: self.gain.clone(),
            q: self.q.clone(),
            filter_type: self.filter_type,
            muted: self.muted,
        }
    }
}

/// The equalizer being edited.
#[derive(Debug)]
pub struct Eq {
    pub name: String,
    pub filters: Vec<Band>,
    pub selected_idx: usize,
    pub max_filters: usize,
    /// dB, as decimal text.
    pub preamp: String,
    pub bypassed: bool,
}

/// `e1` is `e0` with a peaking band at `frequency` (0 dB, Q 1) added after
/// the selected band (at the end when none is selected) and selected; a full
/// equalizer stays as it is.
pub open spec fn adds_filter(e0: Eq, e1: Eq, frequency: String) -> bool {
    &&& e1.name == e0.name
    &&& e1.preamp == e0.preamp
    &&& e1.bypassed == e0.bypassed
    &&& e1.max_filters == e0.max_filters
    &&& e0.filters@.len() >= e0.max_filters ==> e1 == e0
    &&& e0.filters@.len() < e0.max_filters ==> {
        let pos = if e0.selected_idx < e0.filters@.len() {
            e0.selected_idx + 1
        } else {
            e0.filters@.len() as int
        };
        let b = e1.filters@[pos];
        &&& e1.filters@.len() == e0.filters@.len() + 1
        &&& e1.filters@ == e0.filters@.insert(pos, b)
        &&& b.frequency == frequency && b.gain@ == "0"@ && b.q@ == "1"@
        &&& b.filter_type == FilterType::Peaking && !b.muted
        &&& e1.selected_idx == e0.selected_idx + 1
    }
}

/// `e1` is `e0` without its selected band, the selection moved back onto the
/// last band when it was past it; a single band is never deleted.
pub open spec fn deletes_selected(e0: Eq, e1: Eq) -> bool {
    &&& e1.name == e0.name
    &&& e1.preamp == e0.preamp
    &&& e1.bypassed == e0.bypassed
    &&& e1.max_filters == e0.max_filters
    &&& e0.filters@.len() <= 1 ==> e1 == e0
    &&& e0.filters@.len() > 1 ==> {
        &&& e1.filters@ == e0.filters@.remove(e0.selected_idx as int)
        &&& e1.selected_idx == if e0.selected_idx < e1.filters@.len() {
            e0.selected_idx
        } else {
            (e1.filters@.len() - 1) as usize
        }
    }
}

/// Adding a band after the selected one and deleting the (new) selection
/// leaves the bands as they were.
pub proof fn lemma_add_then_delete(e0: Eq, e1: Eq, e2: Eq, frequency: String)
    requires
        e0.wf(),
        e0.selected_idx < e0.filters@.len(),
        e0.filters@.len() < e0.max_filters,
        adds_filter(e0, e1, frequency),
        deletes_selected(e1, e2),
    ensures
        e2.filters@ == e0.filters@,
        e2.preamp == e0.preamp,
        e2.bypassed == e0.bypassed,
{
    let pos = e0.selected_idx + 1;
    assert(e1.filters@.insert(pos, e1.filters@[pos]).remove(pos) =~= e1.filters@);
    assert(e0.filters@.insert(pos, e1.filters@[pos]).remove(pos) =~= e0.filters@);
}

impl Eq {
    /// The selection lies at most one past the last band.
    pub open spec fn wf(&self) -> bool {
        self.selected_idx <= self.filters@.len()
    }

    /// An equalizer with the given bands, the first band selected, not
    /// bypassed; bands can be added up to 31.
    pub fn new(name: String, filters: Vec<Band>, preamp: String) -> (e: Eq)
        ensures
            e.wf(),
            e.name == name,
            e.filters == filters,
            e.selected_idx == 0,
            e.max_filters == 31,
            e.preamp == preamp,
            !e.bypassed,
    {
        Eq { name, filters, selected_idx: 0, max_filters: 31, preamp, bypassed: false }
    }

    /// Adds a peaking band with 0 dB gain and Q 1 at `frequency` after the
    /// selected band (or at the end when none is selected) and selects it;
    /// nothing happens when the equalizer is full.
    pub fn add_filter(&mut self, frequency: String)
        requires
            old(self).wf(),
        ensures
            final(self).wf(),
            adds_filter(*old(self), *final(self), frequency),
    {
        if self.filters.len() >= self.max_filters {
            return;
        }
        let band = Band {
            frequency,
            gain: string_of(chars_of("0")),
            q: string_of(chars_of("1")),
            filter_type: FilterType::Peaking,
            muted: false,
        };
        let ghost before = self.filters@;
        let ghost b = band;
        if self.selected_idx < self.filters.len() {
            self.filters.insert(self.selected_idx + 1, band);
            assert(self.filters@ =~= before.insert(self.selected_idx + 1, b));
        } else {
            self.filters.push(band);
            assert(self.filters@ =~= before.insert(before.len() as int, b));
        }
        self.selected_idx += 1;
    }

    /// Deletes the selected band unless it is the only one, keeping the
    /// selection on a band.
    pub fn delete_selected_filter(&mut self)
        requires
            old(self).wf(),
            old(self).filters@.len() > 1 ==> old(self).selected_idx < old(self).filters@.len(),
        ensures
            final(self).wf(),
            deletes_selected(*old(self), *final(self)),
    {
        if self.filters.len() > 1 {
            self.filters.remove(self.selected_idx);
            if self.selected_idx >= self.filters.len() {
                self.selected_idx = self.filters.len() - 1;
            }
        }
    }

    /// Selects the next band, staying on the last one.
    pub fn select_next_filter(&mut self)
        requires
            old(self).wf(),
        ensures
            final(self).wf(),
            final(self).filters == old(self).filters,
            final(self).preamp == old(self).preamp,
            final(self).bypassed == old(self).bypassed,
            final(self).name == old(self).name,
            final(self).max_filters == old(self).max_filters,
            final(self).selected_idx == if old(self).selected_idx + 1 < old(self).filters@.len() {
                old(self).selected_idx + 1
            } else {
                old(self).selected_idx as int
            },
    {
        if self.filters.len() > 0 && self.selected_idx < self.filters.len() - 1 {
            self.selected_idx += 1;
        }
    }

    /// Selects the previous band, staying on the first one.
    pub fn select_prev_filter(&mut self)
        requires
            old(self).wf(),
        ensures
            final(self).wf(),
            final(self).filters == old(self).filters,
            final(self).preamp == old(self).preamp,
            final(self).bypassed == old(self).bypassed,
            final(self).name == old(self).name,
            final(self).max_filters == old(self).max_filters,
            final(self).selected_idx == if old(self).selected_idx > 0 {
                old(self).selected_idx - 1
            } else {
                0
            },
    {
        if self.selected_idx > 0 {
            self.selected_idx -= 1;
        }
    }

    /// Selects band `idx` when there is one.
    pub fn select_index(&mut self, idx: usize)
        requires
            old(self).wf(),
        ensures
            final(self).wf(),
            final(self).filters == old(self).filters,
            final(self).preamp == old(self).preamp,
            final(self).bypassed == old(self).bypassed,
            final(self).name == old(self).name,
            final(self).max_filters == old(self).max_filters,
            final(self).selected_idx == if idx < old(self).filters@.len() {
                idx
            } else {
                old(self).selected_idx
            },
    {
        if idx < self.filters.len() {
            self.selected_idx = idx;
        }
    }

    /// Cycles the filter type of the selected band.
    pub fn cycle_filter_type(&mut self, rotation: Rotation)
        requires
            old(self).wf(),
        ensures
            final(self).wf(),
            final(self).selected_idx == old(self).selected_idx,
            final(self).preamp == old(self).preamp,
            final(self).bypassed == old(self).bypassed,
            final(self).name == old(self).name,
            final(self).max_filters == old(self).max_filters,
            old(self).selected_idx < old(self).filters@.len() ==> final(self).filters@
                == old(self).filters@.update(
                old(self).selected_idx as int,
                Band {
                    filter_type: rotated(
                        old(self).filters@[old(self).selected_idx as int].filter_type,
                        rotation,
                    ),
                    ..old(self).filters@[old(self).selected_idx as int]
                },
            ),
            old(self).selected_idx >= old(self).filters@.len() ==> final(self).filters
                == old(self).filters,
    {
        if self.selected_idx < self.filters.len() {
            let i = self.selected_idx;
            let b = self.filters.remove(i);
            let t = b.filter_type.rotate(rotation);
            self.filters.insert(i, Band { filter_type: t, ..b });
        }
    }

    /// Mutes or unmutes the selected band.
    pub fn toggle_mute(&mut self)
        requires
            old(self).wf(),
        ensures
            final(self).wf(),
            final(self).selected_idx == old(self).selected_idx,
            final(self).preamp == old(self).preamp,
            final(self).bypassed == old(self).bypassed,
            final(self).name == old(self).name,
            final(self).max_filters == old(self).max_filters,
            old(self).selected_idx < old(self).filters@.len() ==> final(self).filters@
                == old(self).filters@.update(
                old(self).selected_idx as int,
                Band {
                    muted: !old(self).filters@[old(self).selected_idx as int].muted,
                    ..old(self).filters@[old(self).selected_idx as int]
                },
            ),
            old(self).selected_idx >= old(self).filters@.len() ==> final(self).filters
                == old(self).filters,
    {
        if self.selected_idx < self.filters.len() {
            let i = self.selected_idx;
            let b = self.filters.remove(i);
            let m = !b.muted;
            self.filters.insert(i, Band { muted: m, ..b });
        }
    }

    pub fn toggle_bypass(&mut self)
        ensures
            final(self).bypassed == !old(self).bypassed,
            final(self).filters == old(self).filters,
            final(self).selected_idx == old(self).selected_idx,
            final(self).preamp == old(self).preamp,
            final(self).name == old(self).name,
            final(self).max_filters == old(self).max_filters,
    {
        self.bypassed = !self.bypassed;
    }
}


/// The fields besides the bands agree.
pub open spec fn same_settings(e0: Eq, e1: Eq) -> bool {
    &&& e1.name == e0.name
    &&& e1.preamp == e0.preamp
    &&& e1.bypassed == e0.bypassed
    &&& e1.selected_idx == e0.selected_idx
    &&& e1.max_filters == e0.max_filters
}

/// `e1` is `e0` with the selected band replaced by `f` of it; with no band
/// selected, the bands stay as they are.
pub open spec fn selected_band_set(e0: Eq, e1: Eq, f: spec_fn(Band) -> Band) -> bool {
    &&& same_settings(e0, e1)
    &&& if e0.selected_idx < e0.filters@.len() {
        e1.filters@ == e0.filters@.update(e0.selected_idx as int, f(e0.filters@[e0.selected_idx as int]))
    } else {
        e1.filters == e0.filters
    }
}

impl Eq {
    /// Sets the frequency of the selected band.
    pub fn set_frequency(&mut self, frequency: String)
        requires
            old(self).wf(),
        ensures
            final(self).wf(),
            selected_band_set(*old(self), *final(self), |b: Band| Band { frequency, ..b }),
    {
        if self.selected_idx < self.filters.len() {
            let i = self.selected_idx;
            let ghost before = self.filters@;
            let b = self.filters.remove(i);
            let nb = Band { frequency, ..b };
            self.filters.insert(i, nb);
            assert(self.filters@ =~= before.update(i as int, nb));
        }
    }

    /// Sets the gain of the selected band.
    pub fn set_gain(&mut self, gain: String)
        requires
            old(self).wf(),
        ensures
            final(self).wf(),
            selected_band_set(*old(self), *final(self), |b: Band| Band { gain, ..b }),
    {
        if self.selected_idx < self.filters.len() {
            let i = self.selected_idx;
            let ghost before = self.filters@;
            let b = self.filters.remove(i);
            let nb = Band { gain, ..b };
            self.filters.insert(i, nb);
            assert(self.filters@ =~= before.update(i as int, nb));
        }
    }

    /// Sets the quality factor of the selected band.
    pub fn set_q(&mut self, q: String)
        requires
            old(self).wf(),
        ensures
            final(self).wf(),
            selected_band_set(*old(self), *final(self), |b: Band| Band { q, ..b }),
    {
        if self.selected_idx < self.filters.len() {
            let i = self.selected_idx;
            let ghost before = self.filters@;
            let b = self.filters.remove(i);
            let nb = Band { q, ..b };
            self.filters.insert(i, nb);
            assert(self.filters@ =~= before.update(i as int, nb));
        }
    }

    pub fn set_preamp(&mut self, preamp: String)
        ensures
            *final(self) == (Eq { preamp, ..*old(self) }),
    {
        self.preamp = preamp;
    }

    /// Whether band `idx` is silenced: muted itself or the whole equalizer
    /// bypassed.
    pub fn band_muted(&self, idx: usize) -> (r: bool)
        requires
            idx < self.filters@.len(),
        ensures
            r == (self.filters@[idx as int].muted || self.bypassed),
    {
        self.filters[idx].muted || self.bypassed
    }

    /// The update that sets the preamp gain.
    pub fn build_preamp_update(&self) -> (u: UpdateFilter)
        ensures
            u.frequency is None,
            u.gain == Some(self.preamp),
            u.q is None,
            u.coeffs is None,
    {
        UpdateFilter { frequency: None, gain: Some(self.preamp.clone()), q: None, coeffs: None }
    }

    /// The update that sets band `idx` with the given coefficients: its
    /// frequency and Q, and its gain, or 0 while the band is silenced.
    pub fn build_filter_update(&self, idx: usize, coeffs: BiquadCoefficients) -> (u: UpdateFilter)
        requires
            idx < self.filters@.len(),
        ensures
            u.frequency == Some(self.filters@[idx as int].frequency),
            u.q == Some(self.filters@[idx as int].q),
            u.coeffs == Some(coeffs),
            u.gain matches Some(g) && if self.filters@[idx as int].muted || self.bypassed {
                g@ == "0"@
            } else {
                g == self.filters@[idx as int].gain
            },
    {
        let b = &self.filters[idx];
        let gain = if b.muted || self.bypassed {
            string_of(chars_of("0"))
        } else {
            b.gain.clone()
        };
        UpdateFilter {
            frequency: Some(b.frequency.clone()),
            gain: Some(gain),
            q: Some(b.q.clone()),
            coeffs: Some(coeffs),
        }
    }

    /// The updates of all bands: the preamp first, then each band with its
    /// coefficients, counted from 1.
    pub fn build_all_updates(&self, coeffs: Vec<BiquadCoefficients>) -> (r: Vec<(FilterId, UpdateFilter)>)
        requires
            coeffs@.len() == self.filters@.len(),
        ensures
            r@.len() == self.filters@.len() + 1,
            r@[0].0 == FilterId::Preamp,
            r@[0].1.gain == Some(self.preamp) && r@[0].1.frequency is None,
            forall|i: int|
                0 <= i < self.filters@.len() ==> {
                    &&& (#[trigger] r@[i + 1]).0 == FilterId::Index((i + 1) as usize)
                    &&& r@[i + 1].1.frequency == Some(self.filters@[i].frequency)
                    &&& r@[i + 1].1.coeffs == Some(coeffs@[i])
                },
    {
        let mut r: Vec<(FilterId, UpdateFilter)> = Vec::new();
        r.push((FilterId::Preamp, self.build_preamp_update()));
        let mut rest = coeffs;
        let ghost all = rest@;
        let mut i: usize = 0;
        while i < self.filters.len()
            invariant
                i <= self.filters@.len(),
                all.len() == self.filters@.len(),
                rest@ == all.skip(i as int),
                r@.len() == i + 1,
                r@[0].0 == FilterId::Preamp,
                r@[0].1.gain == Some(self.preamp) && r@[0].1.frequency is None,
                forall|k: int|
                    0 <= k < i ==> {
                        &&& (#[trigger] r@[k + 1]).0 == FilterId::Index((k + 1) as usize)
                        &&& r@[k + 1].1.frequency == Some(self.filters@[k].frequency)
                        &&& r@[k + 1].1.coeffs == Some(all[k])
                    },
            decreases self.filters.len() - i,
        {
            let c = rest.remove(0);
            assert(c == all[i as int]);
            r.push((FilterId::Index(i + 1), self.build_filter_update(i, c)));
            i += 1;
            assert(rest@ =~= all.skip(i as int));
        }
        r
    }

    /// The `.apo` configuration of the equalizer: its preamp, and each band
    /// numbered from 1, enabled unless muted.
    pub fn to_apo_config(&self) -> (c: apo::Config)
        requires
            self.filters@.len() <= u32::MAX,
        ensures
            c.preamp == self.preamp,
            c.filters@.len() == self.filters@.len(),
            forall|i: int|
                0 <= i < self.filters@.len() ==> {
                    let f = #[trigger] c.filters@[i];
                    let b = self.filters@[i];
                    &&& f.number == i + 1
                    &&& f.enabled == !b.muted
                    &&& f.filter_type == b.filter_type
                    &&& f.frequency == b.frequency
                    &&& f.gain == b.gain
                    &&& f.q == b.q
                },
    {
        let mut filters: Vec<apo::Filter> = Vec::new();
        let mut i: usize = 0;
        while i < self.filters.len()
            invariant
                i <= self.filters@.len(),
                self.filters@.len() <= u32::MAX,
                filters@.len() == i,
                forall|k: int|
                    0 <= k < i ==> {
                        let f = #[trigger] filters@[k];
                        let b = self.filters@[k];
                        &&& f.number == k + 1
                        &&& f.enabled == !b.muted
                        &&& f.filter_type == b.filter_type
                        &&& f.frequency == b.frequency
                        &&& f.gain == b.gain
                        &&& f.q == b.q
                    },
            decreases self.filters.len() - i,
        {
            let b = &self.filters[i];
            filters.push(
                apo::Filter {
                    number: (i + 1) as u32,
                    enabled: !b.muted,
                    filter_type: b.filter_type,
                    frequency: b.frequency.clone(),
                    gain: b.gain.clone(),
                    q: b.q.clone(),
                },
            );
            i += 1;
        }
        apo::Config { preamp: self.preamp.clone(), filters }
    }

    /// The filter-chain configuration that saves the equalizer as one
    /// `param_eq` node holding every band.
    pub fn to_param_eq_config(&self) -> (c: Config)
        ensures
            c.context_modules@.len() == 1,
            exists|kinds: Seq<NodeKind>| {
                &&& is_filter_chain_module(c.context_modules@[0], self.name@, self.preamp, kinds)
                &&& kinds.len() == 1
                &&& kinds[0] matches NodeKind::ParamEq { config }
                &&& config.filters@.len() == self.filters@.len()
                &&& forall|i: int|
                    0 <= i < self.filters@.len() ==> {
                        let f = #[trigger] config.filters@[i];
                        &&& f.ty == self.filters@[i].filter_type
                        &&& f.control.freq == self.filters@[i].frequency
                        &&& f.control.q == self.filters@[i].q
                        &&& f.control.gain == self.filters@[i].gain
                    }
            },
    {
        let mut fs: Vec<ParamEqFilter> = Vec::new();
        let mut i: usize = 0;
        while i < self.filters.len()
            invariant
                i <= self.filters@.len(),
                fs@.len() == i,
                forall|k: int|
                    0 <= k < i ==> {
                        let f = #[trigger] fs@[k];
                        &&& f.ty == self.filters@[k].filter_type
                        &&& f.control.freq == self.filters@[k].frequency
                        &&& f.control.q == self.filters@[k].q
                        &&& f.control.gain == self.filters@[k].gain
                    },
            decreases self.filters.len() - i,
        {
            let b = &self.filters[i];
            fs.push(
                ParamEqFilter {
                    ty: b.filter_type,
                    control: Control { freq: b.frequency.clone(), q: b.q.clone(), gain: b.gain.clone() },
                },
            );
            i += 1;
        }
        let mut kinds: Vec<NodeKind> = Vec::new();
        kinds.push(NodeKind::ParamEq { config: ParamEqConfig { filters: fs } });
        let ghost kv = kinds@;
        let c = Config::from_kinds(self.name.as_str(), self.preamp.clone(), kinds);
        assert(is_filter_chain_module(c.context_modules@[0], self.name@, self.preamp, kv));
        c
    }

    /// The arguments of the filter-chain module that plays the equalizer:
    /// named after it and its band count (`NAME-N`), with its preamp and a
    /// raw biquad node for each of the given coefficient sets at `rate`.
    pub fn to_module_args(&self, coefficients: &Vec<BiquadCoefficients>, rate: u32) -> (r: ModuleArgs)
        ensures
            exists|m: Module, kinds: Seq<NodeKind>| {
                &&& m.args == r
                &&& is_filter_chain_module(
                    m,
                    self.name@ + "-"@ + decimal(self.filters@.len() as nat),
                    self.preamp,
                    kinds,
                )
                &&& kinds.len() == coefficients@.len()
                &&& forall|i: int|
                    0 <= i < kinds.len() ==> (#[trigger] kinds[i] matches NodeKind::Raw { config }
                        && config.coefficients@.len() == 1 && config.coefficients@[0].rate == rate
                        && config.coefficients@[0].coefficients == coefficients@[i])
            },
    {
        let mut kinds: Vec<NodeKind> = Vec::new();
        let mut i: usize = 0;
        while i < coefficients.len()
            invariant
                i <= coefficients@.len(),
                kinds@.len() == i,
                forall|k: int|
                    0 <= k < i ==> (#[trigger] kinds@[k] matches NodeKind::Raw { config }
                        && config.coefficients@.len() == 1 && config.coefficients@[0].rate == rate
                        && config.coefficients@[0].coefficients == coefficients@[k]),
            decreases coefficients.len() - i,
        {
            let c = &coefficients[i];
            let copy = BiquadCoefficients {
                b0: c.b0.clone(),
                b1: c.b1.clone(),
                b2: c.b2.clone(),
                a1: c.a1.clone(),
                a2: c.a2.clone(),
            };
            let mut one: Vec<RateAndBiquadCoefficients> = Vec::new();
            one.push(RateAndBiquadCoefficients { rate, coefficients: copy });
            kinds.push(NodeKind::Raw { config: RawNodeConfig { coefficients: one } });
            i += 1;
        }
        let mut name = chars_of(self.name.as_str());
        append_chars(&mut name, &chars_of("-"));
        append_chars(&mut name, &decimal_chars(self.filters.len() as u64));
        let name = string_of(name);
        let ghost kv = kinds@;
        let m = Module::from_kinds(name.as_str(), self.preamp.clone(), kinds);
        assert(is_filter_chain_module(
            m,
            self.name@ + "-"@ + decimal(self.filters@.len() as nat),
            self.preamp,
            kv,
        ));
        m.args
    }
}

} // verus!
