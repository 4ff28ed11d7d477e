//! Key bindings grouped by input mode.
use std::collections::BTreeMap;

use vstd::prelude::*;
use vstd::laws_cmp::obeys_cmp;
use vstd::std_specs::btree::{group_btree_axioms, increasing_seq};
use vstd::std_specs::iter::IteratorSpec;

verus! {

broadcast use group_btree_axioms;

/// Key bindings: for each mode, the value each key is bound to.
///
/// The contracts hold when the mode and key types order their values as
/// `Ord` promises (`obeys_cmp`), as `BTreeMap` itself needs; vstd
/// establishes it for the integer types, and for other types it is the
/// premise under which the contracts speak.
#[derive(Debug)]
pub struct KeyMap<M: Ord, K: Ord, V> {
    bindings: BTreeMap<M, BTreeMap<K, V>>,
}

/// A marker for the action types that key maps bind keys to.
pub trait Action {}

/// The bindings of one mode; empty when the mode has none.
pub open spec fn mode_bindings<M, K, V>(m: Map<M, Map<K, V>>, mode: M) -> Map<K, V> {
    if m.contains_key(mode) {
        m[mode]
    } else {
        Map::empty()
    }
}

/// A configuration of the editor: key bindings and a theme.
pub struct Config<M: Ord, K: Ord, V, T> {
    pub keymap: KeyMap<M, K, V>,
    pub theme: T,
}

/// Both key maps' bindings, where `b`'s bindings replace `a`'s for the same
/// mode and key.
pub open spec fn merged<M, K, V>(a: Map<M, Map<K, V>>, b: Map<M, Map<K, V>>) -> Map<M, Map<K, V>> {
    Map::new(
        |m: M| a.contains_key(m) || b.contains_key(m),
        |m: M| if b.contains_key(m) {
            mode_bindings(a, m).union_prefer_right(b[m])
        } else {
            a[m]
        },
    )
}

/// Both ordered as `Ord` promises.
pub open spec fn ordered<M: Ord, K: Ord>() -> bool {
    obeys_cmp::<M>() && obeys_cmp::<K>()
}

impl<M: Ord, K: Ord, V> View for KeyMap<M, K, V> {
    type V = Map<M, Map<K, V>>;

    closed spec fn view(&self) -> Map<M, Map<K, V>> {
        self.bindings@.map_values(|inner: BTreeMap<K, V>| inner@)
    }
}

/// `BTreeMap::pop_first`: removes and returns the entry with the smallest
/// key. The contract claims only that the entry returned was in the map and
/// is gone from it (or that an empty map stays empty); which entry comes
/// first is not stated, as the merge needs every entry but no order.
#[verifier::external_body]
fn pop_first_entry<K: Ord, V>(m: &mut BTreeMap<K, V>) -> (r: Option<(K, V)>)
    ensures
        obeys_cmp::<K>() ==> match r {
            Some(kv) => old(m)@.contains_key(kv.0) && old(m)@[kv.0] == kv.1 && final(m)@ == old(
                m,
            )@.remove(kv.0),
            None => old(m)@.is_empty() && final(m)@ == old(m)@,
        },
{
    m.pop_first()
}

/// One step of an iterator.
fn advance<I: Iterator>(it: &mut I) -> (r: Option<I::Item>)
    ensures
        (*old(it)).obeys_prophetic_iter_laws() ==> if (*old(it)).remaining().len() > 0 {
            (*final(it)).remaining() == (*old(it)).remaining().drop_first() && r == Some(
                (*old(it)).remaining()[0],
            )
        } else {
            r is None && (*final(it)).remaining() == (*old(it)).remaining()
        },
{
    it.next()
}

impl<M: Ord, K: Ord, V> KeyMap<M, K, V> {
    pub fn new() -> (r: Self)
        ensures
            r@ == Map::<M, Map<K, V>>::empty(),
    {
        let r = KeyMap { bindings: BTreeMap::new() };
        assert(r@ =~= Map::<M, Map<K, V>>::empty());
        r
    }

    /// Binds `key` to `value` in `mode`, returning what it was bound to before.
    pub fn bind(&mut self, mode: M, key: K, value: V) -> (r: Option<V>)
        ensures
            ordered::<M, K>() ==> {
                &&& final(self)@ == old(self)@.insert(
                    mode,
                    mode_bindings(old(self)@, mode).insert(key, value),
                )
                &&& final(self)@ == apply_op(old(self)@, KeyOp::Bind(mode, key, value))
                &&& r == (if mode_bindings(old(self)@, mode).contains_key(key) {
                    Some(mode_bindings(old(self)@, mode)[key])
                } else {
                    None
                })
            },
    {
        let ghost before = self.bindings@;
        let mut inner = match self.bindings.remove(&mode) {
            Some(m) => m,
            None => BTreeMap::new(),
        };
        let r = inner.insert(key, value);
        self.bindings.insert(mode, inner);
        proof {
            if ordered::<M, K>() {
                assert(self@ =~= old(self)@.insert(
                    mode,
                    mode_bindings(old(self)@, mode).insert(key, value),
                ));
            }
        }
        r
    }

    /// The value `key` is bound to in `mode`.
    pub fn get(&self, mode: &M, key: &K) -> (r: Option<&V>)
        ensures
            ordered::<M, K>() ==> match r {
                Some(v) => mode_bindings(self@, *mode).contains_key(*key) && *v == mode_bindings(
                    self@,
                    *mode,
                )[*key],
                None => !mode_bindings(self@, *mode).contains_key(*key),
            },
    {
        match self.bindings.get(mode) {
            Some(inner) => inner.get(key),
            None => None,
        }
    }

    /// The bindings of `mode`, in increasing key order.
    pub fn iter_mode(&self, mode: &M) -> (r: Vec<(&K, &V)>)
        ensures
            ordered::<M, K>() ==> {
                let b = mode_bindings(self@, *mode);
                &&& r@.len() == b.dom().len()
                &&& forall|i: int|
                    0 <= i < r@.len() ==> b.contains_key(*(#[trigger] r@[i]).0) && b[*r@[i].0]
                        == *r@[i].1
                &&& forall|k: K| #[trigger] b.contains_key(k) ==> exists|i: int|
                    0 <= i < r@.len() && *r@[i].0 == k
                &&& increasing_seq(r@.map_values(|kv: (&K, &V)| *kv.0))
            },
    {
        let mut r: Vec<(&K, &V)> = Vec::new();
        match self.bindings.get(mode) {
            None => {
                proof {
                    if ordered::<M, K>() {
                        assert(mode_bindings(self@, *mode) =~= Map::<K, V>::empty());
                        assert(r@.map_values(|kv: (&K, &V)| *kv.0) =~= Seq::<K>::empty());
                        assert(increasing_seq(r@.map_values(|kv: (&K, &V)| *kv.0)));
                    }
                }
                r
            },
            Some(inner) => {
                let mut it = inner.iter();
                let ghost all = it.remaining();
                let n = inner.len();
                let mut i: usize = 0;
                let mut done = false;
                assert(r@ + it.remaining() =~= all);
                while i < n && !done
                    invariant
                        r@ + it.remaining() == all,
                        ordered::<M, K>() ==> all.len() == n,
                        !done ==> r@.len() == i,
                        done ==> it.remaining().len() == 0,
                    decreases n - i,
                {
                    let ghost before = it.remaining();
                    match advance(&mut it) {
                        Some(kv) => {
                            r.push(kv);
                            assert(r@ + it.remaining() =~= all);
                        },
                        None => {
                            done = true;
                        },
                    }
                    i += 1;
                }
                proof {
                    if ordered::<M, K>() {
                        assert(it.remaining().len() == 0);
                        assert(r@ =~= all);
                    }
                }
                r
            },
        }
    }

    /// Merges `other` into this key map; its bindings win where both bind a key.
    pub fn merge(&mut self, other: KeyMap<M, K, V>)
        ensures
            ordered::<M, K>() ==> final(self)@ == merged(old(self)@, other@),
            ordered::<M, K>() ==> final(self)@ == apply_op(old(self)@, KeyOp::Merge(other@)),
    {
        let ghost target = merged(old(self)@, other@);
        let mut rest = other.bindings;
        let n = rest.len();
        let mut i: usize = 0;
        let mut done = false;
        while i < n && !done
            invariant
                ordered::<M, K>() ==> rest@.len() + i == n,
                ordered::<M, K>() ==> merged(self@, rest@.map_values(|inner: BTreeMap<K, V>| inner@))
                    == target,
                ordered::<M, K>() && done ==> rest@.is_empty(),
                ordered::<M, K>() ==> rest@.dom().finite(),
            decreases n - i,
        {
            let ghost rest_before = rest@;
            match pop_first_entry(&mut rest) {
                None => {
                    done = true;
                },
                Some((mode, mode_map)) => {
                    let ghost mm0 = mode_map@;
                    let ghost self_before = self@;
                    let mut entry = match self.bindings.remove(&mode) {
                        Some(m) => m,
                        None => BTreeMap::new(),
                    };
                    let ghost e0 = entry@;
                    proof {
                        if ordered::<M, K>() {
                            assert(e0 == mode_bindings(self_before, mode));
                        }
                    }
                    let mut mm = mode_map;
                    let m = mm.len();
                    let mut j: usize = 0;
                    let mut inner_done = false;
                    while j < m && !inner_done
                        invariant
                            ordered::<M, K>() ==> mm@.len() + j == m,
                            ordered::<M, K>() ==> entry@.union_prefer_right(mm@) == e0.union_prefer_right(mm0),
                            ordered::<M, K>() && inner_done ==> mm@.is_empty(),
                            ordered::<M, K>() ==> mm@.dom().finite(),
                        decreases m - j,
                    {
                        let ghost mm_before = mm@;
                        let ghost entry_before = entry@;
                        match pop_first_entry(&mut mm) {
                            None => {
                                inner_done = true;
                            },
                            Some((key, value)) => {
                                entry.insert(key, value);
                                proof {
                                    if ordered::<M, K>() {
                                        assert(entry@.union_prefer_right(mm@) =~= entry_before.union_prefer_right(
                                            mm_before,
                                        ));
                                    }
                                }
                            },
                        }
                        j += 1;
                    }
                    proof {
                        if ordered::<M, K>() && !inner_done {
                            assert(mm@.dom().len() == 0);
                            assert(mm@.dom() =~= Set::<K>::empty());
                        }
                        if ordered::<M, K>() {
                            assert(entry@.union_prefer_right(mm@) =~= entry@);
                        }
                    }
                    self.bindings.insert(mode, entry);
                    proof {
                        if ordered::<M, K>() {
                            let rv_before = rest_before.map_values(|inner: BTreeMap<K, V>| inner@);
                            let rv_after = rest@.map_values(|inner: BTreeMap<K, V>| inner@);
                            assert(rv_after =~= rv_before.remove(mode));
                            assert(self@ =~= self_before.insert(
                                mode,
                                mode_bindings(self_before, mode).union_prefer_right(mm0),
                            ));
                            assert(merged(self@, rv_after) =~= merged(self_before, rv_before));
                        }
                    }
                },
            }
            i += 1;
        }
        proof {
            if ordered::<M, K>() {
                if !done {
                    assert(rest@.dom().len() == 0);
                    assert(rest@.dom() =~= Set::<M>::empty());
                }
                let rv = rest@.map_values(|inner: BTreeMap<K, V>| inner@);
                assert(rv =~= Map::<M, Map<K, V>>::empty());
                assert(merged(self@, rv) =~= self@);
            }
        }
    }
}

impl<M: Ord, K: Ord, V> Default for KeyMap<M, K, V> {
    /// A key map with no bindings.
    fn default() -> (r: Self)
        ensures
            r@ == Map::<M, Map<K, V>>::empty(),
    {
        Self::new()
    }
}

impl<M: Ord, K: Ord, V, T> Config<M, K, V, T> {
    /// Right-biased merge: `other`'s bindings win where both bind a key,
    /// this configuration's other bindings are kept, and `other`'s theme
    /// is taken.
    pub fn merge(self, other: Config<M, K, V, T>) -> (r: Config<M, K, V, T>)
        ensures
            r.theme == other.theme,
            ordered::<M, K>() ==> r.keymap@ == merged(self.keymap@, other.keymap@),
    {
        let mut keymap = self.keymap;
        keymap.merge(other.keymap);
        Config { keymap, theme: other.theme }
    }
}

/// After `key` is bound to `value` in `mode`, the key reads back as bound
/// to `value` there.
pub proof fn lemma_bind_then_get<M, K, V>(m: Map<M, Map<K, V>>, mode: M, key: K, value: V)
    ensures
        mode_bindings(m.insert(mode, mode_bindings(m, mode).insert(key, value)), mode).contains_key(key),
        mode_bindings(m.insert(mode, mode_bindings(m, mode).insert(key, value)), mode)[key] == value,
{
}

/// Binding a key in one mode leaves every other mode's bindings as they
/// were, and the mode's other keys too.
pub proof fn lemma_bind_keeps_others<M, K, V>(
    m: Map<M, Map<K, V>>,
    mode: M,
    key: K,
    value: V,
    other_mode: M,
    other_key: K,
)
    ensures
        other_mode != mode ==> mode_bindings(
            m.insert(mode, mode_bindings(m, mode).insert(key, value)),
            other_mode,
        ) == mode_bindings(m, other_mode),
        other_key != key ==> (mode_bindings(
            m.insert(mode, mode_bindings(m, mode).insert(key, value)),
            mode,
        ).contains_key(other_key) == mode_bindings(m, mode).contains_key(other_key)),
        other_key != key && mode_bindings(m, mode).contains_key(other_key) ==> mode_bindings(
            m.insert(mode, mode_bindings(m, mode).insert(key, value)),
            mode,
        )[other_key] == mode_bindings(m, mode)[other_key],
{
}

/// Merging is right-biased: a key that the merged-in map binds in a mode
/// reads as that binding; any other key keeps its own binding.
pub proof fn lemma_merge_right_biased<M, K, V>(a: Map<M, Map<K, V>>, b: Map<M, Map<K, V>>, mode: M, key: K)
    ensures
        mode_bindings(b, mode).contains_key(key) ==> mode_bindings(merged(a, b), mode).contains_key(key)
            && mode_bindings(merged(a, b), mode)[key] == mode_bindings(b, mode)[key],
        !mode_bindings(b, mode).contains_key(key) ==> (mode_bindings(merged(a, b), mode).contains_key(key)
            == mode_bindings(a, mode).contains_key(key)),
        !mode_bindings(b, mode).contains_key(key) && mode_bindings(a, mode).contains_key(key)
            ==> mode_bindings(merged(a, b), mode)[key] == mode_bindings(a, mode)[key],
{
}


/// An operation on a key map: a binding, or a merge of another map's
/// bindings.
#[verifier::reject_recursive_types(M)]
#[verifier::reject_recursive_types(K)]
pub ghost enum KeyOp<M, K, V> {
    Bind(M, K, V),
    Merge(Map<M, Map<K, V>>),
}

/// The bindings after one operation, as `bind` and `merge` state it.
pub open spec fn apply_op<M, K, V>(m: Map<M, Map<K, V>>, op: KeyOp<M, K, V>) -> Map<M, Map<K, V>> {
    match op {
        KeyOp::Bind(mode, key, value) => m.insert(mode, mode_bindings(m, mode).insert(key, value)),
        KeyOp::Merge(b) => merged(m, b),
    }
}

/// The bindings after a sequence of operations, in order.
pub open spec fn apply_ops<M, K, V>(m: Map<M, Map<K, V>>, ops: Seq<KeyOp<M, K, V>>) -> Map<
    M,
    Map<K, V>,
>
    decreases ops.len(),
{
    if ops.len() == 0 {
        m
    } else {
        apply_op(apply_ops(m, ops.drop_last()), ops.last())
    }
}

/// The value that the last operation writing `key` in `mode` wrote, if any
/// did.
pub open spec fn last_write<M, K, V>(ops: Seq<KeyOp<M, K, V>>, mode: M, key: K) -> Option<V>
    decreases ops.len(),
{
    if ops.len() == 0 {
        None
    } else {
        match ops.last() {
            KeyOp::Bind(m, k, v) => if m == mode && k == key {
                Some(v)
            } else {
                last_write(ops.drop_last(), mode, key)
            },
            KeyOp::Merge(b) => if mode_bindings(b, mode).contains_key(key) {
                Some(mode_bindings(b, mode)[key])
            } else {
                last_write(ops.drop_last(), mode, key)
            },
        }
    }
}

/// After any sequence of binds and merges, a key reads as what the last
/// operation that wrote it wrote; a key that no operation wrote reads as it
/// did before (unbound, for a map made by `new`).
pub proof fn lemma_ops_last_write<M, K, V>(
    m: Map<M, Map<K, V>>,
    ops: Seq<KeyOp<M, K, V>>,
    mode: M,
    key: K,
)
    ensures
        match last_write(ops, mode, key) {
            Some(v) => mode_bindings(apply_ops(m, ops), mode).contains_key(key) && mode_bindings(
                apply_ops(m, ops),
                mode,
            )[key] == v,
            None => mode_bindings(apply_ops(m, ops), mode).contains_key(key)
                == mode_bindings(m, mode).contains_key(key) && (mode_bindings(m, mode).contains_key(
                key,
            ) ==> mode_bindings(apply_ops(m, ops), mode)[key] == mode_bindings(m, mode)[key]),
        },
    decreases ops.len(),
{
    if ops.len() > 0 {
        lemma_ops_last_write(m, ops.drop_last(), mode, key);
        let before = apply_ops(m, ops.drop_last());
        match ops.last() {
            KeyOp::Bind(bm, bk, bv) => {
                lemma_bind_then_get(before, bm, bk, bv);
                lemma_bind_keeps_others(before, bm, bk, bv, mode, key);
            },
            KeyOp::Merge(b) => {
                lemma_merge_right_biased(before, b, mode, key);
            },
        }
    }
}

/// Merging a map with no bindings changes nothing.
pub proof fn lemma_merge_empty_right<M, K, V>(a: Map<M, Map<K, V>>)
    ensures
        merged(a, Map::empty()) == a,
{
    assert(merged(a, Map::empty()) =~= a);
}

/// Merging into a map with no bindings gives the merged-in map.
pub proof fn lemma_merge_into_empty<M, K, V>(b: Map<M, Map<K, V>>)
    ensures
        merged(Map::empty(), b) == b,
{
    assert forall|m: M| #[trigger] b.contains_key(m) implies merged(Map::empty(), b)[m] == b[m] by {
        assert(mode_bindings(Map::<M, Map<K, V>>::empty(), m) =~= Map::<K, V>::empty());
        assert(Map::<K, V>::empty().union_prefer_right(b[m]) =~= b[m]);
    }
    assert(merged(Map::empty(), b) =~= b);
}

/// Merging the same map twice is merging it once.
pub proof fn lemma_merge_twice<M, K, V>(a: Map<M, Map<K, V>>, b: Map<M, Map<K, V>>)
    ensures
        merged(merged(a, b), b) == merged(a, b),
{
    let once = merged(a, b);
    assert forall|m: M| #[trigger] once.contains_key(m) implies merged(once, b)[m] == once[m] by {
        if b.contains_key(m) {
            assert(mode_bindings(once, m).union_prefer_right(b[m]) =~= once[m]);
        }
    }
    assert(merged(once, b) =~= once);
}

} // verus!
