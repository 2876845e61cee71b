//! The colour maps a visualization state keeps for each explanation mode,
//! and the explanation mode it currently shows.
use vstd::prelude::*;

use crate::modes::{color_map_kept, keeps_color_map, ExplanationMode};

verus! {

/// No explanation mode occurs twice among the entries.
pub open spec fn keys_distinct<V>(s: Seq<(ExplanationMode, V)>) -> bool {
    forall|i: int, j: int|
        #![trigger s[i], s[j]]
        0 <= i < s.len() && 0 <= j < s.len() && i != j ==> s[i].0 != s[j].0
}

/// Some entry has the explanation mode `k`.
pub open spec fn has_key<V>(s: Seq<(ExplanationMode, V)>, k: ExplanationMode) -> bool {
    exists|i: int| 0 <= i < s.len() && #[trigger] s[i].0 == k
}

/// The entries as a map from explanation mode to colour map.
pub open spec fn entries_map<V>(s: Seq<(ExplanationMode, V)>) -> Map<ExplanationMode, V> {
    Map::new(
        |k: ExplanationMode| has_key(s, k),
        |k: ExplanationMode| s[choose|i: int| 0 <= i < s.len() && #[trigger] s[i].0 == k].1,
    )
}

/// With distinct keys, the map holds each entry.
proof fn lemma_entry<V>(s: Seq<(ExplanationMode, V)>, i: int)
    requires
        keys_distinct(s),
        0 <= i < s.len(),
    ensures
        entries_map(s).contains_key(s[i].0),
        entries_map(s)[s[i].0] == s[i].1,
{
    assert(has_key(s, s[i].0));
    let j = choose|j: int| 0 <= j < s.len() && #[trigger] s[j].0 == s[i].0;
    assert(s[j].0 == s[i].0);
}

/// The colour map of each explanation mode that was computed, and the mode
/// being shown.
pub struct ColorMaps<V> {
    entries: Vec<(ExplanationMode, V)>,
    explanation: ExplanationMode,
}

impl<V> ColorMaps<V> {
    /// The colour maps by explanation mode.
    pub closed spec fn maps(&self) -> Map<ExplanationMode, V> {
        entries_map(self.entries@)
    }

    /// The explanation mode being shown.
    pub closed spec fn current(&self) -> ExplanationMode {
        self.explanation
    }

    /// No explanation mode has two entries.
    closed spec fn distinct(&self) -> bool {
        keys_distinct(self.entries@)
    }

    /// The entries are consistent, the map for showing no explanation is
    /// always there, and so is the map of the mode being shown.
    pub closed spec fn wf(&self) -> bool {
        &&& self.distinct()
        &&& self.maps().contains_key(ExplanationMode::NoExplanation)
        &&& self.maps().contains_key(self.current())
    }

    /// A consistent store holds the colour map for showing no explanation and
    /// the colour map of the mode it shows. Every operation keeps the store
    /// consistent, so the mode shown always has a colour map.
    pub proof fn shown_mode_has_map(&self)
        requires
            self.wf(),
        ensures
            self.maps().contains_key(ExplanationMode::NoExplanation),
            self.maps().contains_key(self.current()),
    {
    }

    /// Start with only the colour map for showing no explanation, and show that.
    pub fn new(default: V) -> (res: Self)
        ensures
            res.wf(),
            res.maps() == Map::<ExplanationMode, V>::empty().insert(
                ExplanationMode::NoExplanation,
                default,
            ),
            res.current() == ExplanationMode::NoExplanation,
    {
        let mut entries: Vec<(ExplanationMode, V)> = Vec::new();
        entries.push((ExplanationMode::NoExplanation, default));
        let res = ColorMaps { entries, explanation: ExplanationMode::NoExplanation };
        proof {
            lemma_entry(res.entries@, 0);
            assert(res.maps() =~= Map::<ExplanationMode, V>::empty().insert(
                ExplanationMode::NoExplanation,
                default,
            ));
        }
        res
    }

    /// The position of the entry for `mode`.
    fn find(&self, mode: ExplanationMode) -> (res: Option<usize>)
        requires
            self.distinct(),
        ensures
            match res {
                Some(i) => i < self.entries@.len() && self.entries@[i as int].0 == mode,
                None => !has_key(self.entries@, mode),
            },
    {
        let mut i: usize = 0;
        while i < self.entries.len()
            invariant
                i <= self.entries@.len(),
                forall|j: int| 0 <= j < i ==> #[trigger] self.entries@[j].0 != mode,
            decreases self.entries@.len() - i,
        {
            if self.entries[i].0 == mode {
                return Some(i);
            }
            i = i + 1;
        }
        None
    }

    /// Check if a given explanation mode is already loaded for the state
    pub fn is_explanation_available(&self, mode: ExplanationMode) -> (b: bool)
        requires
            self.wf(),
        ensures
            b == self.maps().contains_key(mode),
    {
        self.find(mode).is_some()
    }

    /// The colour map of an explanation mode, if it was computed.
    pub fn get(&self, mode: ExplanationMode) -> (res: Option<&V>)
        requires
            self.wf(),
        ensures
            match res {
                Some(v) => self.maps().contains_key(mode) && *v == self.maps()[mode],
                None => !self.maps().contains_key(mode),
            },
    {
        match self.find(mode) {
            Some(i) => {
                proof {
                    lemma_entry(self.entries@, i as int);
                }
                Some(&self.entries[i].1)
            },
            None => None,
        }
    }

    /// Get a reference to the color map that is currently being displayed.
    pub fn get_current_color_map(&self) -> (res: &V)
        requires
            self.wf(),
        ensures
            *res == self.maps()[self.current()],
    {
        self.get(self.explanation).unwrap()
    }

    /// Get the current explanation mode
    pub fn get_explanation_mode(&self) -> (mode: ExplanationMode)
        ensures
            mode == self.current(),
    {
        self.explanation
    }

    /// Store the colour map of an explanation mode, replacing any earlier one.
    pub fn insert(&mut self, mode: ExplanationMode, map: V)
        requires
            old(self).wf(),
        ensures
            final(self).wf(),
            final(self).maps() == old(self).maps().insert(mode, map),
            final(self).current() == old(self).current(),
    {
        let ghost s = self.entries@;
        match self.find(mode) {
            Some(i) => {
                self.entries.set(i, (mode, map));
                proof {
                    let t = self.entries@;
                    assert(t =~= s.update(i as int, (mode, map)));
                    assert(keys_distinct(t));
                    assert forall|k: ExplanationMode| has_key(t, k) <==> has_key(s, k) by {
                        if has_key(t, k) {
                            let j = choose|j: int| 0 <= j < t.len() && #[trigger] t[j].0 == k;
                            assert(s[j].0 == k);
                        }
                        if has_key(s, k) {
                            let j = choose|j: int| 0 <= j < s.len() && #[trigger] s[j].0 == k;
                            assert(t[j].0 == k);
                        }
                    }
                    assert forall|k: ExplanationMode| #[trigger]
                        entries_map(t).contains_key(k) implies entries_map(t)[k] == entries_map(
                        s,
                    ).insert(mode, map)[k] by {
                        let j = choose|j: int| 0 <= j < t.len() && #[trigger] t[j].0 == k;
                        lemma_entry(t, j);
                        if j != i {
                            lemma_entry(s, j);
                        }
                    }
                    assert(entries_map(t) =~= entries_map(s).insert(mode, map));
                }
            },
            None => {
                self.entries.push((mode, map));
                proof {
                    let t = self.entries@;
                    assert(t =~= s.push((mode, map)));
                    assert forall|a: int, b: int|
                        #![trigger t[a], t[b]]
                        0 <= a < t.len() && 0 <= b < t.len() && a != b implies t[a].0 != t[b].0 by {
                        if a == s.len() {
                            assert(s[b] == t[b]);
                        } else if b == s.len() {
                            assert(s[a] == t[a]);
                        } else {
                            assert(s[a] == t[a] && s[b] == t[b]);
                        }
                    }
                    assert forall|k: ExplanationMode| has_key(t, k) <==> (has_key(s, k) || k
                        == mode) by {
                        if has_key(t, k) {
                            let j = choose|j: int| 0 <= j < t.len() && #[trigger] t[j].0 == k;
                            if j < s.len() {
                                assert(s[j].0 == k);
                            }
                        }
                        if has_key(s, k) {
                            let j = choose|j: int| 0 <= j < s.len() && #[trigger] s[j].0 == k;
                            assert(t[j].0 == k);
                        }
                        if k == mode {
                            assert(t[s.len() as int].0 == k);
                        }
                    }
                    assert forall|k: ExplanationMode| #[trigger]
                        entries_map(t).contains_key(k) implies entries_map(t)[k] == entries_map(
                        s,
                    ).insert(mode, map)[k] by {
                        let j = choose|j: int| 0 <= j < t.len() && #[trigger] t[j].0 == k;
                        lemma_entry(t, j);
                        if j < s.len() {
                            assert(s[j] == t[j]);
                            lemma_entry(s, j);
                        }
                    }
                    assert(entries_map(t) =~= entries_map(s).insert(mode, map));
                }
            },
        }
    }

    /// Remove the entry at position `i`.
    fn remove_at(&mut self, i: usize) -> (removed: (ExplanationMode, V))
        requires
            old(self).distinct(),
            i < old(self).entries@.len(),
        ensures
            final(self).distinct(),
            removed == old(self).entries@[i as int],
            final(self).current() == old(self).current(),
            final(self).entries@.len() == old(self).entries@.len() - 1,
            forall|j: int|
                0 <= j < i ==> #[trigger] final(self).entries@[j] == old(self).entries@[j],
            forall|j: int|
                #![trigger old(self).entries@[j]]
                0 <= j < old(self).entries@.len() && j != i ==> exists|k: int|
                    0 <= k < final(self).entries@.len() && #[trigger] final(self).entries@[k]
                        == old(self).entries@[j],
            forall|k: int|
                #![trigger final(self).entries@[k]]
                0 <= k < final(self).entries@.len() ==> exists|j: int|
                    0 <= j < old(self).entries@.len() && j != i && #[trigger] old(
                        self,
                    ).entries@[j] == final(self).entries@[k],
    {
        let ghost s = self.entries@;
        let removed = self.entries.swap_remove(i);
        proof {
            let t = self.entries@;
            let last = s.len() - 1;
            assert forall|j: int| #![trigger s[j]] 0 <= j < s.len() && j != i implies exists|k: int|
                0 <= k < t.len() && #[trigger] t[k] == s[j] by {
                if j == last {
                    assert(t[i as int] == s[j]);
                } else {
                    assert(t[j] == s[j]);
                }
            }
            assert forall|k: int| #![trigger t[k]] 0 <= k < t.len() implies exists|j: int|
                0 <= j < s.len() && j != i && #[trigger] s[j] == t[k] by {
                if k == i {
                    assert(s[last] == t[k]);
                } else {
                    assert(s[k] == t[k]);
                }
            }
            assert forall|a: int, b: int|
                #![trigger t[a], t[b]]
                0 <= a < t.len() && 0 <= b < t.len() && a != b implies t[a].0 != t[b].0 by {
                let ja = if a == i {
                    last
                } else {
                    a
                };
                let jb = if b == i {
                    last
                } else {
                    b
                };
                assert(t[a] == s[ja] && t[b] == s[jb]);
            }
        }
        removed
    }

    /// Take out the entry at position `i`; the entries before it stay in place.
    fn take_at(&mut self, i: usize) -> (removed: (ExplanationMode, V))
        requires
            old(self).distinct(),
            i < old(self).entries@.len(),
        ensures
            final(self).distinct(),
            final(self).current() == old(self).current(),
            removed == old(self).entries@[i as int],
            old(self).maps().contains_key(removed.0),
            old(self).maps()[removed.0] == removed.1,
            final(self).maps() == old(self).maps().remove(removed.0),
            final(self).entries@.len() == old(self).entries@.len() - 1,
            forall|j: int|
                0 <= j < i ==> #[trigger] final(self).entries@[j] == old(self).entries@[j],
    {
        let ghost s = self.entries@;
        proof {
            lemma_entry(s, i as int);
        }
        let removed = self.remove_at(i);
        proof {
            let t = self.entries@;
            let mode = removed.0;
            assert forall|k: ExplanationMode| has_key(t, k) <==> (has_key(s, k) && k != mode) by {
                if has_key(t, k) {
                    let a = choose|a: int| 0 <= a < t.len() && #[trigger] t[a].0 == k;
                    let j = choose|j: int| 0 <= j < s.len() && j != i && #[trigger] s[j] == t[a];
                    assert(s[j].0 == k);
                }
                if has_key(s, k) && k != mode {
                    let j = choose|j: int| 0 <= j < s.len() && #[trigger] s[j].0 == k;
                    assert(j != i);
                    let a = choose|a: int| 0 <= a < t.len() && #[trigger] t[a] == s[j];
                    assert(t[a].0 == k);
                }
            }
            assert forall|k: ExplanationMode| #[trigger]
                entries_map(t).contains_key(k) implies entries_map(t)[k] == entries_map(
                s,
            ).remove(mode)[k] by {
                let a = choose|a: int| 0 <= a < t.len() && #[trigger] t[a].0 == k;
                let j = choose|j: int| 0 <= j < s.len() && j != i && #[trigger] s[j] == t[a];
                lemma_entry(t, a);
                lemma_entry(s, j);
            }
            assert(entries_map(t) =~= entries_map(s).remove(mode));
        }
        removed
    }

    /// Take the colour map of an explanation mode out, to change it or to drop
    /// it. The map for showing no explanation stays; when the mode taken out
    /// was shown, no explanation is shown instead.
    pub fn take(&mut self, mode: ExplanationMode) -> (res: Option<V>)
        requires
            old(self).wf(),
            mode != ExplanationMode::NoExplanation,
        ensures
            final(self).wf(),
            final(self).current() == if old(self).current() == mode {
                ExplanationMode::NoExplanation
            } else {
                old(self).current()
            },
            match res {
                Some(v) => old(self).maps().contains_key(mode) && v == old(self).maps()[mode],
                None => !old(self).maps().contains_key(mode),
            },
            final(self).maps() == old(self).maps().remove(mode),
    {
        if self.explanation == mode {
            self.explanation = ExplanationMode::NoExplanation;
        }
        match self.find(mode) {
            Some(i) => {
                let removed = self.take_at(i);
                Some(removed.1)
            },
            None => {
                assert(self.maps() =~= self.maps().remove(mode));
                None
            },
        }
    }

    /// Show the explanation mode `mode` when its colour map is available;
    /// returns whether it is shown.
    pub fn set_explanation_mode(&mut self, mode: ExplanationMode) -> (shown: bool)
        requires
            old(self).wf(),
            mode != ExplanationMode::Normal,
        ensures
            final(self).wf(),
            shown == old(self).maps().contains_key(mode),
            final(self).current() == if shown {
                mode
            } else {
                old(self).current()
            },
            final(self).maps() == old(self).maps(),
    {
        if self.is_explanation_available(mode) {
            self.explanation = mode;
            true
        } else {
            false
        }
    }

    /// Prepare for computing the explanation `computed`: show no explanation,
    /// and drop the colour maps that the new one replaces (never the map for
    /// showing no explanation).
    pub fn prepare_recompute(&mut self, computed: ExplanationMode)
        requires
            old(self).wf(),
        ensures
            final(self).wf(),
            final(self).current() == ExplanationMode::NoExplanation,
            final(self).maps() == old(self).maps().restrict(
                old(self).maps().dom().filter(|k: ExplanationMode| color_map_kept(k, computed)),
            ),
    {
        self.explanation = ExplanationMode::NoExplanation;
        let ghost m0 = self.maps();
        let mut i: usize = 0;
        while i < self.entries.len()
            invariant
                self.distinct(),
                m0.contains_key(ExplanationMode::NoExplanation),
                self.explanation == ExplanationMode::NoExplanation,
                i <= self.entries@.len(),
                forall|j: int| 0 <= j < i ==> color_map_kept(#[trigger] self.entries@[j].0, computed),
                forall|k: ExplanationMode| #[trigger]
                    self.maps().contains_key(k) ==> m0.contains_key(k) && self.maps()[k] == m0[k],
                forall|k: ExplanationMode|
                    m0.contains_key(k) && color_map_kept(k, computed) ==> #[trigger] self.maps().contains_key(k),
            decreases self.entries@.len() - i,
        {
            if keeps_color_map(self.entries[i].0, computed) {
                i = i + 1;
            } else {
                self.take_at(i);
            }
        }
        proof {
            let t = self.entries@;
            let expected = m0.restrict(m0.dom().filter(|k: ExplanationMode| color_map_kept(k, computed)));
            assert forall|k: ExplanationMode| #[trigger] self.maps().contains_key(k) implies color_map_kept(k, computed) by {
                let a = choose|a: int| 0 <= a < t.len() && #[trigger] t[a].0 == k;
                assert(color_map_kept(t[a].0, computed));
            }
            assert(self.maps() =~= expected);
            assert(color_map_kept(ExplanationMode::NoExplanation, computed));
        }
    }
}


/// Computing an explanation other than showing none drops the colour map it
/// replaces: afterwards that mode has no colour map until the new one is
/// stored.
pub proof fn recomputed_mode_is_dropped<V>(maps: Map<ExplanationMode, V>, computed: ExplanationMode)
    requires
        computed != ExplanationMode::NoExplanation,
    ensures
        !maps.restrict(maps.dom().filter(|k: ExplanationMode| color_map_kept(k, computed))).contains_key(
            computed,
        ),
{
}

/// Preparing any recomputation keeps the colour map for showing no
/// explanation, so the shown mode always has a colour map.
pub proof fn plain_map_is_kept<V>(maps: Map<ExplanationMode, V>, computed: ExplanationMode)
    requires
        maps.contains_key(ExplanationMode::NoExplanation),
    ensures
        maps.restrict(maps.dom().filter(|k: ExplanationMode| color_map_kept(k, computed))).contains_key(
            ExplanationMode::NoExplanation,
        ),
{
}

} // verus!
