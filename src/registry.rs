use vstd::prelude::*;

use crate::counters::{counters_delta, zero_counters, Counters, NetworkData};

verus! {

/// One interface as a backend reported it in a scan: its name, its
/// platform-local handle (the interface index of a routing record, or the
/// LUID of a table row) and its counters.
pub struct Observation {
    pub name: String,
    pub id: u64,
    pub reading: Counters,
}

/// What an observation stands for.
pub struct Sighting {
    pub name: Seq<char>,
    pub id: u64,
    pub reading: Counters,
}

impl View for Observation {
    type V = Sighting;

    open spec fn view(&self) -> Sighting {
        Sighting { name: self.name@, id: self.id, reading: self.reading }
    }
}

pub open spec fn sightings(s: Seq<Observation>) -> Seq<Sighting> {
    s.map_values(|o: Observation| o@)
}

/// The registry after one sighting in a full rescan: a known interface's
/// readings rotate, an unknown one is added with equal readings.
pub open spec fn observe(m: Map<Seq<char>, NetworkData>, o: Sighting) -> Map<Seq<char>, NetworkData> {
    if m.contains_key(o.name) {
        m.insert(o.name, m[o.name].spec_rotate(o.reading))
    } else {
        m.insert(o.name, NetworkData::spec_first(o.id, o.reading))
    }
}

pub open spec fn observe_all(m: Map<Seq<char>, NetworkData>, s: Seq<Sighting>) -> Map<Seq<char>, NetworkData>
    decreases s.len(),
{
    if s.len() == 0 {
        m
    } else {
        observe(observe_all(m, s.drop_last()), s.last())
    }
}

/// The names that a scan reported.
pub open spec fn names_of(s: Seq<Sighting>) -> Set<Seq<char>> {
    Set::new(|k: Seq<char>| exists|j: int| 0 <= j < s.len() && #[trigger] s[j].name == k)
}

/// The registry after a full rescan that reported `s`: every sighting is
/// applied in order, then every interface that was not reported is evicted.
pub open spec fn rescan(m: Map<Seq<char>, NetworkData>, s: Seq<Sighting>) -> Map<Seq<char>, NetworkData> {
    observe_all(m, s).restrict(names_of(s))
}

/// The registry after one reading in a counters-only refresh: only a known
/// interface changes.
pub open spec fn touch(m: Map<Seq<char>, NetworkData>, o: Sighting) -> Map<Seq<char>, NetworkData> {
    if m.contains_key(o.name) {
        m.insert(o.name, m[o.name].spec_rotate(o.reading))
    } else {
        m
    }
}

pub open spec fn touch_all(m: Map<Seq<char>, NetworkData>, s: Seq<Sighting>) -> Map<Seq<char>, NetworkData>
    decreases s.len(),
{
    if s.len() == 0 {
        m
    } else {
        touch(touch_all(m, s.drop_last()), s.last())
    }
}

pub open spec fn name_at(s: Seq<(String, NetworkData)>, i: int) -> Seq<char> {
    s[i].0@
}

pub open spec fn has_name(s: Seq<(String, NetworkData)>, k: Seq<char>) -> bool {
    exists|i: int| 0 <= i < s.len() && #[trigger] name_at(s, i) == k
}

pub open spec fn unique_names(s: Seq<(String, NetworkData)>) -> bool {
    forall|i: int, j: int|
        0 <= i < s.len() && 0 <= j < s.len() && i != j ==> name_at(s, i) != name_at(s, j)
}

/// The map from interface name to snapshot that a list of entries holds.
pub open spec fn model_of(s: Seq<(String, NetworkData)>) -> Map<Seq<char>, NetworkData> {
    Map::new(
        |k: Seq<char>| has_name(s, k),
        |k: Seq<char>| s[choose|i: int| 0 <= i < s.len() && name_at(s, i) == k].1,
    )
}

/// `s` reports the interface `name` once, at position `j`.
pub open spec fn reported_once(s: Seq<Sighting>, name: Seq<char>, j: int) -> bool {
    &&& 0 <= j < s.len()
    &&& s[j].name == name
    &&& forall|i: int| 0 <= i < s.len() && i != j ==> #[trigger] s[i].name != name
}

proof fn lemma_observe_all_unreported(m: Map<Seq<char>, NetworkData>, s: Seq<Sighting>, name: Seq<char>)
    requires
        !names_of(s).contains(name),
    ensures
        observe_all(m, s).contains_key(name) == m.contains_key(name),
        m.contains_key(name) ==> observe_all(m, s)[name] == m[name],
    decreases s.len(),
{
    if s.len() > 0 {
        let p = s.drop_last();
        assert(!names_of(p).contains(name)) by {
            if names_of(p).contains(name) {
                let i = choose|i: int| 0 <= i < p.len() && #[trigger] p[i].name == name;
                assert(s[i].name == name);
            }
        }
        assert(s[s.len() - 1].name != name);
        lemma_observe_all_unreported(m, p, name);
    }
}

proof fn lemma_observe_all_once(m: Map<Seq<char>, NetworkData>, s: Seq<Sighting>, name: Seq<char>, j: int)
    requires
        reported_once(s, name, j),
    ensures
        observe_all(m, s).contains_key(name),
        observe_all(m, s)[name] == observe(m, s[j])[name],
    decreases s.len(),
{
    let p = s.drop_last();
    if j == s.len() - 1 {
        assert(!names_of(p).contains(name)) by {
            if names_of(p).contains(name) {
                let i = choose|i: int| 0 <= i < p.len() && #[trigger] p[i].name == name;
                assert(s[i].name == name);
            }
        }
        lemma_observe_all_unreported(m, p, name);
    } else {
        assert(reported_once(p, name, j)) by {
            assert forall|i: int| 0 <= i < p.len() && i != j implies #[trigger] p[i].name != name by {
                assert(s[i].name != name);
            }
        }
        assert(s[s.len() - 1].name != name);
        lemma_observe_all_once(m, p, name, j);
    }
}

/// An interface that a full rescan reports for the first time, once, is
/// registered with zero deltas, and its totals are the counters it was
/// reported with.
pub proof fn lemma_first_sight(m: Map<Seq<char>, NetworkData>, s: Seq<Sighting>, name: Seq<char>, j: int)
    requires
        !m.contains_key(name),
        reported_once(s, name, j),
    ensures
        rescan(m, s).contains_key(name),
        rescan(m, s)[name].spec_deltas() == zero_counters(),
        rescan(m, s)[name].current == s[j].reading,
{
    lemma_observe_all_once(m, s, name, j);
    assert(names_of(s).contains(name));
    let d = rescan(m, s)[name];
    assert(d == NetworkData::spec_first(s[j].id, s[j].reading));
    assert(d.spec_deltas() =~= zero_counters());
}

/// An interface that two full rescans in a row each report once, first
/// with the counters at `j1` and then with those at `j2`, reports for each
/// counter the amount it grew by, or zero where it went down.
pub proof fn lemma_second_sight(
    m: Map<Seq<char>, NetworkData>,
    s1: Seq<Sighting>,
    s2: Seq<Sighting>,
    name: Seq<char>,
    j1: int,
    j2: int,
)
    requires
        reported_once(s1, name, j1),
        reported_once(s2, name, j2),
    ensures
        rescan(rescan(m, s1), s2).contains_key(name),
        rescan(rescan(m, s1), s2)[name].spec_deltas() == counters_delta(s2[j2].reading, s1[j1].reading),
        rescan(rescan(m, s1), s2)[name].current == s2[j2].reading,
{
    let m1 = rescan(m, s1);
    lemma_observe_all_once(m, s1, name, j1);
    assert(names_of(s1).contains(name));
    assert(m1.contains_key(name) && m1[name].current == s1[j1].reading);
    lemma_observe_all_once(m1, s2, name, j2);
    assert(names_of(s2).contains(name));
    let d = rescan(m1, s2)[name];
    assert(d == m1[name].spec_rotate(s2[j2].reading));
    assert(d.spec_deltas() =~= counters_delta(s2[j2].reading, s1[j1].reading));
}

/// An interface that a full rescan does not report is no longer registered
/// afterwards.
pub proof fn lemma_unreported_evicted(m: Map<Seq<char>, NetworkData>, s: Seq<Sighting>, name: Seq<char>)
    requires
        m.contains_key(name),
        !names_of(s).contains(name),
    ensures
        !rescan(m, s).contains_key(name),
{
}

/// A counters-only refresh registers the same interfaces as before, whatever
/// readings it gets.
pub proof fn lemma_refresh_keeps_members(m: Map<Seq<char>, NetworkData>, s: Seq<Sighting>)
    ensures
        touch_all(m, s).dom() == m.dom(),
    decreases s.len(),
{
    if s.len() > 0 {
        lemma_refresh_keeps_members(m, s.drop_last());
        let p = touch_all(m, s.drop_last());
        if p.contains_key(s.last().name) {
            assert(p.insert(s.last().name, p[s.last().name].spec_rotate(s.last().reading)).dom() =~= p.dom());
        }
    }
}

proof fn lemma_model_at(s: Seq<(String, NetworkData)>, i: int)
    requires
        unique_names(s),
        0 <= i < s.len(),
    ensures
        model_of(s).contains_key(name_at(s, i)),
        model_of(s)[name_at(s, i)] == s[i].1,
{
    let k = name_at(s, i);
    assert(has_name(s, k));
    let j = choose|j: int| 0 <= j < s.len() && name_at(s, j) == k;
    assert(j == i);
}

proof fn lemma_model_eq(s: Seq<(String, NetworkData)>, m: Map<Seq<char>, NetworkData>)
    requires
        unique_names(s),
        forall|k: Seq<char>| m.contains_key(k) <==> has_name(s, k),
        forall|i: int| 0 <= i < s.len() ==> m[#[trigger] name_at(s, i)] == s[i].1,
    ensures
        model_of(s) == m,
{
    assert forall|k: Seq<char>| #[trigger] model_of(s).contains_key(k) implies model_of(s)[k] == m[k] by {
        let i = choose|i: int| 0 <= i < s.len() && name_at(s, i) == k;
        lemma_model_at(s, i);
    }
    assert(model_of(s) =~= m);
}

proof fn lemma_model_has(s: Seq<(String, NetworkData)>, k: Seq<char>)
    ensures
        model_of(s).contains_key(k) == has_name(s, k),
{
}

/// Network interfaces: each known interface's name with its snapshot.
pub struct Networks {
    interfaces: Vec<(String, NetworkData)>,
}

impl View for Networks {
    type V = Map<Seq<char>, NetworkData>;

    closed spec fn view(&self) -> Map<Seq<char>, NetworkData> {
        model_of(self.interfaces@)
    }
}

impl Networks {
    /// Each name stands once in the registry.
    pub closed spec fn wf(&self) -> bool {
        unique_names(self.interfaces@)
    }

    pub fn new() -> (r: Networks)
        ensures
            r.wf(),
            r@ == Map::<Seq<char>, NetworkData>::empty(),
    {
        let r = Networks { interfaces: Vec::new() };
        assert(r@ =~= Map::<Seq<char>, NetworkData>::empty());
        r
    }

    /// The entries, in the registry's own order; the order carries no meaning.
    pub fn iter(&self) -> (r: &[(String, NetworkData)])
        ensures
            model_of(r@) == self@,
            self.wf() ==> unique_names(r@),
    {
        self.interfaces.as_slice()
    }

    fn find(&self, name: &String) -> (r: Option<usize>)
        ensures
            match r {
                Some(i) => i < self.interfaces@.len() && name_at(self.interfaces@, i as int) == name@,
                None => !has_name(self.interfaces@, name@),
            },
    {
        let mut i: usize = 0;
        while i < self.interfaces.len()
            invariant
                i <= self.interfaces@.len(),
                forall|j: int| 0 <= j < i ==> name_at(self.interfaces@, j) != name@,
            decreases self.interfaces@.len() - i,
        {
            if self.interfaces[i].0 == *name {
                return Some(i);
            }
            i += 1;
        }
        None
    }

    /// The snapshot of the interface named `name`, if it is known.
    pub fn get(&self, name: &String) -> (r: Option<NetworkData>)
        requires
            self.wf(),
        ensures
            match r {
                Some(d) => self@.contains_key(name@) && self@[name@] == d,
                None => !self@.contains_key(name@),
            },
    {
        match self.find(name) {
            Some(i) => {
                proof {
                    lemma_model_at(self.interfaces@, i as int);
                }
                Some(self.interfaces[i].1)
            },
            None => None,
        }
    }
    /// Applies one sighting and returns where its entry stands. Entries that
    /// were there keep their place and name; a new one goes at the end.
    fn observe_one(&mut self, o: &Observation) -> (idx: usize)
        requires
            old(self).wf(),
        ensures
            final(self).wf(),
            final(self)@ == observe(old(self)@, o@),
            idx < final(self).interfaces@.len(),
            name_at(final(self).interfaces@, idx as int) == o.name@,
            final(self).interfaces@.len() == old(self).interfaces@.len() || (final(self).interfaces@.len()
                == old(self).interfaces@.len() + 1 && idx == old(self).interfaces@.len()),
            forall|j: int|
                0 <= j < old(self).interfaces@.len() ==> name_at(final(self).interfaces@, j)
                    == name_at(old(self).interfaces@, j),
    {
        let ghost s0 = self.interfaces@;
        let ghost m0 = self@;
        match self.find(&o.name) {
            Some(i) => {
                let d = self.interfaces[i].1.rotate(o.reading);
                let name = self.interfaces[i].0.clone();
                self.interfaces.set(i, (name, d));
                proof {
                    let s1 = self.interfaces@;
                    lemma_model_at(s0, i as int);
                    assert forall|j: int| 0 <= j < s1.len() implies #[trigger] name_at(s1, j) == name_at(s0, j) by {}
                    assert forall|k: Seq<char>| has_name(s1, k) <==> has_name(s0, k) by {
                        if has_name(s1, k) {
                            let j = choose|j: int| 0 <= j < s1.len() && name_at(s1, j) == k;
                            assert(name_at(s0, j) == k);
                        }
                        if has_name(s0, k) {
                            let j = choose|j: int| 0 <= j < s0.len() && name_at(s0, j) == k;
                            assert(name_at(s1, j) == k);
                        }
                    }
                    assert forall|j: int| 0 <= j < s1.len() implies m0.insert(o.name@, d)[#[trigger] name_at(s1, j)] == s1[j].1 by {
                        if j != i {
                            lemma_model_at(s0, j);
                        }
                    }
                    lemma_model_eq(s1, m0.insert(o.name@, d));
                }
                i
            },
            None => {
                let d = NetworkData::first(o.id, o.reading);
                self.interfaces.push((o.name.clone(), d));
                proof {
                    let s1 = self.interfaces@;
                    let n = s0.len() as int;
                    assert forall|j: int| 0 <= j < s0.len() implies #[trigger] name_at(s1, j) == name_at(s0, j) by {}
                    assert(name_at(s1, n) == o.name@);
                    assert forall|k: Seq<char>| has_name(s1, k) <==> (has_name(s0, k) || k == o.name@) by {
                        if has_name(s1, k) {
                            let j = choose|j: int| 0 <= j < s1.len() && name_at(s1, j) == k;
                            if j < n {
                                assert(name_at(s0, j) == k);
                            }
                        }
                        if has_name(s0, k) {
                            let j = choose|j: int| 0 <= j < s0.len() && name_at(s0, j) == k;
                            assert(name_at(s1, j) == k);
                        }
                    }
                    assert forall|j: int| 0 <= j < s1.len() implies m0.insert(o.name@, d)[#[trigger] name_at(s1, j)] == s1[j].1 by {
                        if j < n {
                            lemma_model_at(s0, j);
                        }
                    }
                    lemma_model_eq(s1, m0.insert(o.name@, d));
                }
                self.interfaces.len() - 1
            },
        }
    }
    /// Full rescan: applies every observation of `seen` in order, then evicts
    /// every interface that `seen` did not report.
    pub fn refresh_networks_list(&mut self, seen: &Vec<Observation>)
        requires
            old(self).wf(),
        ensures
            final(self).wf(),
            final(self)@ == rescan(old(self)@, sightings(seen@)),
    {
        let ghost m0 = self@;
        let ghost all = sightings(seen@);
        let mut marks: Vec<bool> = Vec::new();
        let mut i: usize = 0;
        while i < self.interfaces.len()
            invariant
                i <= self.interfaces@.len(),
                marks@.len() == i,
                forall|j: int| 0 <= j < i ==> !marks@[j],
            decreases self.interfaces@.len() - i,
        {
            marks.push(false);
            i += 1;
        }
        assert(all.take(0) =~= Seq::<Sighting>::empty());
        let mut k: usize = 0;
        while k < seen.len()
            invariant
                k <= seen@.len(),
                all == sightings(seen@),
                self.wf(),
                marks@.len() == self.interfaces@.len(),
                self@ == observe_all(m0, all.take(k as int)),
                forall|j: int|
                    0 <= j < marks@.len() ==> (marks@[j] <==> names_of(all.take(k as int)).contains(
                        #[trigger] name_at(self.interfaces@, j),
                    )),
            decreases seen@.len() - k,
        {
            let ghost s0 = self.interfaces@;
            let idx = self.observe_one(&seen[k]);
            if idx < marks.len() {
                marks.set(idx, true);
            } else {
                marks.push(true);
            }
            proof {
                let t = all.take(k + 1);
                assert(t.drop_last() =~= all.take(k as int));
                assert(t.last() == seen@[k as int]@);
                assert forall|j: int| 0 <= j < marks@.len() implies (marks@[j] <==> names_of(t).contains(
                    #[trigger] name_at(self.interfaces@, j),
                )) by {
                    let nj = name_at(self.interfaces@, j);
                    if names_of(all.take(k as int)).contains(nj) {
                        let w = choose|w: int| 0 <= w < k && #[trigger] all.take(k as int)[w].name == nj;
                        assert(t[w].name == nj);
                    }
                    if names_of(t).contains(nj) && j != idx {
                        let w = choose|w: int| 0 <= w < k + 1 && #[trigger] t[w].name == nj;
                        if w == k {
                            assert(nj == seen@[k as int].name@);
                            assert(false);
                        }
                        assert(all.take(k as int)[w].name == nj);
                    }
                    if j == idx {
                        assert(t[k as int].name == nj);
                    }
                }
            }
            k += 1;
        }
        assert(all.take(seen@.len() as int) =~= all);
        let ghost s = self.interfaces@;
        let ghost m1 = self@;
        let mut kept: Vec<(String, NetworkData)> = Vec::new();
        let ghost mut src: Seq<int> = Seq::empty();
        let mut j: usize = 0;
        while j < self.interfaces.len()
            invariant
                self.interfaces@ == s,
                unique_names(s),
                marks@.len() == s.len(),
                j <= s.len(),
                src.len() == kept@.len(),
                forall|a: int| 0 <= a < src.len() ==> 0 <= #[trigger] src[a] < j && marks@[src[a]] && kept@[a] == s[src[a]],
                forall|a: int, b: int| 0 <= a < b < src.len() ==> src[a] < src[b],
                forall|b: int| 0 <= b < j && marks@[b] ==> exists|a: int| 0 <= a < src.len() && #[trigger] src[a] == b,
            decreases s.len() - j,
        {
            let ghost src0 = src;
            if marks[j] {
                let name = self.interfaces[j].0.clone();
                kept.push((name, self.interfaces[j].1));
                proof {
                    src = src.push(j as int);
                }
            }
            proof {
                assert forall|b: int| 0 <= b < j + 1 && marks@[b] implies exists|a: int|
                    0 <= a < src.len() && #[trigger] src[a] == b by {
                    if b < j {
                        let a = choose|a: int| 0 <= a < src0.len() && #[trigger] src0[a] == b;
                        assert(src[a] == b);
                    } else {
                        assert(src[src.len() - 1] == b);
                    }
                }
            }
            j += 1;
        }
        proof {
            let ks = kept@;
            let target = m1.restrict(names_of(all));
            assert forall|a: int, b: int| 0 <= a < ks.len() && 0 <= b < ks.len() && a != b implies name_at(ks, a) != name_at(ks, b) by {
                assert(name_at(ks, a) == name_at(s, src[a]));
                assert(name_at(ks, b) == name_at(s, src[b]));
                assert(src[a] != src[b]);
            }
            assert forall|kk: Seq<char>| target.contains_key(kk) <==> has_name(ks, kk) by {
                if has_name(ks, kk) {
                    let a = choose|a: int| 0 <= a < ks.len() && name_at(ks, a) == kk;
                    assert(name_at(s, src[a]) == kk);
                    lemma_model_at(s, src[a]);
                }
                if target.contains_key(kk) {
                    let b = choose|b: int| 0 <= b < s.len() && name_at(s, b) == kk;
                    assert(marks@[b]);
                    let a = choose|a: int| 0 <= a < src.len() && #[trigger] src[a] == b;
                    assert(name_at(ks, a) == kk);
                }
            }
            assert forall|a: int| 0 <= a < ks.len() implies target[#[trigger] name_at(ks, a)] == ks[a].1 by {
                lemma_model_at(s, src[a]);
                assert(name_at(ks, a) == name_at(s, src[a]));
            }
            lemma_model_eq(ks, target);
        }
        self.interfaces = kept;
    }

    /// Counters-only refresh: each reading updates the interface of its name
    /// if it is known; no interface is added or removed.
    pub fn refresh(&mut self, readings: &Vec<Observation>)
        requires
            old(self).wf(),
        ensures
            final(self).wf(),
            final(self)@ == touch_all(old(self)@, sightings(readings@)),
    {
        let ghost m0 = self@;
        let ghost all = sightings(readings@);
        assert(all.take(0) =~= Seq::<Sighting>::empty());
        let mut k: usize = 0;
        while k < readings.len()
            invariant
                k <= readings@.len(),
                all == sightings(readings@),
                self.wf(),
                self@ == touch_all(m0, all.take(k as int)),
            decreases readings@.len() - k,
        {
            if self.find(&readings[k].name).is_some() {
                self.observe_one(&readings[k]);
            }
            proof {
                let t = all.take(k + 1);
                assert(t.drop_last() =~= all.take(k as int));
                assert(t.last() == readings@[k as int]@);
                lemma_model_has(self.interfaces@, readings@[k as int].name@);
            }
            k += 1;
        }
        assert(all.take(readings@.len() as int) =~= all);
    }
}

} // verus!
