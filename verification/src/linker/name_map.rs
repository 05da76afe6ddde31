//! Maps keyed by names, kept as vectors of distinct keys.
use vstd::prelude::*;

use crate::text::str_eq;

use super::dll::{lemma_text_lt_order, name_texts, sort_names, str_lt, strictly_sorted, text_lt};

use super::section::{shifted, PeSectionPosition};

verus! {

/// A map from names to values, each name at most once.
pub struct NameMap<V> {
    keys: Vec<String>,
    vals: Vec<V>,
    m: Ghost<Map<Seq<char>, V>>,
}

impl<V> NameMap<V> {
    /// The keys are distinct and the ghost map holds exactly the stored pairs.
    pub closed spec fn wf(self) -> bool {
        &&& self.keys@.len() == self.vals@.len()
        &&& forall|i: int, j: int|
            0 <= i < j < self.keys@.len() ==> (#[trigger] self.keys@[i])@ != (
            #[trigger] self.keys@[j])@
        &&& forall|i: int|
            0 <= i < self.keys@.len() ==> self.m@.contains_key((#[trigger] self.keys@[i])@)
                && self.m@[self.keys@[i]@] == self.vals@[i]
        &&& forall|k: Seq<char>|
            #[trigger] self.m@.contains_key(k) ==> exists|i: int|
                0 <= i < self.keys@.len() && (#[trigger] self.keys@[i])@ == k
    }

    pub fn new() -> (r: Self)
        ensures
            r.wf(),
            r@ == Map::<Seq<char>, V>::empty(),
    {
        NameMap { keys: Vec::new(), vals: Vec::new(), m: Ghost(Map::empty()) }
    }

    /// The number of names.
    pub fn len(&self) -> (n: usize)
        requires
            self.wf(),
        ensures
            n == self@.dom().len(),
    {
        proof {
            self.lemma_dom_len();
        }
        self.keys.len()
    }

    proof fn lemma_dom_len(&self)
        requires
            self.wf(),
        ensures
            self.m@.dom().len() == self.keys@.len(),
            self.m@.dom().finite(),
    {
        let ks = self.keys@.map_values(|k: String| k@);
        assert(ks.no_duplicates()) by {
            assert forall|i: int, j: int| 0 <= i < ks.len() && 0 <= j < ks.len() && i != j implies ks[i]
                != ks[j] by {
                if i < j {
                    assert(self.keys@[i]@ != self.keys@[j]@);
                } else {
                    assert(self.keys@[j]@ != self.keys@[i]@);
                }
            }
        }
        assert(ks.to_set() =~= self.m@.dom()) by {
            assert forall|k: Seq<char>| self.m@.dom().contains(k) implies ks.to_set().contains(k) by {
                let i = choose|i: int| 0 <= i < self.keys@.len() && (#[trigger] self.keys@[i])@ == k;
                assert(ks[i] == k);
            }
        }
        ks.unique_seq_to_set();
    }

    /// The position of `k` among the keys, if present.
    fn find(&self, k: &str) -> (r: Option<usize>)
        requires
            self.wf(),
        ensures
            r matches Some(i) ==> i < self.keys@.len() && self.keys@[i as int]@ == k@,
            r is None ==> forall|i: int| 0 <= i < self.keys@.len() ==> (#[trigger] self.keys@[i])@ != k@,
    {
        let mut i: usize = 0;
        while i < self.keys.len()
            invariant
                i <= self.keys@.len(),
                forall|j: int| 0 <= j < i ==> (#[trigger] self.keys@[j])@ != k@,
            decreases self.keys@.len() - i,
        {
            if str_eq(self.keys[i].as_str(), k) {
                return Some(i);
            }
            i = i + 1;
        }
        None
    }

    pub fn contains_key(&self, k: &str) -> (r: bool)
        requires
            self.wf(),
        ensures
            r == self@.contains_key(k@),
    {
        self.find(k).is_some()
    }

    pub fn get(&self, k: &str) -> (r: Option<&V>)
        requires
            self.wf(),
        ensures
            r is Some <==> self@.contains_key(k@),
            r matches Some(v) ==> *v == self@[k@],
    {
        match self.find(k) {
            Some(i) => Some(&self.vals[i]),
            None => None,
        }
    }

    /// Maps `k` to `v`, replacing any earlier value of `k`.
    pub fn insert(&mut self, k: String, v: V)
        requires
            old(self).wf(),
        ensures
            final(self).wf(),
            final(self)@ == old(self)@.insert(k@, v),
    {
        let ghost kv = k@;
        match self.find(k.as_str()) {
            Some(i) => {
                let ghost old_vals = self.vals@;
                let ghost new_m = self.m@.insert(kv, v);
                self.vals.set(i, v);
                self.m = Ghost(new_m);
                assert forall|k2: Seq<char>| #[trigger] self.m@.contains_key(k2) implies exists|j: int|
                    0 <= j < self.keys@.len() && (#[trigger] self.keys@[j])@ == k2 by {
                    if k2 == kv {
                        assert(self.keys@[i as int]@ == k2);
                    } else {
                        assert(old(self).m@.contains_key(k2));
                        let j = choose|j: int| 0 <= j < old(self).keys@.len() && (#[trigger] old(self).keys@[j])@ == k2;
                        assert(self.keys@[j]@ == k2);
                    }
                }
            },
            None => {
                let ghost new_m = self.m@.insert(kv, v);
                self.keys.push(k);
                self.vals.push(v);
                self.m = Ghost(new_m);
                assert forall|k2: Seq<char>| #[trigger] self.m@.contains_key(k2) implies exists|j: int|
                    0 <= j < self.keys@.len() && (#[trigger] self.keys@[j])@ == k2 by {
                    if k2 == kv {
                        assert(self.keys@[self.keys@.len() - 1]@ == k2);
                    } else {
                        assert(old(self).m@.contains_key(k2));
                        let j = choose|j: int| 0 <= j < old(self).keys@.len() && (#[trigger] old(self).keys@[j])@ == k2;
                        assert(self.keys@[j] == old(self).keys@[j]);
                    }
                }
            },
        }
    }

    /// The names, each once, in the order they were first inserted.
    pub fn keys(&self) -> (r: &Vec<String>)
        requires
            self.wf(),
        ensures
            forall|i: int| 0 <= i < r@.len() ==> self@.contains_key((#[trigger] r@[i])@),
            forall|k: Seq<char>| #[trigger] self@.contains_key(k) ==> exists|i: int| 0 <= i < r@.len() && (#[trigger] r@[i])@ == k,
            forall|i: int, j: int| 0 <= i < j < r@.len() ==> (#[trigger] r@[i])@ != (#[trigger] r@[j])@,
    {
        &self.keys
    }

    /// The names in the order of `str` (by code point).
    pub fn sorted_keys(&self) -> (r: Vec<&str>)
        requires
            self.wf(),
        ensures
            strictly_sorted(r@.map_values(|s: &str| s@)),
            forall|k: Seq<char>| #[trigger] self@.contains_key(k) <==> r@.map_values(|s: &str| s@).contains(k),
    {
        let keys = self.keys();
        let ghost t = name_texts(keys@);
        assert(t.no_duplicates()) by {
            assert forall|i: int, j: int| 0 <= i < t.len() && 0 <= j < t.len() && i != j implies t[i] != t[j] by {
                if i < j {
                    assert(keys@[i]@ != keys@[j]@);
                } else {
                    assert(keys@[j]@ != keys@[i]@);
                }
            }
        }
        let r = sort_names(keys);
        proof {
            assert forall|k: Seq<char>| #[trigger] self@.contains_key(k) <==> r@.map_values(|s: &str| s@).contains(k) by {
                if self@.contains_key(k) {
                    let i = choose|i: int| 0 <= i < keys@.len() && (#[trigger] keys@[i])@ == k;
                    assert(t[i] == k);
                    assert(t.contains(k));
                }
                if r@.map_values(|s: &str| s@).contains(k) {
                    assert(t.contains(k));
                    let i = choose|i: int| 0 <= i < t.len() && t[i] == k;
                    assert(keys@[i]@ == k);
                }
            }
        }
        r
    }
}

impl NameMap<PeSectionPosition> {
    /// Whether every position can move one PE section later (no index is `usize::MAX`).
    pub fn can_shift(&self) -> (r: bool)
        requires
            self.wf(),
        ensures
            r == (forall|k: Seq<char>| #[trigger] self@.contains_key(k) ==> self@[k].section_index < usize::MAX),
    {
        let mut i: usize = 0;
        while i < self.vals.len()
            invariant
                self.wf(),
                i <= self.vals@.len(),
                forall|j: int| 0 <= j < i ==> (#[trigger] self.vals@[j]).section_index < usize::MAX,
            decreases self.vals@.len() - i,
        {
            if self.vals[i].section_index == usize::MAX {
                assert(self.m@.contains_key(self.keys@[i as int]@));
                assert(self@.contains_key(self.keys@[i as int]@) && self@[self.keys@[i as int]@].section_index == usize::MAX);
                return false;
            }
            i = i + 1;
        }
        proof {
            assert forall|k: Seq<char>| #[trigger] self@.contains_key(k) implies self@[k].section_index < usize::MAX by {
                let j = choose|j: int| 0 <= j < self.keys@.len() && (#[trigger] self.keys@[j])@ == k;
                assert(self.m@[self.keys@[j]@] == self.vals@[j]);
            }
        }
        true
    }

    /// Moves every position one PE section later (a section was inserted in front).
    pub fn shift_sections(&mut self)
        requires
            old(self).wf(),
            forall|k: Seq<char>| #[trigger] old(self)@.contains_key(k) ==> old(self)@[k].section_index < usize::MAX,
        ensures
            final(self).wf(),
            final(self)@ == old(self)@.map_values(|p: PeSectionPosition| shifted(p)),
    {
        let ghost old_m = self.m@;
        let mut i: usize = 0;
        while i < self.vals.len()
            invariant
                self.keys@ == old(self).keys@,
                self.m@ == old_m,
                old_m == old(self).m@,
                old(self).wf(),
                forall|k: Seq<char>| #[trigger] old(self)@.contains_key(k) ==> old(self)@[k].section_index < usize::MAX,
                self.vals@.len() == old(self).vals@.len(),
                i <= self.vals@.len(),
                forall|j: int| 0 <= j < i ==> #[trigger] self.vals@[j] == shifted(old(self).vals@[j]),
                forall|j: int| i <= j < self.vals@.len() ==> #[trigger] self.vals@[j] == old(self).vals@[j],
            decreases self.vals@.len() - i,
        {
            let p = self.vals[i];
            assert(old_m.contains_key(old(self).keys@[i as int]@));
            assert(old_m[old(self).keys@[i as int]@] == old(self).vals@[i as int]);
            assert(old(self)@.contains_key(old(self).keys@[i as int]@));
            self.vals.set(i, PeSectionPosition { section_index: p.section_index + 1, offset: p.offset });
            i = i + 1;
        }
        self.m = Ghost(old_m.map_values(|p: PeSectionPosition| shifted(p)));
        assert(self@ =~= old(self)@.map_values(|p: PeSectionPosition| shifted(p)));
        assert forall|k: Seq<char>| #[trigger] self.m@.contains_key(k) implies exists|j: int|
            0 <= j < self.keys@.len() && (#[trigger] self.keys@[j])@ == k by {
            assert(old_m.contains_key(k));
            let j = choose|j: int| 0 <= j < old(self).keys@.len() && (#[trigger] old(self).keys@[j])@ == k;
            assert(self.keys@[j] == old(self).keys@[j]);
        }
    }
}

impl<V> View for NameMap<V> {
    type V = Map<Seq<char>, V>;

    closed spec fn view(&self) -> Map<Seq<char>, V> {
        self.m@
    }
}

/// The key of an entry, by the view of its name.
pub open spec fn key_view(k: (usize, String)) -> (usize, Seq<char>) {
    (k.0, k.1@)
}

/// A map from (object file index, section name) to a position in the PE image,
/// each key at most once.
pub struct ObjSectionMap {
    keys: Vec<(usize, String)>,
    vals: Vec<PeSectionPosition>,
    m: Ghost<Map<(usize, Seq<char>), PeSectionPosition>>,
}

impl ObjSectionMap {
    /// The keys are distinct and the ghost map holds exactly the stored pairs.
    pub closed spec fn wf(self) -> bool {
        &&& self.keys@.len() == self.vals@.len()
        &&& forall|i: int, j: int|
            0 <= i < j < self.keys@.len() ==> key_view(#[trigger] self.keys@[i]) != key_view(#[trigger] self.keys@[j])
        &&& forall|i: int|
            0 <= i < self.keys@.len() ==> self.m@.contains_key(key_view(#[trigger] self.keys@[i]))
                && self.m@[key_view(self.keys@[i])] == self.vals@[i]
        &&& forall|k: (usize, Seq<char>)|
            #[trigger] self.m@.contains_key(k) ==> exists|i: int|
                0 <= i < self.keys@.len() && key_view(#[trigger] self.keys@[i]) == k
    }

    pub fn new() -> (r: Self)
        ensures
            r.wf(),
            r@ == Map::<(usize, Seq<char>), PeSectionPosition>::empty(),
    {
        ObjSectionMap { keys: Vec::new(), vals: Vec::new(), m: Ghost(Map::empty()) }
    }

    /// The number of names.
    pub fn len(&self) -> (n: usize)
        requires
            self.wf(),
        ensures
            n == self@.dom().len(),
    {
        proof {
            self.lemma_dom_len();
        }
        self.keys.len()
    }

    proof fn lemma_dom_len(&self)
        requires
            self.wf(),
        ensures
            self.m@.dom().len() == self.keys@.len(),
            self.m@.dom().finite(),
    {
        let ks = self.keys@.map_values(|k: (usize, String)| key_view(k));
        assert(ks.no_duplicates()) by {
            assert forall|i: int, j: int| 0 <= i < ks.len() && 0 <= j < ks.len() && i != j implies ks[i]
                != ks[j] by {
                if i < j {
                    assert(key_view(self.keys@[i]) != key_view(self.keys@[j]));
                } else {
                    assert(key_view(self.keys@[j]) != key_view(self.keys@[i]));
                }
            }
        }
        assert(ks.to_set() =~= self.m@.dom()) by {
            assert forall|k: (usize, Seq<char>)| self.m@.dom().contains(k) implies ks.to_set().contains(k) by {
                let i = choose|i: int| 0 <= i < self.keys@.len() && key_view(#[trigger] self.keys@[i]) == k;
                assert(ks[i] == k);
            }
        }
        ks.unique_seq_to_set();
    }

    /// The position of `k` among the keys, if present.
    fn find(&self, obj: usize, name: &str) -> (r: Option<usize>)
        requires
            self.wf(),
        ensures
            r matches Some(i) ==> i < self.keys@.len() && key_view(self.keys@[i as int]) == (obj, name@),
            r is None ==> forall|i: int| 0 <= i < self.keys@.len() ==> key_view(#[trigger] self.keys@[i]) != (obj, name@),
    {
        let mut i: usize = 0;
        while i < self.keys.len()
            invariant
                i <= self.keys@.len(),
                forall|j: int| 0 <= j < i ==> key_view(#[trigger] self.keys@[j]) != (obj, name@),
            decreases self.keys@.len() - i,
        {
            if self.keys[i].0 == obj && str_eq(self.keys[i].1.as_str(), name) {
                return Some(i);
            }
            i = i + 1;
        }
        None
    }

    pub fn contains_key(&self, obj: usize, name: &str) -> (r: bool)
        requires
            self.wf(),
        ensures
            r == self@.contains_key((obj, name@)),
    {
        self.find(obj, name).is_some()
    }

    pub fn get(&self, obj: usize, name: &str) -> (r: Option<&PeSectionPosition>)
        requires
            self.wf(),
        ensures
            r is Some <==> self@.contains_key((obj, name@)),
            r matches Some(v) ==> *v == self@[(obj, name@)],
    {
        match self.find(obj, name) {
            Some(i) => Some(&self.vals[i]),
            None => None,
        }
    }

    /// Maps `k` to `v`, replacing any earlier value of `k`.
    pub fn insert(&mut self, obj: usize, name: String, v: PeSectionPosition)
        requires
            old(self).wf(),
        ensures
            final(self).wf(),
            final(self)@ == old(self)@.insert((obj, name@), v),
    {
        let ghost kv = (obj, name@);
        match self.find(obj, name.as_str()) {
            Some(i) => {
                let ghost old_vals = self.vals@;
                let ghost new_m = self.m@.insert(kv, v);
                self.vals.set(i, v);
                self.m = Ghost(new_m);
                assert forall|k2: (usize, Seq<char>)| #[trigger] self.m@.contains_key(k2) implies exists|j: int|
                    0 <= j < self.keys@.len() && key_view(#[trigger] self.keys@[j]) == k2 by {
                    if k2 == kv {
                        assert(key_view(self.keys@[i as int]) == k2);
                    } else {
                        assert(old(self).m@.contains_key(k2));
                        let j = choose|j: int|
                            0 <= j < old(self).keys@.len() && key_view(#[trigger] old(self).keys@[j]) == k2;
                        assert(self.keys@[j] == old(self).keys@[j]);
                    }
                }
            },
            None => {
                let ghost new_m = self.m@.insert(kv, v);
                self.keys.push((obj, name));
                self.vals.push(v);
                self.m = Ghost(new_m);
                assert forall|k2: (usize, Seq<char>)| #[trigger] self.m@.contains_key(k2) implies exists|j: int|
                    0 <= j < self.keys@.len() && key_view(#[trigger] self.keys@[j]) == k2 by {
                    if k2 == kv {
                        assert(key_view(self.keys@[self.keys@.len() - 1]) == k2);
                    } else {
                        assert(old(self).m@.contains_key(k2));
                        let j = choose|j: int| 0 <= j < old(self).keys@.len() && key_view(#[trigger] old(self).keys@[j]) == k2;
                        assert(self.keys@[j] == old(self).keys@[j]);
                    }
                }
            },
        }
    }


    /// Whether every position can move one PE section later (no index is `usize::MAX`).
    pub fn can_shift(&self) -> (r: bool)
        requires
            self.wf(),
        ensures
            r == (forall|k: (usize, Seq<char>)| #[trigger] self@.contains_key(k) ==> self@[k].section_index < usize::MAX),
    {
        let mut i: usize = 0;
        while i < self.vals.len()
            invariant
                self.wf(),
                i <= self.vals@.len(),
                forall|j: int| 0 <= j < i ==> (#[trigger] self.vals@[j]).section_index < usize::MAX,
            decreases self.vals@.len() - i,
        {
            if self.vals[i].section_index == usize::MAX {
                assert(self.m@.contains_key(key_view(self.keys@[i as int])));
                assert(self@.contains_key(key_view(self.keys@[i as int])) && self@[key_view(self.keys@[i as int])].section_index == usize::MAX);
                return false;
            }
            i = i + 1;
        }
        proof {
            assert forall|k: (usize, Seq<char>)| #[trigger] self@.contains_key(k) implies self@[k].section_index < usize::MAX by {
                let j = choose|j: int| 0 <= j < self.keys@.len() && key_view(#[trigger] self.keys@[j]) == k;
                assert(self.m@[key_view(self.keys@[j])] == self.vals@[j]);
            }
        }
        true
    }

    /// Moves every position one PE section later (a section was inserted in front).
    pub fn shift_sections(&mut self)
        requires
            old(self).wf(),
            forall|k: (usize, Seq<char>)| #[trigger] old(self)@.contains_key(k) ==> old(self)@[k].section_index < usize::MAX,
        ensures
            final(self).wf(),
            final(self)@ == old(self)@.map_values(|p: PeSectionPosition| shifted(p)),
    {
        let ghost old_m = self.m@;
        let mut i: usize = 0;
        while i < self.vals.len()
            invariant
                self.keys@ == old(self).keys@,
                self.m@ == old_m,
                old_m == old(self).m@,
                old(self).wf(),
                forall|k: (usize, Seq<char>)| #[trigger] old(self)@.contains_key(k) ==> old(self)@[k].section_index < usize::MAX,
                self.vals@.len() == old(self).vals@.len(),
                i <= self.vals@.len(),
                forall|j: int| 0 <= j < i ==> #[trigger] self.vals@[j] == shifted(old(self).vals@[j]),
                forall|j: int| i <= j < self.vals@.len() ==> #[trigger] self.vals@[j] == old(self).vals@[j],
            decreases self.vals@.len() - i,
        {
            let p = self.vals[i];
            assert(old_m.contains_key(key_view(old(self).keys@[i as int])));
            assert(old_m[key_view(old(self).keys@[i as int])] == old(self).vals@[i as int]);
            assert(old(self)@.contains_key(key_view(old(self).keys@[i as int])));
            self.vals.set(i, PeSectionPosition { section_index: p.section_index + 1, offset: p.offset });
            i = i + 1;
        }
        self.m = Ghost(old_m.map_values(|p: PeSectionPosition| shifted(p)));
        assert(self@ =~= old(self)@.map_values(|p: PeSectionPosition| shifted(p)));
        assert forall|k: (usize, Seq<char>)| #[trigger] self.m@.contains_key(k) implies exists|j: int|
            0 <= j < self.keys@.len() && key_view(#[trigger] self.keys@[j]) == k by {
            assert(old_m.contains_key(k));
            let j = choose|j: int| 0 <= j < old(self).keys@.len() && key_view(#[trigger] old(self).keys@[j]) == k;
            assert(self.keys@[j] == old(self).keys@[j]);
        }
    }
}

/// The key `x` as a value.
pub open spec fn pair_view(x: (usize, &str)) -> (usize, Seq<char>) {
    (x.0, x.1@)
}

/// `a` comes before `b`: by object file index, then by section name in the order of `str`.
pub open spec fn obj_key_lt(a: (usize, Seq<char>), b: (usize, Seq<char>)) -> bool {
    a.0 < b.0 || (a.0 == b.0 && text_lt(a.1, b.1))
}

/// Whether `s` is in strictly increasing order of `obj_key_lt`.
pub open spec fn obj_keys_sorted(s: Seq<(usize, Seq<char>)>) -> bool {
    forall|i: int, j: int| 0 <= i < j < s.len() ==> obj_key_lt(#[trigger] s[i], #[trigger] s[j])
}

proof fn lemma_obj_key_order(a: (usize, Seq<char>), b: (usize, Seq<char>), c: (usize, Seq<char>))
    ensures
        !obj_key_lt(a, a),
        obj_key_lt(a, b) ==> !obj_key_lt(b, a),
        a != b ==> obj_key_lt(a, b) || obj_key_lt(b, a),
        obj_key_lt(a, b) && obj_key_lt(b, c) ==> obj_key_lt(a, c),
{
    lemma_text_lt_order(a.1, b.1, c.1);
    lemma_text_lt_order(b.1, a.1, c.1);
}

/// Whether key `a` comes before key `b`.
fn obj_key_before(a: (usize, &str), b: (usize, &str)) -> (r: bool)
    ensures
        r == obj_key_lt(pair_view(a), pair_view(b)),
{
    a.0 < b.0 || (a.0 == b.0 && str_lt(a.1, b.1))
}

impl ObjSectionMap {
    /// The keys, each once, in the order they were first inserted.
    pub fn keys(&self) -> (r: &Vec<(usize, String)>)
        requires
            self.wf(),
        ensures
            forall|i: int| 0 <= i < r@.len() ==> self@.contains_key(key_view(#[trigger] r@[i])),
            forall|k: (usize, Seq<char>)| #[trigger] self@.contains_key(k) ==> exists|i: int|
                0 <= i < r@.len() && key_view(#[trigger] r@[i]) == k,
    {
        &self.keys
    }

    /// The keys by object file index, then by section name in the order of `str`.
    pub fn sorted_keys(&self) -> (r: Vec<(usize, &str)>)
        requires
            self.wf(),
        ensures
            obj_keys_sorted(r@.map_values(|x: (usize, &str)| pair_view(x))),
            forall|k: (usize, Seq<char>)| #[trigger] self@.contains_key(k) <==> r@.map_values(
                |x: (usize, &str)| pair_view(x),
            ).contains(k),
    {
        let ghost ev = self.keys@.map_values(|k: (usize, String)| key_view(k));
        assert(ev.no_duplicates()) by {
            assert forall|i: int, j: int| 0 <= i < ev.len() && 0 <= j < ev.len() && i != j implies ev[i] != ev[j] by {
                if i < j {
                    assert(key_view(self.keys@[i]) != key_view(self.keys@[j]));
                } else {
                    assert(key_view(self.keys@[j]) != key_view(self.keys@[i]));
                }
            }
        }
        let mut out: Vec<(usize, &str)> = Vec::new();
        let mut i: usize = 0;
        while i < self.keys.len()
            invariant
                self.wf(),
                i <= self.keys@.len(),
                ev == self.keys@.map_values(|k: (usize, String)| key_view(k)),
                ev.no_duplicates(),
                out@.len() == i,
                obj_keys_sorted(out@.map_values(|x: (usize, &str)| pair_view(x))),
                forall|k: int| 0 <= k < i ==> out@.map_values(|x: (usize, &str)| pair_view(x)).contains(#[trigger] ev[k]),
                forall|m: int| 0 <= m < out@.len() ==> ev.take(i as int).contains(#[trigger] pair_view(out@[m])),
            decreases self.keys@.len() - i,
        {
            let e: (usize, &str) = (self.keys[i].0, self.keys[i].1.as_str());
            let ghost ov = out@.map_values(|x: (usize, &str)| pair_view(x));
            assert(pair_view(e) == ev[i as int]);
            let mut p: usize = 0;
            while p < out.len() && !obj_key_before(e, out[p])
                invariant
                    p <= out@.len(),
                    ov == out@.map_values(|x: (usize, &str)| pair_view(x)),
                    forall|k: int| 0 <= k < p ==> !obj_key_lt(pair_view(e), #[trigger] ov[k]),
                decreases out@.len() - p,
            {
                p = p + 1;
            }
            proof {
                assert forall|k: int| 0 <= k < ov.len() implies ov[k] != pair_view(e) by {
                    assert(ev.take(i as int).contains(pair_view(out@[k])));
                }
            }
            out.insert(p, e);
            let ghost nv = out@.map_values(|x: (usize, &str)| pair_view(x));
            assert(nv =~= ov.insert(p as int, pair_view(e)));
            proof {
                let pe = pair_view(e);
                assert forall|a: int, b: int| 0 <= a < b < nv.len() implies obj_key_lt(#[trigger] nv[a], #[trigger] nv[b]) by {
                    lemma_obj_key_order(nv[a], pe, nv[b]);
                    if a < p && b == p {
                        lemma_obj_key_order(pe, ov[a], pe);
                    } else if a < p && b > p {
                        lemma_obj_key_order(ov[a], ov[p as int], ov[b - 1]);
                    } else if a == p && b > p {
                        lemma_obj_key_order(pe, ov[p as int], ov[b - 1]);
                    }
                }
                assert forall|k: int| 0 <= k < i + 1 implies nv.contains(#[trigger] ev[k]) by {
                    if k < i {
                        let m = choose|m: int| 0 <= m < ov.len() && ov[m] == ev[k];
                        if m < p {
                            assert(nv[m] == ev[k]);
                        } else {
                            assert(nv[m + 1] == ev[k]);
                        }
                    } else {
                        assert(nv[p as int] == ev[k]);
                    }
                }
                assert forall|m: int| 0 <= m < out@.len() implies ev.take(i + 1).contains(#[trigger] pair_view(out@[m])) by {
                    if m == p {
                        assert(ev.take(i + 1)[i as int] == pe);
                    } else {
                        let mm = if m < p { m } else { m - 1 };
                        assert(ov[mm] == pair_view(out@[m]));
                        let w = choose|w: int| 0 <= w < i && ev.take(i as int)[w] == ov[mm];
                        assert(ev.take(i + 1)[w] == ov[mm]);
                    }
                }
            }
            i = i + 1;
        }
        proof {
            assert(ev.take(i as int) =~= ev);
            let rv = out@.map_values(|x: (usize, &str)| pair_view(x));
            assert forall|k: (usize, Seq<char>)| #[trigger] self@.contains_key(k) <==> rv.contains(k) by {
                if self@.contains_key(k) {
                    let j = choose|j: int| 0 <= j < self.keys@.len() && key_view(#[trigger] self.keys@[j]) == k;
                    assert(ev[j] == k);
                }
                if rv.contains(k) {
                    let m = choose|m: int| 0 <= m < rv.len() && rv[m] == k;
                    assert(ev.contains(pair_view(out@[m])));
                    let j = choose|j: int| 0 <= j < ev.len() && ev[j] == k;
                    assert(self.m@.contains_key(key_view(self.keys@[j])));
                }
            }
        }
        out
    }
}

impl View for ObjSectionMap {
    type V = Map<(usize, Seq<char>), PeSectionPosition>;

    closed spec fn view(&self) -> Map<(usize, Seq<char>), PeSectionPosition> {
        self.m@
    }
}

} // verus!

