//! Small sets of names and of symbol ids.
use vstd::prelude::*;
use crate::text::str_eq;

verus! {

broadcast use vstd::string::group_string_axioms;

/// A set of identifier spellings.
#[derive(Debug, Clone, PartialEq, Default)]
pub struct NameSet {
    items: Vec<String>,
}

impl View for NameSet {
    type V = Set<Seq<char>>;

    open spec fn view(&self) -> Set<Seq<char>> {
        Set::new(|x: Seq<char>| exists|i: int| 0 <= i < self.spec_items().len() && #[trigger] self.spec_items()[i]@ == x)
    }
}

impl NameSet {
    pub closed spec fn spec_items(&self) -> Seq<String> {
        self.items@
    }

    pub fn new() -> (r: NameSet)
        ensures
            r@ == Set::<Seq<char>>::empty(),
    {
        let r = NameSet { items: Vec::new() };
        assert(r@ =~= Set::<Seq<char>>::empty());
        r
    }

    /// Whether `s` is in the set.
    pub fn contains(&self, s: &str) -> (r: bool)
        ensures
            r == self@.contains(s@),
    {
        let mut i: usize = 0;
        while i < self.items.len()
            invariant
                i <= self.items@.len(),
                forall|k: int| 0 <= k < i ==> self.items@[k]@ != s@,
            decreases self.items@.len() - i,
        {
            if str_eq(self.items[i].as_str(), s) {
                assert(self.spec_items()[i as int]@ == s@);
                return true;
            }
            i = i + 1;
        }
        false
    }

    /// Add `s`; whether it was new.
    pub fn insert(&mut self, s: String) -> (r: bool)
        ensures
            final(self)@ == old(self)@.insert(s@),
            r == !old(self)@.contains(s@),
    {
        if self.contains(s.as_str()) {
            proof {
                assert(old(self)@.insert(s@) =~= old(self)@);
            }
            return false;
        }
        let ghost before = self.items@;
        self.items.push(s);
        proof {
            assert forall|x: Seq<char>| #[trigger] self@.contains(x) <==> old(self)@.insert(s@).contains(x) by {
                if self@.contains(x) {
                    let i = choose|i: int| 0 <= i < self.spec_items().len() && #[trigger] self.spec_items()[i]@ == x;
                    if i < before.len() {
                        assert(before[i]@ == x);
                    }
                }
                if old(self)@.contains(x) {
                    let i = choose|i: int| 0 <= i < before.len() && #[trigger] before[i]@ == x;
                    assert(self.spec_items()[i]@ == x);
                }
                if x == s@ {
                    assert(self.spec_items()[before.len() as int]@ == x);
                }
            }
            assert(self@ =~= old(self)@.insert(s@));
        }
        true
    }

    /// The length of the longest name of the set (0 for the empty set).
    pub fn max_len(&self) -> (r: usize)
        ensures
            forall|x: Seq<char>| #[trigger] self@.contains(x) ==> x.len() <= r,
            r > 0 ==> exists|x: Seq<char>| #[trigger] self@.contains(x) && x.len() == r,
    {
        let mut m: usize = 0;
        let mut i: usize = 0;
        while i < self.items.len()
            invariant
                i <= self.items@.len(),
                forall|k: int| 0 <= k < i ==> (#[trigger] self.items@[k])@.len() <= m,
                m > 0 ==> exists|k: int| 0 <= k < i && (#[trigger] self.items@[k])@.len() == m,
            decreases self.items@.len() - i,
        {
            let n = self.items[i].unicode_len();
            if n > m {
                m = n;
            }
            i = i + 1;
        }
        proof {
            if m > 0 {
                let k = choose|k: int| 0 <= k < self.items@.len() && (#[trigger] self.items@[k])@.len() == m;
                assert(self@.contains(self.spec_items()[k]@));
            }
            assert forall|x: Seq<char>| #[trigger] self@.contains(x) implies x.len() <= m by {
                let k = choose|k: int| 0 <= k < self.spec_items().len() && #[trigger] self.spec_items()[k]@ == x;
                assert(self.items@[k]@.len() <= m);
            }
        }
        m
    }

    /// Add a copy of `s`.
    pub fn insert_str(&mut self, s: &str)
        ensures
            final(self)@ == old(self)@.insert(s@),
    {
        let t = crate::text::string_of(crate::text::chars_of(s).as_slice());
        self.insert(t);
    }

    /// Add every name of `other`.
    pub fn extend(&mut self, other: &NameSet)
        ensures
            final(self)@ == old(self)@.union(other@),
    {
        let mut i: usize = 0;
        while i < other.items.len()
            invariant
                i <= other.items@.len(),
                self@ == old(self)@.union(Set::new(|x: Seq<char>| exists|k: int| 0 <= k < i && #[trigger] other.spec_items()[k]@ == x)),
            decreases other.items@.len() - i,
        {
            let ghost prev = self@;
            self.insert_str(other.items[i].as_str());
            proof {
                assert(self@ =~= old(self)@.union(Set::new(|x: Seq<char>| exists|k: int| 0 <= k < i + 1 && #[trigger] other.spec_items()[k]@ == x))) by {
                    assert forall|x: Seq<char>| self@.contains(x) == old(self)@.union(Set::new(|x: Seq<char>| exists|k: int| 0 <= k < i + 1 && #[trigger] other.spec_items()[k]@ == x)).contains(x) by {
                        if x == other.spec_items()[i as int]@ {
                        } else if self@.contains(x) && !old(self)@.contains(x) {
                            let k = choose|k: int| 0 <= k < i && #[trigger] other.spec_items()[k]@ == x;
                            assert(0 <= k < i + 1 && other.spec_items()[k]@ == x);
                        } else if !old(self)@.contains(x) && Set::new(|x: Seq<char>| exists|k: int| 0 <= k < i + 1 && #[trigger] other.spec_items()[k]@ == x).contains(x) {
                            let k = choose|k: int| 0 <= k < i + 1 && #[trigger] other.spec_items()[k]@ == x;
                            assert(k < i);
                        }
                    }
                }
            }
            i = i + 1;
        }
        proof {
            assert(self@ =~= old(self)@.union(other@));
        }
    }

    /// A set with the same names.
    pub fn copy(&self) -> (r: NameSet)
        ensures
            r@ == self@,
    {
        let mut r = NameSet::new();
        r.extend(self);
        proof {
            assert(r@ =~= self@);
        }
        r
    }

    /// The names, in insertion order.
    pub fn to_vec(&self) -> (r: Vec<String>)
        ensures
            r@ == self.spec_items(),
    {
        self.items.clone()
    }

    pub fn len(&self) -> (r: usize)
        ensures
            r == self.spec_items().len(),
    {
        self.items.len()
    }
}

/// A set of symbol ids.
#[derive(Debug, Clone, PartialEq, Default)]
pub struct IdSet {
    items: Vec<u32>,
}

impl View for IdSet {
    type V = Set<u32>;

    open spec fn view(&self) -> Set<u32> {
        self.spec_items().to_set()
    }
}

impl IdSet {
    pub closed spec fn spec_items(&self) -> Seq<u32> {
        self.items@
    }

    pub fn new() -> (r: IdSet)
        ensures
            r@ == Set::<u32>::empty(),
    {
        let r = IdSet { items: Vec::new() };
        assert(r@ =~= Set::<u32>::empty());
        r
    }

    pub fn contains(&self, id: &u32) -> (r: bool)
        ensures
            r == self@.contains(*id),
    {
        let mut i: usize = 0;
        while i < self.items.len()
            invariant
                i <= self.items@.len(),
                forall|k: int| 0 <= k < i ==> self.items@[k] != *id,
            decreases self.items@.len() - i,
        {
            if self.items[i] == *id {
                assert(self.spec_items()[i as int] == *id);
                return true;
            }
            i = i + 1;
        }
        proof {
            if self@.contains(*id) {
                let k = choose|k: int| 0 <= k < self.spec_items().len() && self.spec_items()[k] == *id;
                assert(self.items@[k] == *id);
            }
        }
        false
    }

    /// Add `id`; whether it was new.
    pub fn insert(&mut self, id: u32) -> (r: bool)
        ensures
            final(self)@ == old(self)@.insert(id),
            r == !old(self)@.contains(id),
    {
        if self.contains(&id) {
            proof {
                assert(old(self)@.insert(id) =~= old(self)@);
            }
            return false;
        }
        self.items.push(id);
        proof {
            assert(self.spec_items() == old(self).spec_items().push(id));
            vstd::seq_lib::seq_to_set_is_finite(self.spec_items());
            assert forall|x: u32| #[trigger] self@.contains(x) <==> old(self)@.insert(id).contains(x) by {
                if self@.contains(x) && x != id {
                    let k = choose|k: int| 0 <= k < self.spec_items().len() && self.spec_items()[k] == x;
                    assert(old(self).spec_items()[k] == x);
                }
                if old(self)@.contains(x) {
                    let k = choose|k: int| 0 <= k < old(self).spec_items().len() && old(self).spec_items()[k] == x;
                    assert(self.spec_items()[k] == x);
                }
                if x == id {
                    assert(self.spec_items()[old(self).spec_items().len() as int] == x);
                }
            }
            assert(self@ =~= old(self)@.insert(id));
        }
        true
    }

    pub fn len(&self) -> (r: usize)
        ensures
            r == self.spec_items().len(),
    {
        self.items.len()
    }
}

/// A map from identifier spellings to ids, in insertion order.
#[derive(Debug, Clone, PartialEq, Default)]
pub struct NameMap {
    entries: Vec<(String, u32)>,
}

impl NameMap {
    /// The id stored for spelling `s` (the first one, if several).
    pub closed spec fn spec_get(&self, s: Seq<char>) -> Option<u32> {
        first_match(self.entries@, s)
    }

    pub fn new() -> (r: NameMap)
        ensures
            forall|s: Seq<char>| r.spec_get(s) is None,
    {
        NameMap { entries: Vec::new() }
    }

    pub fn get(&self, s: &str) -> (r: Option<u32>)
        ensures
            r == self.spec_get(s@),
    {
        let mut i: usize = 0;
        proof {
            assert(self.entries@.subrange(0, self.entries@.len() as int) =~= self.entries@);
        }
        while i < self.entries.len()
            invariant
                i <= self.entries@.len(),
                first_match(self.entries@, s@) == first_match(self.entries@.subrange(i as int, self.entries@.len() as int), s@),
            decreases self.entries@.len() - i,
        {
            proof {
                let rest = self.entries@.subrange(i as int, self.entries@.len() as int);
                assert(rest.drop_first() =~= self.entries@.subrange(i + 1, self.entries@.len() as int));
            }
            if str_eq(self.entries[i].0.as_str(), s) {
                return Some(self.entries[i].1);
            }
            i = i + 1;
        }
        None
    }

    /// Store `v` for `s` (an earlier entry for `s` keeps precedence).
    pub fn insert(&mut self, s: String, v: u32)
        ensures
            old(self).spec_get(s@) is None ==> final(self).spec_get(s@) == Some(v),
            forall|t: Seq<char>| t != s@ ==> final(self).spec_get(t) == old(self).spec_get(t),
            forall|t: Seq<char>| old(self).spec_get(t) is Some ==> final(self).spec_get(t) == old(self).spec_get(t),
    {
        let ghost before = self.entries@;
        let ghost sv = s@;
        self.entries.push((s, v));
        proof {
            let x = self.entries@.last();
            assert(self.entries@ == before.push(x));
            assert forall|t: Seq<char>| #![trigger first_match(self.entries@, t)] true implies first_match(self.entries@, t) == (match first_match(before, t) {
                Some(w) => Some(w),
                None => if sv == t { Some(v) } else { None },
            }) by {
                lemma_first_match_push(before, x, t);
            }
        }
    }
}

/// The id of the first entry spelled `s`.
pub open spec fn first_match(e: Seq<(String, u32)>, s: Seq<char>) -> Option<u32>
    decreases e.len(),
{
    if e.len() == 0 {
        None
    } else if e[0].0@ == s {
        Some(e[0].1)
    } else {
        first_match(e.drop_first(), s)
    }
}

proof fn lemma_first_match_push(e: Seq<(String, u32)>, x: (String, u32), t: Seq<char>)
    ensures
        first_match(e.push(x), t) == (match first_match(e, t) {
            Some(w) => Some(w),
            None => if x.0@ == t { Some(x.1) } else { None },
        }),
    decreases e.len(),
{
    let ex = e.push(x);
    if e.len() == 0 {
        assert(ex[0] == x);
        assert(ex.drop_first() =~= Seq::<(String, u32)>::empty());
        assert(first_match(ex.drop_first(), t) is None);
    } else {
        assert(ex[0] == e[0]);
        assert(ex.drop_first() =~= e.drop_first().push(x));
        lemma_first_match_push(e.drop_first(), x, t);
    }
}

} // verus!
