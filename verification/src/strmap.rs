//! An association list from strings to values with a `Map` view, used for
//! response metadata, environment variables, cached file contents and stored
//! API keys. Keys are unique; insertion replaces the previous binding.

use vstd::prelude::*;
use vstd::string::*;
use crate::strutil::str_eq;

verus! {

/// The map denoted by an association list: later bindings win.
pub open spec fn map_from_kv<V>(s: Seq<(Seq<char>, V)>) -> Map<Seq<char>, V>
    decreases s.len(),
{
    if s.len() == 0 {
        Map::empty()
    } else {
        map_from_kv(s.drop_last()).insert(s.last().0, s.last().1)
    }
}

/// No key occurs twice in the association list.
pub open spec fn kv_unique<V>(s: Seq<(Seq<char>, V)>) -> bool {
    forall|i: int, j: int| 0 <= i < j < s.len() ==> (#[trigger] s[i]).0 != (#[trigger] s[j]).0
}

pub proof fn lemma_map_from_kv_contains<V>(s: Seq<(Seq<char>, V)>, k: Seq<char>)
    ensures
        map_from_kv(s).contains_key(k) <==> exists|i: int| 0 <= i < s.len() && (#[trigger] s[i]).0
            == k,
    decreases s.len(),
{
    if s.len() > 0 {
        lemma_map_from_kv_contains(s.drop_last(), k);
        if map_from_kv(s).contains_key(k) {
            if s.last().0 != k {
                let i = choose|i: int| 0 <= i < s.drop_last().len() && (#[trigger] s.drop_last()[i]).0
                    == k;
                assert(s[i].0 == k);
            } else {
                assert(s[s.len() - 1].0 == k);
            }
        } else {
            assert forall|i: int| 0 <= i < s.len() implies (#[trigger] s[i]).0 != k by {
                if i < s.len() - 1 {
                    assert(s.drop_last()[i].0 != k);
                }
            }
        }
    }
}

pub proof fn lemma_map_from_kv_index<V>(s: Seq<(Seq<char>, V)>, i: int)
    requires
        kv_unique(s),
        0 <= i < s.len(),
    ensures
        map_from_kv(s).contains_key(s[i].0),
        map_from_kv(s)[s[i].0] == s[i].1,
    decreases s.len(),
{
    lemma_map_from_kv_contains(s, s[i].0);
    if i < s.len() - 1 {
        assert(kv_unique(s.drop_last()));
        assert(s.drop_last()[i] == s[i]);
        lemma_map_from_kv_index(s.drop_last(), i);
        assert(s[i].0 != s.last().0);
    }
}

pub proof fn lemma_map_from_kv_update<V>(s: Seq<(Seq<char>, V)>, i: int, v: V)
    requires
        kv_unique(s),
        0 <= i < s.len(),
    ensures
        map_from_kv(s.update(i, (s[i].0, v))) == map_from_kv(s).insert(s[i].0, v),
    decreases s.len(),
{
    let t = s.update(i, (s[i].0, v));
    if i == s.len() - 1 {
        assert(t.drop_last() =~= s.drop_last());
        assert(map_from_kv(t) == map_from_kv(s.drop_last()).insert(s[i].0, v));
        assert(map_from_kv(s.drop_last()).insert(s.last().0, s.last().1).insert(s[i].0, v)
            =~= map_from_kv(s.drop_last()).insert(s[i].0, v));
    } else {
        assert(t.drop_last() =~= s.drop_last().update(i, (s[i].0, v)));
        assert(kv_unique(s.drop_last()));
        assert(s.drop_last()[i] == s[i]);
        lemma_map_from_kv_update(s.drop_last(), i, v);
        assert(t.last() == s.last());
        assert(map_from_kv(t) == map_from_kv(s.drop_last()).insert(s[i].0, v).insert(
            s.last().0,
            s.last().1,
        ));
        assert(s[i].0 != s.last().0);
        assert(map_from_kv(s.drop_last()).insert(s[i].0, v).insert(s.last().0, s.last().1)
            =~= map_from_kv(s.drop_last()).insert(s.last().0, s.last().1).insert(s[i].0, v));
    }
}

pub proof fn lemma_map_from_kv_remove<V>(s: Seq<(Seq<char>, V)>, i: int)
    requires
        kv_unique(s),
        0 <= i < s.len(),
    ensures
        map_from_kv(s.remove(i)) == map_from_kv(s).remove(s[i].0),
    decreases s.len(),
{
    let t = s.remove(i);
    if i == s.len() - 1 {
        assert(t =~= s.drop_last());
        lemma_map_from_kv_contains(s.drop_last(), s[i].0);
        assert forall|j: int| 0 <= j < s.drop_last().len() implies (#[trigger] s.drop_last()[j]).0
            != s[i].0 by {
            assert(s[j].0 != s[i].0);
        }
        assert(!map_from_kv(s.drop_last()).contains_key(s[i].0));
        assert(map_from_kv(s.drop_last()).insert(s.last().0, s.last().1).remove(s[i].0)
            =~= map_from_kv(s.drop_last()));
    } else {
        assert(t.drop_last() =~= s.drop_last().remove(i));
        assert(kv_unique(s.drop_last()));
        assert(s.drop_last()[i] == s[i]);
        lemma_map_from_kv_remove(s.drop_last(), i);
        assert(t.last() == s.last());
        assert(map_from_kv(t) == map_from_kv(s.drop_last()).remove(s[i].0).insert(
            s.last().0,
            s.last().1,
        ));
        assert(s[i].0 != s.last().0);
        assert(map_from_kv(s.drop_last()).remove(s[i].0).insert(s.last().0, s.last().1)
            =~= map_from_kv(s.drop_last()).insert(s.last().0, s.last().1).remove(s[i].0));
    }
}

/// A string-to-string map stored as an association list with unique keys.
#[derive(Debug)]
pub struct StrMap {
    entries: Vec<(String, String)>,
}

impl View for StrMap {
    type V = Map<Seq<char>, Seq<char>>;

    open spec fn view(&self) -> Map<Seq<char>, Seq<char>> {
        map_from_kv(self.kv())
    }
}

impl StrMap {
    /// The entries in insertion order, as character sequences.
    pub closed spec fn kv(&self) -> Seq<(Seq<char>, Seq<char>)> {
        self.entries@.map(|i: int, e: (String, String)| (e.0@, e.1@))
    }

    /// Keys are unique in the entry list; every reachable value satisfies this.
    #[verifier::type_invariant]
    pub open spec fn wf(&self) -> bool {
        kv_unique(self.kv())
    }

    pub fn new() -> (r: Self)
        ensures
            r@ == Map::<Seq<char>, Seq<char>>::empty(),
            r.kv() == Seq::<(Seq<char>, Seq<char>)>::empty(),
    {
        let r = StrMap { entries: Vec::new() };
        proof {
            assert(r.kv() =~= Seq::<(Seq<char>, Seq<char>)>::empty());
        }
        r
    }

    pub fn len(&self) -> (r: usize)
        ensures
            r == self.kv().len(),
    {
        self.entries.len()
    }

    /// Position of a key in the entry list, if present.
    fn position(&self, key: &str) -> (r: Option<usize>)
        ensures
            match r {
                Some(i) => i < self.kv().len() && self.kv()[i as int].0 == key@,
                None => forall|i: int|
                    0 <= i < self.kv().len() ==> (#[trigger] self.kv()[i]).0 != key@,
            },
    {
        let n = self.entries.len();
        let mut i: usize = 0;
        while i < n
            invariant
                i <= n,
                n == self.kv().len(),
                n == self.entries.len(),
                forall|j: int| 0 <= j < i ==> (#[trigger] self.kv()[j]).0 != key@,
            decreases n - i,
        {
            if str_eq(self.entries[i].0.as_str(), key) {
                return Some(i);
            }
            i = i + 1;
        }
        None
    }

    pub fn contains_key(&self, key: &str) -> (r: bool)
        ensures
            r == self@.contains_key(key@),
    {
        proof {
            lemma_map_from_kv_contains(self.kv(), key@);
        }
        match self.position(key) {
            Some(_) => true,
            None => false,
        }
    }

    pub fn get(&self, key: &str) -> (r: Option<&String>)
        ensures
            match r {
                Some(v) => self@.contains_key(key@) && v@ == self@[key@],
                None => !self@.contains_key(key@),
            },
    {
        proof {
            use_type_invariant(self);
            lemma_map_from_kv_contains(self.kv(), key@);
        }
        match self.position(key) {
            Some(i) => {
                proof {
                    lemma_map_from_kv_index(self.kv(), i as int);
                }
                Some(&self.entries[i].1)
            },
            None => None,
        }
    }

    /// Bind `key` to `value`, replacing any previous binding.
    pub fn insert(&mut self, key: String, value: String)
        ensures
            final(self)@ == old(self)@.insert(key@, value@),
            old(self)@.contains_key(key@) ==> final(self).kv().len() == old(self).kv().len(),
            !old(self)@.contains_key(key@) ==> final(self).kv() == old(self).kv().push(
                (key@, value@),
            ),
    {
        proof {
            use_type_invariant(&*self);
            lemma_map_from_kv_contains(self.kv(), key@);
        }
        let ghost old_kv = self.kv();
        let pos = self.position(key.as_str());
        let mut entries: Vec<(String, String)> = Vec::new();
        core::mem::swap(&mut self.entries, &mut entries);
        proof {
            assert(self.kv() =~= Seq::<(Seq<char>, Seq<char>)>::empty());
        }
        match pos {
            Some(i) => {
                proof {
                    lemma_map_from_kv_update(old_kv, i as int, value@);
                }
                entries.set(i, (key, value));
                proof {
                    let new_kv = entries@.map(|j: int, e: (String, String)| (e.0@, e.1@));
                    assert(new_kv =~= old_kv.update(i as int, (old_kv[i as int].0, value@)));
                }
            },
            None => {
                entries.push((key, value));
                proof {
                    let new_kv = entries@.map(|j: int, e: (String, String)| (e.0@, e.1@));
                    assert(new_kv =~= old_kv.push((key@, value@)));
                    assert(new_kv.drop_last() =~= old_kv);
                }
            },
        }
        self.entries = entries;
    }

    /// Remove the binding for `key`, if any.
    pub fn remove(&mut self, key: &str)
        ensures
            final(self)@ == old(self)@.remove(key@),
    {
        proof {
            use_type_invariant(&*self);
            lemma_map_from_kv_contains(self.kv(), key@);
        }
        let ghost old_kv = self.kv();
        let pos = self.position(key);
        match pos {
            Some(i) => {
                let mut entries: Vec<(String, String)> = Vec::new();
                core::mem::swap(&mut self.entries, &mut entries);
                proof {
                    assert(self.kv() =~= Seq::<(Seq<char>, Seq<char>)>::empty());
                    lemma_map_from_kv_remove(old_kv, i as int);
                }
                entries.remove(i);
                proof {
                    let new_kv = entries@.map(|j: int, e: (String, String)| (e.0@, e.1@));
                    assert(new_kv =~= old_kv.remove(i as int));
                }
                self.entries = entries;
            },
            None => {
                proof {
                    assert(!old(self)@.contains_key(key@));
                    assert(old(self)@.remove(key@) =~= old(self)@);
                }
            },
        }
    }

    /// The key of the entry at position `i`.
    pub fn key_at(&self, i: usize) -> (r: &String)
        requires
            i < self.kv().len(),
        ensures
            r@ == self.kv()[i as int].0,
    {
        &self.entries[i].0
    }

    /// The value of the entry at position `i`.
    pub fn value_at(&self, i: usize) -> (r: &String)
        requires
            i < self.kv().len(),
        ensures
            r@ == self.kv()[i as int].1,
    {
        &self.entries[i].1
    }
}

impl Clone for StrMap {
    fn clone(&self) -> (r: Self)
        ensures
            r.kv() == self.kv(),
            r@ == self@,
    {
        proof {
            use_type_invariant(self);
        }
        let n = self.entries.len();
        let mut entries: Vec<(String, String)> = Vec::new();
        let mut i: usize = 0;
        while i < n
            invariant
                i <= n,
                n == self.entries.len(),
                entries@.len() == i,
                forall|j: int|
                    0 <= j < i ==> (#[trigger] entries@[j]).0@ == self.kv()[j].0 && entries@[j].1@
                        == self.kv()[j].1,
            decreases n - i,
        {
            let k = self.entries[i].0.clone();
            let v = self.entries[i].1.clone();
            entries.push((k, v));
            i = i + 1;
        }
        let r = StrMap { entries };
        proof {
            assert(r.kv() =~= self.kv());
        }
        r
    }
}

impl PartialEq for StrMap {
    /// Two maps are equal when their entry lists agree, key for key and value
    /// for value, in order.
    fn eq(&self, other: &Self) -> (r: bool) {
        let n = self.entries.len();
        if n != other.entries.len() {
            proof {
                assert(self.kv().len() != other.kv().len());
            }
            return false;
        }
        let mut i: usize = 0;
        while i < n
            invariant
                i <= n,
                n == self.entries.len(),
                n == other.entries.len(),
                forall|j: int| 0 <= j < i ==> self.kv()[j] == other.kv()[j],
            decreases n - i,
        {
            proof {
                assert(self.kv()[i as int] == (self.entries@[i as int].0@, self.entries@[i as int].1@));
                assert(other.kv()[i as int] == (other.entries@[i as int].0@, other.entries@[
                    i as int
                ].1@));
            }
            if !str_eq(self.entries[i].0.as_str(), other.entries[i].0.as_str()) {
                return false;
            }
            if !str_eq(self.entries[i].1.as_str(), other.entries[i].1.as_str()) {
                return false;
            }
            i = i + 1;
        }
        proof {
            assert(self.kv() =~= other.kv());
        }
        true
    }
}

impl vstd::std_specs::cmp::PartialEqSpecImpl for StrMap {
    open spec fn obeys_eq_spec() -> bool {
        true
    }

    open spec fn eq_spec(&self, other: &Self) -> bool {
        self.kv() == other.kv()
    }
}

} // verus!
