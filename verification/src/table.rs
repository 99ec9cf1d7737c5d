//! Small maps from text to values, in order of insertion.
use vstd::prelude::*;
use crate::text;

verus! {

/// A map from text to values. A key occurs once.
pub struct Table<V> {
    entries: Vec<(String, V)>,
}

/// The map that a list of entries stands for.
pub open spec fn map_of<V>(e: Seq<(String, V)>) -> Map<Seq<char>, V>
    decreases e.len(),
{
    if e.len() == 0 {
        Map::empty()
    } else {
        map_of(e.drop_last()).insert(e.last().0@, e.last().1)
    }
}

/// No key occurs twice.
pub open spec fn distinct<V>(e: Seq<(String, V)>) -> bool {
    forall|i: int, j: int| 0 <= i < j < e.len() ==> (#[trigger] e[i]).0@ != (#[trigger] e[j]).0@
}

proof fn lemma_map_of<V>(e: Seq<(String, V)>)
    requires
        distinct(e),
    ensures
        forall|k: Seq<char>|
            #[trigger] map_of(e).contains_key(k) <==> exists|i: int|
                0 <= i < e.len() && (#[trigger] e[i]).0@ == k,
        forall|i: int| 0 <= i < e.len() ==> map_of(e).contains_key((#[trigger] e[i]).0@) && map_of(e)[e[i].0@]
            == e[i].1,
    decreases e.len(),
{
    if e.len() > 0 {
        let d = e.drop_last();
        lemma_map_of(d);
        assert forall|k: Seq<char>| #[trigger] map_of(e).contains_key(k) <==> exists|i: int|
            0 <= i < e.len() && (#[trigger] e[i]).0@ == k by {
            if map_of(e).contains_key(k) {
                if k == e.last().0@ {
                    assert(e[e.len() - 1].0@ == k);
                } else {
                    assert(map_of(d).contains_key(k));
                    let i = choose|i: int| 0 <= i < d.len() && (#[trigger] d[i]).0@ == k;
                    assert(e[i].0@ == k);
                }
            }
            if exists|i: int| 0 <= i < e.len() && (#[trigger] e[i]).0@ == k {
                let i = choose|i: int| 0 <= i < e.len() && (#[trigger] e[i]).0@ == k;
                if i < d.len() {
                    assert(d[i].0@ == k);
                }
            }
        }
        assert forall|i: int| 0 <= i < e.len() implies map_of(e).contains_key((#[trigger] e[i]).0@)
            && map_of(e)[e[i].0@] == e[i].1 by {
            if i < d.len() {
                assert(d[i] == e[i]);
                assert(e[i].0@ != e[e.len() - 1].0@);
            }
        }
    }
}

/// The entries of a map whose values are at least `floor`.
pub open spec fn at_least(m: Map<Seq<char>, i64>, floor: int) -> Map<Seq<char>, i64> {
    m.restrict(Set::new(|k: Seq<char>| m.contains_key(k) && m[k] >= floor))
}

/// The entries whose values are at least `floor`, in order.
spec fn kept_entries(e: Seq<(String, i64)>, floor: i64) -> Seq<(String, i64)>
    decreases e.len(),
{
    if e.len() == 0 {
        e
    } else if e.last().1 >= floor {
        kept_entries(e.drop_last(), floor).push(e.last())
    } else {
        kept_entries(e.drop_last(), floor)
    }
}

proof fn lemma_kept(e: Seq<(String, i64)>, floor: i64)
    requires
        distinct(e),
    ensures
        distinct(kept_entries(e, floor)),
        map_of(kept_entries(e, floor)) == at_least(map_of(e), floor as int),
    decreases e.len(),
{
    if e.len() == 0 {
        assert(map_of(e) =~= at_least(map_of(e), floor as int));
    } else {
        let d = e.drop_last();
        let k = e.last().0@;
        let v = e.last().1;
        lemma_kept(d, floor);
        lemma_map_of(d);
        lemma_map_of(kept_entries(d, floor));
        assert(!map_of(d).contains_key(k)) by {
            if map_of(d).contains_key(k) {
                let i = choose|i: int| 0 <= i < d.len() && (#[trigger] d[i]).0@ == k;
                assert(e[i].0@ != e[e.len() - 1].0@);
            }
        }
        let kept = kept_entries(d, floor);
        if v >= floor {
            assert forall|x: int, y: int| 0 <= x < y < kept.push(e.last()).len() implies (
            #[trigger] kept.push(e.last())[x]).0@ != (#[trigger] kept.push(e.last())[y]).0@ by {
                if y == kept.len() {
                    assert(map_of(kept).contains_key(kept[x].0@));
                }
            }
            assert(kept.push(e.last()).drop_last() =~= kept);
            assert(map_of(kept_entries(e, floor)) =~= at_least(map_of(e), floor as int));
        } else {
            assert(map_of(kept_entries(e, floor)) =~= at_least(map_of(e), floor as int));
        }
    }
}

impl<V> View for Table<V> {
    type V = Map<Seq<char>, V>;

    closed spec fn view(&self) -> Map<Seq<char>, V> {
        map_of(self.entries@)
    }
}

impl<V> Table<V> {
    #[verifier::type_invariant]
    spec fn wf(self) -> bool {
        distinct(self.entries@)
    }

    pub fn new() -> (r: Self)
        ensures
            r@ == Map::<Seq<char>, V>::empty(),
    {
        Table { entries: Vec::new() }
    }

    /// Where a key is.
    fn find(&self, k: &str) -> (r: Option<usize>)
        ensures
            match r {
                Some(i) => i < self.entries@.len() && self.entries@[i as int].0@ == k@,
                None => !self@.contains_key(k@),
            },
    {
        proof {
            use_type_invariant(self);
            lemma_map_of(self.entries@);
        }
        let mut i: usize = 0;
        while i < self.entries.len()
            invariant
                i <= self.entries.len(),
                forall|j: int| 0 <= j < i ==> (#[trigger] self.entries@[j]).0@ != k@,
            decreases self.entries.len() - i,
        {
            if text::same(self.entries[i].0.as_str(), k) {
                return Some(i);
            }
            i = i + 1;
        }
        None
    }

    pub fn contains_key(&self, k: &str) -> (r: bool)
        ensures
            r == self@.contains_key(k@),
    {
        proof {
            use_type_invariant(self);
            lemma_map_of(self.entries@);
        }
        self.find(k).is_some()
    }

    pub fn get(&self, k: &str) -> (r: Option<&V>)
        ensures
            match r {
                Some(v) => self@.contains_key(k@) && *v == self@[k@],
                None => !self@.contains_key(k@),
            },
    {
        proof {
            use_type_invariant(self);
            lemma_map_of(self.entries@);
        }
        match self.find(k) {
            Some(i) => Some(&self.entries[i].1),
            None => None,
        }
    }

    /// Sets a key.
    pub fn insert(&mut self, k: &str, v: V)
        ensures
            final(self)@ == old(self)@.insert(k@, v),
    {
        proof {
            use_type_invariant(&*self);
            lemma_map_of(self.entries@);
        }
        let ghost before = self.entries@;
        let at = self.find(k);
        let mut entries: Vec<(String, V)> = Vec::new();
        std::mem::swap(&mut entries, &mut self.entries);
        match at {
            Some(i) => {
                entries.remove(i);
            },
            None => {},
        }
        let ghost rest = entries@;
        entries.push((k.to_owned(), v));
        proof {
            assert(distinct(rest)) by {
                if at is Some {
                    assert(rest =~= before.remove(at->0 as int));
                }
            }
            assert forall|i: int| 0 <= i < rest.len() implies (#[trigger] rest[i]).0@ != k@ by {
                match at {
                    Some(a) => {
                        let j = if i < a {
                            i
                        } else {
                            i + 1
                        };
                        assert(rest[i] == before[j]);
                        assert(before[a as int].0@ == k@);
                        assert(before[j].0@ != before[a as int].0@);
                    },
                    None => {
                        assert(map_of(before).contains_key(before[i].0@));
                    },
                }
            }
            assert(distinct(entries@));
            lemma_map_of(rest);
            lemma_map_of(entries@);
            assert(entries@.drop_last() =~= rest);
            assert(map_of(entries@) =~= map_of(before).insert(k@, v)) by {
                assert forall|q: Seq<char>| q != k@ implies map_of(rest).contains_key(q)
                    == map_of(before).contains_key(q) && (map_of(rest).contains_key(q)
                    ==> map_of(rest)[q] == map_of(before)[q]) by {
                    if map_of(rest).contains_key(q) {
                        let i = choose|i: int| 0 <= i < rest.len() && (#[trigger] rest[i]).0@ == q;
                        let j = if at is Some && i >= at->0 {
                            i + 1
                        } else {
                            i
                        };
                        assert(rest[i] == before[j]);
                    }
                    if map_of(before).contains_key(q) {
                        let j = choose|j: int|
                            0 <= j < before.len() && (#[trigger] before[j]).0@ == q;
                        let i = if at is Some && j > at->0 {
                            j - 1
                        } else {
                            j
                        };
                        assert(rest[i] == before[j]);
                    }
                }
            }
        }
        self.entries = entries;
    }
}

impl Table<i64> {
    /// Forgets every entry whose value is below `floor`.
    pub fn retain_at_least(&mut self, floor: i64)
        ensures
            final(self)@ == at_least(old(self)@, floor as int),
    {
        proof {
            use_type_invariant(&*self);
            lemma_map_of(self.entries@);
        }
        let ghost before = self.entries@;
        let mut source: Vec<(String, i64)> = Vec::new();
        std::mem::swap(&mut source, &mut self.entries);
        let mut kept: Vec<(String, i64)> = Vec::new();
        let mut i: usize = 0;
        while i < source.len()
            invariant
                i <= source.len(),
                source@ == before,
                kept@ == kept_entries(before.take(i as int), floor),
            decreases source.len() - i,
        {
            assert(before.take(i + 1).drop_last() =~= before.take(i as int));
            assert(before.take(i + 1).last() == before[i as int]);
            if source[i].1 >= floor {
                kept.push((source[i].0.clone(), source[i].1));
            }
            i = i + 1;
        }
        proof {
            assert(before.take(i as int) =~= before);
            lemma_kept(before, floor);
        }
        self.entries = kept;
    }
}

} // verus!
