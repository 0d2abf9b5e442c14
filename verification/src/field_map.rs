//! The fields of a Redis hash as a map from field name to value: what an
//! `HGETALL` reply holds, and what a record is read back from.
use crate::text::str_eq;
use vstd::prelude::*;

verus! {

/// The text of each (field, value) pair.
pub open spec fn pair_views(s: Seq<(String, String)>) -> Seq<(Seq<char>, Seq<char>)> {
    s.map_values(|p: (String, String)| (p.0@, p.1@))
}

/// The map that inserting the pairs of `s` one after another builds: where a
/// field occurs twice, the later value stands.
pub open spec fn pairs_map(s: Seq<(Seq<char>, Seq<char>)>) -> Map<Seq<char>, Seq<char>>
    decreases s.len(),
{
    if s.len() == 0 {
        Map::empty()
    } else {
        pairs_map(s.drop_last()).insert(s.last().0, s.last().1)
    }
}

/// No field occurs twice in `s`.
pub open spec fn unique_fields(s: Seq<(Seq<char>, Seq<char>)>) -> bool {
    forall|i: int, j: int| 0 <= i < s.len() && 0 <= j < s.len() && i != j ==> s[i].0 != s[j].0
}

/// A field is in the map built from `s` exactly when some pair of `s` names it.
pub proof fn lemma_pairs_map_dom(s: Seq<(Seq<char>, Seq<char>)>, k: Seq<char>)
    ensures
        pairs_map(s).dom().contains(k) <==> exists|i: int| 0 <= i < s.len() && s[i].0 == k,
    decreases s.len(),
{
    if s.len() > 0 {
        lemma_pairs_map_dom(s.drop_last(), k);
        if pairs_map(s).dom().contains(k) && k != s.last().0 {
            let i = choose|i: int| 0 <= i < s.drop_last().len() && s.drop_last()[i].0 == k;
            assert(s[i].0 == k);
        }
        if exists|i: int| 0 <= i < s.len() && s[i].0 == k {
            let i = choose|i: int| 0 <= i < s.len() && s[i].0 == k;
            if i < s.len() - 1 {
                assert(s.drop_last()[i].0 == k);
            }
        }
    }
}

/// Where no field occurs twice, each pair's value is what the map holds for
/// its field.
pub proof fn lemma_pairs_map_value(s: Seq<(Seq<char>, Seq<char>)>, i: int)
    requires
        unique_fields(s),
        0 <= i < s.len(),
    ensures
        pairs_map(s).dom().contains(s[i].0),
        pairs_map(s)[s[i].0] == s[i].1,
    decreases s.len(),
{
    if i < s.len() - 1 {
        let d = s.drop_last();
        assert(unique_fields(d)) by {
            assert forall|a: int, b: int|
                0 <= a < d.len() && 0 <= b < d.len() && a != b implies d[a].0 != d[b].0 by {
                assert(d[a] == s[a] && d[b] == s[b]);
            }
        }
        assert(d[i] == s[i]);
        lemma_pairs_map_value(d, i);
        assert(s[i].0 != s[s.len() - 1].0);
    }
}

/// Writing a new value over the pair that holds a field, where no field occurs
/// twice, is inserting that value into the map.
pub proof fn lemma_pairs_map_update(s: Seq<(Seq<char>, Seq<char>)>, j: int, v: Seq<char>)
    requires
        unique_fields(s),
        0 <= j < s.len(),
    ensures
        pairs_map(s.update(j, (s[j].0, v))) =~= pairs_map(s).insert(s[j].0, v),
    decreases s.len(),
{
    let k = s[j].0;
    let u = s.update(j, (k, v));
    if j == s.len() - 1 {
        assert(u.drop_last() =~= s.drop_last());
    } else {
        let d = s.drop_last();
        assert(unique_fields(d)) by {
            assert forall|a: int, b: int|
                0 <= a < d.len() && 0 <= b < d.len() && a != b implies d[a].0 != d[b].0 by {
                assert(d[a] == s[a] && d[b] == s[b]);
            }
        }
        assert(d[j] == s[j]);
        lemma_pairs_map_update(d, j, v);
        assert(u.drop_last() =~= d.update(j, (k, v)));
        assert(u.last() == s.last());
        assert(s.last().0 != k);
    }
}

/// The position of `field` among `entries`, if it is there.
fn find_field(entries: &Vec<(String, String)>, field: &str) -> (r: Option<usize>)
    ensures
        match r {
            Some(j) => j < entries@.len() && entries@[j as int].0@ == field@,
            None => forall|i: int| 0 <= i < entries@.len() ==> entries@[i].0@ != field@,
        },
{
    let mut j: usize = 0;
    while j < entries.len()
        invariant
            j <= entries@.len(),
            forall|i: int| 0 <= i < j ==> entries@[i].0@ != field@,
        decreases entries.len() - j,
    {
        if str_eq(entries[j].0.as_str(), field) {
            return Some(j);
        }
        j = j + 1;
    }
    None
}

/// The fields of a hash, each with its value; no field occurs twice.
pub struct FieldMap {
    entries: Vec<(String, String)>,
}

impl View for FieldMap {
    type V = Map<Seq<char>, Seq<char>>;

    closed spec fn view(&self) -> Map<Seq<char>, Seq<char>> {
        pairs_map(pair_views(self.entries@))
    }
}

impl FieldMap {
    #[verifier::type_invariant]
    spec fn inv(&self) -> bool {
        unique_fields(pair_views(self.entries@))
    }

    /// The map with no field.
    pub fn new() -> (m: FieldMap)
        ensures
            m@ == Map::<Seq<char>, Seq<char>>::empty(),
    {
        let m = FieldMap { entries: Vec::new() };
        assert(pair_views(m.entries@) =~= Seq::<(Seq<char>, Seq<char>)>::empty());
        m
    }

    /// The value of `field`, if the map holds it.
    pub fn get(&self, field: &str) -> (r: Option<&String>)
        ensures
            match r {
                Some(v) => self@.dom().contains(field@) && self@[field@] == v@,
                None => !self@.dom().contains(field@),
            },
    {
        proof {
            use_type_invariant(self);
        }
        let ghost pv = pair_views(self.entries@);
        match find_field(&self.entries, field) {
            Some(j) => {
                proof {
                    assert(pv[j as int].0 == field@);
                    lemma_pairs_map_value(pv, j as int);
                }
                Some(&self.entries[j].1)
            },
            None => {
                proof {
                    lemma_pairs_map_dom(pv, field@);
                    assert forall|i: int| 0 <= i < pv.len() implies pv[i].0 != field@ by {
                        assert(pv[i].0 == self.entries@[i].0@);
                    }
                }
                None
            },
        }
    }

    /// Sets `field` to `value`, in place of any value it had.
    pub fn insert(&mut self, field: String, value: String)
        ensures
            final(self)@ == old(self)@.insert(field@, value@),
    {
        proof {
            use_type_invariant(&*self);
        }
        let ghost pv = pair_views(self.entries@);
        let mut entries: Vec<(String, String)> = Vec::new();
        std::mem::swap(&mut entries, &mut self.entries);
        assert(pair_views(entries@) == pv);
        match find_field(&entries, field.as_str()) {
            Some(j) => {
                proof {
                    lemma_pairs_map_update(pv, j as int, value@);
                }
                entries.set(j, (field, value));
                assert(pair_views(entries@) =~= pv.update(j as int, (pv[j as int].0, value@)));
            },
            None => {
                entries.push((field, value));
                assert(pair_views(entries@).drop_last() =~= pv);
                assert(unique_fields(pair_views(entries@))) by {
                    let nv = pair_views(entries@);
                    assert forall|a: int, b: int|
                        0 <= a < nv.len() && 0 <= b < nv.len() && a != b implies nv[a].0
                        != nv[b].0 by {
                        if a < pv.len() && b < pv.len() {
                            assert(nv[a] == pv[a] && nv[b] == pv[b]);
                        }
                    }
                }
            },
        }
        self.entries = entries;
    }

    /// The map that inserting `pairs` one after another builds: where a field
    /// occurs twice, the later value stands.
    pub fn from_pairs(pairs: &Vec<(String, String)>) -> (m: FieldMap)
        ensures
            m@ == pairs_map(pair_views(pairs@)),
    {
        let ghost pv = pair_views(pairs@);
        let mut m = FieldMap::new();
        let mut i: usize = 0;
        assert(pv.take(0) =~= Seq::<(Seq<char>, Seq<char>)>::empty());
        while i < pairs.len()
            invariant
                i <= pairs@.len(),
                pv == pair_views(pairs@),
                m@ == pairs_map(pv.take(i as int)),
            decreases pairs.len() - i,
        {
            assert(pv.take(i + 1).drop_last() =~= pv.take(i as int));
            m.insert(pairs[i].0.clone(), pairs[i].1.clone());
            i = i + 1;
        }
        assert(pv.take(pairs.len() as int) =~= pv);
        m
    }
}

} // verus!
