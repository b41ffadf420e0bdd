//! A small string-to-string mapping with insertion order kept and
//! duplicate keys collapsed (the last value stored for a key wins).
//! It backs both the header map and the route-parameter map.

use vstd::prelude::*;

verus! {

use vstd::pervasive::VecAdditionalExecFns;

/// The index of the entry holding `k`, if any.
pub open spec fn spec_dict_index(m: Seq<(Seq<char>, Seq<char>)>, k: Seq<char>) -> Option<int>
    decreases m.len(),
{
    if m.len() == 0 {
        None
    } else if m[0].0 == k {
        Some(0)
    } else {
        match spec_dict_index(m.skip(1), k) {
            Some(i) => Some(i + 1),
            None => None,
        }
    }
}

/// The value stored for `k`, if any.
pub open spec fn spec_dict_get(m: Seq<(Seq<char>, Seq<char>)>, k: Seq<char>) -> Option<Seq<char>> {
    match spec_dict_index(m, k) {
        Some(i) => Some(m[i].1),
        None => None,
    }
}

/// Binds `k` to `v`: in place when `k` is already present, appended
/// otherwise.
pub open spec fn spec_dict_insert(
    m: Seq<(Seq<char>, Seq<char>)>,
    k: Seq<char>,
    v: Seq<char>,
) -> Seq<(Seq<char>, Seq<char>)> {
    match spec_dict_index(m, k) {
        Some(i) => m.update(i, (k, v)),
        None => m.push((k, v)),
    }
}

/// `spec_dict_index` names the first entry with the key: a hit within
/// bounds with no earlier hit, or a miss with no entry at all.
pub proof fn lemma_dict_index(m: Seq<(Seq<char>, Seq<char>)>, k: Seq<char>)
    ensures
        match spec_dict_index(m, k) {
            Some(i) => 0 <= i < m.len() && m[i].0 == k && (forall|j: int|
                0 <= j < i ==> m[j].0 != k),
            None => forall|j: int| 0 <= j < m.len() ==> m[j].0 != k,
        },
    decreases m.len(),
{
    if m.len() == 0 {
    } else if m[0].0 == k {
    } else {
        lemma_dict_index(m.skip(1), k);
        match spec_dict_index(m.skip(1), k) {
            Some(i) => {
                assert(m[i + 1].0 == k) by {
                    assert(m.skip(1)[i] == m[i + 1]);
                }
                assert forall|j: int| 0 <= j < i + 1 implies m[j].0 != k by {
                    if j > 0 {
                        assert(m.skip(1)[j - 1] == m[j]);
                    }
                }
            },
            None => {
                assert forall|j: int| 0 <= j < m.len() implies m[j].0 != k by {
                    if j > 0 {
                        assert(m.skip(1)[j - 1] == m[j]);
                    }
                }
            },
        }
    }
}

/// Whether the entries of `m` carry pairwise distinct keys.
pub open spec fn spec_dict_wf(m: Seq<(Seq<char>, Seq<char>)>) -> bool {
    forall|i: int, j: int| 0 <= i < j < m.len() ==> m[i].0 != m[j].0
}

/// Inserting keeps keys pairwise distinct.
pub proof fn lemma_dict_insert_wf(m: Seq<(Seq<char>, Seq<char>)>, k: Seq<char>, v: Seq<char>)
    requires
        spec_dict_wf(m),
    ensures
        spec_dict_wf(spec_dict_insert(m, k, v)),
{
    lemma_dict_index(m, k);
    match spec_dict_index(m, k) {
        Some(i) => {
            let m2 = m.update(i, (k, v));
            assert forall|p: int, q: int| 0 <= p < q < m2.len() implies m2[p].0 != m2[q].0 by {
                if p != i && q != i {
                    assert(m2[p] == m[p] && m2[q] == m[q]);
                }
            }
        },
        None => {
            let m2 = m.push((k, v));
            assert forall|p: int, q: int| 0 <= p < q < m2.len() implies m2[p].0 != m2[q].0 by {
                if q == m.len() {
                    assert(m2[p] == m[p]);
                } else {
                    assert(m2[p] == m[p] && m2[q] == m[q]);
                }
            }
        },
    }
}

/// After an insert, the inserted key reads back the new value and every
/// other key reads back what it read before.
pub proof fn lemma_dict_insert_get(m: Seq<(Seq<char>, Seq<char>)>, k: Seq<char>, v: Seq<char>)
    ensures
        spec_dict_get(spec_dict_insert(m, k, v), k) == Some(v),
        forall|k2: Seq<char>|
            k2 != k ==> spec_dict_get(spec_dict_insert(m, k, v), k2) == spec_dict_get(m, k2),
{
    lemma_dict_index(m, k);
    let m2 = spec_dict_insert(m, k, v);
    lemma_dict_index(m2, k);
    match spec_dict_index(m2, k) {
        Some(i) => {
            match spec_dict_index(m, k) {
                Some(i0) => {
                    assert(m2 == m.update(i0, (k, v)));
                    assert(m2[i0].0 == k);
                    assert(i <= i0);
                    assert(i0 <= i) by {
                        if i < i0 {
                            assert(m2[i] == m[i]);
                        }
                    }
                },
                None => {
                    assert(m2 == m.push((k, v)));
                    assert(i == m.len()) by {
                        if i < m.len() {
                            assert(m2[i] == m[i]);
                        }
                    }
                },
            }
        },
        None => {
            match spec_dict_index(m, k) {
                Some(i0) => {
                    assert(m2[i0].0 == k);
                },
                None => {
                    assert(m2[m.len() as int].0 == k);
                },
            }
        },
    }
    assert forall|k2: Seq<char>| k2 != k implies spec_dict_get(m2, k2) == spec_dict_get(
        m,
        k2,
    ) by {
        lemma_dict_index_frame(m, k, v, k2);
    }
}

/// An insert of one key leaves lookups of any other key unchanged.
proof fn lemma_dict_index_frame(
    m: Seq<(Seq<char>, Seq<char>)>,
    k: Seq<char>,
    v: Seq<char>,
    k2: Seq<char>,
)
    requires
        k2 != k,
    ensures
        spec_dict_get(spec_dict_insert(m, k, v), k2) == spec_dict_get(m, k2),
{
    lemma_dict_index(m, k);
    lemma_dict_index(m, k2);
    let m2 = spec_dict_insert(m, k, v);
    lemma_dict_index(m2, k2);
    match spec_dict_index(m, k2) {
        Some(i0) => {
            assert(m2[i0].0 == k2 && m2[i0].1 == m[i0].1) by {
                match spec_dict_index(m, k) {
                    Some(ik) => {
                        assert(m[ik].0 == k);
                        assert(i0 != ik);
                    },
                    None => {},
                }
            }
            match spec_dict_index(m2, k2) {
                Some(i2) => {
                    assert(i2 <= i0);
                    assert(i0 <= i2) by {
                        if i2 < i0 {
                            assert(m2[i2].0 == k2);
                            assert(m2[i2] == m[i2] || m2[i2].0 == k);
                            assert(m[i2].0 != k2);
                        }
                    }
                },
                None => {
                    assert(m2[i0].0 != k2);
                },
            }
        },
        None => {
            match spec_dict_index(m2, k2) {
                Some(i2) => {
                    assert(m2[i2].0 == k2);
                    if i2 < m.len() {
                        assert(m2[i2] == m[i2] || m2[i2].0 == k);
                        assert(m[i2].0 != k2);
                    } else {
                        assert(m2[i2].0 == k);
                    }
                },
                None => {},
            }
        },
    }
}

/// A string-to-string mapping with insertion order kept and duplicate
/// keys collapsed.
#[derive(Debug)]
pub struct Dict {
    entries: Vec<(String, String)>,
}

impl View for Dict {
    type V = Seq<(Seq<char>, Seq<char>)>;

    closed spec fn view(&self) -> Seq<(Seq<char>, Seq<char>)> {
        self.entries.deep_view()
    }
}

impl Dict {
    /// Whether the stored keys are pairwise distinct.
    pub open spec fn wf(&self) -> bool {
        spec_dict_wf(self@)
    }

    /// An empty mapping.
    pub fn new() -> (r: Dict)
        ensures
            r@ == Seq::<(Seq<char>, Seq<char>)>::empty(),
            r.wf(),
    {
        let r = Dict { entries: Vec::new() };
        proof {
            assert(r@ =~= Seq::<(Seq<char>, Seq<char>)>::empty());
        }
        r
    }

    /// The number of stored entries.
    pub fn len(&self) -> (r: usize)
        ensures
            r == self@.len(),
    {
        self.entries.len()
    }

    /// The entries in insertion order.
    pub fn entries(&self) -> (r: &Vec<(String, String)>)
        ensures
            r.deep_view() == self@,
    {
        &self.entries
    }

    /// Binds `key` to `value`, replacing any value stored for `key`.
    pub fn insert(&mut self, key: &str, value: &str)
        ensures
            final(self)@ == spec_dict_insert(old(self)@, key@, value@),
            old(self).wf() ==> final(self).wf(),
    {
        proof {
            lemma_dict_index(self@, key@);
            if old(self).wf() {
                lemma_dict_insert_wf(self@, key@, value@);
            }
        }
        let n = self.entries.len();
        let mut i: usize = 0;
        while i < n
            invariant
                n == self.entries.len(),
                i <= n,
                self@ == old(self)@,
                self.entries == old(self).entries,
                forall|j: int| 0 <= j < i ==> self@[j].0 != key@,
            decreases n - i,
        {
            proof {
                assert(self@[i as int] == self.entries@[i as int].deep_view());
            }
            if crate::text::str_eq(self.entries[i].0.as_str(), key) {
                let pair = (key.to_owned(), value.to_owned());
                self.entries.set(i, pair);
                proof {
                    lemma_dict_index(old(self)@, key@);
                    assert(spec_dict_index(old(self)@, key@) == Some(i as int));
                    assert(self@ =~= old(self)@.update(i as int, (key@, value@)));
                }
                return ;
            }
            i = i + 1;
        }
        proof {
            lemma_dict_index(old(self)@, key@);
        }
        let pair = (key.to_owned(), value.to_owned());
        self.entries.push(pair);
        proof {
            assert(self@ =~= old(self)@.push((key@, value@)));
        }
    }

    /// An identical copy of this mapping.
    pub fn duplicate(&self) -> (r: Dict)
        ensures
            r@ == self@,
    {
        let n = self.entries.len();
        let mut entries: Vec<(String, String)> = Vec::new();
        let mut i: usize = 0;
        proof {
            assert(entries.deep_view() =~= self@.take(0));
        }
        while i < n
            invariant
                n == self.entries.len(),
                n == self@.len(),
                i <= n,
                entries@.len() == i as int,
                entries.deep_view() == self@.take(i as int),
            decreases n - i,
        {
            proof {
                assert(self@[i as int] == self.entries@[i as int].deep_view());
            }
            let pair = (self.entries[i].0.clone(), self.entries[i].1.clone());
            let ghost gpair = pair;
            let ghost prev = entries@;
            proof {
                assert(gpair.0 == self.entries@[i as int].0);
                assert(gpair.1 == self.entries@[i as int].1);
                assert(gpair.deep_view() == self@[i as int]);
            }
            entries.push(pair);
            proof {
                assert(entries@ == prev.push(gpair));
                assert(prev.len() == i as int);
                assert(entries@.len() == i + 1);
                assert(entries.deep_view().len() == i + 1);
                assert forall|j: int| 0 <= j < i + 1 implies entries.deep_view()[j] == self@.take(
                    i + 1,
                )[j] by {
                    assert(entries.deep_view()[j] == entries@[j].deep_view());
                    if j < i {
                        assert(entries@[j] == prev[j]);
                    } else {
                        assert(entries@[j] == gpair);
                    }
                }
                assert(entries.deep_view() =~= self@.take(i + 1));
            }
            i = i + 1;
        }
        let r = Dict { entries };
        proof {
            assert(self@.take(n as int) =~= self@);
        }
        r
    }

    /// The value bound to `key`, if any.
    pub fn get(&self, key: &str) -> (r: Option<&String>)
        ensures
            match spec_dict_get(self@, key@) {
                Some(v) => r matches Some(s) && s@ == v,
                None => r is None,
            },
    {
        proof {
            lemma_dict_index(self@, key@);
        }
        let n = self.entries.len();
        let mut i: usize = 0;
        while i < n
            invariant
                n == self.entries.len(),
                n == self@.len(),
                i <= n,
                forall|j: int| 0 <= j < i ==> self@[j].0 != key@,
            decreases n - i,
        {
            proof {
                assert(self@[i as int] == self.entries@[i as int].deep_view());
            }
            if crate::text::str_eq(self.entries[i].0.as_str(), key) {
                proof {
                    lemma_dict_index(self@, key@);
                }
                return Some(&self.entries[i].1);
            }
            i = i + 1;
        }
        None
    }
}

} // verus!
