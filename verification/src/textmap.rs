//! A map with texts for keys that can be thinned out.

use vstd::hash_map::StringHashMap;
use vstd::prelude::*;

use crate::text::same;

verus! {

/// The entries of `m` for which `keep` holds.
pub open spec fn restricted<V>(
    m: Map<Seq<char>, V>,
    keep: spec_fn(Seq<char>, V) -> bool,
) -> Map<Seq<char>, V> {
    Map::new(|k: Seq<char>| m.dom().contains(k) && keep(k, m[k]), |k: Seq<char>| m[k])
}

/// Whether no two keys are the same.
spec fn differ(keys: Seq<String>) -> bool {
    forall|i: int, j: int| 0 <= i < j < keys.len() ==> (#[trigger] keys[i])@ != (#[trigger] keys[j])@
}

/// Whether `k` is among the keys.
spec fn among(keys: Seq<String>, k: Seq<char>) -> bool {
    exists|i: int| 0 <= i < keys.len() && (#[trigger] keys[i])@ == k
}

proof fn lemma_among_push(keys: Seq<String>, key: String, k: Seq<char>)
    ensures
        among(keys.push(key), k) <==> among(keys, k) || key@ == k,
{
    let longer = keys.push(key);
    if among(keys, k) {
        let i = choose|i: int| 0 <= i < keys.len() && (#[trigger] keys[i])@ == k;
        assert(longer[i] == keys[i]);
    }
    if key@ == k {
        assert(longer[keys.len() as int] == key);
    }
    if among(longer, k) {
        let i = choose|i: int| 0 <= i < longer.len() && (#[trigger] longer[i])@ == k;
        if i < keys.len() {
            assert(keys[i] == longer[i]);
        }
    }
}

proof fn lemma_differ_push(keys: Seq<String>, key: String)
    requires
        differ(keys),
        !among(keys, key@),
    ensures
        differ(keys.push(key)),
{
    let longer = keys.push(key);
    assert forall|i: int, j: int| 0 <= i < j < longer.len() implies (#[trigger] longer[i])@ != (
    #[trigger] longer[j])@ by {
        assert(longer[i] == keys[i]);
        if j < keys.len() {
            assert(longer[j] == keys[j]);
        }
    }
}

/// A map with texts for keys. The keys stand in a list as well, by which the map is
/// walked.
#[verifier::reject_recursive_types(V)]
pub struct TextMap<V> {
    keys: Vec<String>,
    entries: StringHashMap<V>,
}

impl<V: Copy> View for TextMap<V> {
    type V = Map<Seq<char>, V>;

    closed spec fn view(&self) -> Map<Seq<char>, V> {
        self.entries@
    }
}

impl<V: Copy> TextMap<V> {
    /// The list holds each key of the map once, and nothing else.
    pub closed spec fn wf(&self) -> bool {
        &&& differ(self.keys@)
        &&& forall|k: Seq<char>| #[trigger]
            self.entries@.dom().contains(k) <==> among(self.keys@, k)
    }

    pub fn new() -> (r: Self)
        ensures
            r@ == Map::<Seq<char>, V>::empty(),
            r.wf(),
    {
        TextMap { keys: Vec::new(), entries: StringHashMap::new() }
    }

    pub fn get(&self, key: &str) -> (r: Option<V>)
        requires
            self.wf(),
        ensures
            r == (if self@.dom().contains(key@) {
                Some(self@[key@])
            } else {
                None
            }),
    {
        match self.entries.get(key) {
            Some(v) => Some(*v),
            None => None,
        }
    }

    /// Keeps the entries for which `keep` holds; `p` says of which that is so.
    pub(crate) fn retain<F: Fn(&String, &V) -> bool>(
        &mut self,
        keep: F,
        Ghost(p): Ghost<spec_fn(Seq<char>, V) -> bool>,
    )
        requires
            old(self).wf(),
            forall|k: &String, v: &V| #[trigger] keep.requires((k, v)),
            forall|k: &String, v: &V, r: bool| #[trigger] keep.ensures((k, v), r) ==> r == p(k@, *v),
        ensures
            final(self).wf(),
            final(self)@ == restricted(old(self)@, p),
    {
        let ghost all = self.keys@;
        let ghost m = self.entries@;
        let mut kept: Vec<String> = Vec::new();
        let mut i: usize = 0;
        assert(forall|k: Seq<char>| !among(all.take(0), k));
        while i < self.keys.len()
            invariant
                i <= self.keys@.len(),
                self.keys@ == all,
                differ(all),
                forall|k: Seq<char>| #[trigger] m.dom().contains(k) <==> among(all, k),
                forall|k: &String, v: &V| #[trigger] keep.requires((k, v)),
                forall|k: &String, v: &V, r: bool| #[trigger]
                    keep.ensures((k, v), r) ==> r == p(k@, *v),
                differ(kept@),
                forall|k: Seq<char>| #[trigger]
                    among(kept@, k) <==> among(all.take(i as int), k) && p(k, m[k]),
                forall|k: Seq<char>| #[trigger]
                    self.entries@.dom().contains(k) <==> m.dom().contains(k) && !(among(
                        all.take(i as int),
                        k,
                    ) && !p(k, m[k])),
                forall|k: Seq<char>| #[trigger]
                    self.entries@.dom().contains(k) ==> self.entries@[k] == m[k],
            decreases self.keys@.len() - i,
        {
            let key = self.keys[i].clone();
            proof {
                assert(all.take(i + 1) =~= all.take(i as int).push(all[i as int]));
                assert(among(all, key@)) by {
                    assert(all[i as int]@ == key@);
                }
                if among(all.take(i as int), key@) {
                    let j = choose|j: int|
                        0 <= j < i && (#[trigger] all.take(i as int)[j])@ == key@;
                    assert(all[j]@ == all[i as int]@);
                }
                assert(m.dom().contains(key@));
                assert(self.entries@.dom().contains(key@));
                assert forall|k: Seq<char>| #[trigger]
                    among(all.take(i + 1), k) <==> among(all.take(i as int), k) || k == key@ by {
                    lemma_among_push(all.take(i as int), all[i as int], k);
                }
            }
            let ghost before = kept@;
            let stays = match self.entries.get(key.as_str()) {
                Some(v) => keep(&key, v),
                None => false,
            };
            assert(stays == p(key@, m[key@]));
            if stays {
                proof {
                    lemma_differ_push(before, key);
                    assert forall|k: Seq<char>| #[trigger]
                        among(before.push(key), k) <==> among(before, k) || k == key@ by {
                        lemma_among_push(before, key, k);
                    }
                }
                kept.push(key);
            } else {
                self.entries.remove(key.as_str());
            }
            i += 1;
        }
        proof {
            assert(all.take(all.len() as int) =~= all);
        }
        self.keys = kept;
        assert(self@ =~= restricted(m, p));
    }

    pub fn remove(&mut self, key: &str)
        requires
            old(self).wf(),
        ensures
            final(self).wf(),
            final(self)@ == old(self)@.remove(key@),
    {
        let ghost p = |k: Seq<char>, v: V| k != key@;
        let keep = |k: &String, v: &V| -> (r: bool)
            ensures
                r == (k@ != key@),
            { !same(k.as_str(), key) };
        self.retain(keep, Ghost(p));
        assert(self@ =~= old(self)@.remove(key@));
    }

    pub fn insert(&mut self, key: String, value: V)
        requires
            old(self).wf(),
        ensures
            final(self).wf(),
            final(self)@ == old(self)@.insert(key@, value),
    {
        let ghost keys = self.keys@;
        if !self.entries.contains_key(key.as_str()) {
            let listed = key.clone();
            proof {
                lemma_differ_push(keys, listed);
                assert forall|k: Seq<char>| #[trigger]
                    among(keys.push(listed), k) <==> among(keys, k) || k == key@ by {
                    lemma_among_push(keys, listed, k);
                }
            }
            self.keys.push(listed);
        }
        self.entries.insert(key, value);
    }
}

} // verus!
