//! The keys whose downloads are under way, so that a key is never fetched
//! twice at once.
use vstd::prelude::*;

verus! {

/// The set of keys whose downloads are under way.
pub struct InFlight {
    keys: Vec<String>,
}

/// The keys of `s` as mathematical sequences.
pub open spec fn key_views(s: Seq<String>) -> Seq<Seq<char>> {
    s.map_values(|k: String| k@)
}

impl View for InFlight {
    type V = Set<Seq<char>>;

    closed spec fn view(&self) -> Set<Seq<char>> {
        key_views(self.keys@).to_set()
    }
}

impl InFlight {
    /// No key is held twice.
    pub closed spec fn wf(&self) -> bool {
        key_views(self.keys@).no_duplicates()
    }

    /// A registry with no download under way.
    pub fn new() -> (r: InFlight)
        ensures
            r.wf(),
            r@ == Set::<Seq<char>>::empty(),
    {
        let r = InFlight { keys: Vec::new() };
        assert(key_views(r.keys@) =~= Seq::<Seq<char>>::empty());
        assert(r@ =~= Set::<Seq<char>>::empty());
        r
    }

    fn position(&self, key: &str) -> (r: Option<usize>)
        ensures
            r is None <==> !self@.contains(key@),
            r matches Some(i) ==> i < self.keys@.len() && self.keys@[i as int]@ == key@,
    {
        let wanted = String::from_str(key);
        let mut i: usize = 0;
        while i < self.keys.len()
            invariant
                wanted@ == key@,
                i <= self.keys@.len(),
                forall|j: int| 0 <= j < i ==> self.keys@[j]@ != key@,
            decreases self.keys@.len() - i,
        {
            if self.keys[i] == wanted {
                proof {
                    assert(key_views(self.keys@)[i as int] == key@);
                }
                return Some(i);
            }
            i = i + 1;
        }
        proof {
            if key_views(self.keys@).contains(key@) {
                let j = choose|j: int|
                    0 <= j < key_views(self.keys@).len() && key_views(self.keys@)[j] == key@;
                assert(self.keys@[j]@ == key@);
            }
        }
        None
    }

    /// Whether a download of `key` is under way.
    pub fn contains(&self, key: &str) -> (r: bool)
        ensures
            r == self@.contains(key@),
    {
        self.position(key).is_some()
    }

    /// Claims `key` for a new download. Returns false, and changes nothing,
    /// when a download of `key` is already under way.
    pub fn begin(&mut self, key: &str) -> (r: bool)
        requires
            old(self).wf(),
        ensures
            final(self).wf(),
            r == !old(self)@.contains(key@),
            final(self)@ == old(self)@.insert(key@),
    {
        if self.position(key).is_some() {
            proof {
                assert(self@.insert(key@) =~= self@);
            }
            return false;
        }
        let ghost before = key_views(self.keys@);
        self.keys.push(String::from_str(key));
        proof {
            let after = key_views(self.keys@);
            assert(after =~= before.push(key@));
            assert forall|x: Seq<char>| after.contains(x) <==> before.contains(x) || x == key@ by {
                if after.contains(x) && x != key@ {
                    let j = choose|j: int| 0 <= j < after.len() && after[j] == x;
                    assert(before[j] == x);
                }
                if before.contains(x) {
                    let j = choose|j: int| 0 <= j < before.len() && before[j] == x;
                    assert(after[j] == x);
                }
                assert(after[before.len() as int] == key@);
            }
            assert(after.to_set() =~= before.to_set().insert(key@));
            assert forall|a: int, b: int| 0 <= a < after.len() && 0 <= b < after.len() && a != b
                implies after[a] != after[b] by {
                if a == before.len() {
                    assert(before.contains(after[b]));
                } else if b == before.len() {
                    assert(before.contains(after[a]));
                }
            }
        }
        true
    }

    /// Releases `key` once its download is over.
    pub fn finish(&mut self, key: &str)
        requires
            old(self).wf(),
        ensures
            final(self).wf(),
            final(self)@ == old(self)@.remove(key@),
    {
        match self.position(key) {
            Some(i) => {
                let ghost before = key_views(self.keys@);
                self.keys.remove(i);
                proof {
                    let after = key_views(self.keys@);
                    assert(after =~= before.remove(i as int));
                    assert(before[i as int] == key@);
                    assert forall|a: int, b: int|
                        0 <= a < after.len() && 0 <= b < after.len() && a != b implies after[a]
                        != after[b] by {
                        let sa = if a < i { a } else { a + 1 };
                        let sb = if b < i { b } else { b + 1 };
                        assert(after[a] == before[sa] && after[b] == before[sb]);
                    }
                    assert forall|x: Seq<char>| after.contains(x) <==> before.contains(x) && x
                        != key@ by {
                        if after.contains(x) {
                            let j = choose|j: int| 0 <= j < after.len() && after[j] == x;
                            let sj = if j < i { j } else { j + 1 };
                            assert(before[sj] == x);
                            assert(sj != i);
                        }
                        if before.contains(x) && x != key@ {
                            let j = choose|j: int| 0 <= j < before.len() && before[j] == x;
                            if j < i {
                                assert(after[j] == x);
                            } else {
                                assert(after[j - 1] == x);
                            }
                        }
                    }
                    assert(after.to_set() =~= before.to_set().remove(key@));
                }
            },
            None => {
                proof {
                    assert(self@.remove(key@) =~= self@);
                }
            },
        }
    }
}

} // verus!
