//! The devices that have a reader.
//!
//! At most one reader is active for a device path at any time. Discovery and
//! the watcher claim a path before they open the device; the claim is given
//! up when the device cannot be opened or when its reader ends, and only then
//! can the path be opened again.

use crate::bytes::same_bytes;
use vstd::prelude::*;
use vstd::slice::slice_to_vec;

verus! {

/// The set of device paths that are claimed by a reader.
pub struct ReaderRegistry {
    active: Vec<Vec<u8>>,
}

impl View for ReaderRegistry {
    type V = Set<Seq<u8>>;

    closed spec fn view(&self) -> Set<Seq<u8>> {
        self.paths().to_set()
    }
}

impl ReaderRegistry {
    spec fn paths(&self) -> Seq<Seq<u8>> {
        self.active@.map_values(|path: Vec<u8>| path@)
    }

    #[verifier::type_invariant]
    spec fn distinct(&self) -> bool {
        self.paths().no_duplicates()
    }

    /// A registry without a reader.
    pub fn new() -> (registry: ReaderRegistry)
        ensures
            registry@ == Set::<Seq<u8>>::empty(),
    {
        let registry = ReaderRegistry { active: Vec::new() };
        assert(registry@ =~= Set::<Seq<u8>>::empty());
        registry
    }

    /// Where `path` stands among the claimed paths.
    fn position(&self, path: &[u8]) -> (found: Option<usize>)
        ensures
            match found {
                Some(at) => at < self.paths().len() && self.paths()[at as int] == path@,
                None => !self.paths().contains(path@),
            },
    {
        let mut at: usize = 0;
        while at < self.active.len()
            invariant
                at <= self.active.len(),
                forall|k: int| 0 <= k < at ==> self.paths()[k] != path@,
            decreases self.active.len() - at,
        {
            if same_bytes(self.active[at].as_slice(), path) {
                return Some(at);
            }
            at += 1;
        }
        None
    }

    /// Whether a reader holds `path`.
    pub fn is_active(&self, path: &[u8]) -> (active: bool)
        ensures
            active == self@.contains(path@),
    {
        self.position(path).is_some()
    }

    /// How many paths are claimed.
    pub fn len(&self) -> (n: usize)
        ensures
            self@.finite(),
            n == self@.len(),
    {
        proof {
            use_type_invariant(self);
            self.paths().unique_seq_to_set();
            vstd::seq_lib::seq_to_set_is_finite(self.paths());
        }
        self.active.len()
    }

    /// Claims `path` for a new reader. The claim is refused, and nothing
    /// changes, when a reader holds the path already.
    pub fn claim(&mut self, path: &[u8]) -> (claimed: bool)
        ensures
            claimed == !old(self)@.contains(path@),
            final(self)@ == old(self)@.insert(path@),
    {
        match self.position(path) {
            Some(_) => {
                assert(self@ =~= self@.insert(path@));
                false
            },
            None => {
                let owned = slice_to_vec(path);
                proof {
                    use_type_invariant(&*self);
                    let grown = self.active@.push(owned).map_values(|p: Vec<u8>| p@);
                    assert(grown =~= self.paths().push(path@));
                    assert(grown.no_duplicates());
                    assert(grown.to_set() =~= self@.insert(path@)) by {
                        assert forall|p: Seq<u8>| grown.to_set().contains(p) implies self@.insert(
                            path@,
                        ).contains(p) by {
                            let k = choose|k: int| 0 <= k < grown.len() && grown[k] == p;
                            if k < self.paths().len() {
                                assert(self.paths()[k] == p);
                            }
                        }
                        assert forall|p: Seq<u8>| self@.insert(path@).contains(
                            p,
                        ) implies grown.to_set().contains(p) by {
                            if p == path@ {
                                assert(grown[grown.len() - 1] == p);
                            } else {
                                let k = choose|k: int|
                                    0 <= k < self.paths().len() && self.paths()[k] == p;
                                assert(grown[k] == p);
                            }
                        }
                    }
                }
                let mut active: Vec<Vec<u8>> = Vec::new();
                std::mem::swap(&mut self.active, &mut active);
                active.push(owned);
                std::mem::swap(&mut self.active, &mut active);
                true
            },
        }
    }

    /// Gives up the claim on `path`, after which the path can be claimed
    /// again. Returns whether the path was claimed.
    pub fn release(&mut self, path: &[u8]) -> (released: bool)
        ensures
            released == old(self)@.contains(path@),
            final(self)@ == old(self)@.remove(path@),
    {
        match self.position(path) {
            None => {
                assert(self@ =~= self@.remove(path@));
                false
            },
            Some(at) => {
                proof {
                    use_type_invariant(&*self);
                    let before = self.paths();
                    let shrunk = self.active@.remove(at as int).map_values(|p: Vec<u8>| p@);
                    assert(shrunk =~= before.remove(at as int));
                    assert forall|i: int, j: int|
                        0 <= i < shrunk.len() && 0 <= j < shrunk.len() && i != j implies shrunk[i]
                        != shrunk[j] by {
                        let oi = if i < at { i } else { i + 1 };
                        let oj = if j < at { j } else { j + 1 };
                        assert(shrunk[i] == before[oi]);
                        assert(shrunk[j] == before[oj]);
                    }
                    assert(shrunk.to_set() =~= self@.remove(path@)) by {
                        assert forall|p: Seq<u8>| shrunk.to_set().contains(p) implies self@.remove(
                            path@,
                        ).contains(p) by {
                            let k = choose|k: int| 0 <= k < shrunk.len() && shrunk[k] == p;
                            let ok = if k < at { k } else { k + 1 };
                            assert(before[ok] == p);
                        }
                        assert forall|p: Seq<u8>| self@.remove(path@).contains(
                            p,
                        ) implies shrunk.to_set().contains(p) by {
                            let k = choose|k: int| 0 <= k < before.len() && before[k] == p;
                            let nk = if k < at { k } else { k - 1 };
                            assert(shrunk[nk] == p);
                        }
                    }
                }
                let mut active: Vec<Vec<u8>> = Vec::new();
                std::mem::swap(&mut self.active, &mut active);
                active.remove(at);
                std::mem::swap(&mut self.active, &mut active);
                true
            },
        }
    }
}

} // verus!
