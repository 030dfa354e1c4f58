//! A registry of transport builders by name.
//!
//! Selection is fail-closed: a transport type that nobody registered is an
//! error, never a fall-back to another transport.

use vstd::prelude::*;

verus! {

/// Why no builder can be registered under a name.
#[derive(Debug, Clone, Copy, PartialEq, Eq, Structural)]
pub enum RegisterError {
    /// The name is empty.
    EmptyName,
    /// The name is taken.
    Duplicate,
}

/// Builders by the name of their transport type.
pub struct Registry<B> {
    entries: Vec<(String, B)>,
}

impl<B> Registry<B> {
    spec fn names(self) -> Seq<Seq<char>> {
        Seq::new(self.entries@.len(), |i: int| self.entries@[i].0@)
    }

    /// No name occurs twice, and none is empty.
    pub closed spec fn wf(self) -> bool {
        &&& forall|i: int, j: int|
            0 <= i < j < self.entries@.len() ==> (#[trigger] self.entries@[i]).0@ != (
            #[trigger] self.entries@[j]).0@
        &&& forall|i: int| 0 <= i < self.entries@.len() ==> (#[trigger] self.entries@[i]).0@.len() > 0
    }

    /// The builder of each name.
    pub closed spec fn view(self) -> Map<Seq<char>, B> {
        Map::new(
            |n: Seq<char>| self.names().contains(n),
            |n: Seq<char>| self.entries@[self.names().index_of(n)].1,
        )
    }

    /// A registry without builders.
    pub fn new() -> (r: Self)
        ensures
            r.wf(),
            r@ == Map::<Seq<char>, B>::empty(),
    {
        let r = Registry { entries: Vec::new() };
        assert(r@ =~= Map::<Seq<char>, B>::empty());
        r
    }

    fn position(&self, name: &str) -> (r: Option<usize>)
        requires
            self.wf(),
        ensures
            match r {
                Some(i) => i < self.entries@.len() && self.entries@[i as int].0@ == name@,
                None => !self.names().contains(name@),
            },
    {
        let mut i: usize = 0;
        while i < self.entries.len()
            invariant
                i <= self.entries@.len(),
                forall|k: int| 0 <= k < i ==> (#[trigger] self.entries@[k]).0@ != name@,
            decreases self.entries@.len() - i,
        {
            if text_eq(self.entries[i].0.as_str(), name) {
                return Some(i);
            }
            i += 1;
        }
        None
    }

    proof fn lemma_lookup(self, i: int)
        requires
            self.wf(),
            0 <= i < self.entries@.len(),
        ensures
            self@.contains_key(self.entries@[i].0@),
            self@[self.entries@[i].0@] == self.entries@[i].1,
    {
        let n = self.entries@[i].0@;
        assert(self.names()[i] == n);
        let k = self.names().index_of(n);
        assert(self.names().contains(n));
        assert(0 <= k < self.names().len() && self.names()[k] == n);
        assert(k == i);
    }

    /// Whether a builder can be registered under `name`: it must not be empty, and
    /// not be taken.
    pub fn check_name(&self, name: &str) -> (r: Result<(), RegisterError>)
        requires
            self.wf(),
        ensures
            match r {
                Ok(_) => name@.len() > 0 && !self@.contains_key(name@),
                Err(RegisterError::EmptyName) => name@.len() == 0,
                Err(RegisterError::Duplicate) => name@.len() > 0 && self@.contains_key(name@),
            },
    {
        if name.unicode_len() == 0 {
            return Err(RegisterError::EmptyName);
        }
        match self.position(name) {
            Some(i) => {
                proof {
                    self.lemma_lookup(i as int);
                }
                Err(RegisterError::Duplicate)
            },
            None => Ok(()),
        }
    }

    /// Registers `builder` under `name`, which [`Registry::check_name`] must allow.
    pub fn register(&mut self, name: String, builder: B)
        requires
            old(self).wf(),
            name@.len() > 0,
            !old(self)@.contains_key(name@),
        ensures
            final(self).wf(),
            final(self)@ == old(self)@.insert(name@, builder),
    {
        let ghost n = name@;
        let ghost before = *self;
        self.entries.push((name, builder));
        proof {
            assert(!before.names().contains(n));
            assert forall|i: int| 0 <= i < before.entries@.len() implies (
            #[trigger] before.entries@[i]).0@ != n by {
                assert(before.names()[i] == before.entries@[i].0@);
            }
            assert forall|i: int, j: int| 0 <= i < j < self.entries@.len() implies (
            #[trigger] self.entries@[i]).0@ != (#[trigger] self.entries@[j]).0@ by {
                assert(self.entries@[i] == before.entries@[i]);
            }
            assert forall|k: Seq<char>| #[trigger]
                self@.contains_key(k) == before@.insert(n, builder).contains_key(k) by {
                if before.names().contains(k) {
                    let i = before.names().index_of(k);
                    assert(self.names()[i] == k);
                }
                assert(self.names()[before.entries@.len() as int] == n);
                if self.names().contains(k) {
                    let i = self.names().index_of(k);
                    if i < before.entries@.len() {
                        assert(before.names()[i] == k);
                    }
                }
            }
            assert forall|k: Seq<char>| #[trigger] self@.contains_key(k) implies self@[k]
                == before@.insert(n, builder)[k] by {
                let i = self.names().index_of(k);
                assert(self.names()[i] == k);
                self.lemma_lookup(i);
                if i < before.entries@.len() {
                    before.lemma_lookup(i);
                }
            }
            assert(self@ =~= before@.insert(n, builder));
        }
    }

    /// The builder registered under `name`, if any.
    pub fn get(&self, name: &str) -> (r: Option<&B>)
        requires
            self.wf(),
        ensures
            match r {
                Some(b) => self@.contains_key(name@) && self@[name@] == *b,
                None => !self@.contains_key(name@),
            },
    {
        match self.position(name) {
            Some(i) => {
                proof {
                    self.lemma_lookup(i as int);
                }
                Some(&self.entries[i].1)
            },
            None => None,
        }
    }
}

/// Whether two texts are the same.
pub fn text_eq(a: &str, b: &str) -> (r: bool)
    ensures
        r == (a@ == b@),
{
    let n: usize = a.unicode_len();
    if n != b.unicode_len() {
        return false;
    }
    let mut i: usize = 0;
    while i < n
        invariant
            i <= n,
            n == a@.len(),
            n == b@.len(),
            forall|k: int| 0 <= k < i ==> a@[k] == b@[k],
        decreases n - i,
    {
        if a.get_char(i) != b.get_char(i) {
            return false;
        }
        i += 1;
    }
    assert(a@ =~= b@);
    true
}

} // verus!
