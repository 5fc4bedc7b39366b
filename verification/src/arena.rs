use vstd::prelude::*;

verus! {

use crate::errors::LSystemError;
use vstd::string::StrSliceExecFns;

/// A stable handle for an interned symbol.  Handles are assigned densely,
/// starting at zero, in registration order, and are never reused.
#[derive(Clone, Copy, PartialEq, Eq, Structural, Debug, Hash)]
pub struct ArenaId {
    pub index: usize,
}

/// Interns symbol names and hands out dense integer handles.  Built once
/// during construction; read-only afterwards.
pub struct Arena {
    names: Vec<String>,
}

impl Arena {
    /// The registered names, in handle order.
    pub closed spec fn names_view(&self) -> Seq<Seq<char>> {
        self.names@.map(|i: int, s: String| s@)
    }

    pub open spec fn len_spec(&self) -> nat {
        self.names_view().len()
    }

    pub open spec fn has_name(&self, n: Seq<char>) -> bool {
        exists|i: int| 0 <= i < self.names_view().len() && self.names_view()[i] == n
    }

    /// Registered names are pairwise distinct.
    pub open spec fn wf(&self) -> bool {
        forall|i: int, j: int|
            0 <= i < j < self.names_view().len() ==> self.names_view()[i] != self.names_view()[j]
    }

    pub fn new() -> (r: Arena)
        ensures
            r.names_view() == Seq::<Seq<char>>::empty(),
            r.wf(),
    {
        Arena { names: Vec::new() }
    }

    /// The handle, if any, whose name is `name`.
    pub fn find(&self, name: &String) -> (r: Option<ArenaId>)
        ensures
            match r {
                Some(id) => id.index < self.len_spec() && self.names_view()[id.index as int]
                    == name@,
                None => !self.has_name(name@),
            },
    {
        let n = self.names.len();
        let mut i: usize = 0;
        while i < n
            invariant
                n == self.names_view().len(),
                i <= n,
                forall|j: int| 0 <= j < i ==> self.names_view()[j] != name@,
            decreases n - i,
        {
            if self.names[i].eq(name) {
                return Some(ArenaId { index: i });
            }
            i += 1;
        }
        None
    }

    /// Interns `name` under a fresh handle; a name registered before is
    /// rejected, and the arena is left unchanged.
    pub fn register(&mut self, name: String) -> (r: Result<ArenaId, LSystemError>)
        requires
            old(self).wf(),
        ensures
            final(self).wf(),
            match r {
                Ok(id) => !old(self).has_name(name@) && id.index == old(self).len_spec()
                    && final(self).names_view() == old(self).names_view().push(name@),
                Err(e) => old(self).has_name(name@) && final(self).names_view() == old(self).names_view() && (e matches LSystemError::DuplicateToken(m) && m@ == name@),
            },
    {
        match self.find(&name) {
            Some(_) => Err(LSystemError::DuplicateToken(name)),
            None => {
                let id = ArenaId { index: self.names.len() };
                proof {
                    assert(self.names@.push(name).map(|i: int, s: String| s@)
                        =~= self.names_view().push(name@));
                }
                self.names.push(name);
                Ok(id)
            },
        }
    }

    /// The name behind a handle, or `None` for a handle the arena never
    /// assigned.
    pub fn name_of(&self, id: ArenaId) -> (r: Option<&String>)
        ensures
            match r {
                Some(s) => id.index < self.len_spec() && s@ == self.names_view()[id.index as int],
                None => id.index >= self.len_spec(),
            },
    {
        if id.index < self.names.len() {
            Some(&self.names[id.index])
        } else {
            None
        }
    }

    /// The number of registered names; handles are exactly `0..len()`.
    pub fn len(&self) -> (r: usize)
        ensures
            r == self.len_spec(),
    {
        self.names.len()
    }

    /// Whether `id` is a handle this arena assigned.
    pub fn contains(&self, id: ArenaId) -> (r: bool)
        ensures
            r == (id.index < self.len_spec()),
    {
        id.index < self.names.len()
    }

    /// The handle, if any, whose name reads as the given characters.
    pub fn find_chars(&self, name: &Vec<char>) -> (r: Option<ArenaId>)
        ensures
            match r {
                Some(id) => id.index < self.len_spec() && self.names_view()[id.index as int]
                    == name@,
                None => !self.has_name(name@),
            },
    {
        let n = self.names.len();
        let mut i: usize = 0;
        while i < n
            invariant
                n == self.names_view().len(),
                i <= n,
                forall|j: int| 0 <= j < i ==> self.names_view()[j] != name@,
            decreases n - i,
        {
            if str_eq_chars(&self.names[i], name) {
                return Some(ArenaId { index: i });
            }
            i += 1;
        }
        None
    }

    /// Gives the names up for the finished system to own.
    pub(crate) fn into_names(self) -> (r: Vec<String>)
        ensures
            r@.map(|i: int, s: String| s@) == self.names_view(),
    {
        self.names
    }
}

fn str_eq_chars(s: &String, t: &Vec<char>) -> (r: bool)
    ensures
        r == (s@ == t@),
{
    let n = s.as_str().unicode_len();
    if n != t.len() {
        proof {
            if s@ == t@ {
                assert(s@.len() == t@.len());
            }
        }
        return false;
    }
    let mut i: usize = 0;
    while i < n
        invariant
            n == s@.len(),
            n == t@.len(),
            i <= n,
            forall|j: int| 0 <= j < i ==> s@[j] == t@[j],
        decreases n - i,
    {
        if s.as_str().get_char(i) != t[i] {
            proof {
                if s@ == t@ {
                    assert(s@[i as int] == t@[i as int]);
                }
            }
            return false;
        }
        i += 1;
    }
    proof {
        assert(s@ =~= t@);
    }
    true
}

} // verus!
