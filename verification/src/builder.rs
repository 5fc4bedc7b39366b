use vstd::prelude::*;

verus! {

use crate::arena::{Arena, ArenaId};
use crate::errors::LSystemError;
use crate::system::{in_range, rules_wf, LSystem};

/// Builds an `LSystem`: interns tokens, validates the initial sequence and the rules
/// against the arena, and refuses to produce a system on any error.
pub struct LSystemBuilder {
    arena: Arena,
    rules: Vec<Option<Vec<ArenaId>>>,
    initial: Vec<ArenaId>,
}

impl LSystemBuilder {
    pub closed spec fn names_view(&self) -> Seq<Seq<char>> {
        self.arena.names_view()
    }

    pub closed spec fn rules_view(&self) -> Seq<Option<Seq<ArenaId>>> {
        self.rules@.map(
            |i: int, r: Option<Vec<ArenaId>>|
                match r {
                    Some(v) => Some(v@),
                    None => None,
                },
        )
    }

    pub closed spec fn initial_view(&self) -> Seq<ArenaId> {
        self.initial@
    }

    pub closed spec fn wf(&self) -> bool {
        &&& self.arena.wf()
        &&& self.rules_view().len() == self.names_view().len()
        &&& in_range(self.initial_view(), self.names_view().len())
        &&& rules_wf(self.rules_view(), self.names_view().len())
    }

    pub fn new() -> (r: LSystemBuilder)
        ensures
            r.wf(),
            r.names_view() == Seq::<Seq<char>>::empty(),
            r.rules_view() == Seq::<Option<Seq<ArenaId>>>::empty(),
            r.initial_view() == Seq::<ArenaId>::empty(),
    {
        let r = LSystemBuilder { arena: Arena::new(), rules: Vec::new(), initial: Vec::new() };
        proof {
            assert(r.rules_view() =~= Seq::<Option<Seq<ArenaId>>>::empty());
        }
        r
    }

    /// Interns a new token name and gives it a fresh handle; a duplicate
    /// name is rejected and the builder is left unchanged.
    pub fn token(&mut self, name: String) -> (r: Result<ArenaId, LSystemError>)
        requires
            old(self).wf(),
        ensures
            final(self).wf(),
            final(self).initial_view() == old(self).initial_view(),
            match r {
                Ok(id) => !old(self).has_token(name@) && id.index == old(self).names_view().len()
                    && final(self).names_view() == old(self).names_view().push(name@) && final(self).rules_view() == old(self).rules_view().push(None),
                Err(e) => old(self).has_token(name@) && final(self).names_view() == old(self).names_view() && final(self).rules_view() == old(self).rules_view() && (
                e matches LSystemError::DuplicateToken(m) && m@ == name@),
            },
    {
        match self.arena.register(name) {
            Ok(id) => {
                proof {
                    assert(self.rules@.push(None).map(
                        |i: int, r: Option<Vec<ArenaId>>|
                            match r {
                                Some(v) => Some(v@),
                                None => None,
                            },
                    ) =~= self.rules_view().push(None));
                }
                self.rules.push(None);
                Ok(id)
            },
            Err(e) => Err(e),
        }
    }

    /// Whether a token of this name has been interned.
    pub open spec fn has_token(&self, n: Seq<char>) -> bool {
        exists|i: int| 0 <= i < self.names_view().len() && self.names_view()[i] == n
    }

    /// The handle of the token named `name`, if it is interned.
    pub fn get_token(&self, name: &String) -> (r: Option<ArenaId>)
        ensures
            match r {
                Some(id) => id.index < self.names_view().len() && self.names_view()[id.index as int]
                    == name@,
                None => !self.has_token(name@),
            },
    {
        self.arena.find(name)
    }

    /// The handle of the token whose name reads as the given characters.
    pub fn get_token_chars(&self, name: &Vec<char>) -> (r: Option<ArenaId>)
        ensures
            match r {
                Some(id) => id.index < self.names_view().len() && self.names_view()[id.index as int]
                    == name@,
                None => !self.has_token(name@),
            },
    {
        self.arena.find_chars(name)
    }

    /// Registers the replacement of `lhs`; every handle involved must be
    /// interned.  A rule registered for the same `lhs` before is
    /// overwritten: the last registration wins.
    pub fn transformation_rule(&mut self, lhs: ArenaId, rule: Vec<ArenaId>) -> (r: Result<
        (),
        LSystemError,
    >)
        requires
            old(self).wf(),
        ensures
            final(self).wf(),
            final(self).names_view() == old(self).names_view(),
            final(self).initial_view() == old(self).initial_view(),
            match r {
                Ok(_) => lhs.index < old(self).names_view().len() && in_range(
                    rule@,
                    old(self).names_view().len(),
                ) && final(self).rules_view() == old(self).rules_view().update(
                    lhs.index as int,
                    Some(rule@),
                ),
                Err(e) => final(self).rules_view() == old(self).rules_view() && (
                e matches LSystemError::UnknownToken(t) && ((t == lhs && lhs.index >= old(self).names_view().len()) || (rule@.contains(t) && t.index >= old(self).names_view().len()))),
            },
            r is Ok <==> (lhs.index < old(self).names_view().len() && in_range(
                rule@,
                old(self).names_view().len(),
            )),
    {
        let n = self.arena.len();
        if lhs.index >= n {
            return Err(LSystemError::UnknownToken(lhs));
        }
        let m = rule.len();
        let mut i: usize = 0;
        while i < m
            invariant
                m == rule@.len(),
                i <= m,
                n == self.names_view().len(),
                self.wf(),
                self.names_view() == old(self).names_view(),
                self.rules_view() == old(self).rules_view(),
                self.initial_view() == old(self).initial_view(),
                forall|j: int| 0 <= j < i ==> (#[trigger] rule@[j]).index < n,
            decreases m - i,
        {
            if rule[i].index >= n {
                return Err(LSystemError::UnknownToken(rule[i]));
            }
            i += 1;
        }
        proof {
            assert(self.rules@.update(lhs.index as int, Some(rule)).map(
                |i: int, r: Option<Vec<ArenaId>>|
                    match r {
                        Some(v) => Some(v@),
                        None => None,
                    },
            ) =~= self.rules_view().update(lhs.index as int, Some(rule@)));
        }
        self.rules.set(lhs.index, Some(rule));
        Ok(())
    }

    /// Sets the initial sequence, the state of generation zero.  It must be
    /// non-empty and name only interned handles.
    pub fn initial(&mut self, initial: Vec<ArenaId>) -> (r: Result<(), LSystemError>)
        requires
            old(self).wf(),
        ensures
            final(self).wf(),
            final(self).names_view() == old(self).names_view(),
            final(self).rules_view() == old(self).rules_view(),
            match r {
                Ok(_) => initial@.len() > 0 && in_range(initial@, old(self).names_view().len())
                    && final(self).initial_view() == initial@,
                Err(e) => final(self).initial_view() == old(self).initial_view() && (if initial@.len()
                    == 0 {
                    e matches LSystemError::EmptyInitialState
                } else {
                    e matches LSystemError::UnknownToken(t) && initial@.contains(t) && t.index >= old(self).names_view().len()
                }),
            },
            r is Ok <==> (initial@.len() > 0 && in_range(initial@, old(self).names_view().len())),
    {
        if initial.len() == 0 {
            return Err(LSystemError::EmptyInitialState);
        }
        let n = self.arena.len();
        let m = initial.len();
        let mut i: usize = 0;
        while i < m
            invariant
                m == initial@.len(),
                i <= m,
                n == self.names_view().len(),
                self.wf(),
                self.names_view() == old(self).names_view(),
                self.rules_view() == old(self).rules_view(),
                self.initial_view() == old(self).initial_view(),
                forall|j: int| 0 <= j < i ==> (#[trigger] initial@[j]).index < n,
            decreases m - i,
        {
            if initial[i].index >= n {
                return Err(LSystemError::UnknownToken(initial[i]));
            }
            i += 1;
        }
        self.initial = initial;
        Ok(())
    }

    /// Validates and produces the engine: the initial must have been set to
    /// a non-empty sequence; the system starts at generation zero.
    pub fn finish(self) -> (r: Result<LSystem, LSystemError>)
        requires
            self.wf(),
        ensures
            match r {
                Ok(sys) => self.initial_view().len() > 0 && sys.wf() && sys.names_view()
                    == self.names_view() && sys.rules_view() == self.rules_view()
                    && sys.state_view() == self.initial_view(),
                Err(e) => self.initial_view().len() == 0 && e matches LSystemError::EmptyInitialState,
            },
    {
        if self.initial.len() == 0 {
            return Err(LSystemError::EmptyInitialState);
        }
        let LSystemBuilder { arena, rules, initial } = self;
        Ok(LSystem::assemble(arena.into_names(), rules, initial))
    }
}

} // verus!
