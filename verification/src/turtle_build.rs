use vstd::prelude::*;

verus! {

use crate::actions::TurtleAction;
use crate::arena::ArenaId;
use crate::builder::LSystemBuilder;
use crate::errors::LSystemError;
use crate::renderer::TurtleRenderer;
use crate::system::{in_range, LSystem};
use vstd::string::StrSliceExecFns;

/// Whether a character separates tokens in the text forms.
pub open spec fn is_space(c: char) -> bool {
    c == ' ' || c == '\t' || c == '\n' || c == '\r'
}

/// Splitting on whitespace, carried through an accumulator: `cur` is the
/// run being read, `acc` the tokens already complete.
pub open spec fn split_ws_rec(s: Seq<char>, cur: Seq<char>, acc: Seq<Seq<char>>) -> Seq<Seq<char>>
    decreases s.len(),
{
    if s.len() == 0 {
        if cur.len() == 0 {
            acc
        } else {
            acc.push(cur)
        }
    } else if is_space(s[0]) {
        if cur.len() == 0 {
            split_ws_rec(s.drop_first(), Seq::empty(), acc)
        } else {
            split_ws_rec(s.drop_first(), Seq::empty(), acc.push(cur))
        }
    } else {
        split_ws_rec(s.drop_first(), cur.push(s[0]), acc)
    }
}

/// The maximal whitespace-free runs of `s`, in order.
pub open spec fn split_ws(s: Seq<char>) -> Seq<Seq<char>> {
    split_ws_rec(s, Seq::empty(), Seq::empty())
}

/// Splits `s` into its whitespace-separated tokens.
fn tokenize(s: &str) -> (r: Vec<Vec<char>>)
    ensures
        r@.map(|i: int, t: Vec<char>| t@) == split_ws(s@),
{
    let n = s.unicode_len();
    let mut acc: Vec<Vec<char>> = Vec::new();
    let mut cur: Vec<char> = Vec::new();
    let mut i: usize = 0;
    proof {
        assert(s@.subrange(0, n as int) =~= s@);
        assert(acc@.map(|k: int, t: Vec<char>| t@) =~= Seq::<Seq<char>>::empty());
    }
    while i < n
        invariant
            n == s@.len(),
            i <= n,
            split_ws(s@) == split_ws_rec(
                s@.subrange(i as int, n as int),
                cur@,
                acc@.map(|k: int, t: Vec<char>| t@),
            ),
        decreases n - i,
    {
        let ghost rem = s@.subrange(i as int, n as int);
        proof {
            assert(rem[0] == s@[i as int]);
            assert(rem.drop_first() =~= s@.subrange(i as int + 1, n as int));
        }
        let c = s.get_char(i);
        if c == ' ' || c == '\t' || c == '\n' || c == '\r' {
            if cur.len() > 0 {
                let ghost prev_acc = acc@.map(|k: int, t: Vec<char>| t@);
                let ghost prev_cur = cur@;
                acc.push(cur);
                cur = Vec::new();
                proof {
                    assert(acc@.map(|k: int, t: Vec<char>| t@) =~= prev_acc.push(prev_cur));
                }
            } else {
                proof {
                    assert(cur@ =~= Seq::<char>::empty());
                }
            }
        } else {
            cur.push(c);
        }
        i += 1;
    }
    proof {
        assert(s@.subrange(n as int, n as int) =~= Seq::<char>::empty());
    }
    if cur.len() > 0 {
        let ghost prev_acc = acc@.map(|k: int, t: Vec<char>| t@);
        let ghost prev_cur = cur@;
        acc.push(cur);
        proof {
            assert(acc@.map(|k: int, t: Vec<char>| t@) =~= prev_acc.push(prev_cur));
        }
    }
    acc
}

/// Builds an `LSystem` together with its turtle renderer: tokens carry a
/// drawing action, the initial sequence and the rules are given as text.
pub struct TurtleLSystemBuilder {
    builder: LSystemBuilder,
    renderer: TurtleRenderer,
    global_rotate: i32,
}

impl TurtleLSystemBuilder {
    pub closed spec fn names_view(&self) -> Seq<Seq<char>> {
        self.builder.names_view()
    }

    pub closed spec fn rules_view(&self) -> Seq<Option<Seq<ArenaId>>> {
        self.builder.rules_view()
    }

    pub closed spec fn initial_view(&self) -> Seq<ArenaId> {
        self.builder.initial_view()
    }

    /// Whether a token of this name has been interned.
    pub open spec fn has_token(&self, n: Seq<char>) -> bool {
        exists|i: int| 0 <= i < self.names_view().len() && self.names_view()[i] == n
    }

    pub closed spec fn action_at(&self, i: int) -> TurtleAction {
        self.renderer.action_at(i)
    }

    pub closed spec fn global_rotate_spec(&self) -> int {
        self.global_rotate as int
    }

    pub closed spec fn wf(&self) -> bool {
        self.builder.wf() && self.renderer.wf()
    }

    pub fn new() -> (r: TurtleLSystemBuilder)
        ensures
            r.wf(),
            r.names_view() == Seq::<Seq<char>>::empty(),
            r.rules_view() == Seq::<Option<Seq<ArenaId>>>::empty(),
            r.initial_view() == Seq::<ArenaId>::empty(),
            r.global_rotate_spec() == 0,
            forall|i: int| #[trigger] r.action_at(i) == TurtleAction::Nothing,
    {
        TurtleLSystemBuilder {
            builder: LSystemBuilder::new(),
            renderer: TurtleRenderer::new(),
            global_rotate: 0,
        }
    }

    /// Sets the global rotation added to every forward heading of the
    /// finished renderer.
    pub fn rotate(&mut self, angle: i32)
        ensures
            final(self).global_rotate_spec() == angle,
            final(self).names_view() == old(self).names_view(),
            final(self).rules_view() == old(self).rules_view(),
            final(self).initial_view() == old(self).initial_view(),
            forall|i: int| #[trigger] final(self).action_at(i) == old(self).action_at(i),
            old(self).wf() ==> final(self).wf(),
    {
        self.global_rotate = angle;
    }

    /// Interns a token name and associates the drawing action replayed
    /// for each of its occurrences.  A duplicate name, or a stochastic
    /// action over an empty range, is rejected and nothing changes.
    pub fn token(&mut self, name: String, action: TurtleAction) -> (r: Result<
        ArenaId,
        LSystemError,
    >)
        requires
            old(self).wf(),
        ensures
            final(self).wf(),
            final(self).initial_view() == old(self).initial_view(),
            final(self).global_rotate_spec() == old(self).global_rotate_spec(),
            match r {
                Ok(id) => action.valid() && !old(self).has_token(name@) && id.index == old(self).names_view().len() && final(self).names_view() == old(self).names_view().push(
                    name@,
                ) && final(self).rules_view() == old(self).rules_view().push(None) && final(self).action_at(id.index as int) == action && forall|j: int|
                    j != id.index as int ==> final(self).action_at(j) == old(self).action_at(j),
                Err(e) => final(self).names_view() == old(self).names_view() && final(self).rules_view() == old(self).rules_view() && (forall|j: int|
                    #[trigger] final(self).action_at(j) == old(self).action_at(j)) && (
                if !action.valid() {
                    e matches LSystemError::EmptyRange
                } else {
                    old(self).has_token(name@) && (e matches LSystemError::DuplicateToken(m) && m@
                        == name@)
                }),
            },
    {
        if !action.check_valid() {
            return Err(LSystemError::EmptyRange);
        }
        let id = match self.builder.token(name) {
            Ok(id) => id,
            Err(e) => {
                return Err(e);
            },
        };
        match self.renderer.register(id, action) {
            Ok(_) => Ok(id),
            Err(e) => {
                proof {
                    assert(false);
                }
                Err(e)
            },
        }
    }

    /// Sets the initial sequence from text: its whitespace-separated
    /// tokens, each of which must be registered, and at least one.
    pub fn initial(&mut self, text: &str) -> (r: Result<(), LSystemError>)
        requires
            old(self).wf(),
        ensures
            final(self).wf(),
            final(self).names_view() == old(self).names_view(),
            final(self).rules_view() == old(self).rules_view(),
            final(self).global_rotate_spec() == old(self).global_rotate_spec(),
            forall|i: int| #[trigger] final(self).action_at(i) == old(self).action_at(i),
            r is Ok <==> (split_ws(text@).len() > 0 && (forall|i: int|
                0 <= i < split_ws(text@).len() ==> old(self).has_token(#[trigger] split_ws(text@)[i]))),
            match r {
                Ok(_) => {
                    let toks = split_ws(text@);
                    &&& final(self).initial_view().len() == toks.len()
                    &&& forall|i: int|
                        0 <= i < toks.len() ==> {
                            let id = #[trigger] final(self).initial_view()[i];
                            id.index < old(self).names_view().len() && old(self).names_view()[id.index as int]
                                == toks[i]
                        }
                },
                Err(e) => final(self).initial_view() == old(self).initial_view() && (
                if split_ws(text@).len() == 0 {
                    e matches LSystemError::EmptyInitialState
                } else {
                    e matches LSystemError::UnknownName(m) && m@ == text@
                }),
            },
    {
        let toks = tokenize(text);
        if toks.len() == 0 {
            return Err(LSystemError::EmptyInitialState);
        }
        let n = toks.len();
        let mut ids: Vec<ArenaId> = Vec::new();
        let mut i: usize = 0;
        while i < n
            invariant
                self.wf(),
                *self == *old(self),
                n == toks@.len(),
                toks@.map(|k: int, t: Vec<char>| t@) == split_ws(text@),
                i <= n,
                ids@.len() == i,
                forall|k: int|
                    0 <= k < i ==> {
                        let id = #[trigger] ids@[k];
                        id.index < self.names_view().len() && self.names_view()[id.index as int]
                            == split_ws(text@)[k]
                    },
            decreases n - i,
        {
            match self.builder.get_token_chars(&toks[i]) {
                Some(id) => {
                    ids.push(id);
                },
                None => {
                    proof {
                        assert(toks@.map(|k: int, t: Vec<char>| t@)[i as int] == toks@[i as int]@);
                        assert(!old(self).has_token(split_ws(text@)[i as int]));
                    }
                    return Err(LSystemError::UnknownName(text.to_owned()));
                },
            }
            i += 1;
        }
        proof {
            assert(in_range(ids@, self.names_view().len()));
            assert(ids@.len() == n);
            assert(split_ws(text@).len() == n as int);
            assert forall|k: int|
                0 <= k < split_ws(text@).len() implies old(self).has_token(
                #[trigger] split_ws(text@)[k],
            ) by {
                assert(0 <= k < ids@.len());
                let id = ids@[k];
                assert(self.names_view()[id.index as int] == split_ws(text@)[k]);
                assert(*self == *old(self));
                assert(old(self).names_view() == self.names_view());
            }
        }
        match self.builder.initial(ids) {
            Ok(_) => Ok(()),
            Err(e) => {
                proof {
                    assert(false);
                }
                Err(e)
            },
        }
    }

    /// Registers a rewrite rule from text of the shape
    /// `lhs => rhs rhs ...`: the first token is the left-hand side, the
    /// second must read `=>`, the rest form the replacement, possibly
    /// empty.  Every named token must be registered.
    pub fn rule(&mut self, text: &str) -> (r: Result<(), LSystemError>)
        requires
            old(self).wf(),
        ensures
            final(self).wf(),
            final(self).names_view() == old(self).names_view(),
            final(self).initial_view() == old(self).initial_view(),
            final(self).global_rotate_spec() == old(self).global_rotate_spec(),
            forall|i: int| #[trigger] final(self).action_at(i) == old(self).action_at(i),
            r is Ok <==> ({
                let toks = split_ws(text@);
                &&& toks.len() >= 2
                &&& toks[1] == seq!['=', '>']
                &&& forall|i: int| 0 <= i < toks.len() && i != 1 ==> old(self).has_token(#[trigger] toks[i])
            }),
            match r {
                Ok(_) => {
                    let toks = split_ws(text@);
                    exists|lhs: ArenaId, rhs: Seq<ArenaId>|
                        {
                            &&& lhs.index < old(self).names_view().len()
                            &&& old(self).names_view()[lhs.index as int] == toks[0]
                            &&& final(self).rules_view() == #[trigger] old(
                                self,
                            ).rules_view().update(lhs.index as int, Some(rhs))
                            &&& rhs.len() == toks.len() - 2
                            &&& forall|k: int|
                                0 <= k < rhs.len() ==> {
                                    let id = #[trigger] rhs[k];
                                    id.index < old(self).names_view().len() && old(
                                        self,
                                    ).names_view()[id.index as int] == toks[k + 2]
                                }
                        }
                },
                Err(e) => final(self).rules_view() == old(self).rules_view() && ({
                    let toks = split_ws(text@);
                    if toks.len() < 2 || toks[1] != seq!['=', '>'] {
                        e matches LSystemError::MalformedRule(m) && m@ == text@
                    } else {
                        e matches LSystemError::UnknownName(m) && m@ == text@
                    }
                }),
            },
    {
        let toks = tokenize(text);
        if toks.len() < 2 {
            return Err(LSystemError::MalformedRule(text.to_owned()));
        }
        let sep = &toks[1];
        let sep_ok = sep.len() == 2 && sep[0] == '=' && sep[1] == '>';
        proof {
            assert(toks@.map(|k: int, t: Vec<char>| t@)[1] == toks@[1]@);
            assert(seq!['=', '>'].len() == 2);
            assert(seq!['=', '>'][0] == '=');
            assert(seq!['=', '>'][1] == '>');
        }
        if !sep_ok {
            proof {
                if split_ws(text@)[1] == seq!['=', '>'] {
                    assert(toks@[1]@.len() == 2);
                    assert(toks@[1]@[0] == '=');
                    assert(toks@[1]@[1] == '>');
                }
            }
            return Err(LSystemError::MalformedRule(text.to_owned()));
        }
        proof {
            assert(toks@[1]@ =~= seq!['=', '>']);
            assert(split_ws(text@)[1] == seq!['=', '>']);
        }
        let lhs = match self.builder.get_token_chars(&toks[0]) {
            Some(id) => id,
            None => {
                proof {
                    assert(toks@.map(|k: int, t: Vec<char>| t@)[0] == toks@[0]@);
                    assert(!old(self).has_token(split_ws(text@)[0]));
                }
                return Err(LSystemError::UnknownName(text.to_owned()));
            },
        };
        let n = toks.len();
        let mut rhs: Vec<ArenaId> = Vec::new();
        let mut i: usize = 2;
        while i < n
            invariant
                self.wf(),
                *self == *old(self),
                n == toks@.len(),
                toks@.map(|k: int, t: Vec<char>| t@) == split_ws(text@),
                split_ws(text@).len() >= 2,
                split_ws(text@)[1] == seq!['=', '>'],
                2 <= i <= n,
                rhs@.len() == i - 2,
                forall|k: int|
                    0 <= k < i - 2 ==> {
                        let id = #[trigger] rhs@[k];
                        id.index < self.names_view().len() && self.names_view()[id.index as int]
                            == split_ws(text@)[k + 2]
                    },
            decreases n - i,
        {
            match self.builder.get_token_chars(&toks[i]) {
                Some(id) => {
                    rhs.push(id);
                },
                None => {
                    proof {
                        assert(toks@.map(|k: int, t: Vec<char>| t@)[i as int] == toks@[i as int]@);
                        assert(!old(self).has_token(split_ws(text@)[i as int]));
                    }
                    return Err(LSystemError::UnknownName(text.to_owned()));
                },
            }
            i += 1;
        }
        proof {
            assert(in_range(rhs@, self.names_view().len()));
            assert(toks@.map(|k: int, t: Vec<char>| t@)[0] == toks@[0]@);
            assert(*self == *old(self));
            assert(old(self).names_view() == self.names_view());
            assert(old(self).names_view()[lhs.index as int] == split_ws(text@)[0]);
            assert forall|k: int| 0 <= k < rhs@.len() implies {
                let id = #[trigger] rhs@[k];
                id.index < old(self).names_view().len() && old(self).names_view()[id.index as int]
                    == split_ws(text@)[k + 2]
            } by {
                assert(self.names_view()[rhs@[k].index as int] == split_ws(text@)[k + 2]);
            }
            assert forall|i2: int|
                0 <= i2 < split_ws(text@).len() && i2 != 1 implies old(self).has_token(
                #[trigger] split_ws(text@)[i2],
            ) by {
                if i2 == 0 {
                    assert(old(self).names_view()[lhs.index as int] == split_ws(text@)[0]);
                } else {
                    let id = rhs@[i2 - 2];
                    assert(old(self).names_view()[id.index as int] == split_ws(text@)[i2]);
                }
            }
        }
        let ghost rhs_view = rhs@;
        match self.builder.transformation_rule(lhs, rhs) {
            Ok(_) => {
                proof {
                    assert(self.rules_view() == old(self).rules_view().update(
                        lhs.index as int,
                        Some(rhs_view),
                    ));
                    assert(rhs_view.len() == split_ws(text@).len() - 2);
                }
                Ok(())
            },
            Err(e) => {
                proof {
                    assert(false);
                }
                Err(e)
            },
        }
    }

    /// Validates and produces the engine and its renderer: the initial
    /// sequence must have been set.
    pub fn finish(self) -> (r: Result<(LSystem, TurtleRenderer), LSystemError>)
        requires
            self.wf(),
        ensures
            match r {
                Ok(pair) => {
                    &&& self.initial_view().len() > 0
                    &&& pair.0.wf()
                    &&& pair.0.names_view() == self.names_view()
                    &&& pair.0.rules_view() == self.rules_view()
                    &&& pair.0.state_view() == self.initial_view()
                    &&& pair.1.wf()
                    &&& pair.1.global_rotate_spec() == self.global_rotate_spec()
                    &&& forall|i: int| #[trigger] pair.1.action_at(i) == self.action_at(i)
                },
                Err(e) => self.initial_view().len() == 0 && e matches LSystemError::EmptyInitialState,
            },
    {
        let TurtleLSystemBuilder { builder, mut renderer, global_rotate } = self;
        let sys = match builder.finish() {
            Ok(sys) => sys,
            Err(e) => {
                return Err(e);
            },
        };
        renderer.set_global_rotate(global_rotate);
        Ok((sys, renderer))
    }
}

} // verus!
