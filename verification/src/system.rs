use vstd::prelude::*;

verus! {

use crate::arena::ArenaId;
use vstd::string::StringExecFns;

/// Whether every handle of `s` lies below `n`, the size of the arena.
pub open spec fn in_range(s: Seq<ArenaId>, n: nat) -> bool {
    forall|i: int| 0 <= i < s.len() ==> (#[trigger] s[i]).index < n
}

/// Whether every replacement sequence of the table holds only handles
/// below `n`.
pub open spec fn rules_wf(rules: Seq<Option<Seq<ArenaId>>>, n: nat) -> bool {
    forall|t: int|
        0 <= t < rules.len() ==> ((#[trigger] rules[t]) matches Some(r) ==> in_range(r, n))
}

/// The table entry for `t`, or `None` outside the table.
pub open spec fn rule_opt(rules: Seq<Option<Seq<ArenaId>>>, t: ArenaId) -> Option<Seq<ArenaId>> {
    if t.index < rules.len() {
        rules[t.index as int]
    } else {
        None
    }
}

/// What one token becomes in one rewriting step: its registered
/// replacement, or itself where no rule is registered.
pub open spec fn replacement(rules: Seq<Option<Seq<ArenaId>>>, t: ArenaId) -> Seq<ArenaId> {
    match rule_opt(rules, t) {
        Some(r) => r,
        None => seq![t],
    }
}

/// One parallel rewriting step over a whole sequence: each token is
/// replaced and the results are concatenated in order.
pub open spec fn expand(rules: Seq<Option<Seq<ArenaId>>>, s: Seq<ArenaId>) -> Seq<ArenaId>
    decreases s.len(),
{
    if s.len() == 0 {
        Seq::empty()
    } else {
        replacement(rules, s[0]) + expand(rules, s.drop_first())
    }
}

/// `n` rewriting steps in order.
pub open spec fn expand_n(rules: Seq<Option<Seq<ArenaId>>>, s: Seq<ArenaId>, n: nat) -> Seq<
    ArenaId,
>
    decreases n,
{
    if n == 0 {
        s
    } else {
        expand_n(rules, expand(rules, s), (n - 1) as nat)
    }
}

/// The rendered text of a sequence: the names of its tokens, joined
/// without separators.
pub open spec fn render_spec(names: Seq<Seq<char>>, s: Seq<ArenaId>) -> Seq<char>
    decreases s.len(),
{
    if s.len() == 0 {
        Seq::empty()
    } else {
        (if s[0].index < names.len() {
            names[s[0].index as int]
        } else {
            Seq::empty()
        }) + render_spec(names, s.drop_first())
    }
}

pub proof fn lemma_expand_push(rules: Seq<Option<Seq<ArenaId>>>, s: Seq<ArenaId>, t: ArenaId)
    ensures
        expand(rules, s.push(t)) == expand(rules, s) + replacement(rules, t),
    decreases s.len(),
{
    if s.len() == 0 {
        assert(s.push(t).drop_first() =~= s);
        assert(expand(rules, s.push(t)) =~= expand(rules, s) + replacement(rules, t));
    } else {
        assert(s.push(t).drop_first() =~= s.drop_first().push(t));
        lemma_expand_push(rules, s.drop_first(), t);
        assert(expand(rules, s.push(t)) =~= expand(rules, s) + replacement(rules, t));
    }
}

pub proof fn lemma_render_push(names: Seq<Seq<char>>, s: Seq<ArenaId>, t: ArenaId)
    ensures
        render_spec(names, s.push(t)) == render_spec(names, s) + (if t.index < names.len() {
            names[t.index as int]
        } else {
            Seq::empty()
        }),
    decreases s.len(),
{
    if s.len() == 0 {
        assert(s.push(t).drop_first() =~= s);
        assert(render_spec(names, s.push(t)) =~= render_spec(names, s) + (if t.index
            < names.len() {
            names[t.index as int]
        } else {
            Seq::empty()
        }));
    } else {
        assert(s.push(t).drop_first() =~= s.drop_first().push(t));
        lemma_render_push(names, s.drop_first(), t);
        assert(render_spec(names, s.push(t)) =~= render_spec(names, s) + (if t.index
            < names.len() {
            names[t.index as int]
        } else {
            Seq::empty()
        }));
    }
}

/// Rewriting stays inside the arena: expanding an in-range sequence under
/// an in-range table gives an in-range sequence.
pub proof fn lemma_expand_in_range(rules: Seq<Option<Seq<ArenaId>>>, s: Seq<ArenaId>, n: nat)
    requires
        rules_wf(rules, n),
        in_range(s, n),
    ensures
        in_range(expand(rules, s), n),
    decreases s.len(),
{
    if s.len() != 0 {
        assert(in_range(s.drop_first(), n));
        lemma_expand_in_range(rules, s.drop_first(), n);
        let head = replacement(rules, s[0]);
        assert(in_range(head, n));
        assert forall|i: int| 0 <= i < expand(rules, s).len() implies (#[trigger] expand(
            rules,
            s,
        )[i]).index < n by {
            if i < head.len() {
                assert(expand(rules, s)[i] == head[i]);
            } else {
                assert(expand(rules, s)[i] == expand(rules, s.drop_first())[i - head.len()]);
            }
        }
    }
}

/// Stepping `m` generations and then `n` more gives the same sequence as
/// stepping `m + n` generations at once.
pub proof fn lemma_step_composition(
    rules: Seq<Option<Seq<ArenaId>>>,
    s: Seq<ArenaId>,
    m: nat,
    n: nat,
)
    ensures
        expand_n(rules, expand_n(rules, s, m), n) == expand_n(rules, s, m + n),
    decreases m,
{
    if m != 0 {
        lemma_step_composition(rules, expand(rules, s), (m - 1) as nat, n);
    }
}

pub proof fn lemma_expand_n_unfold_right(rules: Seq<Option<Seq<ArenaId>>>, s: Seq<ArenaId>, n: nat)
    ensures
        expand_n(rules, s, n + 1) == expand(rules, expand_n(rules, s, n)),
    decreases n,
{
    assert(expand_n(rules, s, n + 1) == expand_n(rules, expand(rules, s), n));
    if n == 0 {
        assert(expand_n(rules, expand(rules, s), 0) == expand(rules, s));
        assert(expand_n(rules, s, 0) == s);
    } else {
        lemma_expand_n_unfold_right(rules, expand(rules, s), (n - 1) as nat);
        assert(expand_n(rules, s, n) == expand_n(rules, expand(rules, s), (n - 1) as nat));
    }
}

/// A token with no registered rule is its own fixed point: a sequence of
/// such tokens is returned unchanged by one rewriting step.
pub open spec fn is_terminal(rules: Seq<Option<Seq<ArenaId>>>, t: ArenaId) -> bool {
    rule_opt(rules, t) is None
}

pub proof fn lemma_terminal_identity(rules: Seq<Option<Seq<ArenaId>>>, s: Seq<ArenaId>)
    requires
        forall|i: int| 0 <= i < s.len() ==> is_terminal(rules, #[trigger] s[i]),
    ensures
        expand(rules, s) == s,
    decreases s.len(),
{
    if s.len() == 0 {
        assert(expand(rules, s) =~= s);
    } else {
        assert(forall|i: int|
            0 <= i < s.drop_first().len() ==> is_terminal(rules, #[trigger] s.drop_first()[i]));
        lemma_terminal_identity(rules, s.drop_first());
        assert(expand(rules, s) =~= s);
    }
}

/// The rewriting engine: the current token sequence, the rule table and
/// the token names, stepped in place one generation at a time.
pub struct LSystem {
    names: Vec<String>,
    rules: Vec<Option<Vec<ArenaId>>>,
    state: Vec<ArenaId>,
}

impl LSystem {
    pub closed spec fn names_view(&self) -> Seq<Seq<char>> {
        self.names@.map(|i: int, s: String| s@)
    }

    pub closed spec fn rules_view(&self) -> Seq<Option<Seq<ArenaId>>> {
        self.rules@.map(
            |i: int, r: Option<Vec<ArenaId>>|
                match r {
                    Some(v) => Some(v@),
                    None => None,
                },
        )
    }

    pub closed spec fn state_view(&self) -> Seq<ArenaId> {
        self.state@
    }

    pub open spec fn wf(&self) -> bool {
        &&& self.rules_view().len() == self.names_view().len()
        &&& in_range(self.state_view(), self.names_view().len())
        &&& rules_wf(self.rules_view(), self.names_view().len())
    }

    pub(crate) fn assemble(
        names: Vec<String>,
        rules: Vec<Option<Vec<ArenaId>>>,
        state: Vec<ArenaId>,
    ) -> (r: LSystem)
        requires
            rules@.len() == names@.len(),
            in_range(
                state@,
                names@.len() as nat,
            ),
            rules_wf(
                rules@.map(
                    |i: int, r: Option<Vec<ArenaId>>|
                        match r {
                            Some(v) => Some(v@),
                            None => None,
                        },
                ),
                names@.len() as nat,
            ),
        ensures
            r.names_view() == names@.map(|i: int, s: String| s@),
            r.rules_view() == rules@.map(
                |i: int, r: Option<Vec<ArenaId>>|
                    match r {
                        Some(v) => Some(v@),
                        None => None,
                    },
            ),
            r.state_view() == state@,
            r.wf(),
    {
        LSystem { names, rules, state }
    }

    /// The current token sequence.
    pub fn state(&self) -> (r: &Vec<ArenaId>)
        ensures
            r@ == self.state_view(),
    {
        &self.state
    }

    /// Replaces the current sequence by its one-generation expansion: each
    /// token becomes its replacement, or stays where no rule names it.
    pub fn step(&mut self)
        requires
            old(self).wf(),
        ensures
            final(self).wf(),
            final(self).names_view() == old(self).names_view(),
            final(self).rules_view() == old(self).rules_view(),
            final(self).state_view() == expand(old(self).rules_view(), old(self).state_view()),
    {
        let n = self.state.len();
        let mut out: Vec<ArenaId> = Vec::new();
        let mut i: usize = 0;
        while i < n
            invariant
                n == self.state@.len(),
                i <= n,
                self.wf(),
                out@ == expand(self.rules_view(), self.state@.subrange(0, i as int)),
            decreases n - i,
        {
            let t = self.state[i];
            proof {
                assert(self.state@.subrange(0, i as int + 1) =~= self.state@.subrange(
                    0,
                    i as int,
                ).push(t));
                lemma_expand_push(self.rules_view(), self.state@.subrange(0, i as int), t);
            }
            let mut copied = false;
            if t.index < self.rules.len() {
                match &self.rules[t.index] {
                    Some(r) => {
                        proof {
                            assert(replacement(self.rules_view(), t) == r@);
                        }
                        let m = r.len();
                        let mut j: usize = 0;
                        while j < m
                            invariant
                                m == r@.len(),
                                j <= m,
                                replacement(self.rules_view(), t) == r@,
                                out@ == expand(self.rules_view(), self.state@.subrange(0, i as int))
                                    + r@.subrange(0, j as int),
                            decreases m - j,
                        {
                            proof {
                                assert(r@.subrange(0, j as int + 1) =~= r@.subrange(
                                    0,
                                    j as int,
                                ).push(r@[j as int]));
                            }
                            out.push(r[j]);
                            j += 1;
                        }
                        proof {
                            assert(r@.subrange(0, m as int) =~= r@);
                        }
                        copied = true;
                    },
                    None => {},
                }
            }
            if !copied {
                proof {
                    assert(replacement(self.rules_view(), t) =~= seq![t]);
                }
                out.push(t);
            }
            i += 1;
        }
        proof {
            assert(self.state@.subrange(0, n as int) =~= self.state@);
            lemma_expand_in_range(self.rules_view(), self.state@, self.names_view().len());
        }
        self.state = out;
    }

    /// Applies `step` exactly `n` times, in order.
    pub fn step_by(&mut self, n: usize)
        requires
            old(self).wf(),
        ensures
            final(self).wf(),
            final(self).names_view() == old(self).names_view(),
            final(self).rules_view() == old(self).rules_view(),
            final(self).state_view() == expand_n(
                old(self).rules_view(),
                old(self).state_view(),
                n as nat,
            ),
    {
        let mut i: usize = 0;
        while i < n
            invariant
                i <= n,
                self.wf(),
                self.names_view() == old(self).names_view(),
                self.rules_view() == old(self).rules_view(),
                self.state_view() == expand_n(
                    old(self).rules_view(),
                    old(self).state_view(),
                    i as nat,
                ),
            decreases n - i,
        {
            self.step();
            proof {
                lemma_expand_n_unfold_right(
                    old(self).rules_view(),
                    old(self).state_view(),
                    i as nat,
                );
            }
            i += 1;
        }
    }

    /// Renders the current sequence as text: the name of each token, in
    /// order, joined without separators.
    pub fn render(&self) -> (r: String)
        requires
            self.wf(),
        ensures
            r@ == render_spec(self.names_view(), self.state_view()),
    {
        let mut out = String::new();
        let n = self.state.len();
        let mut i: usize = 0;
        while i < n
            invariant
                n == self.state@.len(),
                i <= n,
                self.wf(),
                out@ == render_spec(self.names_view(), self.state@.subrange(0, i as int)),
            decreases n - i,
        {
            let t = self.state[i];
            proof {
                assert(self.state@.subrange(0, i as int + 1) =~= self.state@.subrange(
                    0,
                    i as int,
                ).push(t));
                lemma_render_push(self.names_view(), self.state@.subrange(0, i as int), t);
            }
            out.append(self.names[t.index].as_str());
            i += 1;
        }
        proof {
            assert(self.state@.subrange(0, n as int) =~= self.state@);
        }
        out
    }
}

/// Rendering after `n` rewriting steps is a pure function of the initial,
/// the rules and `n`: two systems that agree on those agree on the result.
pub proof fn lemma_determinism(a: &LSystem, b: &LSystem, n: nat)
    requires
        a.names_view() == b.names_view(),
        a.rules_view() == b.rules_view(),
        a.state_view() == b.state_view(),
    ensures
        render_spec(a.names_view(), expand_n(a.rules_view(), a.state_view(), n)) == render_spec(
            b.names_view(),
            expand_n(b.rules_view(), b.state_view(), n),
        ),
{
}

} // verus!
