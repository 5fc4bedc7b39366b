use vstd::prelude::*;

verus! {

use crate::actions::TurtleAction;
use crate::arena::ArenaId;
use crate::errors::LSystemError;
use crate::system::LSystem;
use crate::turtle::BaseTurtle;

/// One drawing command with the heading still in degrees: the replay of
/// the token sequence resolved up to the trigonometry.  `heading` is the
/// accumulated rotation plus the global rotation at the moment of the
/// move.
#[derive(Clone, Copy, Debug, PartialEq, Eq, Structural)]
pub enum PathStep {
    Forward { heading: i64, distance: i32 },
    Push,
    Pop,
}

/// One drawing command with the displacement worked out: what `trace`
/// replays against a turtle.
#[derive(Clone, Copy, Debug, PartialEq, Eq, Structural)]
pub enum ResolvedStep {
    Move { dx: i32, dy: i32 },
    Push,
    Pop,
}

/// The remainder of `a` modulo 360 with the sign of `a`, as the `%`
/// operator of the implementation language gives it.
pub open spec fn wrap360(a: int) -> int {
    if a >= 0 {
        a % 360
    } else {
        -((-a) % 360)
    }
}

fn wrap360_exec(angle: i32, delta: i32) -> (r: i32)
    ensures
        r as int == wrap360(angle + delta),
        -360 < r < 360,
{
    let s: i64 = angle as i64 + delta as i64;
    if s >= 0 {
        (s % 360) as i32
    } else {
        (-((-s) % 360)) as i32
    }
}

/// Maps each token handle to its registered action, and carries the
/// global rotation added to every forward heading.
pub struct TurtleRenderer {
    actions: Vec<Option<TurtleAction>>,
    global_rotate: i32,
}

impl TurtleRenderer {
    pub closed spec fn actions_view(&self) -> Seq<Option<TurtleAction>> {
        self.actions@
    }

    pub closed spec fn global_rotate_spec(&self) -> int {
        self.global_rotate as int
    }

    /// The action replayed for a token handle: the registered one, or no
    /// effect where none is registered.
    pub open spec fn action_at(&self, i: int) -> TurtleAction {
        if 0 <= i < self.actions_view().len() {
            match self.actions_view()[i] {
                Some(a) => a,
                None => TurtleAction::Nothing,
            }
        } else {
            TurtleAction::Nothing
        }
    }

    /// Every registered stochastic action carries a valid range.
    pub open spec fn wf(&self) -> bool {
        forall|i: int| (#[trigger] self.action_at(i)).valid()
    }

    /// A renderer with no registered actions and no global rotation.
    pub fn new() -> (r: TurtleRenderer)
        ensures
            r.wf(),
            r.global_rotate_spec() == 0,
            forall|i: int| #[trigger] r.action_at(i) == TurtleAction::Nothing,
    {
        TurtleRenderer { actions: Vec::new(), global_rotate: 0 }
    }

    pub(crate) fn set_global_rotate(&mut self, angle: i32)
        ensures
            final(self).actions_view() == old(self).actions_view(),
            final(self).global_rotate_spec() == angle,
            old(self).wf() ==> final(self).wf(),
    {
        self.global_rotate = angle;
        proof {
            assert forall|i: int| (#[trigger] self.action_at(i)) == old(self).action_at(i) by {}
        }
    }

    /// Associates `action` with the token `id`; registering the same
    /// token again overwrites.  An action whose distribution is an empty
    /// range is rejected and nothing changes.
    pub fn register(&mut self, id: ArenaId, action: TurtleAction) -> (r: Result<(), LSystemError>)
        requires
            old(self).wf(),
        ensures
            final(self).wf(),
            final(self).global_rotate_spec() == old(self).global_rotate_spec(),
            match r {
                Ok(_) => action.valid() && final(self).action_at(id.index as int) == action
                    && forall|j: int|
                    j != id.index as int ==> final(self).action_at(j) == old(self).action_at(j),
                Err(e) => !action.valid() && (e matches LSystemError::EmptyRange) && forall|j: int|
                    #[trigger] final(self).action_at(j) == old(self).action_at(j),
            },
    {
        if !action.check_valid() {
            return Err(LSystemError::EmptyRange);
        }
        while self.actions.len() <= id.index
            invariant
                self.wf(),
                self.global_rotate_spec() == old(self).global_rotate_spec(),
                forall|j: int| #[trigger] self.action_at(j) == old(self).action_at(j),
            decreases id.index + 1 - self.actions.len(),
        {
            let ghost prev = *self;
            self.actions.push(None);
            proof {
                assert forall|j: int| #[trigger] self.action_at(j) == prev.action_at(j) by {}
            }
        }
        let ghost prev = *self;
        self.actions.set(id.index, Some(action));
        proof {
            assert forall|j: int|
                j != id.index as int implies #[trigger] self.action_at(j) == prev.action_at(j) by {}
        }
        Ok(())
    }
}

/// Whether replaying the tokens from a save-stack of the given depth
/// meets every pop with a positive depth: each pop is covered by an
/// earlier unmatched push.
pub open spec fn replay_pop_safe(r: &TurtleRenderer, tokens: Seq<ArenaId>, depth: int) -> bool
    decreases tokens.len(),
{
    if tokens.len() == 0 {
        true
    } else {
        match r.action_at(tokens[0].index as int) {
            TurtleAction::Push => replay_pop_safe(r, tokens.drop_first(), depth + 1),
            TurtleAction::Pop => depth > 0 && replay_pop_safe(r, tokens.drop_first(), depth - 1),
            _ => replay_pop_safe(r, tokens.drop_first(), depth),
        }
    }
}

/// Whether any token of the sequence replays a stochastic action.
pub open spec fn has_stochastic(r: &TurtleRenderer, tokens: Seq<ArenaId>) -> bool {
    exists|i: int|
        0 <= i < tokens.len() && (#[trigger] r.action_at(tokens[i].index as int)).is_stochastic()
}

/// One sampled amount per stochastic token of the sequence, in order,
/// each lying in that token's distribution range.
pub open spec fn draws_in_range(r: &TurtleRenderer, tokens: Seq<ArenaId>, draws: Seq<i32>) -> bool
    decreases tokens.len(),
{
    if tokens.len() == 0 {
        draws.len() == 0
    } else {
        match r.action_at(tokens[0].index as int) {
            TurtleAction::StochasticRotate(d) => draws.len() > 0 && d.in_range(draws[0])
                && draws_in_range(r, tokens.drop_first(), draws.drop_first()),
            TurtleAction::StochasticForward(d) => draws.len() > 0 && d.in_range(draws[0])
                && draws_in_range(r, tokens.drop_first(), draws.drop_first()),
            _ => draws_in_range(r, tokens.drop_first(), draws),
        }
    }
}

/// The replay of the tokens given the sampled amounts: from the
/// accumulated rotation `angle`, the saved rotations `stack` and the
/// steps `out` already produced, consuming one draw of `draws` at each
/// stochastic token.  A sequence with no stochastic action never touches
/// `draws`: its replay is deterministic.
pub open spec fn spec_resolve_with(
    r: &TurtleRenderer,
    tokens: Seq<ArenaId>,
    angle: int,
    stack: Seq<int>,
    out: Seq<PathStep>,
    draws: Seq<i32>,
) -> Result<Seq<PathStep>, LSystemError>
    decreases tokens.len(),
{
    if tokens.len() == 0 {
        Ok(out)
    } else {
        let rest = tokens.drop_first();
        match r.action_at(tokens[0].index as int) {
            TurtleAction::Nothing => spec_resolve_with(r, rest, angle, stack, out, draws),
            TurtleAction::Rotate(d) => spec_resolve_with(
                r,
                rest,
                wrap360(angle + d),
                stack,
                out,
                draws,
            ),
            TurtleAction::Forward(d) => spec_resolve_with(
                r,
                rest,
                angle,
                stack,
                out.push(
                    PathStep::Forward {
                        heading: (r.global_rotate_spec() + angle) as i64,
                        distance: d,
                    },
                ),
                draws,
            ),
            TurtleAction::StochasticRotate(_) => spec_resolve_with(
                r,
                rest,
                wrap360(angle + draws[0]),
                stack,
                out,
                draws.drop_first(),
            ),
            TurtleAction::StochasticForward(_) => spec_resolve_with(
                r,
                rest,
                angle,
                stack,
                out.push(
                    PathStep::Forward {
                        heading: (r.global_rotate_spec() + angle) as i64,
                        distance: draws[0],
                    },
                ),
                draws.drop_first(),
            ),
            TurtleAction::Push => spec_resolve_with(
                r,
                rest,
                angle,
                stack.push(angle),
                out.push(PathStep::Push),
                draws,
            ),
            TurtleAction::Pop => {
                if stack.len() == 0 {
                    Err(LSystemError::StackUnderflow)
                } else {
                    spec_resolve_with(
                        r,
                        rest,
                        stack.last(),
                        stack.drop_last(),
                        out.push(PathStep::Pop),
                        draws,
                    )
                }
            },
        }
    }
}

/// Every well-formed renderer admits at least one draw sequence for any
/// tokens: each valid distribution has a value in its range.
pub proof fn lemma_draws_exist(r: &TurtleRenderer, tokens: Seq<ArenaId>)
    requires
        r.wf(),
    ensures
        exists|draws: Seq<i32>| #[trigger] draws_in_range(r, tokens, draws),
    decreases tokens.len(),
{
    if tokens.len() == 0 {
        assert(draws_in_range(r, tokens, Seq::<i32>::empty()));
    } else {
        lemma_draws_exist(r, tokens.drop_first());
        let rest = choose|d: Seq<i32>| #[trigger] draws_in_range(r, tokens.drop_first(), d);
        assert(r.action_at(tokens[0].index as int).valid());
        match r.action_at(tokens[0].index as int) {
            TurtleAction::StochasticRotate(dist) => {
                crate::actions::lemma_valid_has_sample(dist);
                let v = choose|v: i32| #[trigger] dist.in_range(v);
                assert((seq![v] + rest)[0] == v);
                assert((seq![v] + rest).drop_first() =~= rest);
                assert(draws_in_range(r, tokens, seq![v] + rest));
            },
            TurtleAction::StochasticForward(dist) => {
                crate::actions::lemma_valid_has_sample(dist);
                let v = choose|v: i32| #[trigger] dist.in_range(v);
                assert((seq![v] + rest)[0] == v);
                assert((seq![v] + rest).drop_first() =~= rest);
                assert(draws_in_range(r, tokens, seq![v] + rest));
            },
            _ => {
                assert(draws_in_range(r, tokens, rest));
            },
        }
    }
}

/// The save-stack depth after replaying the steps from depth `depth`, or
/// `None` where a pop meets an empty stack.
pub open spec fn steps_depth(steps: Seq<PathStep>, depth: int) -> Option<int>
    decreases steps.len(),
{
    if steps.len() == 0 {
        Some(depth)
    } else {
        match steps[0] {
            PathStep::Forward { .. } => steps_depth(steps.drop_first(), depth),
            PathStep::Push => steps_depth(steps.drop_first(), depth + 1),
            PathStep::Pop => {
                if depth > 0 {
                    steps_depth(steps.drop_first(), depth - 1)
                } else {
                    None
                }
            },
        }
    }
}

pub proof fn lemma_steps_depth_push(steps: Seq<PathStep>, d: int, x: PathStep)
    ensures
        steps_depth(steps, d) matches Some(k) ==> steps_depth(steps.push(x), d) == (match x {
            PathStep::Forward { .. } => Some(k),
            PathStep::Push => Some(k + 1),
            PathStep::Pop => if k > 0 {
                Some(k - 1)
            } else {
                None::<int>
            },
        }),
    decreases steps.len(),
{
    reveal_with_fuel(steps_depth, 3);
    if steps_depth(steps, d) is Some {
        if steps.len() == 0 {
            assert(steps.push(x).drop_first() =~= steps);
            assert(steps.push(x)[0] == x);
            assert(steps_depth(steps, d) == Some(d));
            match x {
                PathStep::Forward { .. } => {
                    assert(steps_depth(steps.push(x), d) == Some(d));
                },
                PathStep::Push => {
                    assert(steps_depth(steps.push(x), d) == Some(d + 1));
                },
                PathStep::Pop => {
                    if d > 0 {
                        assert(steps_depth(steps.push(x), d) == Some(d - 1));
                    } else {
                        assert(steps_depth(steps.push(x), d) == None::<int>);
                    }
                },
            }
        } else {
            assert(steps.push(x).drop_first() =~= steps.drop_first().push(x));
            assert(steps.push(x)[0] == steps[0]);
            let d2 = match steps[0] {
                PathStep::Forward { .. } => d,
                PathStep::Push => d + 1,
                PathStep::Pop => d - 1,
            };
            assert(steps_depth(steps, d) == steps_depth(steps.drop_first(), d2));
            lemma_steps_depth_push(steps.drop_first(), d2, x);
        }
    }
}

impl TurtleRenderer {
    /// Replays the current sequence of the system and resolves it into
    /// drawing steps: rotations are folded into each forward's heading,
    /// stochastic amounts are drawn fresh on every invocation, and
    /// push/pop markers are kept.  It fails exactly on a pop with no
    /// earlier unmatched push.  Whatever came back from the sampler, the
    /// result is the `spec_resolve_with` replay for some in-range draw
    /// sequence; with no stochastic action the draw sequence is empty and
    /// the result is fully determined.
    pub fn resolve(&self, system: &LSystem) -> (r: Result<Vec<PathStep>, LSystemError>)
        requires
            self.wf(),
        ensures
            (r is Ok) <==> replay_pop_safe(self, system.state_view(), 0),
            r matches Err(e) ==> e matches LSystemError::StackUnderflow,
            r matches Ok(steps) ==> steps_depth(steps@, 0) is Some,
            match r {
                Ok(steps) => exists|draws: Seq<i32>|
                    #[trigger] draws_in_range(self, system.state_view(), draws)
                        && spec_resolve_with(
                        self,
                        system.state_view(),
                        0,
                        Seq::empty(),
                        Seq::empty(),
                        draws,
                    ) == Ok::<Seq<PathStep>, LSystemError>(steps@),
                Err(e) => exists|draws: Seq<i32>|
                    #[trigger] draws_in_range(self, system.state_view(), draws)
                        && spec_resolve_with(
                        self,
                        system.state_view(),
                        0,
                        Seq::empty(),
                        Seq::empty(),
                        draws,
                    ) == Err::<Seq<PathStep>, LSystemError>(e),
            },
            !has_stochastic(self, system.state_view()) ==> (match r {
                Ok(steps) => spec_resolve_with(
                    self,
                    system.state_view(),
                    0,
                    Seq::empty(),
                    Seq::empty(),
                    Seq::empty(),
                ) == Ok::<Seq<PathStep>, LSystemError>(steps@),
                Err(e) => spec_resolve_with(
                    self,
                    system.state_view(),
                    0,
                    Seq::empty(),
                    Seq::empty(),
                    Seq::empty(),
                ) == Err::<Seq<PathStep>, LSystemError>(e),
            }),
    {
        let tokens = system.state();
        let n = tokens.len();
        let mut out: Vec<PathStep> = Vec::new();
        let mut angle: i32 = 0;
        let mut stack: Vec<i32> = Vec::new();
        let mut i: usize = 0;
        let ghost mut draws: Seq<i32> = Seq::empty();
        proof {
            assert(system.state_view().subrange(0, n as int) =~= system.state_view());
            assert(stack@.map(|k: int, v: i32| v as int) =~= Seq::<int>::empty());
            assert forall|rest: Seq<i32>|
                #[trigger] draws_in_range(
                    self,
                    system.state_view().subrange(0, n as int),
                    rest,
                ) implies (draws_in_range(self, system.state_view(), draws + rest)
                && spec_resolve_with(
                self,
                system.state_view(),
                0,
                Seq::empty(),
                Seq::empty(),
                draws + rest,
            ) == spec_resolve_with(
                self,
                system.state_view().subrange(0, n as int),
                0,
                Seq::<int>::empty(),
                Seq::<PathStep>::empty(),
                rest,
            )) by {
                assert(draws + rest =~= rest);
            }
        }
        while i < n
            invariant
                self.wf(),
                n == system.state_view().len(),
                tokens@ == system.state_view(),
                i <= n,
                steps_depth(out@, 0) == Some(stack@.len() as int),
                replay_pop_safe(self, system.state_view(), 0) <==> replay_pop_safe(
                    self,
                    system.state_view().subrange(i as int, n as int),
                    stack@.len() as int,
                ),
                !has_stochastic(self, system.state_view()) ==> spec_resolve_with(
                    self,
                    system.state_view(),
                    0,
                    Seq::empty(),
                    Seq::empty(),
                    Seq::empty(),
                ) == spec_resolve_with(
                    self,
                    system.state_view().subrange(i as int, n as int),
                    angle as int,
                    stack@.map(|k: int, v: i32| v as int),
                    out@,
                    Seq::empty(),
                ),
                forall|rest: Seq<i32>|
                    #[trigger] draws_in_range(
                        self,
                        system.state_view().subrange(i as int, n as int),
                        rest,
                    ) ==> (draws_in_range(self, system.state_view(), draws + rest)
                        && spec_resolve_with(
                        self,
                        system.state_view(),
                        0,
                        Seq::empty(),
                        Seq::empty(),
                        draws + rest,
                    ) == spec_resolve_with(
                        self,
                        system.state_view().subrange(i as int, n as int),
                        angle as int,
                        stack@.map(|k: int, v: i32| v as int),
                        out@,
                        rest,
                    )),
            decreases n - i,
        {
            let ghost rem = system.state_view().subrange(i as int, n as int);
            let t = tokens[i];
            proof {
                assert(rem[0] == t);
                assert(rem.drop_first() =~= system.state_view().subrange(i as int + 1, n as int));
            }
            let act: TurtleAction = if t.index < self.actions.len() {
                match &self.actions[t.index] {
                    Some(a) => *a,
                    None => TurtleAction::Nothing,
                }
            } else {
                TurtleAction::Nothing
            };
            proof {
                assert(act == self.action_at(t.index as int));
                assert(act.valid());
            }
            let ghost prev_angle = angle;
            let ghost prev_stackm = stack@.map(|k: int, v: i32| v as int);
            let ghost prev_out = out@;
            let ghost prev_draws = draws;
            let ghost mut sv: i32 = 0;
            match act {
                TurtleAction::Nothing => {},
                TurtleAction::Rotate(d) => {
                    angle = wrap360_exec(angle, d);
                },
                TurtleAction::StochasticRotate(dist) => {
                    proof {
                        assert(has_stochastic(self, system.state_view()));
                    }
                    let v = dist.sample();
                    proof {
                        sv = v;
                        draws = draws.push(v);
                    }
                    angle = wrap360_exec(angle, v);
                },
                TurtleAction::Forward(d) => {
                    let heading: i64 = self.global_rotate as i64 + angle as i64;
                    proof {
                        lemma_steps_depth_push(
                            out@,
                            0,
                            PathStep::Forward { heading, distance: d },
                        );
                    }
                    out.push(PathStep::Forward { heading, distance: d });
                },
                TurtleAction::StochasticForward(dist) => {
                    proof {
                        assert(has_stochastic(self, system.state_view()));
                    }
                    let v = dist.sample();
                    proof {
                        sv = v;
                        draws = draws.push(v);
                    }
                    let heading: i64 = self.global_rotate as i64 + angle as i64;
                    proof {
                        lemma_steps_depth_push(
                            out@,
                            0,
                            PathStep::Forward { heading, distance: v },
                        );
                    }
                    out.push(PathStep::Forward { heading, distance: v });
                },
                TurtleAction::Push => {
                    proof {
                        lemma_steps_depth_push(out@, 0, PathStep::Push);
                        assert(stack@.push(angle).map(|k: int, v: i32| v as int) =~= stack@.map(
                            |k: int, v: i32| v as int,
                        ).push(angle as int));
                    }
                    stack.push(angle);
                    out.push(PathStep::Push);
                },
                TurtleAction::Pop => {
                    let ghost prev_stack = stack@;
                    match stack.pop() {
                        Some(a) => {
                            proof {
                                lemma_steps_depth_push(out@, 0, PathStep::Pop);
                                assert(stack@ =~= prev_stack.drop_last());
                                assert(stack@.map(|k: int, v: i32| v as int) =~= prev_stack.map(
                                    |k: int, v: i32| v as int,
                                ).drop_last());
                                assert(a as int == prev_stack.map(|k: int, v: i32| v as int).last());
                            }
                            angle = a;
                            out.push(PathStep::Pop);
                        },
                        None => {
                            proof {
                                lemma_draws_exist(self, rem);
                                let rest = choose|rest: Seq<i32>|
                                    #[trigger] draws_in_range(self, rem, rest);
                                assert(stack@.map(|k: int, v: i32| v as int).len() == 0);
                                assert(spec_resolve_with(
                                    self,
                                    rem,
                                    angle as int,
                                    stack@.map(|k: int, v: i32| v as int),
                                    out@,
                                    rest,
                                ) == Err::<Seq<PathStep>, LSystemError>(
                                    LSystemError::StackUnderflow,
                                ));
                                assert(draws_in_range(self, system.state_view(), draws + rest)
                                    && spec_resolve_with(
                                    self,
                                    system.state_view(),
                                    0,
                                    Seq::empty(),
                                    Seq::empty(),
                                    draws + rest,
                                ) == Err::<Seq<PathStep>, LSystemError>(
                                    LSystemError::StackUnderflow,
                                ));
                            }
                            return Err(LSystemError::StackUnderflow);
                        },
                    }
                },
            }
            proof {
                let full = system.state_view();
                let stackm = stack@.map(|k: int, v: i32| v as int);
                assert forall|rest: Seq<i32>|
                    #[trigger] draws_in_range(self, rem.drop_first(), rest) implies (
                draws_in_range(self, full, draws + rest) && spec_resolve_with(
                    self,
                    full,
                    0,
                    Seq::empty(),
                    Seq::empty(),
                    draws + rest,
                ) == spec_resolve_with(
                    self,
                    rem.drop_first(),
                    angle as int,
                    stackm,
                    out@,
                    rest,
                )) by {
                    if act is StochasticRotate || act is StochasticForward {
                        let rest0 = seq![sv] + rest;
                        assert(rest0[0] == sv);
                        assert(rest0.drop_first() =~= rest);
                        assert(draws_in_range(self, rem, rest0));
                        assert(prev_draws + rest0 =~= draws + rest);
                        assert(spec_resolve_with(
                            self,
                            rem,
                            prev_angle as int,
                            prev_stackm,
                            prev_out,
                            rest0,
                        ) == spec_resolve_with(self, rem.drop_first(), angle as int, stackm, out@, rest));
                    } else {
                        assert(draws_in_range(self, rem, rest));
                        assert(spec_resolve_with(
                            self,
                            rem,
                            prev_angle as int,
                            prev_stackm,
                            prev_out,
                            rest,
                        ) == spec_resolve_with(self, rem.drop_first(), angle as int, stackm, out@, rest));
                    }
                }
            }
            i += 1;
        }
        proof {
            assert(system.state_view().subrange(n as int, n as int) =~= Seq::<ArenaId>::empty());
            assert(draws_in_range(
                self,
                system.state_view().subrange(n as int, n as int),
                Seq::<i32>::empty(),
            ));
            assert(draws + Seq::<i32>::empty() =~= draws);
            assert(draws_in_range(self, system.state_view(), draws) && spec_resolve_with(
                self,
                system.state_view(),
                0,
                Seq::empty(),
                Seq::empty(),
                draws,
            ) == Ok::<Seq<PathStep>, LSystemError>(out@));
        }
        Ok(out)
    }
}

/// How many forward steps a step list holds: the number of moves a
/// displacement list must supply.
pub open spec fn forward_count(steps: Seq<PathStep>) -> int
    decreases steps.len(),
{
    if steps.len() == 0 {
        0
    } else {
        (if steps[0] is Forward {
            1int
        } else {
            0int
        }) + forward_count(steps.drop_first())
    }
}

pub proof fn lemma_forward_count_nonneg(steps: Seq<PathStep>)
    ensures
        forward_count(steps) >= 0,
    decreases steps.len(),
{
    if steps.len() != 0 {
        lemma_forward_count_nonneg(steps.drop_first());
    }
}

/// The step list with each forward replaced by the matching displacement
/// of `moves`, in order; push and pop markers are kept as they stand.
pub open spec fn merge_moves(steps: Seq<PathStep>, moves: Seq<(i32, i32)>) -> Seq<ResolvedStep>
    decreases steps.len(),
{
    if steps.len() == 0 {
        Seq::empty()
    } else {
        match steps[0] {
            PathStep::Forward { .. } => seq![
                ResolvedStep::Move { dx: moves[0].0, dy: moves[0].1 },
            ] + merge_moves(steps.drop_first(), moves.drop_first()),
            PathStep::Push => seq![ResolvedStep::Push] + merge_moves(steps.drop_first(), moves),
            PathStep::Pop => seq![ResolvedStep::Pop] + merge_moves(steps.drop_first(), moves),
        }
    }
}

/// The save-stack depth after replaying resolved steps from depth
/// `depth`, or `None` where a pop meets an empty stack.
pub open spec fn resolved_depth(steps: Seq<ResolvedStep>, depth: int) -> Option<int>
    decreases steps.len(),
{
    if steps.len() == 0 {
        Some(depth)
    } else {
        match steps[0] {
            ResolvedStep::Move { .. } => resolved_depth(steps.drop_first(), depth),
            ResolvedStep::Push => resolved_depth(steps.drop_first(), depth + 1),
            ResolvedStep::Pop => {
                if depth > 0 {
                    resolved_depth(steps.drop_first(), depth - 1)
                } else {
                    None
                }
            },
        }
    }
}

/// Merging displacements into a step list neither adds nor removes push
/// and pop markers: a step list that replays without underflow still does
/// so after its forwards are resolved into moves.
pub proof fn lemma_merge_preserves_depth(steps: Seq<PathStep>, moves: Seq<(i32, i32)>, d: int)
    ensures
        resolved_depth(merge_moves(steps, moves), d) == steps_depth(steps, d),
    decreases steps.len(),
{
    reveal_with_fuel(resolved_depth, 2);
    if steps.len() != 0 {
        let merged = merge_moves(steps, moves);
        match steps[0] {
            PathStep::Forward { .. } => {
                assert(merged[0] is Move);
                assert(merged.drop_first() =~= merge_moves(steps.drop_first(), moves.drop_first()));
                lemma_merge_preserves_depth(steps.drop_first(), moves.drop_first(), d);
            },
            PathStep::Push => {
                assert(merged[0] is Push);
                assert(merged.drop_first() =~= merge_moves(steps.drop_first(), moves));
                lemma_merge_preserves_depth(steps.drop_first(), moves, d + 1);
            },
            PathStep::Pop => {
                assert(merged[0] is Pop);
                assert(merged.drop_first() =~= merge_moves(steps.drop_first(), moves));
                if d > 0 {
                    lemma_merge_preserves_depth(steps.drop_first(), moves, d - 1);
                }
            },
        }
    }
}

/// Pairs each forward of `steps` with the displacement at the same rank
/// in `moves`; `None` exactly where the counts do not agree.
pub fn resolve_moves(steps: &Vec<PathStep>, moves: &Vec<(i32, i32)>) -> (r: Option<
    Vec<ResolvedStep>,
>)
    ensures
        match r {
            Some(res) => moves@.len() == forward_count(steps@) && res@ == merge_moves(
                steps@,
                moves@,
            ),
            None => moves@.len() != forward_count(steps@),
        },
{
    let n = steps.len();
    let m = moves.len();
    let mut res: Vec<ResolvedStep> = Vec::new();
    let mut i: usize = 0;
    let mut j: usize = 0;
    proof {
        assert(steps@.subrange(0, n as int) =~= steps@);
        assert(moves@.subrange(0, m as int) =~= moves@);
    }
    while i < n
        invariant
            n == steps@.len(),
            m == moves@.len(),
            i <= n,
            j <= m,
            forward_count(steps@) == j + forward_count(steps@.subrange(i as int, n as int)),
            merge_moves(steps@, moves@) == res@ + merge_moves(
                steps@.subrange(i as int, n as int),
                moves@.subrange(j as int, m as int),
            ),
        decreases n - i,
    {
        let ghost rem = steps@.subrange(i as int, n as int);
        let ghost mrem = moves@.subrange(j as int, m as int);
        proof {
            assert(rem[0] == steps@[i as int]);
            assert(rem.drop_first() =~= steps@.subrange(i as int + 1, n as int));
        }
        match steps[i] {
            PathStep::Forward { .. } => {
                if j >= m {
                    proof {
                        lemma_forward_count_nonneg(rem.drop_first());
                    }
                    return None;
                }
                let (dx, dy) = moves[j];
                proof {
                    assert(mrem[0] == moves@[j as int]);
                    assert(mrem.drop_first() =~= moves@.subrange(j as int + 1, m as int));
                    assert(res@ + (seq![ResolvedStep::Move { dx, dy }] + merge_moves(
                        rem.drop_first(),
                        mrem.drop_first(),
                    )) =~= res@.push(ResolvedStep::Move { dx, dy }) + merge_moves(
                        rem.drop_first(),
                        mrem.drop_first(),
                    ));
                }
                res.push(ResolvedStep::Move { dx, dy });
                j += 1;
            },
            PathStep::Push => {
                proof {
                    assert(res@ + (seq![ResolvedStep::Push] + merge_moves(
                        rem.drop_first(),
                        mrem,
                    )) =~= res@.push(ResolvedStep::Push) + merge_moves(rem.drop_first(), mrem));
                }
                res.push(ResolvedStep::Push);
            },
            PathStep::Pop => {
                proof {
                    assert(res@ + (seq![ResolvedStep::Pop] + merge_moves(
                        rem.drop_first(),
                        mrem,
                    )) =~= res@.push(ResolvedStep::Pop) + merge_moves(rem.drop_first(), mrem));
                }
                res.push(ResolvedStep::Pop);
            },
        }
        i += 1;
    }
    proof {
        assert(steps@.subrange(n as int, n as int) =~= Seq::<PathStep>::empty());
    }
    if j == m {
        proof {
            assert(merge_moves(steps@, moves@) =~= res@);
        }
        Some(res)
    } else {
        None
    }
}

/// The interpreter state of the drawing replay at the specification
/// level: pen position, saved states, drawn lines and running bounds.
pub struct TraceState {
    pub x: int,
    pub y: int,
    pub stack: Seq<(int, int)>,
    pub lines: Seq<(i32, i32, i32, i32)>,
    pub min_x: int,
    pub max_x: int,
    pub min_y: int,
    pub max_y: int,
}

pub open spec fn i32_in_range(v: int) -> bool {
    i32::MIN <= v <= i32::MAX
}

pub open spec fn init_trace_state() -> TraceState {
    TraceState {
        x: 0,
        y: 0,
        stack: Seq::empty(),
        lines: Seq::empty(),
        min_x: 0,
        max_x: 0,
        min_y: 0,
        max_y: 0,
    }
}

/// The replay of resolved steps from a state: each move draws a line and
/// widens the bounds, push saves the position, pop restores it.  It fails
/// on a pop with an empty stack and on a move leaving the machine range.
pub open spec fn spec_trace(steps: Seq<ResolvedStep>, s: TraceState) -> Result<
    TraceState,
    LSystemError,
>
    decreases steps.len(),
{
    if steps.len() == 0 {
        Ok(s)
    } else {
        match steps[0] {
            ResolvedStep::Move { dx, dy } => {
                let nx = s.x + dx;
                let ny = s.y + dy;
                if !i32_in_range(nx) || !i32_in_range(ny) {
                    Err(LSystemError::CoordinateOverflow)
                } else {
                    spec_trace(
                        steps.drop_first(),
                        TraceState {
                            x: nx,
                            y: ny,
                            stack: s.stack,
                            lines: s.lines.push(
                                (s.x as i32, s.y as i32, nx as i32, ny as i32),
                            ),
                            min_x: vstd::math::min(s.min_x, nx),
                            max_x: vstd::math::max(s.max_x, nx),
                            min_y: vstd::math::min(s.min_y, ny),
                            max_y: vstd::math::max(s.max_y, ny),
                        },
                    )
                }
            },
            ResolvedStep::Push => spec_trace(
                steps.drop_first(),
                TraceState {
                    x: s.x,
                    y: s.y,
                    stack: s.stack.push((s.x, s.y)),
                    lines: s.lines,
                    min_x: s.min_x,
                    max_x: s.max_x,
                    min_y: s.min_y,
                    max_y: s.max_y,
                },
            ),
            ResolvedStep::Pop => {
                if s.stack.len() == 0 {
                    Err(LSystemError::StackUnderflow)
                } else {
                    spec_trace(
                        steps.drop_first(),
                        TraceState {
                            x: s.stack.last().0,
                            y: s.stack.last().1,
                            stack: s.stack.drop_last(),
                            lines: s.lines,
                            min_x: vstd::math::min(s.min_x, s.stack.last().0),
                            max_x: vstd::math::max(s.max_x, s.stack.last().0),
                            min_y: vstd::math::min(s.min_y, s.stack.last().1),
                            max_y: vstd::math::max(s.max_y, s.stack.last().1),
                        },
                    )
                }
            },
        }
    }
}

/// Where the push/pop markers balance, the drawing replay never fails
/// with a stack underflow, whatever the moves are.
pub proof fn lemma_depth_safe_trace(steps: Seq<ResolvedStep>, s: TraceState)
    requires
        resolved_depth(steps, s.stack.len() as int) is Some,
    ensures
        spec_trace(steps, s) != Err::<TraceState, LSystemError>(LSystemError::StackUnderflow),
    decreases steps.len(),
{
    if steps.len() != 0 {
        match steps[0] {
            ResolvedStep::Move { dx, dy } => {
                let nx = s.x + dx;
                let ny = s.y + dy;
                if i32_in_range(nx) && i32_in_range(ny) {
                    lemma_depth_safe_trace(
                        steps.drop_first(),
                        TraceState {
                            x: nx,
                            y: ny,
                            stack: s.stack,
                            lines: s.lines.push(
                                (s.x as i32, s.y as i32, nx as i32, ny as i32),
                            ),
                            min_x: vstd::math::min(s.min_x, nx),
                            max_x: vstd::math::max(s.max_x, nx),
                            min_y: vstd::math::min(s.min_y, ny),
                            max_y: vstd::math::max(s.max_y, ny),
                        },
                    );
                }
            },
            ResolvedStep::Push => {
                lemma_depth_safe_trace(
                    steps.drop_first(),
                    TraceState {
                        x: s.x,
                        y: s.y,
                        stack: s.stack.push((s.x, s.y)),
                        lines: s.lines,
                        min_x: s.min_x,
                        max_x: s.max_x,
                        min_y: s.min_y,
                        max_y: s.max_y,
                    },
                );
            },
            ResolvedStep::Pop => {
                lemma_depth_safe_trace(
                    steps.drop_first(),
                    TraceState {
                        x: s.stack.last().0,
                        y: s.stack.last().1,
                        stack: s.stack.drop_last(),
                        lines: s.lines,
                        min_x: vstd::math::min(s.min_x, s.stack.last().0),
                        max_x: vstd::math::max(s.max_x, s.stack.last().0),
                        min_y: vstd::math::min(s.min_y, s.stack.last().1),
                        max_y: vstd::math::max(s.max_y, s.stack.last().1),
                    },
                );
            },
        }
    }
}

/// Step lists whose push/pop markers balance replay safely end to end:
/// whatever displacements are merged in, the drawing replay never fails
/// with a stack underflow.
pub proof fn lemma_balanced_steps_trace_safely(steps: Seq<PathStep>, moves: Seq<(i32, i32)>)
    requires
        steps_depth(steps, 0) is Some,
        moves.len() == forward_count(steps),
    ensures
        spec_trace(merge_moves(steps, moves), init_trace_state()) != Err::<
            TraceState,
            LSystemError,
        >(LSystemError::StackUnderflow),
{
    lemma_merge_preserves_depth(steps, moves, 0);
    lemma_depth_safe_trace(merge_moves(steps, moves), init_trace_state());
}

/// The turtle fields agree with a specification-level replay state.
pub open spec fn turtle_matches(m: TraceState, t: &BaseTurtle) -> bool {
    &&& t.x_spec() == m.x
    &&& t.y_spec() == m.y
    &&& t.lines_view() == m.lines
    &&& t.min_x_spec() == m.min_x
    &&& t.max_x_spec() == m.max_x
    &&& t.min_y_spec() == m.min_y
    &&& t.max_y_spec() == m.max_y
}

spec fn trace_model(t: &BaseTurtle, st: Seq<(i32, i32)>) -> TraceState {
    TraceState {
        x: t.x_spec(),
        y: t.y_spec(),
        stack: st.map(|k: int, p: (i32, i32)| (p.0 as int, p.1 as int)),
        lines: t.lines_view(),
        min_x: t.min_x_spec(),
        max_x: t.max_x_spec(),
        min_y: t.min_y_spec(),
        max_y: t.max_y_spec(),
    }
}

/// Replays resolved steps against a fresh turtle and returns it with its
/// drawn lines and bounds; the result is exactly what `spec_trace` gives
/// from the fresh state.
pub fn trace(steps: &Vec<ResolvedStep>) -> (r: Result<BaseTurtle, LSystemError>)
    ensures
        match r {
            Ok(t) => t.wf() && (spec_trace(steps@, init_trace_state()) matches Ok(m)
                && turtle_matches(m, &t)),
            Err(e) => spec_trace(steps@, init_trace_state()) == Err::<TraceState, LSystemError>(e),
        },
{
    let n = steps.len();
    let mut t = BaseTurtle::new();
    let mut stack: Vec<(i32, i32)> = Vec::new();
    let mut i: usize = 0;
    proof {
        assert(steps@.subrange(0, n as int) =~= steps@);
        assert(trace_model(&t, stack@).stack =~= init_trace_state().stack);
        assert(trace_model(&t, stack@) == init_trace_state());
    }
    while i < n
        invariant
            n == steps@.len(),
            i <= n,
            t.wf(),
            t.pen_spec(),
            spec_trace(steps@, init_trace_state()) == spec_trace(
                steps@.subrange(i as int, n as int),
                trace_model(&t, stack@),
            ),
        decreases n - i,
    {
        let ghost rem = steps@.subrange(i as int, n as int);
        let ghost model = trace_model(&t, stack@);
        proof {
            assert(rem[0] == steps@[i as int]);
            assert(rem.drop_first() =~= steps@.subrange(i as int + 1, n as int));
        }
        match steps[i] {
            ResolvedStep::Move { dx, dy } => {
                let nx = t.x() as i64 + dx as i64;
                let ny = t.y() as i64 + dy as i64;
                if nx < i32::MIN as i64 || nx > i32::MAX as i64 || ny < i32::MIN as i64 || ny
                    > i32::MAX as i64 {
                    return Err(LSystemError::CoordinateOverflow);
                }
                t.delta_move(dx, dy);
                proof {
                    let model2 = trace_model(&t, stack@);
                    assert(model2.stack =~= model.stack);
                    assert(model2.lines =~= model.lines.push(
                        (
                            model.x as i32,
                            model.y as i32,
                            (model.x + dx) as i32,
                            (model.y + dy) as i32,
                        ),
                    ));
                    assert(spec_trace(rem, model) == spec_trace(rem.drop_first(), model2));
                }
            },
            ResolvedStep::Push => {
                let px = t.x();
                let py = t.y();
                let ghost prev_stack = stack@;
                stack.push((px, py));
                proof {
                    let model2 = trace_model(&t, stack@);
                    assert(model2.stack =~= model.stack.push((model.x, model.y)));
                    assert(spec_trace(rem, model) == spec_trace(rem.drop_first(), model2));
                }
            },
            ResolvedStep::Pop => {
                let ghost prev_stack = stack@;
                match stack.pop() {
                    Some(p) => {
                        proof {
                            assert(prev_stack.map(|k: int, q: (i32, i32)| (q.0 as int, q.1 as int)).len() > 0);
                            assert(p == prev_stack.last());
                        }
                        t.set_position(p.0, p.1);
                        proof {
                            let model2 = trace_model(&t, stack@);
                            assert(model2.stack =~= model.stack.drop_last());
                            assert(model.stack.last() == (p.0 as int, p.1 as int));
                            assert(model2.lines =~= model.lines);
                            assert(spec_trace(rem, model) == spec_trace(rem.drop_first(), model2));
                        }
                    },
                    None => {
                        proof {
                            assert(model.stack.len() == 0);
                        }
                        return Err(LSystemError::StackUnderflow);
                    },
                }
            },
        }
        i += 1;
    }
    proof {
        assert(steps@.subrange(n as int, n as int) =~= Seq::<ResolvedStep>::empty());
    }
    Ok(t)
}

} // verus!
