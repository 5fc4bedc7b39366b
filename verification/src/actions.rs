use vstd::prelude::*;

verus! {

/// A uniform sampling range `lower..upper`, half-open.  The range is
/// valid only when `lower < upper`; a degenerate `lower == upper - 1`
/// range always produces `lower`.
#[derive(Clone, Copy, Debug)]
pub struct Uniform {
    lower: i32,
    upper: i32,
}

impl Uniform {
    pub closed spec fn lower_spec(&self) -> int {
        self.lower as int
    }

    pub closed spec fn upper_spec(&self) -> int {
        self.upper as int
    }

    pub open spec fn valid(&self) -> bool {
        self.lower_spec() < self.upper_spec()
    }

    pub fn new(lower: i32, upper: i32) -> (r: Uniform)
        ensures
            r.lower_spec() == lower,
            r.upper_spec() == upper,
    {
        Uniform { lower, upper }
    }

    /// The inclusive lower end of the range.
    pub fn lower(&self) -> (r: i32)
        ensures
            r == self.lower_spec(),
    {
        self.lower
    }

    /// The exclusive upper end of the range.
    pub fn upper(&self) -> (r: i32)
        ensures
            r == self.upper_spec(),
    {
        self.upper
    }
}

/// Relies on rand::random_range over `lower..upper`: it panics on an
/// empty range and otherwise returns a sample lying in the range.
#[verifier::external_body]
fn sample_range(lower: i32, upper: i32) -> (r: i32)
    requires
        lower < upper,
    ensures
        lower <= r < upper,
{
    rand::random_range(lower..upper)
}

/// A sampling strategy for stochastic turtle actions: a fixed value, or a
/// fresh uniform sample on every invocation.
#[derive(Clone, Copy, Debug)]
pub enum Distribution {
    /// Every sample is this value.
    Constant(i32),
    /// Every sample is drawn fresh from the uniform range.
    Uniform(Uniform),
}

impl Distribution {
    pub open spec fn valid(&self) -> bool {
        match self {
            Distribution::Constant(_) => true,
            Distribution::Uniform(u) => u.valid(),
        }
    }

    /// Which values a sample of this distribution can take.
    pub open spec fn in_range(&self, r: i32) -> bool {
        match self {
            Distribution::Constant(v) => r == v,
            Distribution::Uniform(u) => u.lower_spec() <= r < u.upper_spec(),
        }
    }

    /// Draws one value; every call may give a different answer, but each
    /// lies in the distribution's range.
    pub fn sample(&self) -> (r: i32)
        requires
            self.valid(),
        ensures
            self.in_range(r),
    {
        match self {
            Distribution::Constant(v) => *v,
            Distribution::Uniform(u) => sample_range(u.lower, u.upper),
        }
    }
}

/// A valid distribution can always produce at least one value.
pub proof fn lemma_valid_has_sample(d: Distribution)
    requires
        d.valid(),
    ensures
        exists|v: i32| #[trigger] d.in_range(v),
{
    match d {
        Distribution::Constant(c) => {
            assert(d.in_range(c));
        },
        Distribution::Uniform(u) => {
            assert(d.in_range(u.lower));
        },
    }
}

/// What a token does to the turtle interpreter state when the rewritten
/// sequence is replayed.
#[derive(Clone, Copy, Debug)]
pub enum TurtleAction {
    /// No effect.
    Nothing,
    /// Adds the angle, in degrees, to the accumulated rotation, modulo 360.
    Rotate(i32),
    /// Moves the turtle forward by the distance, heading along the
    /// accumulated rotation plus the global rotation.
    Forward(i32),
    /// As `Rotate`, with the angle drawn fresh on every invocation.
    StochasticRotate(Distribution),
    /// As `Forward`, with the distance drawn fresh on every invocation.
    StochasticForward(Distribution),
    /// Saves the turtle position and the accumulated rotation on a stack.
    Push,
    /// Restores the most recently saved state; fatal on an empty stack.
    Pop,
}

impl TurtleAction {
    /// Stochastic actions carry a distribution that must be a valid range.
    pub open spec fn valid(&self) -> bool {
        match self {
            TurtleAction::StochasticRotate(d) => d.valid(),
            TurtleAction::StochasticForward(d) => d.valid(),
            _ => true,
        }
    }

    /// Whether replaying this action draws from a distribution.
    pub open spec fn is_stochastic(&self) -> bool {
        self is StochasticRotate || self is StochasticForward
    }

    pub fn check_valid(&self) -> (r: bool)
        ensures
            r == self.valid(),
    {
        match self {
            TurtleAction::StochasticRotate(Distribution::Uniform(u)) => u.lower() < u.upper(),
            TurtleAction::StochasticForward(Distribution::Uniform(u)) => u.lower() < u.upper(),
            _ => true,
        }
    }
}

} // verus!
