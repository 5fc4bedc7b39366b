use vstd::prelude::*;

verus! {

/// An integer-valued drawing turtle: a pen position, a pen flag, the line
/// segments drawn so far, and running bounds over every position visited.
pub struct BaseTurtle {
    x: i32,
    y: i32,
    lines: Vec<(i32, i32, i32, i32)>,
    max_x: i32,
    max_y: i32,
    min_x: i32,
    min_y: i32,
    pen_down: bool,
}

impl BaseTurtle {
    pub closed spec fn x_spec(&self) -> int {
        self.x as int
    }

    pub closed spec fn y_spec(&self) -> int {
        self.y as int
    }

    pub closed spec fn lines_view(&self) -> Seq<(i32, i32, i32, i32)> {
        self.lines@
    }

    pub closed spec fn min_x_spec(&self) -> int {
        self.min_x as int
    }

    pub closed spec fn max_x_spec(&self) -> int {
        self.max_x as int
    }

    pub closed spec fn min_y_spec(&self) -> int {
        self.min_y as int
    }

    pub closed spec fn max_y_spec(&self) -> int {
        self.max_y as int
    }

    pub closed spec fn pen_spec(&self) -> bool {
        self.pen_down
    }

    /// The bounds cover the origin, the current position and every drawn
    /// endpoint: they are the running min and max over all visited points.
    pub open spec fn wf(&self) -> bool {
        &&& self.min_x_spec() <= 0 <= self.max_x_spec()
        &&& self.min_y_spec() <= 0 <= self.max_y_spec()
        &&& self.min_x_spec() <= self.x_spec() <= self.max_x_spec()
        &&& self.min_y_spec() <= self.y_spec() <= self.max_y_spec()
        &&& forall|i: int|
            0 <= i < self.lines_view().len() ==> {
                let l = #[trigger] self.lines_view()[i];
                &&& self.min_x_spec() <= l.0 <= self.max_x_spec()
                &&& self.min_y_spec() <= l.1 <= self.max_y_spec()
                &&& self.min_x_spec() <= l.2 <= self.max_x_spec()
                &&& self.min_y_spec() <= l.3 <= self.max_y_spec()
            }
    }

    /// A fresh turtle: at the origin, pen down, nothing drawn.
    pub fn new() -> (r: BaseTurtle)
        ensures
            r.wf(),
            r.x_spec() == 0,
            r.y_spec() == 0,
            r.lines_view() == Seq::<(i32, i32, i32, i32)>::empty(),
            r.min_x_spec() == 0,
            r.max_x_spec() == 0,
            r.min_y_spec() == 0,
            r.max_y_spec() == 0,
            r.pen_spec(),
    {
        BaseTurtle {
            x: 0,
            y: 0,
            lines: Vec::new(),
            max_x: 0,
            max_y: 0,
            min_x: 0,
            min_y: 0,
            pen_down: true,
        }
    }

    /// The current `x` coordinate.
    pub fn x(&self) -> (r: i32)
        ensures
            r == self.x_spec(),
    {
        self.x
    }

    /// The current `y` coordinate.
    pub fn y(&self) -> (r: i32)
        ensures
            r == self.y_spec(),
    {
        self.y
    }

    /// Every line `(x1, y1, x2, y2)` drawn so far, in drawing order.
    pub fn lines(&self) -> (r: &Vec<(i32, i32, i32, i32)>)
        ensures
            r@ == self.lines_view(),
    {
        &self.lines
    }

    fn update_bounds(&mut self)
        ensures
            final(self).x_spec() == old(self).x_spec(),
            final(self).y_spec() == old(self).y_spec(),
            final(self).lines_view() == old(self).lines_view(),
            final(self).pen_spec() == old(self).pen_spec(),
            final(self).min_x_spec() == vstd::math::min(old(self).min_x_spec(), old(self).x_spec()),
            final(self).max_x_spec() == vstd::math::max(old(self).max_x_spec(), old(self).x_spec()),
            final(self).min_y_spec() == vstd::math::min(old(self).min_y_spec(), old(self).y_spec()),
            final(self).max_y_spec() == vstd::math::max(old(self).max_y_spec(), old(self).y_spec()),
    {
        if self.x < self.min_x {
            self.min_x = self.x;
        }
        if self.y < self.min_y {
            self.min_y = self.y;
        }
        if self.x > self.max_x {
            self.max_x = self.x;
        }
        if self.y > self.max_y {
            self.max_y = self.y;
        }
    }

    /// Moves the pen to `(x, y)` without drawing, and widens the bounds to
    /// cover the new position.
    pub fn set_position(&mut self, x: i32, y: i32)
        requires
            old(self).wf(),
        ensures
            final(self).wf(),
            final(self).x_spec() == x,
            final(self).y_spec() == y,
            final(self).lines_view() == old(self).lines_view(),
            final(self).pen_spec() == old(self).pen_spec(),
            final(self).min_x_spec() == vstd::math::min(old(self).min_x_spec(), x as int),
            final(self).max_x_spec() == vstd::math::max(old(self).max_x_spec(), x as int),
            final(self).min_y_spec() == vstd::math::min(old(self).min_y_spec(), y as int),
            final(self).max_y_spec() == vstd::math::max(old(self).max_y_spec(), y as int),
    {
        self.x = x;
        self.y = y;
        self.update_bounds();
        proof {
            assert forall|i: int| 0 <= i < self.lines_view().len() implies {
                let l = #[trigger] self.lines_view()[i];
                &&& self.min_x_spec() <= l.0 <= self.max_x_spec()
                &&& self.min_y_spec() <= l.1 <= self.max_y_spec()
                &&& self.min_x_spec() <= l.2 <= self.max_x_spec()
                &&& self.min_y_spec() <= l.3 <= self.max_y_spec()
            } by {
                assert(self.lines_view()[i] == old(self).lines_view()[i]);
            }
        }
    }

    /// Moves the pen by `(dx, dy)`; while the pen is down the move is
    /// recorded as a line from the old to the new position.  The bounds
    /// widen to cover the new position.
    pub fn delta_move(&mut self, dx: i32, dy: i32)
        requires
            old(self).wf(),
            i32::MIN <= old(self).x_spec() + dx <= i32::MAX,
            i32::MIN <= old(self).y_spec() + dy <= i32::MAX,
        ensures
            final(self).wf(),
            final(self).x_spec() == old(self).x_spec() + dx,
            final(self).y_spec() == old(self).y_spec() + dy,
            final(self).lines_view() == if old(self).pen_spec() {
                old(self).lines_view().push(
                    (
                        old(self).x_spec() as i32,
                        old(self).y_spec() as i32,
                        (old(self).x_spec() + dx) as i32,
                        (old(self).y_spec() + dy) as i32,
                    ),
                )
            } else {
                old(self).lines_view()
            },
            final(self).pen_spec() == old(self).pen_spec(),
            final(self).min_x_spec() == vstd::math::min(
                old(self).min_x_spec(),
                old(self).x_spec() + dx,
            ),
            final(self).max_x_spec() == vstd::math::max(
                old(self).max_x_spec(),
                old(self).x_spec() + dx,
            ),
            final(self).min_y_spec() == vstd::math::min(
                old(self).min_y_spec(),
                old(self).y_spec() + dy,
            ),
            final(self).max_y_spec() == vstd::math::max(
                old(self).max_y_spec(),
                old(self).y_spec() + dy,
            ),
    {
        let x2 = self.x + dx;
        let y2 = self.y + dy;
        if self.pen_down {
            self.lines.push((self.x, self.y, x2, y2));
        }
        self.x = x2;
        self.y = y2;
        self.update_bounds();
        proof {
            assert forall|i: int| 0 <= i < self.lines_view().len() implies {
                let l = #[trigger] self.lines_view()[i];
                &&& self.min_x_spec() <= l.0 <= self.max_x_spec()
                &&& self.min_y_spec() <= l.1 <= self.max_y_spec()
                &&& self.min_x_spec() <= l.2 <= self.max_x_spec()
                &&& self.min_y_spec() <= l.3 <= self.max_y_spec()
            } by {
                if i < old(self).lines_view().len() {
                    assert(self.lines_view()[i] == old(self).lines_view()[i]);
                } else {
                    assert(self.lines_view()[i] == (old(self).x, old(self).y, x2, y2));
                }
            }
        }
    }

    /// Returns `(total_width, total_height, min_x, min_y)`: the spans
    /// `max - min` over every visited position, and the least visited
    /// coordinates.  Translating every point by `(-min_x, -min_y)` puts
    /// the whole drawing into non-negative coordinates.
    pub fn bounds(&self) -> (r: (u32, u32, i32, i32))
        requires
            self.wf(),
        ensures
            r.0 == self.max_x_spec() - self.min_x_spec(),
            r.1 == self.max_y_spec() - self.min_y_spec(),
            r.2 == self.min_x_spec(),
            r.3 == self.min_y_spec(),
    {
        let w = self.max_x as i64 - self.min_x as i64;
        let h = self.max_y as i64 - self.min_y as i64;
        (w as u32, h as u32, self.min_x, self.min_y)
    }

    /// Puts the pen down: later moves draw lines.
    pub fn pen_down(&mut self)
        ensures
            final(self).pen_spec(),
            final(self).x_spec() == old(self).x_spec(),
            final(self).y_spec() == old(self).y_spec(),
            final(self).lines_view() == old(self).lines_view(),
            final(self).min_x_spec() == old(self).min_x_spec(),
            final(self).max_x_spec() == old(self).max_x_spec(),
            final(self).min_y_spec() == old(self).min_y_spec(),
            final(self).max_y_spec() == old(self).max_y_spec(),
            old(self).wf() ==> final(self).wf(),
    {
        self.pen_down = true;
    }

    /// Lifts the pen up: later moves draw nothing.
    pub fn pen_up(&mut self)
        ensures
            !final(self).pen_spec(),
            final(self).x_spec() == old(self).x_spec(),
            final(self).y_spec() == old(self).y_spec(),
            final(self).lines_view() == old(self).lines_view(),
            final(self).min_x_spec() == old(self).min_x_spec(),
            final(self).max_x_spec() == old(self).max_x_spec(),
            final(self).min_y_spec() == old(self).min_y_spec(),
            final(self).max_y_spec() == old(self).max_y_spec(),
            old(self).wf() ==> final(self).wf(),
    {
        self.pen_down = false;
    }
}

/// Every endpoint drawn so far, translated by `(-min_x, -min_y)`, lies in
/// `[0, width] x [0, height]` with `width == max_x - min_x` and
/// `height == max_y - min_y`.
pub proof fn lemma_bounds_contain_lines(t: &BaseTurtle)
    requires
        t.wf(),
    ensures
        forall|i: int|
            0 <= i < t.lines_view().len() ==> {
                let l = #[trigger] t.lines_view()[i];
                &&& 0 <= l.0 - t.min_x_spec() <= t.max_x_spec() - t.min_x_spec()
                &&& 0 <= l.1 - t.min_y_spec() <= t.max_y_spec() - t.min_y_spec()
                &&& 0 <= l.2 - t.min_x_spec() <= t.max_x_spec() - t.min_x_spec()
                &&& 0 <= l.3 - t.min_y_spec() <= t.max_y_spec() - t.min_y_spec()
            },
{
}

/// A four-way compass heading for simple integer turtles.
#[derive(Debug, Copy, Clone, Eq, PartialEq, Structural)]
pub enum Heading {
    North,
    South,
    East,
    West,
}

impl Heading {
    pub open spec fn left_spec(self) -> Heading {
        match self {
            Heading::North => Heading::West,
            Heading::West => Heading::South,
            Heading::South => Heading::East,
            Heading::East => Heading::North,
        }
    }

    pub open spec fn right_spec(self) -> Heading {
        match self {
            Heading::North => Heading::East,
            Heading::East => Heading::South,
            Heading::South => Heading::West,
            Heading::West => Heading::North,
        }
    }

    /// The heading 90 degrees to the left of this one.
    pub fn left(self) -> (r: Heading)
        ensures
            r == self.left_spec(),
    {
        match self {
            Heading::North => Heading::West,
            Heading::West => Heading::South,
            Heading::South => Heading::East,
            Heading::East => Heading::North,
        }
    }

    /// The heading 90 degrees to the right of this one: three lefts.
    pub fn right(self) -> (r: Heading)
        ensures
            r == self.right_spec(),
    {
        self.left().left().left()
    }

    /// The unit step along `x` for this heading.
    pub fn dx(self) -> (r: i32)
        ensures
            r == match self {
                Heading::West => -1int,
                Heading::East => 1int,
                _ => 0int,
            },
    {
        match self {
            Heading::West => -1,
            Heading::East => 1,
            _ => 0,
        }
    }

    /// The unit step along `y` for this heading.
    pub fn dy(self) -> (r: i32)
        ensures
            r == match self {
                Heading::North => 1int,
                Heading::South => -1int,
                _ => 0int,
            },
    {
        match self {
            Heading::North => 1,
            Heading::South => -1,
            _ => 0,
        }
    }
}

} // verus!
