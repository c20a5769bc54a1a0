//! A snake on the grid: its body from head to tail and the direction it
//! faces.

use vstd::prelude::*;
use crate::math::{Direction, Point};

verus! {

/// A snake's body, head first, and its heading.
#[derive(Debug, Clone)]
pub struct Snake {
    pub points: Vec<Point>,
    pub direction: Direction,
}

impl View for Snake {
    type V = Seq<Point>;

    open spec fn view(&self) -> Seq<Point> {
        self.points@
    }
}

impl Snake {
    /// A snake of one cell at `head`, facing `direction`.
    pub fn new(head: Point, direction: Direction) -> (s: Self)
        ensures
            s@ == seq![head],
            s.direction == direction,
    {
        let mut points = Vec::new();
        points.push(head);
        Snake { points, direction }
    }

    /// A copy of this snake, cell for cell.
    pub(crate) fn copy(&self) -> (s: Self)
        ensures
            s@ == self@,
            s.direction == self.direction,
    {
        let mut points: Vec<Point> = Vec::new();
        let mut i: usize = 0;
        while i < self.points.len()
            invariant
                0 <= i <= self.points@.len(),
                points@ == self.points@.take(i as int),
            decreases self.points@.len() - i,
        {
            points.push(self.points[i]);
            assert(self.points@.take(i as int + 1) =~= self.points@.take(i as int).push(
                self.points@[i as int],
            ));
            i = i + 1;
        }
        assert(self.points@.take(self.points@.len() as int) =~= self.points@);
        Snake { points, direction: self.direction }
    }

    pub fn points(&self) -> (p: &Vec<Point>)
        ensures
            p@ == self@,
    {
        &self.points
    }

    pub fn head(&self) -> (p: Point)
        requires
            self@.len() > 0,
        ensures
            p == self@[0],
    {
        self.points[0]
    }

    pub fn tail(&self) -> (p: Point)
        requires
            self@.len() > 0,
        ensures
            p == self@.last(),
    {
        self.points[self.points.len() - 1]
    }

    /// Grows the snake by a head cell one step in `dir` from its head.
    pub fn expand_head(&mut self, dir: Direction)
        requires
            old(self)@.len() > 0,
            dir.can_apply(old(self)@[0]),
        ensures
            final(self)@ == seq![dir.spec_apply(old(self)@[0])] + old(self)@,
            final(self).direction == old(self).direction,
    {
        let head = self.points[0].direction(dir);
        self.push_head(head);
    }

    /// Grows the snake by a new head cell.
    pub fn push_head(&mut self, p: Point)
        ensures
            final(self)@ == seq![p] + old(self)@,
            final(self).direction == old(self).direction,
    {
        self.points.insert(0, p);
        assert(self.points@ =~= seq![p] + old(self)@);
    }

    /// Removes the head cell, if any.
    pub fn pop_head(&mut self) -> (r: Option<Point>)
        ensures
            old(self)@.len() == 0 ==> r is None && final(self)@ == old(self)@,
            old(self)@.len() > 0 ==> r == Some(old(self)@[0]) && final(self)@ == old(self)@.drop_first(),
            final(self).direction == old(self).direction,
    {
        if self.points.len() == 0 {
            None
        } else {
            let p = self.points.remove(0);
            assert(self.points@ =~= old(self)@.drop_first());
            Some(p)
        }
    }

    /// Grows the snake by a new tail cell.
    pub fn push_tail(&mut self, p: Point)
        ensures
            final(self)@ == old(self)@.push(p),
            final(self).direction == old(self).direction,
    {
        self.points.push(p);
    }

    /// Removes the tail cell, if any.
    pub fn pop_tail(&mut self) -> (r: Option<Point>)
        ensures
            old(self)@.len() == 0 ==> r is None && final(self)@ == old(self)@,
            old(self)@.len() > 0 ==> r == Some(old(self)@.last()) && final(self)@ == old(self)@.drop_last(),
            final(self).direction == old(self).direction,
    {
        self.points.pop()
    }
}

} // verus!
