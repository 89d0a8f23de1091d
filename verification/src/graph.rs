//! The graph: an ordered list of points, a visit count for every ordered
//! pair of them, and the number of simulation steps since the counts last
//! started from zero.

use crate::matrix::{
    bump_fits, bumped, counts_of, grown, index_after_removal, is_square, lemma_bumped_keeps_shape,
    lemma_grown_keeps_entries, lemma_grown_without_last, lemma_without_keeps_entries, marks_fit,
    marks_of, without, zero_diagonal, zeros, VisitMatrix,
};
use crate::point::Point;
use vstd::prelude::*;

verus! {

/// The mathematical model of a [`Graph`].
pub struct GraphView {
    /// The committed points, in insertion order; the index is a point's name
    /// until the next insertion or removal.
    pub pts: Seq<Point>,
    /// `connections[i][j]` counts the steps that sampled the connection from
    /// point `i` to point `j`.
    pub connections: Seq<Seq<nat>>,
    /// The steps completed since the counts were last reset.
    pub it: nat,
}

impl GraphView {
    /// The matrix has one row and one column per point, and no point is
    /// connected to itself.
    pub open spec fn wf(self) -> bool {
        &&& is_square(self.connections, self.pts.len())
        &&& zero_diagonal(self.connections)
    }

    /// The graph without points, as it is when a session starts.
    pub open spec fn initial() -> GraphView {
        GraphView { pts: Seq::empty(), connections: zeros(0), it: 1 }
    }

    /// The graph after `p` was appended: the old counts stay, the new row and
    /// column are zero, and the step counter starts again.
    pub open spec fn inserted(self, p: Point) -> GraphView {
        GraphView { pts: self.pts.push(p), connections: grown(self.connections), it: 0 }
    }

    /// The graph after point `i` was taken out, with its row and column.
    pub open spec fn removed(self, i: int) -> GraphView {
        GraphView {
            pts: self.pts.remove(i),
            connections: without(self.connections, i),
            it: self.it,
        }
    }

    /// The graph after every count was set to zero and `p` was appended.
    pub open spec fn restarted(self, p: Point) -> GraphView {
        GraphView {
            pts: self.pts.push(p),
            connections: zeros(self.pts.len() + 1),
            it: 0,
        }
    }

    /// The graph after one step in which exactly the trials that `marks`
    /// selects succeeded.
    pub open spec fn stepped(self, marks: Seq<Seq<bool>>) -> GraphView {
        GraphView {
            pts: self.pts,
            connections: bumped(self.connections, marks),
            it: self.it + 1,
        }
    }

    /// `next` is this graph after one step, whatever its trials gave.
    pub open spec fn steps_to(self, next: GraphView) -> bool {
        exists|marks: Seq<Seq<bool>>| #[trigger]
            marks_fit(marks, self.pts.len()) && next == self.stepped(marks)
    }

    /// A step with the outcomes `marks` overflows no counter.
    pub open spec fn step_fits(self, marks: Seq<Seq<bool>>) -> bool {
        &&& self.it < usize::MAX
        &&& bump_fits(self.connections, marks)
    }

    /// A step overflows no counter, whatever its trials give.
    pub open spec fn can_step(self) -> bool {
        &&& self.it < usize::MAX
        &&& forall|i: int, j: int|
            0 <= i < self.pts.len() && 0 <= j < self.pts.len() && i != j
                ==> #[trigger] self.connections[i][j] < usize::MAX
    }
}

/// A step changes neither the points nor the size of the matrix, counts one
/// more step, and leaves every visit count where it was or one higher.
pub proof fn lemma_step_monotone(g: GraphView, marks: Seq<Seq<bool>>)
    requires
        g.wf(),
    ensures
        g.stepped(marks).wf(),
        g.stepped(marks).pts == g.pts,
        g.stepped(marks).it == g.it + 1,
        forall|i: int, j: int|
            0 <= i < g.pts.len() && 0 <= j < g.pts.len() ==> g.connections[i][j]
                <= #[trigger] g.stepped(marks).connections[i][j] <= g.connections[i][j] + 1,
{
    lemma_bumped_keeps_shape(g.connections, marks);
    assert forall|i: int, j: int|
        0 <= i < g.pts.len() && 0 <= j < g.pts.len() implies g.connections[i][j]
        <= #[trigger] g.stepped(marks).connections[i][j] <= g.connections[i][j] + 1 by {
        assert(g.connections[i].len() == g.pts.len());
    }
}

/// Inserting a point and at once removing it again, by the index that the
/// insertion gave, restores the points and every entry of the matrix. Only
/// the step counter is not restored: the insertion set it to zero.
pub proof fn lemma_insert_then_remove(g: GraphView, p: Point)
    requires
        g.wf(),
    ensures
        g.inserted(p).removed(g.pts.len() as int).pts == g.pts,
        g.inserted(p).removed(g.pts.len() as int).connections == g.connections,
        g.inserted(p).removed(g.pts.len() as int).it == 0,
        g.inserted(p).removed(g.pts.len() as int).wf(),
{
    lemma_grown_without_last(g.connections);
    assert(g.pts.push(p).remove(g.pts.len() as int) =~= g.pts);
}

/// Removing point `k` keeps every other point and the visit count of every
/// pair of other points; each is found at the index it has after the
/// removal.
pub proof fn lemma_remove_keeps_others(g: GraphView, k: int)
    requires
        g.wf(),
        0 <= k < g.pts.len(),
    ensures
        g.removed(k).pts.len() == g.pts.len() - 1,
        forall|p: int|
            0 <= p < g.pts.len() && p != k ==> g.removed(k).pts[index_after_removal(k, p)]
                == #[trigger] g.pts[p],
        forall|p: int, q: int|
            0 <= p < g.pts.len() && 0 <= q < g.pts.len() && p != k && q != k ==> g.removed(
                k,
            ).connections[index_after_removal(k, p)][index_after_removal(k, q)]
                == #[trigger] g.connections[p][q],
{
    lemma_without_keeps_entries(g.connections, k);
}

/// The source of the Bernoulli trials of a simulation step.
///
/// An implementation decides, for one ordered pair of distinct points,
/// whether the connection between them is sampled in this step. The graph it
/// is shown is the graph as it was before the step, for every trial of the
/// step.
pub trait Sampler {
    fn trial(&mut self, graph: &Graph, i: usize, j: usize) -> (hit: bool)
        requires
            graph.wf(),
            i < graph@.pts.len(),
            j < graph@.pts.len(),
            i != j,
    ;
}

/// The points, their visit counts and the step counter.
#[derive(Debug)]
pub struct Graph {
    pts: Vec<Point>,
    connections: VisitMatrix,
    it: usize,
}

impl View for Graph {
    type V = GraphView;

    closed spec fn view(&self) -> GraphView {
        GraphView { pts: self.pts@, connections: self.connections@, it: self.it as nat }
    }
}

impl Clone for Graph {
    fn clone(&self) -> (copy: Graph)
        ensures
            copy@ == self@,
    {
        let copy = Graph {
            pts: self.pts.clone(),
            connections: self.connections.clone(),
            it: self.it,
        };
        assert(copy.pts@ =~= self.pts@);
        copy
    }
}

impl Graph {
    /// The invariant of every graph this module hands out.
    pub open spec fn wf(&self) -> bool {
        self@.wf()
    }

    /// The graph without points. Its step counter starts at one, so that a
    /// reader who divides a count by it can do so from the first frame on.
    pub fn new() -> (g: Graph)
        ensures
            g.wf(),
            g@ == GraphView::initial(),
    {
        Graph { pts: Vec::new(), connections: VisitMatrix::new(), it: 1 }
    }

    /// Appends `p` and returns its index. The matrix gets a zero row and a
    /// zero column for it, and the step counter starts again at zero.
    pub fn insert_point(&mut self, p: Point) -> (index: usize)
        requires
            old(self).wf(),
        ensures
            final(self).wf(),
            final(self)@ == old(self)@.inserted(p),
            index == old(self)@.pts.len(),
            forall|i: int, j: int|
                0 <= i <= index && 0 <= j <= index ==> #[trigger] final(self)@.connections[i][j]
                    == (if i < index && j < index {
                    old(self)@.connections[i][j]
                } else {
                    0
                }),
    {
        proof {
            lemma_grown_keeps_entries(self@.connections);
        }
        let index = self.pts.len();
        self.pts.push(p);
        self.connections.grow();
        self.it = 0;
        index
    }

    /// Takes point `index` out of the graph, with its row and column of the
    /// matrix, and returns its position.
    pub fn remove_point(&mut self, index: usize) -> (p: Point)
        requires
            old(self).wf(),
            index < old(self)@.pts.len(),
        ensures
            final(self).wf(),
            final(self)@ == old(self)@.removed(index as int),
            p == old(self)@.pts[index as int],
            forall|a: int, b: int|
                0 <= a < old(self)@.pts.len() && 0 <= b < old(self)@.pts.len() && a != index && b
                    != index ==> final(self)@.connections[index_after_removal(
                    index as int,
                    a,
                )][index_after_removal(index as int, b)] == #[trigger] old(self)@.connections[a][b],
    {
        proof {
            lemma_remove_keeps_others(self@, index as int);
        }
        self.connections.remove(index);
        self.pts.remove(index)
    }

    /// Forgets every visit and appends `p`: the matrix is all zero, one row
    /// and one column larger, and the step counter is zero.
    pub fn restart_with(&mut self, p: Point)
        requires
            old(self).wf(),
        ensures
            final(self).wf(),
            final(self)@ == old(self)@.restarted(p),
    {
        self.connections.clear();
        self.insert_point(p);
        assert(self@.connections =~= zeros(old(self)@.pts.len() + 1)) by {
            let n = old(self)@.pts.len();
            let z = grown(zeros(n));
            assert forall|r: int| 0 <= r < n + 1 implies #[trigger] z[r] =~= zeros(n + 1)[r] by {}
        }
    }

    /// One simulation step with the given trial outcomes: every connection
    /// from `i` to another point `j` with `marks[i][j]` set is visited once
    /// more, and the step counter goes up by one.
    pub fn step(&mut self, marks: &Vec<Vec<bool>>)
        requires
            old(self).wf(),
            marks_fit(marks_of(marks@), old(self)@.pts.len()),
            old(self)@.step_fits(marks_of(marks@)),
        ensures
            final(self).wf(),
            final(self)@ == old(self)@.stepped(marks_of(marks@)),
            final(self)@.pts == old(self)@.pts,
            forall|i: int, j: int|
                0 <= i < old(self)@.pts.len() && 0 <= j < old(self)@.pts.len() ==> old(
                    self,
                )@.connections[i][j] <= #[trigger] final(self)@.connections[i][j],
    {
        proof {
            lemma_step_monotone(self@, marks_of(marks@));
        }
        self.connections.bump(marks);
        self.it += 1;
    }

    /// One simulation step whose trials are drawn from `sampler`, one for
    /// every ordered pair of distinct points, row by row. Every trial sees
    /// the graph as it was before the step; the visits are added only after
    /// the last trial.
    pub fn simulate<S: Sampler>(&mut self, sampler: &mut S)
        requires
            old(self).wf(),
            old(self)@.can_step(),
        ensures
            final(self).wf(),
            old(self)@.steps_to(final(self)@),
            final(self)@.pts == old(self)@.pts,
            final(self)@.it == old(self)@.it + 1,
            forall|i: int, j: int|
                0 <= i < old(self)@.pts.len() && 0 <= j < old(self)@.pts.len() ==> old(
                    self,
                )@.connections[i][j] <= #[trigger] final(self)@.connections[i][j]
                    <= old(self)@.connections[i][j] + 1,
    {
        let n = self.pts.len();
        let mut marks: Vec<Vec<bool>> = Vec::new();
        for i in 0..n
            invariant
                *self == *old(self),
                self.wf(),
                n == self@.pts.len(),
                marks@.len() == i,
                forall|r: int| 0 <= r < i ==> (#[trigger] marks@[r])@.len() == n,
        {
            let mut row: Vec<bool> = Vec::new();
            for j in 0..n
                invariant
                    *self == *old(self),
                    self.wf(),
                    n == self@.pts.len(),
                    i < n,
                    row@.len() == j,
            {
                let hit = if j == i {
                    false
                } else {
                    sampler.trial(self, i, j)
                };
                row.push(hit);
            }
            marks.push(row);
        }
        proof {
            let mk = marks_of(marks@);
            assert forall|r: int| 0 <= r < n implies (#[trigger] mk[r]).len() == n by {
                assert(marks@[r]@.len() == n);
            }
            lemma_step_monotone(self@, mk);
        }
        self.step(&marks);
        // The outcomes that were drawn are the witness of `steps_to`.
        assert(marks_fit(marks_of(marks@), old(self)@.pts.len()));
    }

    /// Whether a step can be taken without overflowing a counter.
    pub fn can_step(&self) -> (ok: bool)
        requires
            self.wf(),
        ensures
            ok == self@.can_step(),
    {
        if self.it == usize::MAX {
            return false;
        }
        let n = self.connections.dim();
        for i in 0..n
            invariant
                self.wf(),
                n == self@.pts.len(),
                self@.it < usize::MAX,
                forall|r: int, c: int|
                    0 <= r < i && 0 <= c < n && r != c ==> #[trigger] self@.connections[r][c]
                        < usize::MAX,
        {
            for j in 0..n
                invariant
                    self.wf(),
                    n == self@.pts.len(),
                    i < n,
                    self@.it < usize::MAX,
                    forall|r: int, c: int|
                        0 <= r < i && 0 <= c < n && r != c ==> #[trigger] self@.connections[r][c]
                            < usize::MAX,
                    forall|c: int|
                        0 <= c < j && c != i ==> #[trigger] self@.connections[i as int][c]
                            < usize::MAX,
            {
                if j != i && self.connections.get(i, j) == usize::MAX {
                    return false;
                }
            }
        }
        true
    }

    /// The number of points.
    pub fn len(&self) -> (n: usize)
        ensures
            n == self@.pts.len(),
    {
        self.pts.len()
    }

    /// The points, in order.
    pub fn points(&self) -> (pts: &Vec<Point>)
        ensures
            pts@ == self@.pts,
    {
        &self.pts
    }

    /// The rows of the visit-count matrix.
    pub fn connections(&self) -> (rows: &Vec<Vec<usize>>)
        ensures
            counts_of(rows@) == self@.connections,
    {
        self.connections.rows()
    }

    /// The visit count of the connection from point `i` to point `j`.
    pub fn visits(&self, i: usize, j: usize) -> (count: usize)
        requires
            self.wf(),
            i < self@.pts.len(),
            j < self@.pts.len(),
        ensures
            count == self@.connections[i as int][j as int],
    {
        self.connections.get(i, j)
    }

    /// The number of steps since the counts last started from zero.
    pub fn iterations(&self) -> (it: usize)
        ensures
            it == self@.it,
    {
        self.it
    }
}

} // verus!
