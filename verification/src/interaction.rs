//! The drag gestures that edit the graph.
//!
//! A gesture begins, changes any number of times, and ends. While it lasts,
//! one point is held: a new one, or a point of the graph that the gesture
//! began close to and that was taken out of the graph for the time being.
//! When the gesture ends the held point joins the graph where it was let
//! go, and every visit count starts again from zero.

use crate::graph::{Graph, GraphView, Sampler};
use crate::matrix::{counts_of, is_square, zeros};
use crate::nearest::{grabbed, nearest, MAX_DIST};
use crate::point::Point;
use vstd::prelude::*;

verus! {

/// The phase of a drag gesture.
#[derive(Clone, Copy, Debug, PartialEq, Eq, Structural)]
pub enum GestureState {
    Began,
    Changed,
    Ended,
}

/// The button that a gesture was made with.
#[derive(Clone, Copy, Debug, PartialEq, Eq, Structural)]
pub enum MouseButton {
    Left,
    Right,
    Center,
}

/// Gestures are taken from the primary button, and from a device that names
/// no button; those of any other button are ignored.
pub open spec fn accepts(button: Option<MouseButton>) -> bool {
    button is None || button == Some(MouseButton::Left)
}

/// The mathematical model of [`Points`].
pub struct PointsView {
    /// The committed points and their visit counts.
    pub graph: GraphView,
    /// Whether a gesture is in progress.
    pub drag: bool,
    /// The point that the gesture in progress holds.
    pub active: Option<Point>,
}

impl PointsView {
    /// The graph is well formed, and a point is held exactly while a
    /// gesture is in progress.
    pub open spec fn wf(self) -> bool {
        &&& self.graph.wf()
        &&& self.drag <==> self.active is Some
    }

    /// The state in which a session starts: no points, no gesture.
    pub open spec fn initial() -> PointsView {
        PointsView { graph: GraphView::initial(), drag: false, active: None }
    }

    /// A gesture begins at `pos`; `dists[k]` is the key of the distance from
    /// point `k` to `pos`. The point that the gesture grabs leaves the graph
    /// and is held; if it grabs none, a new point at `pos` is held and the
    /// graph stays as it is.
    pub open spec fn began(self, pos: Point, dists: Seq<u32>) -> PointsView {
        match grabbed(dists) {
            Some(k) => PointsView {
                graph: self.graph.removed(k),
                drag: true,
                active: Some(self.graph.pts[k]),
            },
            None => PointsView { graph: self.graph, drag: true, active: Some(pos) },
        }
    }

    /// The gesture moves on to `pos`, and the held point with it.
    pub open spec fn changed(self, pos: Point) -> PointsView {
        PointsView { graph: self.graph, drag: self.drag, active: Some(pos) }
    }

    /// The gesture ends: the held point joins the graph as its last point,
    /// and all visit counts and the step counter start again from zero.
    pub open spec fn ended(self) -> PointsView {
        PointsView { graph: self.graph.restarted(self.active->0), drag: false, active: None }
    }

    /// The state after one gesture event.
    pub open spec fn moved(self, pos: Point, gesture: GestureState, dists: Seq<u32>) -> PointsView {
        match gesture {
            GestureState::Began => self.began(pos, dists),
            GestureState::Changed => self.changed(pos),
            GestureState::Ended => self.ended(),
        }
    }

    /// The state after one gesture event made with `button`.
    pub open spec fn dragged(
        self,
        pos: Point,
        gesture: GestureState,
        button: Option<MouseButton>,
        dists: Seq<u32>,
    ) -> PointsView {
        if accepts(button) {
            self.moved(pos, gesture, dists)
        } else {
            self
        }
    }

    /// What the event asks of the state it arrives in: a gesture that
    /// begins brings one key per point, and one that changes or ends is in
    /// progress.
    pub open spec fn takes(self, gesture: GestureState, dists: Seq<u32>) -> bool {
        match gesture {
            GestureState::Began => dists.len() == self.graph.pts.len(),
            GestureState::Changed => self.drag,
            GestureState::Ended => self.drag,
        }
    }

    /// `next` is this state after one frame: while a gesture is in progress
    /// nothing changes, otherwise the graph takes one step.
    pub open spec fn ticks_to(self, next: PointsView) -> bool {
        if self.drag {
            next == self
        } else {
            &&& self.graph.steps_to(next.graph)
            &&& next.drag == self.drag
            &&& next.active == self.active
        }
    }
}

/// However a gesture ends, and whatever the graph held before: afterwards
/// the step counter is zero, the matrix has one row and one column per
/// point, the held point included, and every entry of it is zero.
pub proof fn lemma_ended_resets(state: PointsView)
    requires
        state.wf(),
    ensures
        state.ended().wf(),
        state.ended().graph.it == 0,
        state.ended().graph.pts == state.graph.pts.push(state.active->0),
        is_square(state.ended().graph.connections, state.graph.pts.len() + 1),
        forall|i: int, j: int|
            0 <= i <= state.graph.pts.len() && 0 <= j <= state.graph.pts.len()
                ==> #[trigger] state.ended().graph.connections[i][j] == 0,
{
}

/// The graph together with the gesture in progress, if there is one.
#[derive(Debug)]
pub struct Points {
    graph: Graph,
    drag: bool,
    active: Option<Point>,
}

impl View for Points {
    type V = PointsView;

    closed spec fn view(&self) -> PointsView {
        PointsView { graph: self.graph@, drag: self.drag, active: self.active }
    }
}

impl Clone for Points {
    fn clone(&self) -> (copy: Points)
        ensures
            copy@ == self@,
    {
        Points { graph: self.graph.clone(), drag: self.drag, active: self.active }
    }
}

impl Default for Points {
    fn default() -> (state: Points)
        ensures
            state.wf(),
            state@ == PointsView::initial(),
    {
        Points { graph: Graph::new(), drag: false, active: None }
    }
}

/// Whether gestures made with `button` are taken.
pub fn accepts_button(button: Option<MouseButton>) -> (taken: bool)
    ensures
        taken == accepts(button),
{
    match button {
        None => true,
        Some(MouseButton::Left) => true,
        Some(_) => false,
    }
}

impl Points {
    /// The invariant of every state this module hands out.
    pub open spec fn wf(&self) -> bool {
        self@.wf()
    }

    /// A gesture begins at `pos`. `dists[k]` is the key of the distance
    /// from point `k` to `pos`.
    pub fn drag_began(&mut self, pos: Point, dists: &Vec<u32>)
        requires
            old(self).wf(),
            dists@.len() == old(self)@.graph.pts.len(),
        ensures
            final(self).wf(),
            final(self)@ == old(self)@.began(pos, dists@),
    {
        self.drag = true;
        let near = match nearest(dists) {
            Some(found) => found,
            None => (0, MAX_DIST),
        };
        if near.1 >= MAX_DIST {
            self.active = Some(pos);
        } else {
            let pt = self.graph.remove_point(near.0);
            self.active = Some(pt);
        }
    }

    /// The gesture in progress moves on to `pos`.
    pub fn drag_changed(&mut self, pos: Point)
        requires
            old(self).wf(),
            old(self)@.drag,
        ensures
            final(self).wf(),
            final(self)@ == old(self)@.changed(pos),
    {
        self.active = Some(pos);
    }

    /// The gesture in progress ends.
    pub fn drag_ended(&mut self)
        requires
            old(self).wf(),
            old(self)@.drag,
        ensures
            final(self).wf(),
            final(self)@ == old(self)@.ended(),
            final(self)@.graph.it == 0,
            forall|i: int, j: int|
                0 <= i <= old(self)@.graph.pts.len() && 0 <= j <= old(self)@.graph.pts.len()
                    ==> #[trigger] final(self)@.graph.connections[i][j] == 0,
    {
        proof {
            lemma_ended_resets(self@);
        }
        let pt = self.active.take().unwrap();
        self.graph.restart_with(pt);
        self.drag = false;
    }

    /// Handles one gesture event. `dists` is read only when the gesture
    /// begins.
    pub fn move_pt(&mut self, pos: Point, gesture: GestureState, dists: &Vec<u32>)
        requires
            old(self).wf(),
            old(self)@.takes(gesture, dists@),
        ensures
            final(self).wf(),
            final(self)@ == old(self)@.moved(pos, gesture, dists@),
    {
        match gesture {
            GestureState::Began => self.drag_began(pos, dists),
            GestureState::Changed => self.drag_changed(pos),
            GestureState::Ended => self.drag_ended(),
        }
    }

    /// Handles one gesture event made with `button`: events of a button
    /// that is not taken change nothing.
    pub fn on_drag(
        &mut self,
        pos: Point,
        gesture: GestureState,
        button: Option<MouseButton>,
        dists: &Vec<u32>,
    )
        requires
            old(self).wf(),
            accepts(button) ==> old(self)@.takes(gesture, dists@),
        ensures
            final(self).wf(),
            final(self)@ == old(self)@.dragged(pos, gesture, button, dists@),
    {
        if accepts_button(button) {
            self.move_pt(pos, gesture, dists);
        }
    }

    /// One frame: the graph takes a simulation step, with trials drawn from
    /// `sampler`, unless a gesture is in progress.
    pub fn tick<S: Sampler>(&mut self, sampler: &mut S)
        requires
            old(self).wf(),
            !old(self)@.drag ==> old(self)@.graph.can_step(),
        ensures
            final(self).wf(),
            old(self)@.ticks_to(final(self)@),
    {
        if !self.drag {
            self.graph.simulate(sampler);
        }
    }

    /// Whether a gesture is in progress.
    pub fn dragging(&self) -> (drag: bool)
        ensures
            drag == self@.drag,
    {
        self.drag
    }

    /// The point that the gesture in progress holds.
    pub fn active(&self) -> (active: Option<Point>)
        ensures
            active == self@.active,
    {
        self.active
    }

    /// The graph of the committed points.
    pub fn graph(&self) -> (graph: &Graph)
        ensures
            graph@ == self@.graph,
    {
        &self.graph
    }

    /// What a renderer draws: the points, the rows of the visit-count
    /// matrix, the step counter and the held point.
    pub fn snapshot(&self) -> (shot: (&Vec<Point>, &Vec<Vec<usize>>, usize, Option<Point>))
        ensures
            shot.0@ == self@.graph.pts,
            counts_of(shot.1@) == self@.graph.connections,
            shot.2 == self@.graph.it,
            shot.3 == self@.active,
    {
        (self.graph.points(), self.graph.connections(), self.graph.iterations(), self.active)
    }
}

} // verus!
