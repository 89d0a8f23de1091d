//! A reinforced proximity graph over points in the plane, and the drag
//! gestures that edit it.

pub mod graph;
pub mod interaction;
pub mod matrix;
pub mod nearest;
pub mod point;
