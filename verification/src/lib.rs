//! Layout and hit-testing core of a retained-mode render tree.
//!
//! A render tree computes its geometry under constraints handed down from an
//! ancestor, caches that geometry until it is invalidated, and resolves which
//! nodes a pointer position hits.  The crate is organised leaves first: the
//! constraint model, the render-object and box protocols, and the pipeline
//! owner that schedules incremental re-layout over dirty relayout boundaries.

pub mod constraints;
pub mod geometry;
pub mod hit;
pub mod pipeline;
pub mod rendering;

pub use constraints::BoxConstraints;
pub use constraints::Constraints;
pub use constraints::SliverConstraints;
pub use geometry::Offset;
pub use geometry::Size;
pub use hit::BoxHitTestResult;
pub use hit::HitTestEntry;
pub use hit::PointEvent;
pub use pipeline::NodeKind;
pub use pipeline::PipelineOwner;
pub use pipeline::RenderNode;
pub use rendering::LeafBox;
pub use rendering::RenderBox;
pub use rendering::RenderBoxObject;
pub use rendering::RenderObject;
