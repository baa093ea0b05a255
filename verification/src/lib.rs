//! Aggregation, layout and interaction engine of a Gantt chart for the jobs of
//! a cluster scheduler.
//!
//! The engine turns a list of jobs, a resource topology and the view's camera
//! state into painted geometry and interaction outcomes. All geometry is
//! integral: lengths and positions are whole points, time spans whole seconds.

pub mod aggregate;
pub mod canvas;
pub mod chart;
pub mod cpuset;
pub mod culling;
pub mod energy;
pub mod filters;
pub mod geometry;
pub mod groups;
pub mod gutter;
pub mod ingest;
pub mod interaction;
pub mod job;
pub mod labels;
pub mod layout;
pub mod natural_order;
pub mod nested_layout;
pub mod paint;
pub mod strata;
pub mod text;
pub mod timeline;
pub mod topology;
pub mod transform;
