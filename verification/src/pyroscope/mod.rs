//! Profiles: flamegraphs, timelines and heatmaps.

pub mod app;
pub mod charts;
pub mod flamegraph;
pub mod heatmap;
pub mod labels;
pub mod range;
pub mod sandwich;
pub mod shares;
pub mod shown;
pub mod timeline;
pub mod units;

pub use flamegraph::{
    build_flamegraph_view, FlameGraph, FlamegraphFrameView, FlamegraphLevelView, FlamegraphNav,
    FlamegraphView, Level,
};
pub use heatmap::{build_heatmap_view, HeatmapSlot, HeatmapView};
pub use labels::{compute_varying_label_keys_exemplars, TimelineExemplar};
pub use range::parse_time_range;
pub use sandwich::{build_sandwich_view, SandwichView};
pub use timeline::{build_timeline_view, TimelinePoint, TimelineSeries, TimelineSlot, TimelineView};
pub use units::ProfileUnit;
