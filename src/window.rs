//! Event-time windows: the watermark, panes and their aggregation.
pub mod watermark;
pub mod pane;
pub mod panes;
pub mod window;
