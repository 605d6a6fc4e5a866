pub mod markdown;
pub mod svg_charts;
