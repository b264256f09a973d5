//! Verified core of the stock screening terminal interface: routing, menus,
//! list navigation, file listings, preset names, result sorting, the chart
//! cache and the threshold editor, each written as plain state and decisions.

pub mod chart;
pub mod files;
pub mod layout;
pub mod menus;
pub mod navigation;
pub mod results;
pub mod series;
pub mod sorting;
pub mod text;
pub mod thresholds;
pub mod width;
