//! The logic of a small system monitor that shows CPU, memory and network
//! figures as a two-row readout in the macOS menu bar or in a floating
//! widget on Windows and Linux: computing the figures from each refresh,
//! formatting the rows, laying out the icon, choosing the menu language and
//! actions, and placing the widget.
pub mod icon;
pub mod locale;
pub mod menu;
pub mod metrics;
pub mod placement;
pub mod speed;
pub mod text;
