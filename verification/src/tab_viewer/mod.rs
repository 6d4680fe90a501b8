//! The requests that the views send to the analysis, and the views' own
//! state as far as it is more than drawing.
pub mod navigation;
pub mod signals;

pub use navigation::NavigationView;
pub use signals::{SignalKind, TabSignals};
