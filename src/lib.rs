//! Per-thread metrics accumulation with cross-thread merging into reports.
//!
//! Observations are recorded into named bags held by a [`Registry`]; a
//! [`ReportPage`] freezes the state of one registry, and a [`ReportBuilder`]
//! folds any number of pages into a [`Report`].
use vstd::prelude::*;

pub mod tally;
pub mod bag;
pub mod keyed;
pub mod laws;
pub mod registry;
pub mod render;
pub mod report;

pub use bag::{Magnitude, ObservationBag, ObservationBagSnapshot, UNIT};
pub use registry::{report_page, ConfigurationError, Event, EventBuilder, Registry};
pub use report::{Report, ReportBuilder, ReportPage};
