//! Bounded streaming aggregates for typed `source -> target` interactions.
//!
//! The crate opens no files, sockets or clocks. Callers supply event time, watermarks,
//! identity and persistence. Sketch scores are heuristic candidates, not proven graph
//! edges or attacks.

pub mod adapters;
pub mod budget;
pub mod exact;
pub mod explain;
pub mod hash;
pub mod hcms;
pub mod laws;
pub mod model;
pub mod order;
pub mod score;
pub mod sorted;
pub mod window;

pub use budget::{Budget, BudgetError};
pub use exact::ExactWindow;
pub use hcms::HcmsWindow;
pub use model::{
    EntityId, EventKey, EventPhase, IngestError, InteractionEvent, PairCount, Quality,
    RelationProfile, ScopeId, WindowCheckpoint, CHECKPOINT_VERSION,
};
pub use score::{anograph_counterexample, group_density, heuristic_density, submatrix_density, DensityScore};
pub use window::{BackendKind, StreamWindow};
