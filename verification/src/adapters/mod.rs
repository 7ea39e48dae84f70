//! Typed projections of host observations into interaction events.

pub mod radiochron;
pub mod weavatrix;
