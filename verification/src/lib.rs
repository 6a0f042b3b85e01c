//! The execution core of a pipelined query engine: single-slot ports,
//! processors that report their own readiness, and the scheduler that drives
//! a pipeline of them to completion or to its first error.
//!
//! Beside the core stand two of its neighbours: the binder of scalar
//! expressions, and the conversions between the catalog objects and their
//! persisted form.

pub mod binder;
pub mod datablock;
pub mod datavalues;
pub mod delivery;
pub mod exception;
pub mod executor;
pub mod meta_types;
pub mod pb;
pub mod pipeline;
pub mod port;
pub mod processor;
pub mod proto_conv;
pub mod sink;
pub mod source;
pub mod transform;
