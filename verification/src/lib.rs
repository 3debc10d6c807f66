//! Box-layout core of a document-typesetting engine.
//!
//! The crate turns a sequence of content nodes into fixed-size rectangular
//! frames, one per consumed region, solving two layout disciplines: vertical
//! flow (stacking blocks and spacing down a region) and grid arrangement
//! (two-dimensional tracks with automatic, fixed, and proportional sizing).
//! Every produced frame carries a record of which aspects of the region size
//! the layout depended on, so that callers can reuse results.

pub mod num;
pub mod geom;
pub mod embed;
pub mod constraints;
pub mod frame;
pub mod regions;
pub mod node;
pub mod flow;
pub mod grid;
