//! Collection of CPU and memory accounting from a control-group hierarchy,
//! as timestamped, tagged metric samples, and the header of Splunk TCP
//! frames.
//!
//! The library holds every decision of a collection pass: how paths and
//! hierarchical names are joined, how the kernel's statistics files are
//! parsed, where the root of the hierarchy lies, and in which order and to
//! which depth the tree is walked. Reading files and listing directories is
//! left to the caller, who answers the questions and requests that the
//! library issues:
//!
//! - [`locator::RootSearch`] asks about paths until it knows the group to
//!   start from;
//! - [`walk::Walk`] names the files of the next group, takes up what was read
//!   of them, and in the end hands back the samples.
//!
//! What a pass returns on a given host is defined in [`pass`], over a host
//! as [`host::HostView`] describes it, and the search and the walk are
//! proved to return it. [`visits`] holds the groups that a pass visits, and
//! that it visits none twice.

pub mod text;
pub mod paths;
pub mod stat;
pub mod sample;
pub mod filter;
pub mod config;
pub mod node;
pub mod host;
pub mod locator;
pub mod walk;
pub mod pass;
pub mod visits;
pub mod splunk_tcp;
