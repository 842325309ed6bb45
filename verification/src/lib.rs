//! Audit a project's declared dependencies against the versions a package
//! registry currently publishes.
//!
//! The crate models a published version as five plain fields, classifies how
//! far a declared version has drifted from the latest one, joins the results
//! of concurrent registry fetches back into manifest order, filters out
//! up-to-date entries, and renders an aligned report table.  All of that
//! logic is verified; the surrounding process, network and terminal plumbing
//! lives outside this crate.

pub mod decimal;
pub mod dependencies;
pub mod manifest;
pub mod render;
pub mod style;
pub mod versions;
