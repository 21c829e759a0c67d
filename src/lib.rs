//! A display-configuration engine for compositors that speak the
//! output-management protocol: it mirrors heads and modes, matches
//! declarative profiles against them and drives test/apply cycles.

pub mod outside;
pub mod text;
pub mod search;
pub mod mode;
pub mod head;
pub mod store;
pub mod profile;
pub mod matching;
pub mod variant;
pub mod profile_manager;
pub mod backend;
pub mod exec;
pub mod daemon;
pub mod convert;
pub mod client;
