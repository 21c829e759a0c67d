//! Declarative profiles: which outputs should exist and how to set them up.
use vstd::prelude::*;

use crate::mode::{AdaptiveSyncState, Mode, Position, Transform};
use crate::search::Search;

verus! {

/// How one head should be set up, and how to find it.
pub struct Output {
    pub enable: bool,
    pub search_pattern: Search,
    pub commands: Option<Vec<String>>,
    pub mode: Option<Mode>,
    pub position: Option<Position>,
    /// The scale in 1/256ths, the protocol's fixed-point unit.
    pub scale: Option<i32>,
    pub transform: Option<Transform>,
    pub adaptive_sync: Option<AdaptiveSyncState>,
}

/// A named set of outputs that is applied as a whole.
pub struct Profile {
    pub name: String,
    pub index: usize,
    pub commands: Option<Vec<String>>,
    pub outputs: Vec<Output>,
}

impl Profile {
    pub fn new(name: String, outputs: Vec<Output>) -> (r: Profile)
        ensures
            r.name == name,
            r.outputs@ == outputs@,
            r.commands is None,
            r.index == 0,
    {
        Profile { name, index: 0, commands: None, outputs }
    }
}

impl Output {
    /// An output that switches the head on and leaves everything else as it is.
    pub fn enabled(search_pattern: Search) -> (r: Output)
        ensures
            r.enable,
            r.search_pattern == search_pattern,
            r.commands is None && r.mode is None && r.position is None && r.scale is None
                && r.transform is None && r.adaptive_sync is None,
    {
        Output {
            enable: true,
            search_pattern,
            commands: None,
            mode: None,
            position: None,
            scale: None,
            transform: None,
            adaptive_sync: None,
        }
    }

    /// An output that switches the head off.
    pub fn disabled(search_pattern: Search) -> (r: Output)
        ensures
            !r.enable,
            r.search_pattern == search_pattern,
            r.commands is None && r.mode is None && r.position is None && r.scale is None
                && r.transform is None && r.adaptive_sync is None,
    {
        Output {
            enable: false,
            search_pattern,
            commands: None,
            mode: None,
            position: None,
            scale: None,
            transform: None,
            adaptive_sync: None,
        }
    }
}

} // verus!
