//! Point-in-time records of heads and their modes.
use vstd::prelude::*;

use crate::mode::{AdaptiveSyncState, PhysicalSize, Position, Transform};

verus! {

/// A stable id the store gives each head and mode it learns of.
#[derive(Clone, Copy, Debug, PartialEq, Eq, Hash, PartialOrd, Ord, Structural)]
pub struct WlGenericId(pub usize);

/// What a mode is: its size, refresh rate in millihertz and whether the head
/// prefers it.
#[derive(Clone, Copy, Debug, PartialEq, Eq, Structural)]
pub struct WlBaseMode {
    pub width: i32,
    pub height: i32,
    pub refresh: i32,
    pub preferred: bool,
}

impl WlBaseMode {
    pub fn new() -> (r: WlBaseMode)
        ensures
            r == (WlBaseMode { width: 0, height: 0, refresh: 0, preferred: false }),
    {
        WlBaseMode { width: 0, height: 0, refresh: 0, preferred: false }
    }
}

/// A copy of a mode, with the id the store gave it.
#[derive(Clone, Copy, Debug, PartialEq, Eq, Structural)]
pub struct WlMode {
    pub base: WlBaseMode,
    pub id: WlGenericId,
}

impl WlMode {
    pub fn width(&self) -> (r: i32)
        ensures
            r == self.base.width,
    {
        self.base.width
    }

    pub fn height(&self) -> (r: i32)
        ensures
            r == self.base.height,
    {
        self.base.height
    }

    pub fn refresh(&self) -> (r: i32)
        ensures
            r == self.base.refresh,
    {
        self.base.refresh
    }

    pub fn preferred(&self) -> (r: bool)
        ensures
            r == self.base.preferred,
    {
        self.base.preferred
    }
}

/// What the compositor reports of a head. The scale is in 1/256ths, the
/// protocol's fixed-point unit.
#[derive(Debug)]
pub struct WlBaseHead {
    pub name: String,
    pub description: String,
    pub size: PhysicalSize,
    pub enabled: bool,
    pub position: Position,
    pub transform: Option<Transform>,
    pub scale: i32,
    pub make: String,
    pub model: String,
    pub serial_number: String,
    pub adaptive_sync: Option<AdaptiveSyncState>,
}

impl WlBaseHead {
    /// A head that reported nothing yet.
    pub fn new() -> (r: WlBaseHead)
        ensures
            r.name@.len() == 0,
            r.description@.len() == 0,
            r.make@.len() == 0,
            r.model@.len() == 0,
            r.serial_number@.len() == 0,
            !r.enabled,
            r.transform is None,
            r.adaptive_sync is None,
    {
        WlBaseHead {
            name: String::new(),
            description: String::new(),
            size: PhysicalSize { width: 0, height: 0 },
            enabled: false,
            position: Position { x: 0, y: 0 },
            transform: None,
            scale: 256,
            make: String::new(),
            model: String::new(),
            serial_number: String::new(),
            adaptive_sync: None,
        }
    }
}

impl Clone for WlBaseHead {
    fn clone(&self) -> (r: WlBaseHead)
        ensures
            r == *self,
    {
        WlBaseHead {
            name: self.name.clone(),
            description: self.description.clone(),
            size: self.size,
            enabled: self.enabled,
            position: self.position,
            transform: self.transform,
            scale: self.scale,
            make: self.make.clone(),
            model: self.model.clone(),
            serial_number: self.serial_number.clone(),
            adaptive_sync: self.adaptive_sync,
        }
    }
}

/// A copy of a head with copies of its modes.
#[derive(Debug)]
pub struct WlHead {
    pub base: WlBaseHead,
    pub current_mode: Option<WlMode>,
    pub modes: Vec<WlMode>,
    pub id: WlGenericId,
}

impl Clone for WlHead {
    fn clone(&self) -> (r: WlHead)
        ensures
            r.base == self.base,
            r.current_mode == self.current_mode,
            r.modes@ == self.modes@,
            r.id == self.id,
    {
        let modes = self.modes.clone();
        proof {
            assert(modes@ =~= self.modes@);
        }
        WlHead {
            base: self.base.clone(),
            current_mode: self.current_mode,
            modes,
            id: self.id,
        }
    }
}

impl WlHead {
    pub fn name(&self) -> (r: &str)
        ensures
            r@ == self.base.name@,
    {
        self.base.name.as_str()
    }

    pub fn description(&self) -> (r: &str)
        ensures
            r@ == self.base.description@,
    {
        self.base.description.as_str()
    }

    pub fn make(&self) -> (r: &str)
        ensures
            r@ == self.base.make@,
    {
        self.base.make.as_str()
    }

    pub fn model(&self) -> (r: &str)
        ensures
            r@ == self.base.model@,
    {
        self.base.model.as_str()
    }

    pub fn serial_number(&self) -> (r: &str)
        ensures
            r@ == self.base.serial_number@,
    {
        self.base.serial_number.as_str()
    }

    pub fn modes(&self) -> (r: &Vec<WlMode>)
        ensures
            r@ == self.modes@,
    {
        &self.modes
    }
}

/// What identifies a head when telling whether the heads changed: its id,
/// serial number, model, make, description and name.
pub open spec fn head_identity(h: WlHead) -> (usize, Seq<char>, Seq<char>, Seq<char>, Seq<char>, Seq<char>) {
    base_identity(h.id, &h.base)
}

/// The identity of a head with id `id` that reports `b`.
pub open spec fn base_identity(id: WlGenericId, b: &WlBaseHead) -> (usize, Seq<char>, Seq<char>, Seq<char>, Seq<char>, Seq<char>) {
    (id.0, b.serial_number@, b.model@, b.make@, b.description@, b.name@)
}

} // verus!
