//! The protocol side: events of the output-management protocol applied to the
//! store, the events the daemon reacts to, and configurations to submit.
use vstd::prelude::*;

use crate::head::{base_identity, head_identity, WlBaseHead, WlGenericId, WlHead};
use crate::matching::{Pairing, ValidVariant};
use crate::mode::{AdaptiveSyncState, Mode, PhysicalSize, Position, Transform};
use crate::profile::Output;
use crate::store::{head_foreign_from, mode_foreign_from, WlStore};

verus! {

/// What the daemon reacts to.
#[derive(Clone, Copy, Debug, PartialEq, Eq, Structural)]
pub enum WlBackendEvent {
    /// The compositor finished announcing a consistent set of heads.
    AtomicChangeDone,
    /// The output-management global is gone; nothing can be configured.
    NeededResourceFinished,
    Succeeded,
    Failed,
    Cancelled,
}

/// An attribute a head reports.
pub enum HeadEvent {
    Name(String),
    Description(String),
    PhysicalSize(PhysicalSize),
    Mode(u64),
    Enabled(bool),
    CurrentMode(u64),
    Position(Position),
    Transform(Option<Transform>),
    Scale(i32),
    Make(String),
    Model(String),
    SerialNumber(String),
    AdaptiveSync(Option<AdaptiveSyncState>),
    Finished,
}

/// An attribute a mode reports.
#[derive(Clone, Copy, Debug, PartialEq, Eq, Structural)]
pub enum ModeEvent {
    Size { width: i32, height: i32 },
    Refresh(i32),
    Preferred,
    Finished,
}

/// An event of the output-management protocol, with objects named by their
/// protocol ids.
pub enum ProtocolEvent {
    ManagerHead(u64),
    ManagerDone(u32),
    ManagerFinished,
    Head(u64, HeadEvent),
    Mode(u64, ModeEvent),
    ConfigurationSucceeded,
    ConfigurationFailed,
    ConfigurationCancelled,
}

/// What the caller has to do with protocol objects after an event.
#[derive(Clone, Copy, Debug, PartialEq, Eq, Structural)]
pub enum ProtocolAction {
    Nothing,
    ReleaseHead(u64),
    ReleaseMode(u64),
    DestroyConfiguration,
}

/// How a head's mode is to be set.
#[derive(Clone, Copy, Debug, PartialEq, Eq, Structural)]
pub enum ModeSetting {
    /// One of the head's modes, by protocol id.
    Existing(u64),
    /// A custom mode: width, height, refresh in millihertz.
    Custom(i32, i32, i32),
}

/// How one head is to be configured.
#[derive(Clone, Copy, Debug, PartialEq, Eq, Structural)]
pub struct HeadConfiguration {
    pub head: u64,
    pub enable: bool,
    pub mode: Option<ModeSetting>,
    pub position: Option<Position>,
    pub scale: Option<i32>,
    pub transform: Option<Transform>,
    pub adaptive_sync: Option<AdaptiveSyncState>,
}

/// Why a variant cannot be turned into a configuration.
#[derive(Clone, Copy, Debug, PartialEq, Eq, Structural)]
pub enum WlConfigurationError {
    HeadCountMismatch { got: usize, have: usize },
    UnknownHead { head: WlGenericId },
    UnknownMode { mode: WlGenericId },
}

/// The settings of one output for its head.
pub open spec fn head_configuration_spec(o: &Output, head: u64, mode: Option<ModeSetting>) -> HeadConfiguration {
    if !o.enable {
        HeadConfiguration {
            head,
            enable: false,
            mode: None,
            position: None,
            scale: None,
            transform: None,
            adaptive_sync: None,
        }
    } else {
        HeadConfiguration {
            head,
            enable: true,
            mode,
            position: o.position,
            scale: o.scale,
            transform: o.transform,
            adaptive_sync: o.adaptive_sync,
        }
    }
}

/// What a head's event does to the store: a finished head is forgotten
/// and released; a new mode is recorded for a known head; a current mode or
/// an attribute is written to a known head.
pub open spec fn head_event_effect(before: &WlStore, after: &WlStore, head: u64, event: HeadEvent, r: ProtocolAction) -> bool {
    match event {
        HeadEvent::Finished => r == ProtocolAction::ReleaseHead(head) && !after.has_head(head),
        HeadEvent::Mode(m) => r == ProtocolAction::Nothing && (before.has_head(head) && before.counter_spec()
            < usize::MAX ==> after.has_mode(m)),
        HeadEvent::CurrentMode(m) => r == ProtocolAction::Nothing && forall|i: int|
            0 <= i < before.heads_spec().len() && before.heads_spec()[i].foreign == head ==> (
            #[trigger] after.heads_spec()[i]).current_mode == Some(m),
        _ => r == ProtocolAction::Nothing && after.heads_spec().len() == before.heads_spec().len()
            && after.modes_spec() == before.modes_spec() && (forall|i: int|
            0 <= i < before.heads_spec().len() && before.heads_spec()[i].foreign != head ==> {
                let (o, n) = (before.heads_spec()[i], #[trigger] after.heads_spec()[i]);
                n.foreign == o.foreign && n.id == o.id && n.base == o.base && n.modes@ == o.modes@
                    && n.current_mode == o.current_mode
            }) && forall|i: int|
            0 <= i < before.heads_spec().len() && before.heads_spec()[i].foreign == head ==> head_attribute_set(
                #[trigger] after.heads_spec()[i].base,
                event,
            ),
    }
}

/// The attribute an event reports is what the head now holds.
pub open spec fn head_attribute_set(b: WlBaseHead, event: HeadEvent) -> bool {
    match event {
        HeadEvent::Name(v) => b.name == v,
        HeadEvent::Description(v) => b.description == v,
        HeadEvent::PhysicalSize(v) => b.size == v,
        HeadEvent::Enabled(v) => b.enabled == v,
        HeadEvent::Position(v) => b.position == v,
        HeadEvent::Transform(v) => b.transform == v,
        HeadEvent::Scale(v) => b.scale == v,
        HeadEvent::Make(v) => b.make == v,
        HeadEvent::Model(v) => b.model == v,
        HeadEvent::SerialNumber(v) => b.serial_number == v,
        HeadEvent::AdaptiveSync(v) => b.adaptive_sync == v,
        _ => true,
    }
}

/// What a mode's event does to the store: a finished mode is released and,
/// where its head is on record, taken out of every head; an attribute is
/// written to a known mode.
pub open spec fn mode_event_effect(before: &WlStore, after: &WlStore, mode: u64, event: ModeEvent, r: ProtocolAction) -> bool {
    match event {
        ModeEvent::Finished => {
            &&& r == ProtocolAction::ReleaseMode(mode)
            &&& before.has_owner(mode) && before.has_head(before.owner_of(mode)) ==> {
                &&& !after.has_mode(mode)
                &&& after.heads_spec().len() == before.heads_spec().len()
                &&& forall|i: int|
                    0 <= i < after.heads_spec().len() ==> !(#[trigger] after.heads_spec()[i]).modes@.contains(mode)
                        && after.heads_spec()[i].current_mode != Some(mode)
            }
            &&& !(before.has_owner(mode) && before.has_head(before.owner_of(mode))) ==> after.heads_spec()
                == before.heads_spec() && after.modes_spec() == before.modes_spec()
        },
        _ => r == ProtocolAction::Nothing && after.heads_spec() == before.heads_spec()
            && after.modes_spec().len() == before.modes_spec().len() && (forall|i: int|
            0 <= i < before.modes_spec().len() && before.modes_spec()[i].foreign != mode ==> #[trigger] after.modes_spec()[i]
                == before.modes_spec()[i]) && forall|i: int|
            0 <= i < before.modes_spec().len() && before.modes_spec()[i].foreign == mode ==> {
                let b = (#[trigger] after.modes_spec()[i]).base;
                match event {
                    ModeEvent::Size { width, height } => b.width == width && b.height == height,
                    ModeEvent::Refresh(v) => b.refresh == v,
                    _ => b.preferred,
                }
            },
    }
}

/// The protocol state: the store, the serial of the last complete change,
/// and whether a configuration object is alive.
pub struct WlBackend {
    store: WlStore,
    serial: Option<u32>,
    configuration_alive: bool,
    events: Vec<WlBackendEvent>,
}

impl WlBackend {
    pub closed spec fn serial_spec(&self) -> Option<u32> {
        self.serial
    }

    pub closed spec fn configuration_alive_spec(&self) -> bool {
        self.configuration_alive
    }

    /// The events not yet drained, oldest first.
    pub closed spec fn events_spec(&self) -> Seq<WlBackendEvent> {
        self.events@
    }

    pub closed spec fn store_spec(&self) -> &WlStore {
        &self.store
    }

    pub closed spec fn wf(&self) -> bool {
        self.store.wf()
    }

    pub fn store(&self) -> (r: &WlStore)
        ensures
            r == self.store_spec(),
            self.wf() ==> r.wf(),
    {
        &self.store
    }

    pub fn new() -> (r: WlBackend)
        ensures
            r.wf(),
            r.serial_spec() is None,
            !r.configuration_alive_spec(),
            r.events_spec().len() == 0,
            r.store_spec().heads_spec().len() == 0,
    {
        WlBackend { store: WlStore::new(), serial: None, configuration_alive: false, events: Vec::new() }
    }

    pub fn serial(&self) -> (r: Option<u32>)
        ensures
            r == self.serial_spec(),
    {
        self.serial
    }

    /// Hands out the pending events and forgets them.
    pub fn drain_event_queue(&mut self) -> (r: Vec<WlBackendEvent>)
        ensures
            r@ == old(self).events_spec(),
            final(self).events_spec().len() == 0,
            final(self).store_spec() == old(self).store_spec(),
            final(self).serial_spec() == old(self).serial_spec(),
            final(self).configuration_alive_spec() == old(self).configuration_alive_spec(),
    {
        let mut r: Vec<WlBackendEvent> = Vec::new();
        std::mem::swap(&mut r, &mut self.events);
        r
    }

    /// Starts a configuration: the previous one, if still alive, has to be
    /// destroyed first, which the result says. Afterwards exactly one is
    /// alive.
    pub fn begin_configuration(&mut self) -> (destroy_previous: bool)
        ensures
            destroy_previous == old(self).configuration_alive_spec(),
            final(self).configuration_alive_spec(),
            final(self).store_spec() == old(self).store_spec(),
            final(self).serial_spec() == old(self).serial_spec(),
            final(self).events_spec() == old(self).events_spec(),
    {
        let previous = self.configuration_alive;
        self.configuration_alive = true;
        previous
    }

    fn head_event(&mut self, head: u64, event: HeadEvent) -> (r: ProtocolAction)
        requires
            old(self).wf(),
        ensures
            final(self).wf(),
            head_event_effect(old(self).store_spec(), final(self).store_spec(), head, event, r),
            final(self).serial_spec() == old(self).serial_spec(),
            final(self).events_spec() == old(self).events_spec(),
            final(self).configuration_alive_spec() == old(self).configuration_alive_spec(),
    {
        if let HeadEvent::Finished = event {
            self.store.remove_head(head);
            return ProtocolAction::ReleaseHead(head);
        }
        if let HeadEvent::Mode(mode) = event {
            if self.store.last_id() < usize::MAX {
                let _ = self.store.insert_mode(head, mode);
            }
            return ProtocolAction::Nothing;
        }
        if let HeadEvent::CurrentMode(mode) = event {
            let _ = self.store.set_current_mode(head, Some(mode));
            return ProtocolAction::Nothing;
        }
        let mut base = match self.store.head(head) {
            Ok(h) => h.base.clone(),
            Err(_) => {
                return ProtocolAction::Nothing;
            },
        };
        match event {
            HeadEvent::Name(v) => {
                base.name = v;
            },
            HeadEvent::Description(v) => {
                base.description = v;
            },
            HeadEvent::PhysicalSize(v) => {
                base.size = v;
            },
            HeadEvent::Enabled(v) => {
                base.enabled = v;
            },
            HeadEvent::Position(v) => {
                base.position = v;
            },
            HeadEvent::Transform(v) => {
                base.transform = v;
            },
            HeadEvent::Scale(v) => {
                base.scale = v;
            },
            HeadEvent::Make(v) => {
                base.make = v;
            },
            HeadEvent::Model(v) => {
                base.model = v;
            },
            HeadEvent::SerialNumber(v) => {
                base.serial_number = v;
            },
            HeadEvent::AdaptiveSync(v) => {
                base.adaptive_sync = v;
            },
            _ => {},
        }
        let _ = self.store.set_head_base(head, base);
        ProtocolAction::Nothing
    }

    fn mode_event(&mut self, mode: u64, event: ModeEvent) -> (r: ProtocolAction)
        requires
            old(self).wf(),
        ensures
            final(self).wf(),
            mode_event_effect(old(self).store_spec(), final(self).store_spec(), mode, event, r),
            final(self).serial_spec() == old(self).serial_spec(),
            final(self).events_spec() == old(self).events_spec(),
            final(self).configuration_alive_spec() == old(self).configuration_alive_spec(),
    {
        match event {
            ModeEvent::Finished => {
                let _ = self.store.remove_mode(mode);
                ProtocolAction::ReleaseMode(mode)
            },
            _ => {
                let mut base = match self.store.mode_base(mode) {
                    Some(b) => b,
                    None => {
                        return ProtocolAction::Nothing;
                    },
                };
                match event {
                    ModeEvent::Size { width, height } => {
                        base.width = width;
                        base.height = height;
                    },
                    ModeEvent::Refresh(r) => {
                        base.refresh = r;
                    },
                    _ => {
                        base.preferred = true;
                    },
                }
                let _ = self.store.set_mode_base(mode, base);
                ProtocolAction::Nothing
            },
        }
    }

    /// Applies a protocol event: heads and modes go to the store, a
    /// completed change and the outcomes of configurations become events for
    /// the daemon, and a configuration that got its outcome is to be
    /// destroyed.
    pub fn handle(&mut self, event: ProtocolEvent) -> (r: ProtocolAction)
        requires
            old(self).wf(),
        ensures
            final(self).wf(),
            !(event is Head || event is Mode || event is ManagerHead) ==> final(self).store_spec() == old(self).store_spec(),
            event matches ProtocolEvent::ManagerDone(serial) ==> final(self).serial_spec() == Some(serial)
                && final(self).events_spec() == old(self).events_spec().push(WlBackendEvent::AtomicChangeDone)
                && r == ProtocolAction::Nothing,
            event is ManagerFinished ==> final(self).events_spec() == old(self).events_spec().push(
                WlBackendEvent::NeededResourceFinished,
            ) && final(self).serial_spec() is None && r == ProtocolAction::Nothing,
            !(event is ManagerDone || event is ManagerFinished) ==> final(self).serial_spec() == old(self).serial_spec(),
            event is ConfigurationSucceeded ==> final(self).events_spec() == old(self).events_spec().push(
                WlBackendEvent::Succeeded,
            ) && !final(self).configuration_alive_spec() && r == ProtocolAction::DestroyConfiguration,
            event is ConfigurationFailed ==> final(self).events_spec() == old(self).events_spec().push(
                WlBackendEvent::Failed,
            ) && !final(self).configuration_alive_spec() && r == ProtocolAction::DestroyConfiguration,
            event is ConfigurationCancelled ==> final(self).events_spec() == old(self).events_spec().push(
                WlBackendEvent::Cancelled,
            ) && !final(self).configuration_alive_spec() && r == ProtocolAction::DestroyConfiguration,
            (event is Head || event is Mode || event is ManagerHead) ==> final(self).events_spec()
                == old(self).events_spec() && final(self).configuration_alive_spec()
                == old(self).configuration_alive_spec(),
            event matches ProtocolEvent::ManagerHead(h) ==> r == ProtocolAction::Nothing && (old(
                self,
            ).store_spec().counter_spec() < usize::MAX ==> final(self).store_spec().has_head(h)),
            event matches ProtocolEvent::Head(h, e) ==> head_event_effect(
                old(self).store_spec(),
                final(self).store_spec(),
                h,
                e,
                r,
            ),
            event matches ProtocolEvent::Mode(m, e) ==> mode_event_effect(
                old(self).store_spec(),
                final(self).store_spec(),
                m,
                e,
                r,
            ),
    {
        match event {
            ProtocolEvent::ManagerHead(head) => {
                if self.store.last_id() < usize::MAX {
                    self.store.insert_head(head);
                }
                ProtocolAction::Nothing
            },
            ProtocolEvent::ManagerDone(serial) => {
                self.serial = Some(serial);
                self.events.push(WlBackendEvent::AtomicChangeDone);
                ProtocolAction::Nothing
            },
            ProtocolEvent::ManagerFinished => {
                self.serial = None;
                self.events.push(WlBackendEvent::NeededResourceFinished);
                ProtocolAction::Nothing
            },
            ProtocolEvent::Head(head, ev) => self.head_event(head, ev),
            ProtocolEvent::Mode(mode, ev) => self.mode_event(mode, ev),
            ProtocolEvent::ConfigurationSucceeded => {
                self.events.push(WlBackendEvent::Succeeded);
                self.configuration_alive = false;
                ProtocolAction::DestroyConfiguration
            },
            ProtocolEvent::ConfigurationFailed => {
                self.events.push(WlBackendEvent::Failed);
                self.configuration_alive = false;
                ProtocolAction::DestroyConfiguration
            },
            ProtocolEvent::ConfigurationCancelled => {
                self.events.push(WlBackendEvent::Cancelled);
                self.configuration_alive = false;
                ProtocolAction::DestroyConfiguration
            },
        }
    }

    /// A snapshot of the heads, or none where the store is inconsistent.
    pub fn export_heads(&self) -> (r: Option<Vec<WlHead>>)
        requires
            self.wf(),
        ensures
            r is Some <==> self.store_spec().exportable(),
            r matches Some(hs) ==> self.store_spec().is_snapshot(hs@),
            r matches Some(hs) ==> hs@.len() == self.store_spec().heads_spec().len() && forall|i: int|
                0 <= i < hs@.len() ==> head_identity(#[trigger] hs@[i]) == base_identity(
                    self.store_spec().heads_spec()[i].id,
                    &self.store_spec().heads_spec()[i].base,
                ) && hs@[i].id == self.store_spec().heads_spec()[i].id && forall|j: int|
                    0 <= j < hs@[i].modes@.len() ==> self.store_spec().knows_mode_id(#[trigger] hs@[i].modes@[j].id),
    {
        match self.store.export() {
            Ok(h) => Some(h),
            Err(_) => None,
        }
    }
}

/// The settings for one pairing: its head looked up by store id, then,
/// for an enabled output that names no custom mode, its mode.
pub open spec fn pairing_configuration(store: &WlStore, p: Pairing, o: &Output) -> Result<
    HeadConfiguration,
    WlConfigurationError,
> {
    match head_foreign_from(store.heads_spec(), p.head_id, 0) {
        None => Err(WlConfigurationError::UnknownHead { head: p.head_id }),
        Some(f) => if !o.enable {
            Ok(head_configuration_spec(o, f, None))
        } else {
            match o.mode {
                Some(Mode::WiHeReCustom(w, h, r)) => Ok(head_configuration_spec(o, f, Some(ModeSetting::Custom(w, h, r)))),
                _ => match p.wl_mode {
                    None => Ok(head_configuration_spec(o, f, None)),
                    Some(m) => match mode_foreign_from(store.modes_spec(), m.id, 0) {
                        None => Err(WlConfigurationError::UnknownMode { mode: m.id }),
                        Some(mf) => Ok(head_configuration_spec(o, f, Some(ModeSetting::Existing(mf)))),
                    },
                },
            }
        },
    }
}

/// The settings for the first `n` pairings, or the error of the first
/// pairing that fails.
pub open spec fn configured_upto(store: &WlStore, ps: Seq<Pairing>, outputs: Seq<Output>, n: nat) -> Result<
    Seq<HeadConfiguration>,
    WlConfigurationError,
>
    decreases n,
{
    if n == 0 {
        Ok(Seq::empty())
    } else {
        match configured_upto(store, ps, outputs, (n - 1) as nat) {
            Err(e) => Err(e),
            Ok(cs) => match pairing_configuration(store, ps[n - 1], &outputs[ps[n - 1].output as int]) {
                Err(e) => Err(e),
                Ok(c) => Ok(cs.push(c)),
            },
        }
    }
}

/// The settings of a variant, one per pairing in order; or why there are
/// none: the variant does not pair every head, or the first pairing whose
/// head or mode is not in the store.
pub open spec fn configured(store: &WlStore, v: &ValidVariant, outputs: Seq<Output>) -> Result<
    Seq<HeadConfiguration>,
    WlConfigurationError,
> {
    if v.pairings@.len() != store.heads_spec().len() {
        Err(
            WlConfigurationError::HeadCountMismatch {
                got: v.pairings@.len() as usize,
                have: store.heads_spec().len() as usize,
            },
        )
    } else {
        configured_upto(store, v.pairings@, outputs, v.pairings@.len())
    }
}

/// The variant can be turned into settings against the store.
pub open spec fn variant_configurable(store: &WlStore, v: &ValidVariant, outputs: Seq<Output>) -> bool {
    configured(store, v, outputs) is Ok
}

proof fn lemma_configured_err(store: &WlStore, ps: Seq<Pairing>, outputs: Seq<Output>, k: nat, n: nat)
    requires
        k <= n,
        configured_upto(store, ps, outputs, k) is Err,
    ensures
        configured_upto(store, ps, outputs, n) == configured_upto(store, ps, outputs, k),
    decreases n - k,
{
    if k < n {
        lemma_configured_err(store, ps, outputs, k, (n - 1) as nat);
    }
}

/// Every pairing that can be configured on its own makes the variant's
/// settings.
pub proof fn lemma_configured_ok(store: &WlStore, ps: Seq<Pairing>, outputs: Seq<Output>, n: nat)
    requires
        n <= ps.len(),
        forall|i: int| 0 <= i < n ==> pairing_configuration(store, #[trigger] ps[i], &outputs[ps[i].output as int]) is Ok,
    ensures
        configured_upto(store, ps, outputs, n) is Ok,
    decreases n,
{
    if n > 0 {
        lemma_configured_ok(store, ps, outputs, (n - 1) as nat);
        assert(pairing_configuration(store, ps[n - 1], &outputs[ps[n - 1].output as int]) is Ok);
    }
}

/// Turns a variant into the settings of each head: every pairing's head is
/// looked up by its store id, and a mode of the head by the mode's. Fails
/// where the variant does not pair every head, or a head or a mode is gone.
pub fn configure_variant(store: &WlStore, variant: &ValidVariant, outputs: &Vec<Output>) -> (r: Result<
    Vec<HeadConfiguration>,
    WlConfigurationError,
>)
    requires
        forall|i: int| 0 <= i < variant.pairings@.len() ==> (#[trigger] variant.pairings@[i]).output < outputs@.len(),
    ensures
        match r {
            Ok(cs) => configured(store, variant, outputs@) == Ok::<Seq<HeadConfiguration>, WlConfigurationError>(cs@),
            Err(e) => configured(store, variant, outputs@) == Err::<Seq<HeadConfiguration>, WlConfigurationError>(e),
        },
{
    let n = variant.pairings.len();
    let have = store.heads_count();
    if n != have {
        return Err(WlConfigurationError::HeadCountMismatch { got: n, have });
    }
    let mut out: Vec<HeadConfiguration> = Vec::new();
    let mut i: usize = 0;
    while i < n
        invariant
            n == variant.pairings@.len(),
            n == store.heads_spec().len(),
            i <= n,
            forall|i: int| 0 <= i < variant.pairings@.len() ==> (#[trigger] variant.pairings@[i]).output < outputs@.len(),
            configured_upto(store, variant.pairings@, outputs@, i as nat) == Ok::<
                Seq<HeadConfiguration>,
                WlConfigurationError,
            >(out@),
        decreases n - i,
    {
        let p = variant.pairings[i];
        let o = &outputs[p.output];
        let ghost ps = variant.pairings@;
        let head = match store.head_foreign_of(p.head_id) {
            Ok(f) => f,
            Err(_) => {
                proof {
                    lemma_configured_err(store, ps, outputs@, (i + 1) as nat, n as nat);
                }
                return Err(WlConfigurationError::UnknownHead { head: p.head_id });
            },
        };
        let c = if !o.enable {
            HeadConfiguration {
                head,
                enable: false,
                mode: None,
                position: None,
                scale: None,
                transform: None,
                adaptive_sync: None,
            }
        } else {
            let mode = match o.mode {
                Some(Mode::WiHeReCustom(w, h, r)) => Some(ModeSetting::Custom(w, h, r)),
                _ => match p.wl_mode {
                    None => None,
                    Some(m) => match store.mode_foreign_of(m.id) {
                        Ok(f) => Some(ModeSetting::Existing(f)),
                        Err(_) => {
                            proof {
                                lemma_configured_err(store, ps, outputs@, (i + 1) as nat, n as nat);
                            }
                            return Err(WlConfigurationError::UnknownMode { mode: m.id });
                        },
                    },
                },
            };
            HeadConfiguration {
                head,
                enable: true,
                mode,
                position: o.position,
                scale: o.scale,
                transform: o.transform,
                adaptive_sync: o.adaptive_sync,
            }
        };
        out.push(c);
        i += 1;
    }
    Ok(out)
}

} // verus!
