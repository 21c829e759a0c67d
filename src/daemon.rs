//! The daemon's state machine: it drives each variant through test and
//! apply, restarts on changes of the heads, and never submits a
//! configuration while another one is waiting for its outcome.
use vstd::prelude::*;

use crate::backend::{configure_variant, configured, variant_configurable, HeadConfiguration, WlBackend, WlBackendEvent};
use crate::exec::{insert_named, CommandBuilder};
use crate::matching::ValidVariant;
use crate::profile::{Output, Profile};
use crate::head::WlHead;
use crate::matching::{pairings_valid, Pairing};
use crate::profile_manager::{
    generation,
    admitted, heads_unchanged, identities, lemma_snapshot_identities, matchable, store_identities, ProfileManager,
    Restriction,
};
use crate::store::WlStore;
use crate::search::SearchPattern;
use crate::variant::{DSMAction, VSMInput, VariantState};

verus! {

/// Where the daemon stands.
pub enum DSMState {
    NoVariantApplied,
    VariantInProgress(ValidVariant),
    VariantApplied(ValidVariant),
    /// A configuration awaits its outcome; once it comes, start over.
    RestartAfterResponse,
}

/// What the daemon asks its surroundings to do.
pub enum DaemonRequest {
    /// Submit these settings as a test.
    Test(Vec<HeadConfiguration>),
    /// Submit these settings for good.
    Apply(Vec<HeadConfiguration>),
    /// Run the commands of an applied variant.
    Exec(CommandBuilder),
}

/// A configuration was submitted and its outcome has not come yet.
pub open spec fn outstanding(s: &DSMState) -> bool {
    match s {
        DSMState::VariantInProgress(v) => v.state == VariantState::Testing || v.state == VariantState::Applying,
        DSMState::RestartAfterResponse => true,
        _ => false,
    }
}

/// The outcome of a submitted configuration.
pub open spec fn is_response(e: WlBackendEvent) -> bool {
    e == WlBackendEvent::Succeeded || e == WlBackendEvent::Failed || e == WlBackendEvent::Cancelled
}

pub open spec fn is_configuration(r: &DaemonRequest) -> bool {
    r is Test || r is Apply
}

/// How many configurations a list of requests submits.
pub open spec fn configurations(rs: Seq<DaemonRequest>) -> nat
    decreases rs.len(),
{
    if rs.len() == 0 {
        0
    } else {
        configurations(rs.drop_last()) + if is_configuration(&rs.last()) {
            1nat
        } else {
            0
        }
    }
}

/// The requests added after the first `n`.
pub open spec fn added(rs: Seq<DaemonRequest>, n: nat) -> Seq<DaemonRequest> {
    rs.subrange(n as int, rs.len() as int)
}

/// Where a configuration was submitted, it is the only request, a test
/// unless tests are skipped, and the started variant is in progress in the
/// matching state.
pub open spec fn started_next(s1: &DaemonStateMachine, add: Seq<DaemonRequest>, skip: bool) -> bool {
    configurations(add) == 1 ==> {
        &&& add.len() == 1
        &&& (add[0] is Test <==> !skip)
        &&& match s1.state_spec() {
            DSMState::VariantInProgress(w) => w.state == if skip {
                VariantState::Applying
            } else {
                VariantState::Testing
            },
            _ => false,
        }
    }
}

/// The position of the first variant, from `i` on, whose settings can be
/// built against the store; the queue's length where there is none.
pub open spec fn first_configurable(q: Seq<ValidVariant>, store: &WlStore, profiles: Seq<Profile>, i: nat) -> nat
    decreases q.len() - i,
{
    if i >= q.len() {
        q.len()
    } else if variant_configurable(store, &q[i as int], profiles[q[i as int].profile as int].outputs@) {
        i
    } else {
        first_configurable(q, store, profiles, i + 1)
    }
}

/// The request that submits `v`'s settings: a test, or an apply when tests
/// are skipped.
pub open spec fn submits(r: DaemonRequest, store: &WlStore, v: &ValidVariant, outputs: Seq<Output>, test: bool) -> bool {
    match r {
        DaemonRequest::Test(c) => test && configured(store, v, outputs) == Ok::<
            Seq<HeadConfiguration>,
            crate::backend::WlConfigurationError,
        >(c@),
        DaemonRequest::Apply(c) => !test && configured(store, v, outputs) == Ok::<
            Seq<HeadConfiguration>,
            crate::backend::WlConfigurationError,
        >(c@),
        _ => false,
    }
}

/// Starting the next variant of the queue `q`: those that cannot be
/// configured are dropped; the first that can is started, its settings the
/// only request, and the rest stay queued. Where none can, nothing is
/// applied, no request is made, and under oneshot the machine shuts down.
pub open spec fn started_from(
    q: Seq<ValidVariant>,
    store: &WlStore,
    profiles: Seq<Profile>,
    oneshot: bool,
    shutdown: bool,
    skip: bool,
    s1: &DaemonStateMachine,
    add: Seq<DaemonRequest>,
) -> bool {
    let k = first_configurable(q, store, profiles, 0);
    if k < q.len() {
        let v = q[k as int];
        &&& add.len() == 1
        &&& submits(add[0], store, &v, profiles[v.profile as int].outputs@, !skip)
        &&& match s1.state_spec() {
            DSMState::VariantInProgress(w) => w.pairings@ == v.pairings@ && w.profile == v.profile && w.subset
                == v.subset && w.index == v.index && w.state == if skip {
                VariantState::Applying
            } else {
                VariantState::Testing
            },
            _ => false,
        }
        &&& s1.pm_spec().variants_spec() == q.subrange(k as int + 1, q.len() as int)
        &&& s1.shutdown_spec() == shutdown
    } else {
        &&& add.len() == 0
        &&& *s1.state_spec() is NoVariantApplied
        &&& s1.pm_spec().variants_spec().len() == 0
        &&& s1.shutdown_spec() == (shutdown || oneshot)
    }
}

proof fn lemma_first_configurable_shift(q: Seq<ValidVariant>, store: &WlStore, profiles: Seq<Profile>, i: nat)
    requires
        q.len() > 0,
    ensures
        first_configurable(q, store, profiles, i + 1) == first_configurable(q.drop_first(), store, profiles, i) + 1,
    decreases q.len() - i,
{
    if i + 1 < q.len() {
        assert(q.drop_first()[i as int] == q[i as int + 1]);
        lemma_first_configurable_shift(q, store, profiles, i + 1);
    }
}

/// A command plan for the profile `p`: its name, its own commands first,
/// and whether the caller waits for them.
pub open spec fn commands_of(c: &CommandBuilder, p: &Profile, oneshot: bool, ps: Seq<Pairing>, hs: Seq<WlHead>) -> bool {
    &&& c.profile_name_spec() == p.name@
    &&& c.oneshot_spec() == oneshot
    &&& c.profile_commands_spec() == match p.commands {
        Some(cmds) => cmds@,
        None => Seq::empty(),
    }
    &&& c.heads_view_spec() == head_commands_upto(ps, p.outputs@, hs, ps.len())
}

/// The heads' commands gathered from the first `n` pairings, in order: for
/// each pairing whose output has commands, under the paired head's name.
pub open spec fn head_commands_upto(ps: Seq<Pairing>, outputs: Seq<Output>, hs: Seq<WlHead>, n: nat) -> Seq<
    (Seq<char>, Seq<String>),
>
    decreases n,
{
    if n == 0 {
        Seq::empty()
    } else {
        let prev = head_commands_upto(ps, outputs, hs, (n - 1) as nat);
        let p = ps[n - 1];
        if p.head < hs.len() && outputs[p.output as int].commands is Some {
            insert_named(prev, hs[p.head as int].base.name@, outputs[p.output as int].commands->Some_0@)
        } else {
            prev
        }
    }
}

/// The variant's pairings refer to outputs of its profile.
pub open spec fn variant_fits(v: &ValidVariant, profiles: Seq<Profile>) -> bool {
    &&& v.profile < profiles.len()
    &&& forall|i: int|
        0 <= i < v.pairings@.len() ==> (#[trigger] v.pairings@[i]).output < profiles[v.profile as int].outputs@.len()
}

proof fn lemma_configurations_push(rs: Seq<DaemonRequest>, r: DaemonRequest)
    ensures
        configurations(rs.push(r)) == configurations(rs) + if is_configuration(&r) {
            1nat
        } else {
            0
        },
{
    assert(rs.push(r).drop_last() =~= rs);
}

proof fn lemma_added_push(rs: Seq<DaemonRequest>, n: nat, r: DaemonRequest)
    requires
        n <= rs.len(),
    ensures
        added(rs.push(r), n) =~= added(rs, n).push(r),
{
}

proof fn lemma_added_empty(rs: Seq<DaemonRequest>)
    ensures
        added(rs, rs.len()) =~= Seq::<DaemonRequest>::empty(),
        configurations(added(rs, rs.len())) == 0,
{
    assert(added(rs, rs.len()) =~= Seq::<DaemonRequest>::empty());
}

/// Every queued variant made for a snapshot of the store can be configured
/// against the store.
proof fn lemma_queue_configurable(pm: &ProfileManager, store: &WlStore, hs: Seq<WlHead>)
    requires
        pm.wf(),
        pm.cached_heads_spec() == hs,
        hs.len() == store.heads_spec().len(),
        forall|i: int|
            0 <= i < hs.len() ==> (#[trigger] hs[i]).id == store.heads_spec()[i].id && forall|j: int|
                0 <= j < hs[i].modes@.len() ==> store.knows_mode_id(#[trigger] hs[i].modes@[j].id),
    ensures
        forall|q: int|
            0 <= q < pm.variants_spec().len() ==> variant_configurable(
                store,
                &(#[trigger] pm.variants_spec()[q]),
                pm.profiles_spec()[pm.variants_spec()[q].profile as int].outputs@,
            ),
{
    assert forall|q: int| 0 <= q < pm.variants_spec().len() implies variant_configurable(
        store,
        &(#[trigger] pm.variants_spec()[q]),
        pm.profiles_spec()[pm.variants_spec()[q].profile as int].outputs@,
    ) by {
        let v = pm.variants_spec()[q];
        let outputs = pm.profiles_spec()[v.profile as int].outputs@;
        assert(pairings_valid(v.pairings@, outputs, hs));
        assert forall|i: int| 0 <= i < v.pairings@.len() implies crate::backend::pairing_configuration(
            store,
            #[trigger] v.pairings@[i],
            &outputs[v.pairings@[i].output as int],
        ) is Ok by {
            let p = v.pairings@[i];
            assert(hs[p.head as int].id == store.heads_spec()[p.head as int].id);
            assert(store.heads_spec()[p.head as int].id == p.head_id);
            crate::store::lemma_head_foreign_from(store.heads_spec(), p.head_id, 0);
            if p.wl_mode is Some {
                let m = p.wl_mode->Some_0;
                assert(hs[p.head as int].modes@.contains(m));
                let j = choose|j: int| 0 <= j < hs[p.head as int].modes@.len() && hs[p.head as int].modes@[j] == m;
                assert(store.knows_mode_id(hs[p.head as int].modes@[j].id));
                crate::store::lemma_mode_foreign_from(store.modes_spec(), m.id, 0);
            }
        }
        crate::backend::lemma_configured_ok(store, v.pairings@, outputs, v.pairings@.len());
    }
}

/// What reacting to one event amounts to, between the machine before and
/// after and the requests added.
pub open spec fn advance_post(
    s0: &DaemonStateMachine,
    e: WlBackendEvent,
    store: &WlStore,
    s1: &DaemonStateMachine,
    add: Seq<DaemonRequest>,
) -> bool {
    let changed = (*s0.state_spec() is VariantApplied || *s0.state_spec() is NoVariantApplied) && e
        == WlBackendEvent::AtomicChangeDone && store.exportable() && store.heads_spec().len() < 0x7fff_ffff
        && !heads_unchanged(s0.pm_spec().cached_heads_spec(), store.heads_spec());
    &&& configurations(add) <= 1
    &&& configurations(add) == 1 ==> !(outstanding(s0.state_spec()) && !is_response(e))
    &&& e != WlBackendEvent::NeededResourceFinished ==> (outstanding(s1.state_spec()) <==> ((outstanding(
        s0.state_spec(),
    ) && !is_response(e)) || configurations(add) == 1))
    &&& e == WlBackendEvent::NeededResourceFinished ==> s1.shutdown_spec() && add.len() == 0
        && *s1.state_spec() is NoVariantApplied && s1.pm_spec() == s0.pm_spec()
    &&& *s0.state_spec() is RestartAfterResponse && e == WlBackendEvent::AtomicChangeDone ==> *s1.state_spec()
        is RestartAfterResponse && add.len() == 0 && s1.pm_spec() == s0.pm_spec()
    &&& *s0.state_spec() is VariantApplied && e == WlBackendEvent::AtomicChangeDone && store.exportable()
        && heads_unchanged(s0.pm_spec().cached_heads_spec(), store.heads_spec()) ==> s1.state_spec() == s0.state_spec()
        && add.len() == 0 && s1.pm_spec() == s0.pm_spec()
    &&& changed ==> {
        &&& identities(s1.pm_spec().cached_heads_spec()) == store_identities(store.heads_spec())
        &&& store.is_snapshot(s1.pm_spec().cached_heads_spec())
        &&& started_next(s1, add, s0.skip_tests_spec())
        &&& exists|q: Seq<ValidVariant>|
            #[trigger] generation(
                s0.pm_spec().profiles_spec(),
                s0.pm_spec().restriction_spec(),
                s1.pm_spec().cached_heads_spec(),
                q,
            ) && started_from(
                q,
                store,
                s0.pm_spec().profiles_spec(),
                s0.oneshot_spec(),
                s0.shutdown_spec(),
                s0.skip_tests_spec(),
                s1,
                add,
            )
        &&& configurations(add) == 0 ==> forall|p: int|
            0 <= p < s0.pm_spec().profiles_spec().len() && admitted(
                s0.pm_spec().restriction_spec(),
                s0.pm_spec().profiles_spec()[p],
            ) ==> !#[trigger] matchable(s0.pm_spec().profiles_spec()[p], s1.pm_spec().cached_heads_spec())
    }
    &&& match s0.state_spec() {
        DSMState::VariantInProgress(v) => {
            let outputs = s0.pm_spec().profiles_spec()[v.profile as int].outputs@;
            &&& v.state == VariantState::Testing && e == WlBackendEvent::Succeeded && variant_configurable(store, v, outputs)
                ==> add.len() == 1 && add[0] is Apply && submits(add[0], store, v, outputs, false) && match s1.state_spec() {
                DSMState::VariantInProgress(w) => w.pairings@ == v.pairings@ && w.profile == v.profile && w.state
                    == VariantState::Applying,
                _ => false,
            }
            &&& v.state == VariantState::Applying && e == WlBackendEvent::Succeeded ==> add.len() == 1 && match add[0] {
                DaemonRequest::Exec(c) => commands_of(
                    &c,
                    &s0.pm_spec().profiles_spec()[v.profile as int],
                    s0.oneshot_spec(),
                    v.pairings@,
                    s0.pm_spec().cached_heads_spec(),
                ),
                _ => false,
            }
                && s1.shutdown_spec() == (s0.shutdown_spec() || s0.oneshot_spec()) && match s1.state_spec() {
                DSMState::VariantApplied(w) => w.pairings@ == v.pairings@ && w.profile == v.profile && w.state
                    == VariantState::Applied,
                _ => false,
            }
            &&& (v.state == VariantState::Testing || v.state == VariantState::Applying) && e == WlBackendEvent::Cancelled
                ==> started_next(s1, add, s0.skip_tests_spec()) && (store.exportable() && store.heads_spec().len()
                < 0x7fff_ffff ==> identities(s1.pm_spec().cached_heads_spec()) == store_identities(store.heads_spec())
                && store.is_snapshot(s1.pm_spec().cached_heads_spec()) && exists|q: Seq<ValidVariant>|
                    #[trigger] generation(
                        s0.pm_spec().profiles_spec(),
                        s0.pm_spec().restriction_spec(),
                        s1.pm_spec().cached_heads_spec(),
                        q,
                    ) && started_from(
                        q,
                        store,
                        s0.pm_spec().profiles_spec(),
                        s0.oneshot_spec(),
                        s0.shutdown_spec(),
                        s0.skip_tests_spec(),
                        s1,
                        add,
                    ))
            &&& (v.state == VariantState::Testing || v.state == VariantState::Applying) && e == WlBackendEvent::Failed
                ==> started_next(s1, add, s0.skip_tests_spec()) && started_from(
                s0.pm_spec().variants_spec(),
                store,
                s0.pm_spec().profiles_spec(),
                s0.oneshot_spec(),
                s0.shutdown_spec(),
                s0.skip_tests_spec(),
                s1,
                add,
            )
        },
        _ => true,
    }
    &&& s0.shutdown_spec() ==> s1.shutdown_spec()
    &&& s1.oneshot_spec() == s0.oneshot_spec()
    &&& s1.skip_tests_spec() == s0.skip_tests_spec()
    &&& s1.pm_spec().profiles_spec() == s0.pm_spec().profiles_spec()
}

/// A batch took the machine from `s0` to `s1` by advancing the events in
/// order, the requests of each step following one another after `start`;
/// it stopped before the last event only at a shutdown.
pub open spec fn batch_trace(
    s0: &DaemonStateMachine,
    events: Seq<WlBackendEvent>,
    store: &WlStore,
    s1: &DaemonStateMachine,
    start: int,
    outs: Seq<DaemonRequest>,
) -> bool {
    exists|trace: Seq<DaemonStateMachine>, cuts: Seq<int>|
        #[trigger] batch_trace_with(s0, events, store, s1, start, outs, trace, cuts)
}

/// `trace` lists the machine before and after each step of a batch, and
/// `cuts` where each step's requests start and end.
pub open spec fn batch_trace_with(
    s0: &DaemonStateMachine,
    events: Seq<WlBackendEvent>,
    store: &WlStore,
    s1: &DaemonStateMachine,
    start: int,
    outs: Seq<DaemonRequest>,
    trace: Seq<DaemonStateMachine>,
    cuts: Seq<int>,
) -> bool {
    &&& trace.len() == cuts.len()
    &&& 1 <= trace.len() <= events.len() + 1
    &&& trace[0] == *s0
    &&& trace.last() == *s1
    &&& cuts[0] == start
    &&& cuts.last() == outs.len()
    &&& trace.len() <= events.len() ==> s1.shutdown_spec()
    &&& forall|j: int| 0 <= j < trace.len() - 1 ==> start <= #[trigger] cuts[j] <= cuts[j + 1] <= outs.len()
    &&& forall|j: int|
        0 <= j < trace.len() - 1 ==> advance_post(
            &trace[j],
            events[j],
            store,
            &trace[j + 1],
            #[trigger] outs.subrange(cuts[j], cuts[j + 1]),
        )
}

/// `mid` is `s0` made ready for a re-evaluation (the given profiles,
/// restriction and state, no cached heads), and a completed change then led
/// from `mid` to `s1`.
pub open spec fn reevaluates(
    s0: &DaemonStateMachine,
    mid: &DaemonStateMachine,
    store: &WlStore,
    s1: &DaemonStateMachine,
    add: Seq<DaemonRequest>,
    profiles: Seq<Profile>,
    restriction: Option<Restriction>,
    state: &DSMState,
) -> bool {
    &&& mid.state_spec() == state
    &&& mid.pm_spec().cached_heads_spec().len() == 0
    &&& mid.pm_spec().profiles_spec() == profiles
    &&& mid.pm_spec().restriction_spec() == restriction
    &&& mid.shutdown_spec() == s0.shutdown_spec()
    &&& mid.oneshot_spec() == s0.oneshot_spec()
    &&& mid.skip_tests_spec() == s0.skip_tests_spec()
    &&& advance_post(mid, WlBackendEvent::AtomicChangeDone, store, s1, add)
}

/// How long to wait before reacting to a batch, in milliseconds: the settle
/// delay where the batch completes a change of the heads, at once
/// otherwise.
pub fn settle_delay(events: &Vec<WlBackendEvent>, settle_ms: u64) -> (r: u64)
    ensures
        r == if events@.contains(WlBackendEvent::AtomicChangeDone) {
            settle_ms
        } else {
            0
        },
{
    let mut i: usize = 0;
    while i < events.len()
        invariant
            i <= events@.len(),
            forall|j: int| 0 <= j < i ==> events@[j] != WlBackendEvent::AtomicChangeDone,
        decreases events@.len() - i,
    {
        if events[i] == WlBackendEvent::AtomicChangeDone {
            return settle_ms;
        }
        i += 1;
    }
    0
}

/// The daemon's state, its settings and the profile manager.
pub struct DaemonStateMachine {
    state: DSMState,
    skip_tests: bool,
    oneshot: bool,
    pm: ProfileManager,
    encountered_shutdown: bool,
}

impl DaemonStateMachine {
    pub closed spec fn state_spec(&self) -> &DSMState {
        &self.state
    }

    pub closed spec fn pm_spec(&self) -> &ProfileManager {
        &self.pm
    }

    pub closed spec fn shutdown_spec(&self) -> bool {
        self.encountered_shutdown
    }

    pub closed spec fn skip_tests_spec(&self) -> bool {
        self.skip_tests
    }

    pub closed spec fn oneshot_spec(&self) -> bool {
        self.oneshot
    }

    pub closed spec fn wf(&self) -> bool {
        &&& self.pm.wf()
        &&& match &self.state {
            DSMState::VariantInProgress(v) => variant_fits(v, self.pm.profiles_spec()),
            DSMState::VariantApplied(v) => variant_fits(v, self.pm.profiles_spec()),
            _ => true,
        }
    }

    pub fn new(profiles: Vec<Profile>, skip_tests: bool, oneshot: bool) -> (r: DaemonStateMachine)
        ensures
            r.wf(),
            *r.state_spec() is NoVariantApplied,
            !r.shutdown_spec(),
            r.oneshot_spec() == oneshot,
            r.skip_tests_spec() == skip_tests,
            r.pm_spec().profiles_spec() == profiles@,
    {
        DaemonStateMachine {
            state: DSMState::NoVariantApplied,
            skip_tests,
            oneshot,
            pm: ProfileManager::new(profiles),
            encountered_shutdown: false,
        }
    }

    pub fn state(&self) -> (r: &DSMState)
        ensures
            r == self.state_spec(),
    {
        &self.state
    }

    pub fn profile_manager(&self) -> (r: &ProfileManager)
        ensures
            r == self.pm_spec(),
    {
        &self.pm
    }

    pub fn has_shutdown(&self) -> (r: bool)
        ensures
            r == self.shutdown_spec(),
    {
        self.encountered_shutdown
    }

    /// The state's name.
    pub fn state_text(&self) -> (r: String)
        ensures
            r@ == match self.state_spec() {
                DSMState::NoVariantApplied => "NoVariantApplied"@,
                DSMState::VariantInProgress(_) => "VariantInProgress"@,
                DSMState::VariantApplied(_) => "VariantApplied"@,
                DSMState::RestartAfterResponse => "RestartAfterResponse"@,
            },
    {
        let mut s = String::new();
        match &self.state {
            DSMState::NoVariantApplied => s.append("NoVariantApplied"),
            DSMState::VariantInProgress(_) => s.append("VariantInProgress"),
            DSMState::VariantApplied(_) => s.append("VariantApplied"),
            DSMState::RestartAfterResponse => s.append("RestartAfterResponse"),
        }
        s
    }

    fn take_state(&mut self) -> (r: DSMState)
        requires
            old(self).wf(),
        ensures
            r == *old(self).state_spec(),
            *final(self).state_spec() is NoVariantApplied,
            final(self).wf(),
            final(self).pm_spec() == old(self).pm_spec(),
            final(self).shutdown_spec() == old(self).shutdown_spec(),
            final(self).oneshot_spec() == old(self).oneshot_spec(),
            final(self).skip_tests_spec() == old(self).skip_tests_spec(),
            match r {
                DSMState::VariantInProgress(v) => variant_fits(&v, old(self).pm_spec().profiles_spec()),
                DSMState::VariantApplied(v) => variant_fits(&v, old(self).pm_spec().profiles_spec()),
                _ => true,
            },
    {
        let mut s = DSMState::NoVariantApplied;
        std::mem::swap(&mut s, &mut self.state);
        s
    }

    fn shutdown(&mut self)
        requires
            old(self).wf(),
        ensures
            final(self).wf(),
            final(self).shutdown_spec(),
            *final(self).state_spec() is NoVariantApplied,
            final(self).pm_spec() == old(self).pm_spec(),
            final(self).oneshot_spec() == old(self).oneshot_spec(),
            final(self).skip_tests_spec() == old(self).skip_tests_spec(),
            final(self).pm_spec().profiles_spec() == old(self).pm_spec().profiles_spec(),
    {
        self.encountered_shutdown = true;
        self.state = DSMState::NoVariantApplied;
    }

    /// Submits the variant's configuration as a test or an apply, or drops
    /// the variant and goes on with the next where it cannot be built.
    fn issue(
        &mut self,
        v: ValidVariant,
        test: bool,
        backend: &WlBackend,
        out: &mut Vec<DaemonRequest>,
    )
        requires
            old(self).wf(),
            backend.wf(),
            variant_fits(&v, old(self).pm_spec().profiles_spec()),
            test ==> v.state == VariantState::Testing,
            !test ==> v.state == VariantState::Applying,
        ensures
            final(self).wf(),
            variant_configurable(backend.store_spec(), &v, old(self).pm_spec().profiles_spec()[v.profile as int].outputs@)
                ==> configurations(added(final(out)@, old(out)@.len())) == 1 && *final(self).state_spec()
                == DSMState::VariantInProgress(v) && added(final(out)@, old(out)@.len()).len() == 1 && (added(
                final(out)@,
                old(out)@.len(),
            )[0] is Test <==> test) && is_configuration(&added(final(out)@, old(out)@.len())[0]) && final(self).pm_spec()
                == old(self).pm_spec(),
            !variant_configurable(backend.store_spec(), &v, old(self).pm_spec().profiles_spec()[v.profile as int].outputs@)
                ==> started_next(final(self), added(final(out)@, old(out)@.len()), old(self).skip_tests_spec())
                && started_from(
                old(self).pm_spec().variants_spec(),
                backend.store_spec(),
                old(self).pm_spec().profiles_spec(),
                old(self).oneshot_spec(),
                old(self).shutdown_spec(),
                old(self).skip_tests_spec(),
                final(self),
                added(final(out)@, old(out)@.len()),
            ),
            variant_configurable(backend.store_spec(), &v, old(self).pm_spec().profiles_spec()[v.profile as int].outputs@)
                ==> submits(
                added(final(out)@, old(out)@.len())[0],
                backend.store_spec(),
                &v,
                old(self).pm_spec().profiles_spec()[v.profile as int].outputs@,
                test,
            ) && final(self).shutdown_spec() == old(self).shutdown_spec(),
            final(self).pm_spec().cached_heads_spec() == old(self).pm_spec().cached_heads_spec(),
            final(self).pm_spec().restriction_spec() == old(self).pm_spec().restriction_spec(),
            configurations(added(final(out)@, old(out)@.len())) == 0 ==> *final(self).state_spec() is NoVariantApplied
                && final(self).pm_spec().variants_spec().len() == 0,
            final(out)@.len() >= old(out)@.len(),
            final(out)@.subrange(0, old(out)@.len() as int) == old(out)@,
            configurations(added(final(out)@, old(out)@.len())) <= 1,
            outstanding(final(self).state_spec()) <==> configurations(added(final(out)@, old(out)@.len())) == 1,
            old(self).shutdown_spec() ==> final(self).shutdown_spec(),
            final(self).shutdown_spec() ==> old(self).shutdown_spec() || old(self).oneshot_spec(),
            configurations(added(final(out)@, old(out)@.len())) == 0 && old(self).oneshot_spec() ==> final(self).shutdown_spec(),
            added(final(out)@, old(out)@.len()).len() == configurations(added(final(out)@, old(out)@.len())),
            final(self).skip_tests_spec() == old(self).skip_tests_spec(),
            final(self).oneshot_spec() == old(self).oneshot_spec(),
            final(self).pm_spec().profiles_spec() == old(self).pm_spec().profiles_spec(),
        decreases 2 * old(self).pm_spec().variants_spec().len() + 2,
    {
        let profiles = self.pm.profiles();
        let pi = v.profile;
        match configure_variant(backend.store(), &v, &profiles[pi].outputs) {
            Ok(cfg) => {
                let ghost before = out@;
                if test {
                    out.push(DaemonRequest::Test(cfg));
                } else {
                    out.push(DaemonRequest::Apply(cfg));
                }
                proof {
                    lemma_added_empty(before);
                    lemma_added_push(before, before.len() as nat, out@.last());
                    lemma_configurations_push(added(before, before.len() as nat), out@.last());
                    assert(out@ =~= before.push(out@.last()));
                    assert(out@.subrange(0, before.len() as int) =~= before);
                }
                self.state = DSMState::VariantInProgress(v);
            },
            Err(_) => {
                self.next_variant(backend, out);
            },
        }
    }

    /// Starts the best variant still queued, or falls back to having none.
    fn next_variant(&mut self, backend: &WlBackend, out: &mut Vec<DaemonRequest>)
        requires
            old(self).wf(),
            backend.wf(),
        ensures
            final(self).wf(),
            old(self).pm_spec().variants_spec().len() > 0 && variant_configurable(
                backend.store_spec(),
                &old(self).pm_spec().variants_spec()[0],
                old(self).pm_spec().profiles_spec()[old(self).pm_spec().variants_spec()[0].profile as int].outputs@,
            ) ==> configurations(added(final(out)@, old(out)@.len())) == 1,
            started_next(final(self), added(final(out)@, old(out)@.len()), old(self).skip_tests_spec()),
            started_from(
                old(self).pm_spec().variants_spec(),
                backend.store_spec(),
                old(self).pm_spec().profiles_spec(),
                old(self).oneshot_spec(),
                old(self).shutdown_spec(),
                old(self).skip_tests_spec(),
                final(self),
                added(final(out)@, old(out)@.len()),
            ),
            final(self).pm_spec().cached_heads_spec() == old(self).pm_spec().cached_heads_spec(),
            final(self).pm_spec().restriction_spec() == old(self).pm_spec().restriction_spec(),
            configurations(added(final(out)@, old(out)@.len())) == 0 ==> *final(self).state_spec() is NoVariantApplied
                && final(self).pm_spec().variants_spec().len() == 0,
            final(out)@.len() >= old(out)@.len(),
            final(out)@.subrange(0, old(out)@.len() as int) == old(out)@,
            configurations(added(final(out)@, old(out)@.len())) <= 1,
            outstanding(final(self).state_spec()) <==> configurations(added(final(out)@, old(out)@.len())) == 1,
            old(self).shutdown_spec() ==> final(self).shutdown_spec(),
            final(self).shutdown_spec() ==> old(self).shutdown_spec() || old(self).oneshot_spec(),
            configurations(added(final(out)@, old(out)@.len())) == 0 && old(self).oneshot_spec() ==> final(self).shutdown_spec(),
            added(final(out)@, old(out)@.len()).len() == configurations(added(final(out)@, old(out)@.len())),
            final(self).skip_tests_spec() == old(self).skip_tests_spec(),
            final(self).oneshot_spec() == old(self).oneshot_spec(),
            final(self).pm_spec().profiles_spec() == old(self).pm_spec().profiles_spec(),
        decreases 2 * old(self).pm_spec().variants_spec().len() + 1,
    {
        match self.pm.next_variant() {
            None => {
                self.state = DSMState::NoVariantApplied;
                if self.oneshot {
                    self.encountered_shutdown = true;
                }
                proof {
                    lemma_added_empty(out@);
                    assert(old(self).pm_spec().variants_spec().len() == 0);
                    assert(first_configurable(old(self).pm_spec().variants_spec(), backend.store_spec(), old(self).pm_spec().profiles_spec(), 0) == 0);
                }
            },
            Some(mut v) => {
                proof {
                    assert(old(self).pm_spec().variants_spec()[0] == v);
                }
                let ghost v0 = v;
                let action = v.start(self.skip_tests);
                proof {
                    assert(v.pairings@ == v0.pairings@ && v.profile == v0.profile);
                    if variant_configurable(backend.store_spec(), &v0, self.pm.profiles_spec()[v0.profile as int].outputs@) {
                        assert(variant_configurable(backend.store_spec(), &v, self.pm.profiles_spec()[v.profile as int].outputs@));
                    }
                }
                let test = match action {
                    DSMAction::TestVariant => true,
                    _ => false,
                };
                let ghost q = old(self).pm_spec().variants_spec();
                let ghost profiles = old(self).pm_spec().profiles_spec();
                let ghost store = backend.store_spec();
                let ghost vs = v;
                proof {
                    assert(test == !self.skip_tests);
                    assert(self.pm.variants_spec() =~= q.drop_first());
                    assert(configured(store, &vs, profiles[vs.profile as int].outputs@) == configured(
                        store,
                        &q[0],
                        profiles[q[0].profile as int].outputs@,
                    ));
                }
                self.issue(v, test, backend, out);
                proof {
                    let add = added(out@, old(out)@.len());
                    if variant_configurable(store, &q[0], profiles[q[0].profile as int].outputs@) {
                        assert(first_configurable(q, store, profiles, 0) == 0);
                        assert(q.drop_first() =~= q.subrange(1, q.len() as int));
                    } else {
                        lemma_first_configurable_shift(q, store, profiles, 0);
                        let k2 = first_configurable(q.drop_first(), store, profiles, 0);
                        assert(first_configurable(q, store, profiles, 0) == k2 + 1);
                        if k2 < q.drop_first().len() {
                            assert(q.drop_first()[k2 as int] == q[k2 as int + 1]);
                            assert(q.drop_first().subrange(k2 as int + 1, q.drop_first().len() as int) =~= q.subrange(
                                k2 as int + 2,
                                q.len() as int,
                            ));
                        }
                    }
                }
            },
        }
    }

    /// Starts over from the current heads: waits for an outstanding
    /// configuration first; keeps an applied variant, or having none, where
    /// the heads did not change; else ranks the variants anew and starts the
    /// best.
    fn restart(&mut self, backend: &WlBackend, out: &mut Vec<DaemonRequest>)
        requires
            old(self).wf(),
            backend.wf(),
            !(*old(self).state_spec() is RestartAfterResponse),
        ensures
            final(self).wf(),
            final(out)@.len() >= old(out)@.len(),
            final(out)@.subrange(0, old(out)@.len() as int) == old(out)@,
            outstanding(old(self).state_spec()) ==> *final(self).state_spec() is RestartAfterResponse
                && final(out)@ == old(out)@ && final(self).pm_spec() == old(self).pm_spec()
                && final(self).shutdown_spec() == old(self).shutdown_spec(),
            !outstanding(old(self).state_spec()) ==> configurations(added(final(out)@, old(out)@.len())) <= 1
                && (outstanding(final(self).state_spec()) <==> configurations(added(final(out)@, old(out)@.len())) == 1),
            (*old(self).state_spec() is VariantApplied || *old(self).state_spec() is NoVariantApplied)
                && backend.store_spec().exportable() && heads_unchanged(
                old(self).pm_spec().cached_heads_spec(),
                backend.store_spec().heads_spec(),
            ) ==> final(self).state_spec() == old(self).state_spec() && final(out)@ == old(out)@ && final(self).pm_spec()
                == old(self).pm_spec(),
            !outstanding(old(self).state_spec()) && configurations(added(final(out)@, old(out)@.len())) == 0
                ==> final(self).state_spec() == old(self).state_spec() || (*final(self).state_spec() is NoVariantApplied
                && final(self).pm_spec().variants_spec().len() == 0 && (old(self).oneshot_spec() ==> final(self).shutdown_spec())),
            !outstanding(old(self).state_spec()) ==> started_next(final(self), added(final(out)@, old(out)@.len()), old(self).skip_tests_spec()),
            !outstanding(old(self).state_spec()) && backend.store_spec().exportable()
                && backend.store_spec().heads_spec().len() < 0x7fff_ffff && !((*old(self).state_spec() is VariantApplied
                || *old(self).state_spec() is NoVariantApplied) && heads_unchanged(
                old(self).pm_spec().cached_heads_spec(),
                backend.store_spec().heads_spec(),
            )) ==> identities(final(self).pm_spec().cached_heads_spec()) == store_identities(backend.store_spec().heads_spec())
                && backend.store_spec().is_snapshot(final(self).pm_spec().cached_heads_spec())
                && final(self).pm_spec().restriction_spec() is None && exists|q: Seq<ValidVariant>|
                #[trigger] generation(
                    old(self).pm_spec().profiles_spec(),
                    old(self).pm_spec().restriction_spec(),
                    final(self).pm_spec().cached_heads_spec(),
                    q,
                ) && started_from(
                    q,
                    backend.store_spec(),
                    old(self).pm_spec().profiles_spec(),
                    old(self).oneshot_spec(),
                    old(self).shutdown_spec(),
                    old(self).skip_tests_spec(),
                    final(self),
                    added(final(out)@, old(out)@.len()),
                ),
            !outstanding(old(self).state_spec()) && backend.store_spec().exportable()
                && backend.store_spec().heads_spec().len() < 0x7fff_ffff && !((*old(self).state_spec() is VariantApplied
                || *old(self).state_spec() is NoVariantApplied) && heads_unchanged(
                old(self).pm_spec().cached_heads_spec(),
                backend.store_spec().heads_spec(),
            )) && configurations(added(final(out)@, old(out)@.len())) == 0 ==> forall|p: int|
                0 <= p < old(self).pm_spec().profiles_spec().len() && admitted(
                    old(self).pm_spec().restriction_spec(),
                    old(self).pm_spec().profiles_spec()[p],
                ) ==> !#[trigger] matchable(old(self).pm_spec().profiles_spec()[p], final(self).pm_spec().cached_heads_spec()),
            old(self).shutdown_spec() ==> final(self).shutdown_spec(),
            final(self).shutdown_spec() ==> old(self).shutdown_spec() || old(self).oneshot_spec(),
            final(self).skip_tests_spec() == old(self).skip_tests_spec(),
            final(self).oneshot_spec() == old(self).oneshot_spec(),
            final(self).pm_spec().profiles_spec() == old(self).pm_spec().profiles_spec(),
    {
        let busy = match &self.state {
            DSMState::VariantInProgress(v) => v.state == VariantState::Testing || v.state == VariantState::Applying,
            _ => false,
        };
        if busy {
            self.state = DSMState::RestartAfterResponse;
            return;
        }
        let keep = match &self.state {
            DSMState::NoVariantApplied => true,
            DSMState::VariantApplied(_) => true,
            _ => false,
        };
        let ghost mut regenerated = false;
        let ghost mut hs_g: Seq<WlHead> = Seq::empty();
        let ghost rest_g = self.pm.restriction_spec();
        if let Some(heads) = backend.export_heads() {
            proof {
                lemma_snapshot_identities(self.pm.cached_heads_spec(), heads@, backend.store_spec().heads_spec());
            }
            if keep && !self.pm.is_cache_outdated(&heads) {
                proof {
                    lemma_added_empty(out@);
                    assert(out@.subrange(0, out@.len() as int) =~= out@);
                }
                return;
            }
            self.pm.clear();
            if heads.len() < 0x7fff_ffff {
                let ghost hs = heads@;
                self.pm.generate_variants(heads);
                proof {
                    lemma_queue_configurable(&self.pm, backend.store_spec(), hs);
                    regenerated = true;
                    hs_g = hs;
                    assert(identities(hs) =~= store_identities(backend.store_spec().heads_spec()));
                }
            }
        }
        self.state = DSMState::NoVariantApplied;
        let ghost queue = self.pm.variants_spec();
        self.next_variant(backend, out);
        proof {
            if regenerated {
                assert(generation(
                    old(self).pm_spec().profiles_spec(),
                    old(self).pm_spec().restriction_spec(),
                    self.pm.cached_heads_spec(),
                    queue,
                ));
            }
            if regenerated && configurations(added(out@, old(out)@.len())) == 0 {
                if queue.len() > 0 {
                    assert(variant_configurable(
                        backend.store_spec(),
                        &queue[0],
                        self.pm.profiles_spec()[queue[0].profile as int].outputs@,
                    ));
                }
                assert(queue.len() == 0);
                assert forall|p: int|
                    0 <= p < self.pm.profiles_spec().len() && admitted(rest_g, self.pm.profiles_spec()[p]) implies !#[trigger] matchable(
                    self.pm.profiles_spec()[p],
                    hs_g,
                ) by {
                    if matchable(self.pm.profiles_spec()[p], hs_g) {
                        let i = choose|i: int| 0 <= i < queue.len() && (#[trigger] queue[i]).profile == p;
                    }
                }
            }
        }
    }

    fn commands_for(&self, v: &ValidVariant) -> (r: CommandBuilder)
        requires
            variant_fits(v, self.pm.profiles_spec()),
        ensures
            commands_of(&r, &self.pm.profiles_spec()[v.profile as int], self.oneshot, v.pairings@, self.pm.cached_heads_spec()),
    {
        let profile = &self.pm.profiles()[v.profile];
        let mut cmdb = CommandBuilder::new(profile.name.clone());
        cmdb.oneshot(self.oneshot);
        if let Some(cmds) = &profile.commands {
            cmdb.profile_commands(clone_strings(cmds));
        }
        proof {
            if profile.commands is None {
                assert(cmdb.profile_commands_spec() =~= Seq::<String>::empty());
            }
            assert(cmdb.heads_view_spec() =~= Seq::<(Seq<char>, Seq<String>)>::empty());
        }
        let heads = self.pm.cached_heads();
        let mut i: usize = 0;
        while i < v.pairings.len()
            invariant
                variant_fits(v, self.pm.profiles_spec()),
                profile == &self.pm.profiles_spec()[v.profile as int],
                i <= v.pairings@.len(),
                heads@ == self.pm.cached_heads_spec(),
                cmdb.profile_name_spec() == profile.name@,
                cmdb.oneshot_spec() == self.oneshot,
                cmdb.profile_commands_spec() == match profile.commands {
                    Some(cmds) => cmds@,
                    None => Seq::empty(),
                },
                cmdb.heads_view_spec() == head_commands_upto(v.pairings@, profile.outputs@, heads@, i as nat),
            decreases v.pairings@.len() - i,
        {
            let p = v.pairings[i];
            if p.head < heads.len() {
                if let Some(cmds) = &profile.outputs[p.output].commands {
                    cmdb.insert_head_commands(heads[p.head].base.name.clone(), clone_strings(cmds));
                }
            }
            i += 1;
        }
        cmdb
    }

    /// Carries out what the variant's state machine asked for.
    fn do_action(&mut self, action: DSMAction, v: ValidVariant, backend: &WlBackend, out: &mut Vec<DaemonRequest>)
        requires
            old(self).wf(),
            backend.wf(),
            variant_fits(&v, old(self).pm_spec().profiles_spec()),
            action == DSMAction::TestVariant ==> v.state == VariantState::Testing,
            action == DSMAction::ApplyVariant ==> v.state == VariantState::Applying,
            action == DSMAction::Restart || action == DSMAction::TryNextVariant ==> v.state
                == VariantState::Discarded,
            action == DSMAction::ExecCmd ==> v.state == VariantState::Applied,
        ensures
            final(self).wf(),
            final(out)@.len() >= old(out)@.len(),
            final(out)@.subrange(0, old(out)@.len() as int) == old(out)@,
            action != DSMAction::Inert ==> configurations(added(final(out)@, old(out)@.len())) <= 1
                && (outstanding(final(self).state_spec()) <==> configurations(added(final(out)@, old(out)@.len())) == 1),
            action == DSMAction::Inert ==> final(out)@ == old(out)@ && *final(self).state_spec() == DSMState::VariantInProgress(v)
                && final(self).pm_spec() == old(self).pm_spec(),
            (action == DSMAction::TestVariant || action == DSMAction::ApplyVariant) && variant_configurable(
                backend.store_spec(),
                &v,
                old(self).pm_spec().profiles_spec()[v.profile as int].outputs@,
            ) ==> *final(self).state_spec() == DSMState::VariantInProgress(v) && added(final(out)@, old(out)@.len()).len()
                == 1 && is_configuration(&added(final(out)@, old(out)@.len())[0]) && (added(final(out)@, old(out)@.len())[0] is Test
                <==> action == DSMAction::TestVariant) && final(self).pm_spec() == old(self).pm_spec(),
            (action == DSMAction::TestVariant || action == DSMAction::ApplyVariant || action == DSMAction::TryNextVariant
                || action == DSMAction::Restart) && !((action == DSMAction::TestVariant || action == DSMAction::ApplyVariant)
                && variant_configurable(
                backend.store_spec(),
                &v,
                old(self).pm_spec().profiles_spec()[v.profile as int].outputs@,
            )) ==> started_next(final(self), added(final(out)@, old(out)@.len()), old(self).skip_tests_spec()),
            action == DSMAction::TryNextVariant && configurations(added(final(out)@, old(out)@.len())) == 0
                ==> *final(self).state_spec() is NoVariantApplied && final(self).pm_spec().variants_spec().len() == 0
                && (old(self).oneshot_spec() ==> final(self).shutdown_spec()),
            action == DSMAction::Restart && backend.store_spec().exportable() && backend.store_spec().heads_spec().len()
                < 0x7fff_ffff ==> identities(final(self).pm_spec().cached_heads_spec()) == store_identities(
                backend.store_spec().heads_spec(),
            ) && backend.store_spec().is_snapshot(final(self).pm_spec().cached_heads_spec()) && (configurations(added(final(out)@, old(out)@.len())) == 0 ==> forall|p: int|
                0 <= p < old(self).pm_spec().profiles_spec().len() && admitted(
                    old(self).pm_spec().restriction_spec(),
                    old(self).pm_spec().profiles_spec()[p],
                ) ==> !#[trigger] matchable(old(self).pm_spec().profiles_spec()[p], final(self).pm_spec().cached_heads_spec())),
            (action == DSMAction::TestVariant || action == DSMAction::ApplyVariant) && variant_configurable(
                backend.store_spec(),
                &v,
                old(self).pm_spec().profiles_spec()[v.profile as int].outputs@,
            ) ==> submits(
                added(final(out)@, old(out)@.len())[0],
                backend.store_spec(),
                &v,
                old(self).pm_spec().profiles_spec()[v.profile as int].outputs@,
                action == DSMAction::TestVariant,
            ) && final(self).shutdown_spec() == old(self).shutdown_spec(),
            ((action == DSMAction::TestVariant || action == DSMAction::ApplyVariant) && !variant_configurable(
                backend.store_spec(),
                &v,
                old(self).pm_spec().profiles_spec()[v.profile as int].outputs@,
            )) || action == DSMAction::TryNextVariant ==> started_from(
                old(self).pm_spec().variants_spec(),
                backend.store_spec(),
                old(self).pm_spec().profiles_spec(),
                old(self).oneshot_spec(),
                old(self).shutdown_spec(),
                old(self).skip_tests_spec(),
                final(self),
                added(final(out)@, old(out)@.len()),
            ),
            action == DSMAction::Restart && backend.store_spec().exportable() && backend.store_spec().heads_spec().len()
                < 0x7fff_ffff ==> exists|q: Seq<ValidVariant>|
                #[trigger] generation(
                    old(self).pm_spec().profiles_spec(),
                    old(self).pm_spec().restriction_spec(),
                    final(self).pm_spec().cached_heads_spec(),
                    q,
                ) && started_from(
                    q,
                    backend.store_spec(),
                    old(self).pm_spec().profiles_spec(),
                    old(self).oneshot_spec(),
                    old(self).shutdown_spec(),
                    old(self).skip_tests_spec(),
                    final(self),
                    added(final(out)@, old(out)@.len()),
                ),
            action == DSMAction::ExecCmd ==> {
                &&& *final(self).state_spec() == DSMState::VariantApplied(v)
                &&& added(final(out)@, old(out)@.len()).len() == 1
                &&& match added(final(out)@, old(out)@.len())[0] {
                    DaemonRequest::Exec(c) => commands_of(
                        &c,
                        &old(self).pm_spec().profiles_spec()[v.profile as int],
                        old(self).oneshot_spec(),
                        v.pairings@,
                        old(self).pm_spec().cached_heads_spec(),
                    ),
                    _ => false,
                }
                &&& final(self).shutdown_spec() == (old(self).shutdown_spec() || old(self).oneshot_spec())
                &&& final(self).pm_spec() == old(self).pm_spec()
            },
            action == DSMAction::ExecCmd && final(self).shutdown_spec() != old(self).shutdown_spec() ==> old(self).oneshot_spec(),
            final(self).shutdown_spec() ==> old(self).shutdown_spec() || old(self).oneshot_spec(),
            final(self).skip_tests_spec() == old(self).skip_tests_spec(),
            old(self).shutdown_spec() ==> final(self).shutdown_spec(),
            final(self).oneshot_spec() == old(self).oneshot_spec(),
            final(self).pm_spec().profiles_spec() == old(self).pm_spec().profiles_spec(),
    {
        match action {
            DSMAction::Restart => {
                self.state = DSMState::VariantInProgress(v);
                self.restart(backend, out);
            },
            DSMAction::TestVariant => {
                self.issue(v, true, backend, out);
            },
            DSMAction::ApplyVariant => {
                self.issue(v, false, backend, out);
            },
            DSMAction::TryNextVariant => {
                self.next_variant(backend, out);
            },
            DSMAction::ExecCmd => {
                let cmdb = self.commands_for(&v);
                let ghost before = out@;
                out.push(DaemonRequest::Exec(cmdb));
                proof {
                    lemma_added_empty(before);
                    lemma_added_push(before, before.len() as nat, out@.last());
                    lemma_configurations_push(added(before, before.len() as nat), out@.last());
                    assert(out@.subrange(0, before.len() as int) =~= before);
                }
                self.state = DSMState::VariantApplied(v);
                if self.oneshot {
                    self.encountered_shutdown = true;
                }
            },
            DSMAction::Inert => {
                self.state = DSMState::VariantInProgress(v);
                proof {
                    assert(out@ == old(out)@);
                }
            },
        }
    }

    /// Reacts to one event. A configuration is submitted only where none is
    /// waiting for its outcome, or the event is that outcome; at most one is
    /// submitted, and one is waiting afterwards exactly when one was waiting
    /// and the event was not its outcome, or one was submitted.
    pub fn advance(&mut self, event: WlBackendEvent, backend: &WlBackend, out: &mut Vec<DaemonRequest>)
        requires
            old(self).wf(),
            backend.wf(),
        ensures
            final(self).wf(),
            final(out)@.len() >= old(out)@.len(),
            final(out)@.subrange(0, old(out)@.len() as int) == old(out)@,
            advance_post(old(self), event, backend.store_spec(), final(self), added(final(out)@, old(out)@.len())),
    {
        if event == WlBackendEvent::NeededResourceFinished {
            self.shutdown();
            proof {
                lemma_added_empty(out@);
            }
            return;
        }
        let current = self.take_state();
        match current {
            DSMState::NoVariantApplied => {
                if event == WlBackendEvent::AtomicChangeDone {
                    self.restart(backend, out);
                } else {
                    proof {
                        lemma_added_empty(out@);
                        assert(out@.subrange(0, out@.len() as int) =~= out@);
                    }
                }
            },
            DSMState::VariantApplied(v) => {
                self.state = DSMState::VariantApplied(v);
                if event == WlBackendEvent::AtomicChangeDone {
                    self.restart(backend, out);
                } else {
                    proof {
                        lemma_added_empty(out@);
                        assert(out@.subrange(0, out@.len() as int) =~= out@);
                    }
                }
            },
            DSMState::RestartAfterResponse => {
                if event == WlBackendEvent::AtomicChangeDone {
                    self.state = DSMState::RestartAfterResponse;
                    proof {
                        lemma_added_empty(out@);
                        assert(out@.subrange(0, out@.len() as int) =~= out@);
                    }
                } else {
                    self.restart(backend, out);
                }
            },
            DSMState::VariantInProgress(mut v) => {
                let input = match event {
                    WlBackendEvent::Succeeded => VSMInput::Succeeded,
                    WlBackendEvent::Failed => VSMInput::Failed,
                    WlBackendEvent::Cancelled => VSMInput::Cancelled,
                    _ => VSMInput::AtomicChangeDone,
                };
                let action = v.state.advance(input);
                self.do_action(action, v, backend, out);
                proof {
                    if action == DSMAction::Inert {
                        lemma_added_empty(out@);
                        assert(out@.subrange(0, out@.len() as int) =~= out@);
                    }
                }
            },
        }
    }

    /// Reacts to a batch of events in order. Where the batch holds
    /// `NeededResourceFinished`, shuts down before anything else. Otherwise
    /// each event is advanced in turn, stopping early only at a shutdown.
    /// Returns whether the machine has shut down.
    pub fn process_event_queue(&mut self, events: &Vec<WlBackendEvent>, backend: &WlBackend, out: &mut Vec<DaemonRequest>) -> (r: bool)
        requires
            old(self).wf(),
            backend.wf(),
        ensures
            final(self).wf(),
            r == final(self).shutdown_spec(),
            final(out)@.len() >= old(out)@.len(),
            final(out)@.subrange(0, old(out)@.len() as int) == old(out)@,
            old(self).shutdown_spec() ==> final(out)@ == old(out)@ && *final(self) == *old(self),
            !old(self).shutdown_spec() && events@.contains(WlBackendEvent::NeededResourceFinished) ==> r && final(out)@
                == old(out)@ && *final(self).state_spec() is NoVariantApplied && final(self).pm_spec() == old(self).pm_spec(),
            !old(self).shutdown_spec() && !events@.contains(WlBackendEvent::NeededResourceFinished) ==> batch_trace(
                old(self),
                events@,
                backend.store_spec(),
                final(self),
                old(out)@.len() as int,
                final(out)@,
            ),
    {
        if self.encountered_shutdown {
            return true;
        }
        let mut i: usize = 0;
        while i < events.len()
            invariant
                i <= events@.len(),
                *self == *old(self),
                self.wf(),
                !old(self).shutdown_spec(),
                out@ == old(out)@,
                forall|j: int| 0 <= j < i ==> events@[j] != WlBackendEvent::NeededResourceFinished,
            decreases events@.len() - i,
        {
            if events[i] == WlBackendEvent::NeededResourceFinished {
                self.shutdown();
                return true;
            }
            i += 1;
        }
        proof {
            assert(!events@.contains(WlBackendEvent::NeededResourceFinished));
        }
        let ghost mut trace: Seq<DaemonStateMachine> = seq![*self];
        let ghost mut cuts: Seq<int> = seq![out@.len() as int];
        let ghost start = old(out)@.len() as int;
        let mut k: usize = 0;
        while k < events.len()
            invariant
                k <= events@.len(),
                self.wf(),
                backend.wf(),
                !self.shutdown_spec(),
                !old(self).shutdown_spec(),
                !events@.contains(WlBackendEvent::NeededResourceFinished),
                out@.len() >= old(out)@.len(),
                out@.subrange(0, old(out)@.len() as int) == old(out)@,
                trace.len() == k + 1,
                cuts.len() == k + 1,
                trace[0] == *old(self),
                trace[k as int] == *self,
                cuts[0] == start,
                start == old(out)@.len(),
                cuts[k as int] == out@.len(),
                forall|j: int| 0 <= j < k ==> start <= #[trigger] cuts[j] <= cuts[j + 1] <= out@.len(),
                forall|j: int|
                    0 <= j < k ==> advance_post(
                        &trace[j],
                        events@[j],
                        backend.store_spec(),
                        &trace[j + 1],
                        #[trigger] out@.subrange(cuts[j], cuts[j + 1]),
                    ),
            decreases events@.len() - k,
        {
            let ghost before = out@;
            self.advance(events[k], backend, out);
            proof {
                assert forall|j: int| 0 <= j < k implies #[trigger] out@.subrange(cuts[j], cuts[j + 1]) == before.subrange(
                    cuts[j],
                    cuts[j + 1],
                ) by {
                    assert(out@.subrange(cuts[j], cuts[j + 1]) =~= out@.subrange(0, before.len() as int).subrange(
                        cuts[j],
                        cuts[j + 1],
                    ));
                }
                assert(out@.subrange(0, old(out)@.len() as int) =~= out@.subrange(0, before.len() as int).subrange(
                    0,
                    old(out)@.len() as int,
                ));
                trace = trace.push(*self);
                cuts = cuts.push(out@.len() as int);
                assert(added(out@, before.len()) == out@.subrange(cuts[k as int], cuts[k + 1]));
            }
            if self.encountered_shutdown {
                proof {
                    assert(batch_trace_with(old(self), events@, backend.store_spec(), self, start, out@, trace, cuts));
                }
                return true;
            }
            k += 1;
        }
        proof {
            assert(batch_trace_with(old(self), events@, backend.store_spec(), self, start, out@, trace, cuts));
        }
        false
    }

    /// Forces a re-evaluation as if the heads had changed: the head cache is
    /// cleared and a completed change is advanced.
    pub fn simulate_change(&mut self, backend: &WlBackend, out: &mut Vec<DaemonRequest>)
        requires
            old(self).wf(),
            backend.wf(),
        ensures
            final(self).wf(),
            final(out)@.len() >= old(out)@.len(),
            final(out)@.subrange(0, old(out)@.len() as int) == old(out)@,
            final(self).pm_spec().profiles_spec() == old(self).pm_spec().profiles_spec(),
            exists|mid: DaemonStateMachine|
                #[trigger] reevaluates(
                    old(self),
                    &mid,
                    backend.store_spec(),
                    final(self),
                    added(final(out)@, old(out)@.len()),
                    old(self).pm_spec().profiles_spec(),
                    old(self).pm_spec().restriction_spec(),
                    old(self).state_spec(),
                ),
    {
        self.pm.clear_cached_heads();
        let ghost mid = *self;
        self.advance(WlBackendEvent::AtomicChangeDone, backend, out);
        proof {
            assert(reevaluates(
                old(self),
                &mid,
                backend.store_spec(),
                self,
                added(out@, old(out)@.len()),
                old(self).pm_spec().profiles_spec(),
                old(self).pm_spec().restriction_spec(),
                old(self).state_spec(),
            ));
        }
    }

    /// Restricts the next choice of profiles to those named `name` and
    /// re-evaluates. Where no profile has that name, nothing changes and the
    /// result is false.
    pub fn switch_profile(&mut self, name: String, backend: &WlBackend, out: &mut Vec<DaemonRequest>) -> (r: bool)
        requires
            old(self).wf(),
            backend.wf(),
        ensures
            final(self).wf(),
            r == exists|i: int|
                0 <= i < old(self).pm_spec().profiles_spec().len()
                    && (#[trigger] old(self).pm_spec().profiles_spec()[i]).name@ == name@,
            !r ==> *final(self) == *old(self) && final(out)@ == old(out)@,
            r ==> exists|mid: DaemonStateMachine|
                #[trigger] reevaluates(
                    old(self),
                    &mid,
                    backend.store_spec(),
                    final(self),
                    added(final(out)@, old(out)@.len()),
                    old(self).pm_spec().profiles_spec(),
                    Some(Restriction { pattern: SearchPattern::Fulltext(name) }),
                    old(self).state_spec(),
                ),
            final(out)@.len() >= old(out)@.len(),
            final(out)@.subrange(0, old(out)@.len() as int) == old(out)@,
            final(self).pm_spec().profiles_spec() == old(self).pm_spec().profiles_spec(),
    {
        let ghost nm = name;
        let rest = Restriction::new(SearchPattern::Fulltext(name));
        if !self.pm.test_restriction(&rest) {
            proof {
                assert(out@.subrange(0, out@.len() as int) =~= out@);
            }
            return false;
        }
        self.pm.restrict(rest);
        self.pm.clear_cached_heads();
        let ghost mid = *self;
        self.advance(WlBackendEvent::AtomicChangeDone, backend, out);
        proof {
            assert(reevaluates(
                old(self),
                &mid,
                backend.store_spec(),
                self,
                added(out@, old(out)@.len()),
                old(self).pm_spec().profiles_spec(),
                Some(Restriction { pattern: SearchPattern::Fulltext(nm) }),
                old(self).state_spec(),
            ));
        }
        true
    }

    /// Replaces the profiles and re-evaluates. A configuration waiting for
    /// its outcome is let be; the restart follows its outcome.
    pub fn reload(&mut self, profiles: Vec<Profile>, backend: &WlBackend, out: &mut Vec<DaemonRequest>)
        requires
            old(self).wf(),
            backend.wf(),
        ensures
            final(self).wf(),
            final(self).pm_spec().profiles_spec() == profiles@,
            final(out)@.len() >= old(out)@.len(),
            final(out)@.subrange(0, old(out)@.len() as int) == old(out)@,
            outstanding(old(self).state_spec()) ==> *final(self).state_spec() is RestartAfterResponse && final(out)@
                == old(out)@ && final(self).pm_spec().variants_spec().len() == 0,
            !outstanding(old(self).state_spec()) ==> exists|mid: DaemonStateMachine|
                #[trigger] reevaluates(
                    old(self),
                    &mid,
                    backend.store_spec(),
                    final(self),
                    added(final(out)@, old(out)@.len()),
                    profiles@,
                    old(self).pm_spec().restriction_spec(),
                    &DSMState::NoVariantApplied,
                ),
    {
        let ghost new_profiles = profiles@;
        let busy = match &self.state {
            DSMState::VariantInProgress(v) => v.state == VariantState::Testing || v.state == VariantState::Applying,
            DSMState::RestartAfterResponse => true,
            _ => false,
        };
        self.pm.set_profiles(profiles);
        if busy {
            self.state = DSMState::RestartAfterResponse;
            proof {
                assert(out@.subrange(0, out@.len() as int) =~= out@);
            }
        } else {
            self.state = DSMState::NoVariantApplied;
            let ghost mid = *self;
            self.advance(WlBackendEvent::AtomicChangeDone, backend, out);
            proof {
                assert(reevaluates(
                    old(self),
                    &mid,
                    backend.store_spec(),
                    self,
                    added(out@, old(out)@.len()),
                    new_profiles,
                    old(self).pm_spec().restriction_spec(),
                    &DSMState::NoVariantApplied,
                ));
            }
        }
    }
}

/// Copies a list of strings.
fn clone_strings(v: &Vec<String>) -> (r: Vec<String>)
    ensures
        r@ == v@,
{
    let mut r: Vec<String> = Vec::new();
    let mut i: usize = 0;
    while i < v.len()
        invariant
            i <= v@.len(),
            r@ == v@.subrange(0, i as int),
        decreases v@.len() - i,
    {
        r.push(v[i].clone());
        i += 1;
        proof {
            assert(r@ =~= v@.subrange(0, i as int));
        }
    }
    proof {
        assert(r@ =~= v@);
    }
    r
}

} // verus!
