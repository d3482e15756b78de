//! Plugin pools: a bounded store of initialized plugin instances for one
//! plugin name.
//!
//! [`PoolState`] is the store as one thread sees it while it holds the
//! pool's lock: every operation on it has an exact contract. [`PluginPool`]
//! is the shared pool: a `PoolState` behind a mutex, with what never changes
//! beside it (the name, the configuration and the outcome of its check).
//! What a call on a `PluginPool` finds in the store depends on what other
//! threads did, so its contracts state what the pool's own values decide
//! and, of the store, what holds of every outcome.

use crate::sync::lock;
use crate::sync::locked_mut;
use crate::sync::millis_since;
use crate::sync::new_condvar;
use crate::sync::new_mutex;
use crate::sync::notify_one;
use crate::sync::now;
use crate::sync::MutexLocked;
use parking_lot::lock_api::Mutex;
use parking_lot::Condvar;
use parking_lot::RawMutex;
use std::sync::Arc;
use vstd::pervasive::unreached;
use vstd::prelude::*;

verus! {

/// The outcome of a formatting call as a mathematical value.
pub open spec fn text_result(result: Result<String, String>) -> Result<Seq<char>, Seq<char>> {
    match result {
        Ok(text) => Ok(text@),
        Err(message) => Err(message@),
    }
}

/// A stateful formatting engine. Instances are expensive to create and must
/// only be used by one caller at a time, which the pools see to.
pub trait Plugin: Sized {
    /// What an instance is created from: the plugin's configuration.
    type Setup;

    /// What [`Plugin::config_diagnostic_count`] may answer for a
    /// configuration. A plugin that does not say what it answers allows
    /// everything.
    open spec fn diagnoses(setup: &Self::Setup, count: usize) -> bool {
        true
    }

    /// What one call of [`Plugin::format_text`] may do: `self` is the
    /// instance before the call and `after` the instance after it, and
    /// `setup` is the configuration that the call is made with. A plugin
    /// that does not say what its calls do allows everything.
    open spec fn formats(
        &self,
        setup: &Self::Setup,
        file_path: Seq<char>,
        file_text: Seq<char>,
        result: Result<Seq<char>, Seq<char>>,
        after: &Self,
    ) -> bool {
        true
    }

    /// The number of problems in the configuration. A plugin with a problem
    /// in its configuration never formats.
    fn config_diagnostic_count(setup: &Self::Setup) -> (count: usize)
        ensures
            Self::diagnoses(setup, count),
    ;

    /// Whether [`Plugin::initialize`] may fail with this message for a
    /// configuration. A plugin that does not say how it fails allows
    /// everything.
    open spec fn fails_to_initialize(setup: &Self::Setup, message: Seq<char>) -> bool {
        true
    }

    /// Creates and initializes an instance, or says why none can be
    /// created.
    fn initialize(setup: &Self::Setup) -> (created: Result<Self, String>)
        ensures
            created matches Err(message) ==> Self::fails_to_initialize(setup, message@),
    ;

    /// Formats the text of one file with the given configuration, which is
    /// that of the pool that the instance is checked out from. `Ok` holds
    /// the formatted text, `Err` the reason why the text could not be
    /// formatted.
    fn format_text(&mut self, setup: &Self::Setup, file_path: &str, file_text: &str) -> (result:
        Result<String, String>)
        ensures
            old(self).formats(setup, file_path@, file_text@, text_result(result), final(self)),
    ;
}

/// What a pool has measured of its plugin, in milliseconds.
#[derive(Clone, Copy, Debug, PartialEq, Eq)]
pub struct PoolTimeSnapshot {
    /// How long the last initialization of an instance took.
    pub startup_time: u64,
    /// The mean time of the formatting calls so far, 0 before the first.
    pub average_format_time: u64,
    /// Whether an idle instance was in the pool.
    pub has_plugin_available: bool,
}

/// What [`PoolState::checkout`] decides.
pub enum Checkout<P> {
    /// An idle instance, now checked out to the caller.
    Instance(P),
    /// The caller is to create an instance, which counts as checked out.
    Create,
    /// No instance is idle and none may be created: wait for a release.
    Busy,
}

/// What a checkout from a shared pool gives.
pub enum TakePluginResult<P> {
    /// An instance, checked out to the caller, who owes one release.
    Success(P),
    /// The plugin's configuration has this many problems.
    HadDiagnostics(usize),
}

/// The store of a pool: the idle instances, the number of instances that
/// exist, the bound on that number, and time measurements.
pub struct PoolState<P> {
    idle: Vec<P>,
    created: usize,
    capacity: usize,
    startup_time: u64,
    format_time_total: u64,
    format_count: u64,
}

impl<P> PoolState<P> {
    /// The idle instances, the one that is handed out next last.
    pub closed spec fn idle(&self) -> Seq<P> {
        self.idle@
    }

    /// The number of instances that exist: idle or checked out.
    pub closed spec fn created(&self) -> nat {
        self.created as nat
    }

    /// The bound on the number of instances that exist.
    pub closed spec fn capacity(&self) -> nat {
        self.capacity as nat
    }

    /// How long the last initialization of an instance took, in
    /// milliseconds.
    pub closed spec fn startup_time(&self) -> u64 {
        self.startup_time
    }

    /// The time that the recorded formatting calls took together, in
    /// milliseconds.
    pub closed spec fn format_time_total(&self) -> u64 {
        self.format_time_total
    }

    /// The number of formatting calls that were recorded.
    pub closed spec fn format_count(&self) -> u64 {
        self.format_count
    }

    /// The number of instances that callers hold.
    pub open spec fn checked_out(&self) -> int {
        self.created() - self.idle().len()
    }

    /// No more instances exist than the capacity allows, and no more are
    /// idle than exist.
    pub open spec fn well_formed(&self) -> bool {
        &&& self.idle().len() <= self.created()
        &&& self.created() <= self.capacity()
        &&& 1 <= self.capacity()
    }

    #[verifier::type_invariant]
    spec fn type_inv(self) -> bool {
        self.well_formed()
    }

    /// Whether a checkout has to wait for a release.
    pub open spec fn spec_must_wait(&self) -> bool {
        self.idle().len() == 0 && self.created() >= self.capacity()
    }

    /// The mean formatting time, 0 before the first measurement.
    pub open spec fn average_format_time(&self) -> int {
        if self.format_count() == 0 {
            0
        } else {
            self.format_time_total() as int / self.format_count() as int
        }
    }

    /// Whether `after` has the capacity and the measurements of `self`.
    pub open spec fn same_settings(&self, after: Self) -> bool {
        &&& after.capacity() == self.capacity()
        &&& after.startup_time() == self.startup_time()
        &&& after.format_time_total() == self.format_time_total()
        &&& after.format_count() == self.format_count()
    }

    /// What [`PoolState::take_if_available`] does: `after` is the store
    /// after the call, `taken` what the call returned.
    pub open spec fn took(&self, taken: Option<P>, after: Self) -> bool {
        &&& self.same_settings(after)
        &&& after.created() == self.created()
        &&& if self.idle().len() == 0 {
            taken is None && after.idle() == self.idle()
        } else {
            taken == Some(self.idle().last()) && after.idle() == self.idle().drop_last()
        }
    }

    /// What [`PoolState::release`] does: `after` is the store after the
    /// release of `instance`.
    pub open spec fn released(&self, instance: P, after: Self) -> bool {
        &&& self.same_settings(after)
        &&& if self.checked_out() > 0 {
            after.idle() == self.idle().push(instance) && after.created() == self.created()
        } else if self.created() < self.capacity() {
            after.idle() == self.idle().push(instance) && after.created() == self.created() + 1
        } else {
            after.idle() == self.idle() && after.created() == self.created()
        }
    }

    /// What [`PoolState::checkout`] does: `after` is the store after the
    /// call, `decision` what the call returned.
    pub open spec fn checked_out_as(&self, decision: Checkout<P>, after: Self) -> bool {
        &&& self.same_settings(after)
        &&& if self.idle().len() > 0 {
            &&& decision == Checkout::Instance(self.idle().last())
            &&& after.idle() == self.idle().drop_last()
            &&& after.created() == self.created()
        } else if self.created() < self.capacity() {
            &&& decision is Create
            &&& after.idle() == self.idle()
            &&& after.created() == self.created() + 1
        } else {
            &&& decision is Busy
            &&& after.idle() == self.idle()
            &&& after.created() == self.created()
        }
    }

    /// What [`PoolState::creation_failed`] does: `after` is the store after
    /// the call.
    pub open spec fn gave_up_creating(&self, after: Self) -> bool {
        &&& self.same_settings(after)
        &&& after.idle() == self.idle()
        &&& after.created() == if self.checked_out() > 0 {
            self.created() - 1
        } else {
            self.created() as int
        }
    }

    /// Whether a checkout gave the caller an instance to hold: an idle one,
    /// or the leave to create one.
    pub open spec fn gives_instance(decision: Checkout<P>) -> bool {
        decision is Instance || decision is Create
    }

    /// Whether `snapshot` is what the store has measured, with whether it
    /// has an idle instance.
    pub open spec fn measured_as(&self, snapshot: PoolTimeSnapshot) -> bool {
        &&& snapshot.startup_time == self.startup_time()
        &&& snapshot.average_format_time == self.average_format_time()
        &&& snapshot.has_plugin_available == (self.idle().len() > 0)
    }

    /// At no time do callers hold more instances than the capacity allows.
    pub proof fn lemma_checked_out_within_capacity(&self)
        requires
            self.well_formed(),
        ensures
            0 <= self.checked_out() <= self.capacity(),
    {
    }

    /// A checkout that gives an instance counts one more instance as held,
    /// and only gives one while fewer are held than the capacity allows. A
    /// checkout that gives none changes nothing, and is told to wait exactly
    /// where it has to.
    pub proof fn lemma_checkout_counts(&self, decision: Checkout<P>, after: Self)
        requires
            self.well_formed(),
            self.checked_out_as(decision, after),
        ensures
            after.well_formed(),
            Self::gives_instance(decision) ==> after.checked_out() == self.checked_out() + 1
                && self.checked_out() < self.capacity(),
            !Self::gives_instance(decision) ==> after.checked_out() == self.checked_out(),
            decision is Busy <==> self.spec_must_wait(),
    {
    }

    /// An instance that is handed out is idle no longer, so that no second
    /// caller can be given it: it leaves the idle instances, and the others
    /// stay.
    pub proof fn lemma_handed_out_once(&self, decision: Checkout<P>, after: Self)
        requires
            self.well_formed(),
            self.checked_out_as(decision, after),
            decision is Instance,
        ensures
            after.idle().len() == self.idle().len() - 1,
            after.idle().push(decision->Instance_0) == self.idle(),
    {
        assert(self.idle().drop_last().push(self.idle().last()) == self.idle());
    }

    /// The release that follows a checkout ends that checkout: as many
    /// instances are held after it as before the checkout, no instance was
    /// dropped, and the released instance is the next to be handed out.
    pub proof fn lemma_release_ends_checkout(
        &self,
        decision: Checkout<P>,
        held: Self,
        instance: P,
        after: Self,
    )
        requires
            self.well_formed(),
            self.checked_out_as(decision, held),
            Self::gives_instance(decision),
            held.released(instance, after),
        ensures
            after.well_formed(),
            after.checked_out() == self.checked_out(),
            after.created() == held.created(),
            after.idle() == held.idle().push(instance),
    {
    }

    /// A checkout that gave leave to create an instance is undone where the
    /// instance could not be created: the store is as it was before the
    /// checkout.
    pub proof fn lemma_failed_creation_undoes_checkout(
        &self,
        decision: Checkout<P>,
        held: Self,
        after: Self,
    )
        requires
            self.well_formed(),
            self.checked_out_as(decision, held),
            decision is Create,
            held.gave_up_creating(after),
        ensures
            after.well_formed(),
            after.idle() == self.idle(),
            after.created() == self.created(),
            after.checked_out() == self.checked_out(),
    {
    }

    /// A release while no checkout is open changes no count of held
    /// instances: a release cannot end a checkout twice.
    pub proof fn lemma_release_without_checkout(&self, instance: P, after: Self)
        requires
            self.well_formed(),
            self.checked_out() == 0,
            self.released(instance, after),
        ensures
            after.well_formed(),
            after.checked_out() == 0,
    {
    }

    /// An empty store that may hold up to `capacity` instances. A store
    /// always admits one instance: a capacity of 0 counts as 1.
    pub fn new(capacity: usize) -> (state: Self)
        ensures
            state.well_formed(),
            state.idle() == Seq::<P>::empty(),
            state.created() == 0,
            state.capacity() == if capacity == 0 {
                1
            } else {
                capacity as int
            },
            state.startup_time() == 0,
            state.format_time_total() == 0,
            state.format_count() == 0,
    {
        PoolState {
            idle: Vec::new(),
            created: 0,
            capacity: if capacity == 0 {
                1
            } else {
                capacity
            },
            startup_time: 0,
            format_time_total: 0,
            format_count: 0,
        }
    }

    /// Whether a checkout has to wait for a release.
    #[verifier::when_used_as_spec(spec_must_wait)]
    pub fn must_wait(&self) -> (wait: bool)
        ensures
            wait == self.spec_must_wait(),
    {
        self.idle.len() == 0 && self.created >= self.capacity
    }

    /// Takes an idle instance, if the store has one. Never creates one and
    /// never waits. See [`PoolState::took`].
    pub fn take_if_available(&mut self) -> (taken: Option<P>)
        ensures
            final(self).well_formed(),
            old(self).took(taken, *final(self)),
    {
        proof {
            use_type_invariant(&*self);
        }
        let mut idle: Vec<P> = Vec::new();
        std::mem::swap(&mut self.idle, &mut idle);
        let taken = idle.pop();
        std::mem::swap(&mut self.idle, &mut idle);
        taken
    }

    /// Returns an instance to the idle set.
    ///
    /// Where the store has an instance checked out, the release ends that
    /// checkout. An instance that the store does not miss is adopted while
    /// the capacity allows one more, and dropped otherwise, so that a
    /// release never fails. See [`PoolState::released`].
    pub fn release(&mut self, instance: P)
        ensures
            final(self).well_formed(),
            old(self).released(instance, *final(self)),
    {
        proof {
            use_type_invariant(&*self);
        }
        let missed = self.idle.len() < self.created;
        if missed || self.created < self.capacity {
            if !missed {
                self.created = self.created + 1;
            }
            let mut idle: Vec<P> = Vec::new();
            std::mem::swap(&mut self.idle, &mut idle);
            idle.push(instance);
            std::mem::swap(&mut self.idle, &mut idle);
        }
    }

    /// Ends a checkout that gave leave to create an instance, where the
    /// instance could not be created: one instance fewer counts as
    /// existing, if one is counted as held. See
    /// [`PoolState::gave_up_creating`].
    pub fn creation_failed(&mut self)
        ensures
            final(self).well_formed(),
            old(self).gave_up_creating(*final(self)),
    {
        proof {
            use_type_invariant(&*self);
        }
        if self.idle.len() < self.created {
            self.created = self.created - 1;
        }
    }

    /// Decides a checkout: it gives the idle instance that was released
    /// last; where none is idle, it lets the caller create one while fewer
    /// than `capacity` exist; else it is `Busy`. See
    /// [`PoolState::checked_out_as`].
    pub fn checkout(&mut self) -> (decision: Checkout<P>)
        ensures
            final(self).well_formed(),
            old(self).checked_out_as(decision, *final(self)),
    {
        proof {
            use_type_invariant(&*self);
        }
        if self.idle.len() > 0 {
            let mut idle: Vec<P> = Vec::new();
            std::mem::swap(&mut self.idle, &mut idle);
            let taken = idle.pop();
            std::mem::swap(&mut self.idle, &mut idle);
            match taken {
                Some(instance) => Checkout::Instance(instance),
                None => Checkout::Busy,
            }
        } else if self.created < self.capacity {
            self.created = self.created + 1;
            Checkout::Create
        } else {
            Checkout::Busy
        }
    }

    /// Records how long the initialization of an instance took.
    pub fn record_startup_time(&mut self, millis: u64)
        ensures
            final(self).well_formed(),
            final(self).idle() == old(self).idle(),
            final(self).created() == old(self).created(),
            final(self).capacity() == old(self).capacity(),
            final(self).startup_time() == millis,
            final(self).format_time_total() == old(self).format_time_total(),
            final(self).format_count() == old(self).format_count(),
    {
        proof {
            use_type_invariant(&*self);
        }
        self.startup_time = millis;
    }

    /// Records how long one formatting call took. A measurement that would
    /// take the total or the count past the largest `u64` is left out.
    pub fn record_format_time(&mut self, millis: u64)
        ensures
            final(self).well_formed(),
            final(self).idle() == old(self).idle(),
            final(self).created() == old(self).created(),
            final(self).capacity() == old(self).capacity(),
            final(self).startup_time() == old(self).startup_time(),
            old(self).format_time_total() + millis <= u64::MAX && old(self).format_count()
                < u64::MAX ==> final(self).format_time_total() == old(self).format_time_total()
                + millis && final(self).format_count() == old(self).format_count() + 1,
            !(old(self).format_time_total() + millis <= u64::MAX && old(self).format_count()
                < u64::MAX) ==> final(self).format_time_total() == old(self).format_time_total()
                && final(self).format_count() == old(self).format_count(),
    {
        proof {
            use_type_invariant(&*self);
        }
        if millis <= u64::MAX - self.format_time_total && self.format_count < u64::MAX {
            self.format_time_total = self.format_time_total + millis;
            self.format_count = self.format_count + 1;
        }
    }

    /// What the store has measured, and whether an instance is idle.
    pub fn time_snapshot(&self) -> (snapshot: PoolTimeSnapshot)
        ensures
            self.measured_as(snapshot),
    {
        let average = if self.format_count == 0 {
            0
        } else {
            self.format_time_total / self.format_count
        };
        PoolTimeSnapshot {
            startup_time: self.startup_time,
            average_format_time: average,
            has_plugin_available: self.idle.len() > 0,
        }
    }
}

/// A pool shared between threads: the name of its plugin, the plugin's
/// configuration with the number of problems that its check found, and a
/// [`PoolState`] behind a mutex, with a condition variable on which
/// checkouts wait for a release.
///
/// The configuration is checked once, when the pool is made, and so before
/// any instance is handed out.
#[verifier::reject_recursive_types(P)]
pub struct PluginPool<P: Plugin> {
    name: String,
    setup: P::Setup,
    diagnostics: usize,
    state: Mutex<RawMutex, PoolState<P>>,
    released: Condvar,
}

/// A plugin slot of a chain: the pool, and an instance checked out from it
/// if there is one.
#[verifier::reject_recursive_types(P)]
pub struct OptionalPluginAndPool<P: Plugin> {
    pub plugin: Option<P>,
    pub pool: Arc<PluginPool<P>>,
}

/// `Condvar::wait_while` with [`PoolState::must_wait`] as its condition:
/// blocks, with the mutex released, until the store has been seen in a
/// state in which a checkout need not wait, and hands out that state with
/// the mutex held again. `released` must only ever be used with the one
/// mutex.
#[verifier::external_body]
fn wait_until_available<'a, 'b, P: Plugin>(
    released: &Condvar,
    locked: &'a mut MutexLocked<'b, PoolState<P>>,
) -> (state: &'a mut PoolState<P>)
    ensures
        !state.must_wait(),
{
    released.wait_while(&mut locked.guard, |state| state.must_wait());
    &mut *locked.guard
}

impl<P: Plugin> PluginPool<P> {
    #[verifier::type_invariant]
    spec fn type_inv(self) -> bool {
        P::diagnoses(&self.setup, self.diagnostics)
    }

    /// The name of the plugin that the pool holds instances of.
    pub closed spec fn spec_name(&self) -> Seq<char> {
        self.name@
    }

    /// The configuration of the plugin.
    pub closed spec fn spec_setup(&self) -> P::Setup {
        self.setup
    }

    /// The number of problems that the check of the configuration found.
    pub closed spec fn spec_diagnostics(&self) -> usize {
        self.diagnostics
    }

    /// Whether the configuration of the plugin has a problem. Such a pool
    /// never hands out an instance.
    pub open spec fn is_broken(&self) -> bool {
        self.spec_diagnostics() > 0
    }

    /// Whether `snapshot` is what the store `state` has measured, with
    /// whether the pool has an instance to hand out at once: an idle one,
    /// and a configuration that is sound.
    pub open spec fn measured_from(&self, state: PoolState<P>, snapshot: PoolTimeSnapshot) -> bool {
        &&& snapshot.startup_time == state.startup_time()
        &&& snapshot.average_format_time == state.average_format_time()
        &&& snapshot.has_plugin_available == (!self.is_broken() && state.idle().len() > 0)
    }

    /// An empty pool for the plugin `name`, which may hold up to `capacity`
    /// instances (a capacity of 0 counts as 1). The configuration is
    /// checked here, once for the pool.
    pub fn new(name: String, capacity: usize, setup: P::Setup) -> (pool: Self)
        ensures
            pool.spec_name() == name@,
            pool.spec_setup() == setup,
            P::diagnoses(&setup, pool.spec_diagnostics()),
    {
        let diagnostics = P::config_diagnostic_count(&setup);
        PluginPool {
            name,
            setup,
            diagnostics,
            state: new_mutex(PoolState::new(capacity)),
            released: new_condvar(),
        }
    }

    /// The name of the plugin that the pool holds instances of.
    pub fn name(&self) -> (name: &str)
        ensures
            name@ == self.spec_name(),
    {
        self.name.as_str()
    }

    /// Whether the pool is the one for the plugin `name`.
    pub fn has_name(&self, name: &String) -> (same: bool)
        ensures
            same == (self.spec_name() == name@),
    {
        self.name == *name
    }

    /// The number of problems that the check of the configuration found:
    /// what the plugin answered for the pool's configuration.
    pub fn diagnostics(&self) -> (count: usize)
        ensures
            count == self.spec_diagnostics(),
            P::diagnoses(&self.spec_setup(), count),
    {
        proof {
            use_type_invariant(self);
        }
        self.diagnostics
    }

    /// Takes an idle instance if there is one, without waiting and without
    /// creating one. A pool whose configuration is broken gives none; any
    /// other gives what [`PoolState::take_if_available`] gives for the
    /// state that the store was in when its lock was taken.
    pub fn take_if_available(&self) -> (taken: Option<P>)
        ensures
            self.is_broken() ==> taken is None,
            !self.is_broken() ==> exists|before: PoolState<P>, after: PoolState<P>|
                before.well_formed() && after.well_formed() && #[trigger] before.took(taken, after),
    {
        if self.diagnostics > 0 {
            return None;
        }
        let mut locked = lock(&self.state);
        let state = locked_mut(&mut locked);
        let ghost before = *state;
        proof {
            use_type_invariant(&*state);
        }
        let taken = state.take_if_available();
        assert(before.took(taken, *state));
        taken
    }

    /// Returns an instance to the pool and wakes one waiting checkout: the
    /// store takes the instance as [`PoolState::release`] says for the
    /// state that it was in when its lock was taken.
    pub fn release(&self, plugin: P)
        ensures
            exists|before: PoolState<P>, after: PoolState<P>|
                before.well_formed() && after.well_formed() && #[trigger] before.released(
                    plugin,
                    after,
                ),
    {
        {
            let mut locked = lock(&self.state);
            let state = locked_mut(&mut locked);
            let ghost before = *state;
            proof {
                use_type_invariant(&*state);
            }
            state.release(plugin);
            assert(before.released(plugin, *state));
        }
        notify_one(&self.released);
    }

    /// Checks an instance out, creating one where none is idle and the
    /// capacity allows it, and waiting for a release otherwise.
    ///
    /// A pool whose configuration is broken hands out no instance and
    /// leaves its store alone: every call reports the number of problems
    /// that the check found. Every other pool gives an instance: the one
    /// that [`PoolState::checkout`] hands out for the state in which the
    /// store was found, or a new one where that checkout gave leave to
    /// create one. Only where the plugin cannot create that instance the
    /// checkout fails, with the plugin's message, and is undone.
    pub fn take_or_create_checking_config_diagnostics(&self) -> (taken: Result<
        TakePluginResult<P>,
        String,
    >)
        ensures
            self.is_broken() ==> taken == Ok::<TakePluginResult<P>, String>(
                TakePluginResult::HadDiagnostics(self.spec_diagnostics()),
            ),
            !self.is_broken() ==> !(taken matches Ok(TakePluginResult::HadDiagnostics(_))),
            taken matches Err(message) ==> P::fails_to_initialize(&self.spec_setup(), message@),
            taken matches Ok(TakePluginResult::Success(plugin)) ==> exists|
                before: PoolState<P>,
                decision: Checkout<P>,
                after: PoolState<P>,
            |
                {
                    &&& before.well_formed()
                    &&& after.well_formed()
                    &&& !before.must_wait()
                    &&& #[trigger] before.checked_out_as(decision, after)
                    &&& PoolState::gives_instance(decision)
                    &&& decision matches Checkout::Instance(idle) ==> plugin == idle
                },
    {
        if self.diagnostics > 0 {
            return Ok(TakePluginResult::HadDiagnostics(self.diagnostics));
        }
        let ghost mut before: PoolState<P>;
        let ghost mut after: PoolState<P>;
        let decision = {
            let mut locked = lock(&self.state);
            let state = wait_until_available(&self.released, &mut locked);
            proof {
                use_type_invariant(&*state);
                before = *state;
            }
            let decision = state.checkout();
            proof {
                after = *state;
            }
            decision
        };
        assert(before.checked_out_as(decision, after));
        let plugin = match decision {
            Checkout::Instance(plugin) => plugin,
            Checkout::Create => {
                let start = now();
                let created = P::initialize(&self.setup);
                let millis = millis_since(&start);
                match created {
                    Ok(plugin) => {
                        let mut locked = lock(&self.state);
                        let state = locked_mut(&mut locked);
                        state.record_startup_time(millis);
                        plugin
                    },
                    Err(message) => {
                        {
                            let mut locked = lock(&self.state);
                            let state = locked_mut(&mut locked);
                            state.creation_failed();
                        }
                        notify_one(&self.released);
                        return Err(message);
                    },
                }
            },
            Checkout::Busy => unreached(),
        };
        Ok(TakePluginResult::Success(plugin))
    }

    /// What the pool has measured so far, and whether it has an instance to
    /// hand out at once. A pool whose configuration is broken has none; of
    /// any other the snapshot is what [`PoolState::time_snapshot`] gives for
    /// the state that the store was in when its lock was taken.
    pub fn get_time_snapshot(&self) -> (snapshot: PoolTimeSnapshot)
        ensures
            self.is_broken() ==> !snapshot.has_plugin_available,
            exists|state: PoolState<P>|
                state.well_formed() && #[trigger] self.measured_from(state, snapshot),
    {
        let mut locked = lock(&self.state);
        let state = locked_mut(&mut locked);
        proof {
            use_type_invariant(&*state);
        }
        let measured = state.time_snapshot();
        let snapshot = PoolTimeSnapshot {
            startup_time: measured.startup_time,
            average_format_time: measured.average_format_time,
            has_plugin_available: measured.has_plugin_available && self.diagnostics == 0,
        };
        assert(self.measured_from(*state, snapshot));
        snapshot
    }

    /// Formats with a checked-out instance and with the configuration of the
    /// pool, and records how long it took.
    pub fn format_measuring_time(&self, plugin: &mut P, file_path: &str, file_text: &str) -> (result:
        Result<String, String>)
        ensures
            old(plugin).formats(
                &self.spec_setup(),
                file_path@,
                file_text@,
                text_result(result),
                final(plugin),
            ),
    {
        let start = now();
        let result = plugin.format_text(&self.setup, file_path, file_text);
        let millis = millis_since(&start);
        let mut locked = lock(&self.state);
        let state = locked_mut(&mut locked);
        state.record_format_time(millis);
        result
    }
}

impl<P: Plugin> OptionalPluginAndPool<P> {
    /// A slot for `pool` that holds no instance yet.
    pub fn from_pool(pool: Arc<PluginPool<P>>) -> (slot: Self)
        ensures
            slot.plugin is None,
            slot.pool == pool,
    {
        OptionalPluginAndPool { plugin: None, pool }
    }

    /// Returns the instance, if the slot holds one, to its pool.
    pub fn release_plugin(self) {
        match self.plugin {
            Some(plugin) => self.pool.release(plugin),
            None => {},
        }
    }
}

} // verus!
