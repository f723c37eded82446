//! Simulated failures: the chaos that the nodes must recover from.

use rand::rngs::{StdRng, ThreadRng};
use rand::{RngExt, SeedableRng};
use vstd::prelude::*;

verus! {

/// The standard generator of `rand` (`rand::rngs::StdRng`), carried opaque.
#[verifier::external_type_specification]
#[verifier::external_body]
pub struct ExStdRng(StdRng);

/// The thread-local generator of `rand` (`rand::rngs::ThreadRng`), carried
/// opaque.
#[verifier::external_type_specification]
#[verifier::external_body]
pub struct ExThreadRng(ThreadRng);

/// The thread-local generator (`rand::rng`). It panics only when the operating
/// system cannot seed it; nothing is stated of its state.
#[verifier::external_body]
fn thread_rng() -> ThreadRng {
    rand::rng()
}

/// A standard generator seeded from `seed` (`StdRng::from_rng`); nothing is
/// stated of its state.
#[verifier::external_body]
fn std_rng_from(seed: &mut ThreadRng) -> StdRng {
    StdRng::from_rng(seed)
}

/// A value drawn from `low..high` (`RngExt::random_range`, which panics only on
/// an empty range). Which value comes out rests on chance: only its range is
/// stated.
#[verifier::external_body]
fn random_below(rng: &mut StdRng, low: u64, high: u64) -> (value: u64)
    requires
        low < high,
    ensures
        low <= value < high,
{
    rng.random_range(low..high)
}

/// Which part of the node's environment a simulated failure takes away.
#[derive(PartialEq, Eq, Structural, Debug, Clone, Copy)]
pub enum FailureTarget {
    /// Messages arriving at the node.
    InboundNetwork,
    /// Messages leaving the node.
    OutboundNetwork,
    /// Name lookups.
    Dns,
}

/// Which parts of the environment are currently available to the node.
#[derive(PartialEq, Eq, Structural, Debug, Clone, Copy)]
pub struct SimulatedState {
    inbound_network_messages_available: bool,
    outbound_network_messages_available: bool,
    dns_available: bool,
}

impl SimulatedState {
    /// Everything available.
    pub fn new() -> (state: SimulatedState)
        ensures
            state.inbound(),
            state.outbound(),
            state.dns(),
    {
        SimulatedState {
            inbound_network_messages_available: true,
            outbound_network_messages_available: true,
            dns_available: true,
        }
    }

    pub closed spec fn inbound(&self) -> bool {
        self.inbound_network_messages_available
    }

    pub closed spec fn outbound(&self) -> bool {
        self.outbound_network_messages_available
    }

    pub closed spec fn dns(&self) -> bool {
        self.dns_available
    }

    /// Whether the availability of `target` is `available`, others untouched.
    pub open spec fn with(self, target: FailureTarget, available: bool, next: SimulatedState) -> bool {
        &&& next.inbound() == if target == FailureTarget::InboundNetwork {
            available
        } else {
            self.inbound()
        }
        &&& next.outbound() == if target == FailureTarget::OutboundNetwork {
            available
        } else {
            self.outbound()
        }
        &&& next.dns() == if target == FailureTarget::Dns {
            available
        } else {
            self.dns()
        }
    }

    /// Whether messages can currently arrive.
    pub fn inbound_network_messages_available(&self) -> (available: bool)
        ensures
            available == self.inbound(),
    {
        self.inbound_network_messages_available
    }

    /// Whether messages can currently leave.
    pub fn outbound_network_messages_available(&self) -> (available: bool)
        ensures
            available == self.outbound(),
    {
        self.outbound_network_messages_available
    }

    /// Whether name lookups currently work.
    pub fn dns_available(&self) -> (available: bool)
        ensures
            available == self.dns(),
    {
        self.dns_available
    }

    /// Sets whether `target` is available.
    pub fn set_available(&mut self, target: FailureTarget, available: bool)
        ensures
            old(self).with(target, available, *final(self)),
    {
        match target {
            FailureTarget::InboundNetwork => {
                self.inbound_network_messages_available = available;
            },
            FailureTarget::OutboundNetwork => {
                self.outbound_network_messages_available = available;
            },
            FailureTarget::Dns => {
                self.dns_available = available;
            },
        }
    }
}

/// One round of the chaos simulation: wait `delay_seconds`, then take away
/// `failure` (when there is one) for `failure_seconds`.
#[derive(PartialEq, Eq, Structural, Debug, Clone, Copy)]
pub struct SimulationRound {
    pub delay_seconds: u64,
    pub failure_seconds: u64,
    pub failure: Option<FailureTarget>,
}

/// The failure that a roll of `0..=3` picks: inbound network, outbound
/// network, DNS, or none.
pub open spec fn failure_of_roll(roll: u64) -> Option<FailureTarget> {
    if roll == 0 {
        Some(FailureTarget::InboundNetwork)
    } else if roll == 1 {
        Some(FailureTarget::OutboundNetwork)
    } else if roll == 2 {
        Some(FailureTarget::Dns)
    } else {
        None
    }
}

/// The source of chance for the simulation.
pub struct Simulation {
    rng: StdRng,
}

impl Simulation {
    /// A simulation with a freshly seeded generator.
    pub fn new() -> Simulation {
        let mut seed = thread_rng();
        Simulation { rng: std_rng_from(&mut seed) }
    }

    /// The failure picked by `roll`.
    pub fn failure_for_roll(roll: u64) -> (failure: Option<FailureTarget>)
        ensures
            failure == failure_of_roll(roll),
    {
        if roll == 0 {
            Some(FailureTarget::InboundNetwork)
        } else if roll == 1 {
            Some(FailureTarget::OutboundNetwork)
        } else if roll == 2 {
            Some(FailureTarget::Dns)
        } else {
            None
        }
    }

    /// Draws the next round: a pause of 8 to 29 seconds, a failure length of 1
    /// to 30 seconds, and a roll of 0 to 3 that picks the failure.
    pub fn next_round(&mut self) -> (round: SimulationRound)
        ensures
            8 <= round.delay_seconds < 30,
            1 <= round.failure_seconds <= 30,
    {
        let delay_seconds = random_below(&mut self.rng, 8, 30);
        let failure_seconds = random_below(&mut self.rng, 1, 31);
        let roll = random_below(&mut self.rng, 0, 4);
        let failure = Self::failure_for_roll(roll);
        SimulationRound { delay_seconds, failure_seconds, failure }
    }
}

/// The rolls of `0..=3` pick every outcome, each from exactly one roll:
/// inbound network, outbound network, DNS, or none.
pub proof fn every_roll_outcome_occurs(outcome: Option<FailureTarget>)
    ensures
        exists|roll: u64| roll <= 3 && failure_of_roll(roll) == outcome,
        forall|a: u64, b: u64|
            a <= 3 && b <= 3 && #[trigger] failure_of_roll(a) == #[trigger] failure_of_roll(b) ==> a == b,
{
    match outcome {
        Some(FailureTarget::InboundNetwork) => assert(failure_of_roll(0) == outcome),
        Some(FailureTarget::OutboundNetwork) => assert(failure_of_roll(1) == outcome),
        Some(FailureTarget::Dns) => assert(failure_of_roll(2) == outcome),
        None => assert(failure_of_roll(3) == outcome),
    }
}

/// Starting a failure takes the target away and leaves the rest alone, so
/// during it exactly the target is unavailable; ending it gives the target
/// back, so a state with everything available returns to everything
/// available.
pub proof fn failure_then_recovery(
    start: SimulatedState,
    target: FailureTarget,
    during: SimulatedState,
    after: SimulatedState,
)
    requires
        start.with(target, false, during),
        during.with(target, true, after),
        start.inbound() && start.outbound() && start.dns(),
    ensures
        after.inbound() && after.outbound() && after.dns(),
        during.inbound() == (target != FailureTarget::InboundNetwork),
        during.outbound() == (target != FailureTarget::OutboundNetwork),
        during.dns() == (target != FailureTarget::Dns),
{
}

} // verus!
