//! The delivery state machine and the task that it drives.

use vstd::prelude::*;
use crate::common::copy_of;
use crate::simulation::graph::GraphEvent;

verus! {

/// The states of a delivery.
#[derive(Clone, Copy, Debug, PartialEq, Eq, Structural)]
pub enum CGRState {
    Idle,
    DiscoveringContacts,
    SelectingRoute,
    Transmitting,
    HoldingData,
    Retransmitting,
    Delivered,
    Failed,
}

/// What can happen to a delivery.
#[derive(Clone, Copy, Debug, PartialEq, Eq, Structural)]
pub enum CGREvent {
    NewPacketArrived,
    CommunicationLinksAvailable,
    NoCommunicationLinksAvailable,
    RouteComputed,
    NoFeasibleRoute,
    DataSent,
    CommunicationLinkLost,
    CommunicationLinkRestored,
    Timeout,
}

/// Why a delivery is held or has failed.
#[derive(Clone, Copy, Debug, PartialEq, Eq, Structural)]
pub enum RoutingError {
    NoContactsAvailable,
    NoFeasibleRoute,
    LinkLost,
    RetryBudgetExhausted,
}

/// The transition table of a delivery. A pair that the table does not list
/// leaves the state as it is.
pub open spec fn next_state(state: CGRState, event: CGREvent) -> CGRState {
    match (state, event) {
        (CGRState::Idle, CGREvent::NewPacketArrived) => CGRState::DiscoveringContacts,
        (CGRState::DiscoveringContacts, CGREvent::CommunicationLinksAvailable) => {
            CGRState::SelectingRoute
        },
        (CGRState::DiscoveringContacts, CGREvent::NoCommunicationLinksAvailable) => {
            CGRState::HoldingData
        },
        (CGRState::SelectingRoute, CGREvent::RouteComputed) => CGRState::Transmitting,
        (CGRState::SelectingRoute, CGREvent::NoFeasibleRoute) => CGRState::HoldingData,
        (CGRState::Transmitting, CGREvent::DataSent) => CGRState::Delivered,
        (CGRState::Transmitting, CGREvent::CommunicationLinkLost) => CGRState::HoldingData,
        (CGRState::HoldingData, CGREvent::Timeout) => CGRState::Failed,
        (CGRState::HoldingData, CGREvent::CommunicationLinkRestored) => CGRState::Retransmitting,
        (CGRState::Retransmitting, CGREvent::DataSent) => CGRState::Delivered,
        (CGRState::Retransmitting, CGREvent::CommunicationLinkLost) => CGRState::HoldingData,
        _ => state,
    }
}

/// The cause that a transition records: the reason for holding the data or
/// for giving up. `None` where the pair changes no state or the new state is
/// neither of the two.
pub open spec fn cause_of(state: CGRState, event: CGREvent) -> Option<RoutingError> {
    match (state, event) {
        (CGRState::DiscoveringContacts, CGREvent::NoCommunicationLinksAvailable) => Some(
            RoutingError::NoContactsAvailable,
        ),
        (CGRState::SelectingRoute, CGREvent::NoFeasibleRoute) => Some(
            RoutingError::NoFeasibleRoute,
        ),
        (CGRState::Transmitting, CGREvent::CommunicationLinkLost) => Some(RoutingError::LinkLost),
        (CGRState::Retransmitting, CGREvent::CommunicationLinkLost) => Some(
            RoutingError::LinkLost,
        ),
        (CGRState::HoldingData, CGREvent::Timeout) => Some(RoutingError::RetryBudgetExhausted),
        _ => None,
    }
}

impl CGRState {
    /// `Delivered` and `Failed` end a delivery.
    pub open spec fn terminal(self) -> bool {
        self == CGRState::Delivered || self == CGRState::Failed
    }

    /// Whether the state ends the delivery.
    pub fn is_terminal(self) -> (r: bool)
        ensures
            r == self.terminal(),
    {
        match self {
            CGRState::Delivered => true,
            CGRState::Failed => true,
            _ => false,
        }
    }

    /// The state that follows `self` on `event`.
    pub fn next(self, event: CGREvent) -> (r: CGRState)
        ensures
            r == next_state(self, event),
    {
        match self {
            CGRState::Idle => match event {
                CGREvent::NewPacketArrived => CGRState::DiscoveringContacts,
                _ => self,
            },
            CGRState::DiscoveringContacts => match event {
                CGREvent::CommunicationLinksAvailable => CGRState::SelectingRoute,
                CGREvent::NoCommunicationLinksAvailable => CGRState::HoldingData,
                _ => self,
            },
            CGRState::SelectingRoute => match event {
                CGREvent::RouteComputed => CGRState::Transmitting,
                CGREvent::NoFeasibleRoute => CGRState::HoldingData,
                _ => self,
            },
            CGRState::Transmitting => match event {
                CGREvent::DataSent => CGRState::Delivered,
                CGREvent::CommunicationLinkLost => CGRState::HoldingData,
                _ => self,
            },
            CGRState::HoldingData => match event {
                CGREvent::Timeout => CGRState::Failed,
                CGREvent::CommunicationLinkRestored => CGRState::Retransmitting,
                _ => self,
            },
            CGRState::Retransmitting => match event {
                CGREvent::DataSent => CGRState::Delivered,
                CGREvent::CommunicationLinkLost => CGRState::HoldingData,
                _ => self,
            },
            CGRState::Delivered => self,
            CGRState::Failed => self,
        }
    }
}

/// A delivery never leaves a terminal state.
pub proof fn lemma_terminal_states_absorb(state: CGRState, event: CGREvent)
    requires
        state.terminal(),
    ensures
        next_state(state, event) == state,
{
}

fn cause(state: CGRState, event: CGREvent) -> (r: Option<RoutingError>)
    ensures
        r == cause_of(state, event),
{
    match state {
        CGRState::DiscoveringContacts => match event {
            CGREvent::NoCommunicationLinksAvailable => Some(RoutingError::NoContactsAvailable),
            _ => None,
        },
        CGRState::SelectingRoute => match event {
            CGREvent::NoFeasibleRoute => Some(RoutingError::NoFeasibleRoute),
            _ => None,
        },
        CGRState::Transmitting => match event {
            CGREvent::CommunicationLinkLost => Some(RoutingError::LinkLost),
            _ => None,
        },
        CGRState::Retransmitting => match event {
            CGREvent::CommunicationLinkLost => Some(RoutingError::LinkLost),
            _ => None,
        },
        CGRState::HoldingData => match event {
            CGREvent::Timeout => Some(RoutingError::RetryBudgetExhausted),
            _ => None,
        },
        _ => None,
    }
}

/// One outstanding payload on its way to the ground.
#[derive(Debug)]
pub struct DeliveryTask {
    pub id: u64,
    pub source: u32,
    pub destination: u32,
    pub created_at: u64,
    pub state: CGRState,
    /// The last route chosen for the payload; empty before the first.
    pub current_path: Vec<u32>,
    /// How often transmission was taken up again after a hold.
    pub retry_count: u32,
    pub deadline: u64,
    /// Why the delivery was last held, or why it failed.
    pub last_error: Option<RoutingError>,
}

/// The retry count after a transition: one more where a held delivery is
/// taken up again, never past the largest count.
pub open spec fn retries_after(count: u32, state: CGRState, event: CGREvent) -> u32 {
    if state == CGRState::HoldingData && event == CGREvent::CommunicationLinkRestored && count
        < u32::MAX {
        (count + 1) as u32
    } else {
        count
    }
}

/// The recorded cause after a transition.
pub open spec fn error_after(error: Option<RoutingError>, state: CGRState, event: CGREvent)
    -> Option<RoutingError> {
    if cause_of(state, event) is Some {
        cause_of(state, event)
    } else {
        error
    }
}

/// The task after `event`: the state follows the transition table, a retry
/// is counted where a held delivery is taken up again, and the cause of a
/// hold or a failure is recorded. Nothing else changes.
pub open spec fn applied(task: DeliveryTask, event: CGREvent) -> DeliveryTask {
    DeliveryTask {
        state: next_state(task.state, event),
        retry_count: retries_after(task.retry_count, task.state, event),
        last_error: error_after(task.last_error, task.state, event),
        ..task
    }
}

/// `after` is `before` with `event` applied, but for the current path, of
/// which nothing is said.
pub open spec fn follows(after: DeliveryTask, before: DeliveryTask, event: CGREvent) -> bool {
    DeliveryTask { current_path: before.current_path, ..after } == applied(before, event)
}

/// Position `i` of `path` is `from` and the next is `to`.
pub open spec fn edge_at(path: Seq<u32>, i: int, from: u32, to: u32) -> bool {
    &&& 0 <= i < path.len() - 1
    &&& path[i] == from
    &&& path[i + 1] == to
}

/// `path` crosses an edge from `from` to one of `ends`.
pub open spec fn crosses(path: Seq<u32>, from: u32, ends: Seq<u32>) -> bool {
    exists|i: int, j: int| 0 <= j < ends.len() && #[trigger] edge_at(path, i, from, ends[j])
}

/// The event that a change of the contact graph means for a delivery on
/// `path`: a lost edge of the path before a gained one. The neighbours of a
/// node that joins are gained.
pub open spec fn event_of_change(path: Seq<u32>, change: GraphEvent) -> Option<CGREvent> {
    match change {
        GraphEvent::NodeJoined { node, neighbors } => {
            if crosses(path, node, neighbors@) {
                Some(CGREvent::CommunicationLinkRestored)
            } else {
                None
            }
        },
        GraphEvent::ContactsChanged { node, gained, lost } => {
            if crosses(path, node, lost@) {
                Some(CGREvent::CommunicationLinkLost)
            } else if crosses(path, node, gained@) {
                Some(CGREvent::CommunicationLinkRestored)
            } else {
                None
            }
        },
    }
}

/// The task after it has seen one change of the contact graph.
pub open spec fn reaction(task: DeliveryTask, change: GraphEvent) -> DeliveryTask {
    match event_of_change(task.current_path@, change) {
        Some(event) => applied(task, event),
        None => task,
    }
}

/// The task after it has seen the first `k` of `changes`, one after another.
pub open spec fn reactions(task: DeliveryTask, changes: Seq<GraphEvent>, k: int) -> DeliveryTask
    decreases k,
{
    if k <= 0 {
        task
    } else {
        reaction(reactions(task, changes, k - 1), changes[k - 1])
    }
}

fn path_crosses(path: &Vec<u32>, from: u32, ends: &Vec<u32>) -> (r: bool)
    ensures
        r == crosses(path@, from, ends@),
{
    if path.len() < 2 {
        return false;
    }
    let mut i: usize = 0;
    while i < path.len() - 1
        invariant
            path.len() >= 2,
            i <= path.len() - 1,
            forall|a: int, b: int|
                0 <= a < i && 0 <= b < ends.len() ==> !#[trigger] edge_at(
                    path@,
                    a,
                    from,
                    ends@[b],
                ),
        decreases path.len() - i,
    {
        if path[i] == from {
            let mut j: usize = 0;
            while j < ends.len()
                invariant
                    i < path.len() - 1,
                    path@[i as int] == from,
                    forall|b: int|
                        0 <= b < j ==> !#[trigger] edge_at(path@, i as int, from, ends@[b]),
                decreases ends.len() - j,
            {
                if path[i + 1] == ends[j] {
                    assert(edge_at(path@, i as int, from, ends@[j as int]));
                    return true;
                }
                j += 1;
            }
        }
        i += 1;
    }
    false
}

impl DeliveryTask {
    /// A new delivery: idle, with no route yet and no retry made.
    pub fn new(id: u64, source: u32, destination: u32, created_at: u64, deadline: u64) -> (r:
        DeliveryTask)
        ensures
            r.id == id,
            r.source == source,
            r.destination == destination,
            r.created_at == created_at,
            r.deadline == deadline,
            r.state == CGRState::Idle,
            r.current_path@ == Seq::<u32>::empty(),
            r.retry_count == 0,
            r.last_error is None,
    {
        DeliveryTask {
            id,
            source,
            destination,
            created_at,
            state: CGRState::Idle,
            current_path: Vec::new(),
            retry_count: 0,
            deadline,
            last_error: None,
        }
    }

    /// Applies `event`: the state follows the transition table, a retry is
    /// counted where a held delivery is taken up again, and the cause of a
    /// hold or a failure is recorded. Nothing else changes.
    pub fn transition(&mut self, event: &CGREvent)
        ensures
            *final(self) == applied(*old(self), *event),
    {
        let state = self.state;
        match cause(state, *event) {
            Some(error) => {
                self.last_error = Some(error);
            },
            None => {},
        }
        match (state, *event) {
            (CGRState::HoldingData, CGREvent::CommunicationLinkRestored) => {
                if self.retry_count < u32::MAX {
                    self.retry_count = self.retry_count + 1;
                }
            },
            _ => {},
        }
        self.state = state.next(*event);
    }

    /// Lets the delivery react to a change of the contact graph: where the
    /// current path crosses an edge that was lost the link is lost, else
    /// where it crosses one that was gained the link is restored.
    pub fn observe(&mut self, change: &GraphEvent)
        ensures
            *final(self) == reaction(*old(self), *change),
    {
        match change {
            GraphEvent::NodeJoined { node, neighbors } => {
                if path_crosses(&self.current_path, *node, neighbors) {
                    self.transition(&CGREvent::CommunicationLinkRestored);
                }
            },
            GraphEvent::ContactsChanged { node, gained, lost } => {
                if path_crosses(&self.current_path, *node, lost) {
                    self.transition(&CGREvent::CommunicationLinkLost);
                } else if path_crosses(&self.current_path, *node, gained) {
                    self.transition(&CGREvent::CommunicationLinkRestored);
                }
            },
        }
    }

    /// Lets the delivery react to the changes of one update of the contact
    /// graph, in order.
    pub fn observe_all(&mut self, changes: &Vec<GraphEvent>)
        ensures
            *final(self) == reactions(*old(self), changes@, changes.len() as int),
    {
        let mut i: usize = 0;
        while i < changes.len()
            invariant
                i <= changes.len(),
                *self == reactions(*old(self), changes@, i as int),
            decreases changes.len() - i,
        {
            self.observe(&changes[i]);
            i += 1;
        }
    }

    /// Whether a held delivery has run out: its retries have reached
    /// `retry_budget` or `now` is past its deadline.
    pub open spec fn expired(&self, now: u64, retry_budget: u32) -> bool {
        self.retry_count >= retry_budget || now > self.deadline
    }

    /// Fires the timeout of a held delivery that has run out; the delivery
    /// then fails for want of retries. Any other delivery stays as it is.
    /// Returns whether the timeout was fired.
    pub fn check_timeout(&mut self, now: u64, retry_budget: u32) -> (fired: bool)
        ensures
            fired == (old(self).state == CGRState::HoldingData && old(self).expired(
                now,
                retry_budget,
            )),
            *final(self) == (if fired {
                applied(*old(self), CGREvent::Timeout)
            } else {
                *old(self)
            }),
            fired ==> final(self).state == CGRState::Failed && final(self).last_error == Some(
                RoutingError::RetryBudgetExhausted,
            ),
    {
        let held = match self.state {
            CGRState::HoldingData => true,
            _ => false,
        };
        if held && (self.retry_count >= retry_budget || now > self.deadline) {
            self.transition(&CGREvent::Timeout);
            true
        } else {
            false
        }
    }

    /// The report of a failed delivery; `None` while the delivery has not
    /// failed.
    pub fn failure_report(&self) -> (r: Option<FailureReport>)
        ensures
            match r {
                Some(report) => self.state == CGRState::Failed && self.last_error == Some(
                    report.cause,
                ) && report.last_path@ == self.current_path@,
                None => !(self.state == CGRState::Failed && self.last_error is Some),
            },
    {
        match self.state {
            CGRState::Failed => match self.last_error {
                Some(cause) => {
                    let last_path = copy_of(self.current_path.as_slice());
                    Some(FailureReport { cause, last_path })
                },
                None => None,
            },
            _ => None,
        }
    }
}

/// What a failed delivery reports: why it failed, and the path it last
/// tried.
#[derive(Debug)]
pub struct FailureReport {
    pub cause: RoutingError,
    pub last_path: Vec<u32>,
}

/// A delivery that fails by the transition table carries the cause of its
/// failure: having run out of retries.
pub proof fn lemma_failure_has_cause(task: DeliveryTask, event: CGREvent)
    requires
        task.state != CGRState::Failed,
        applied(task, event).state == CGRState::Failed,
    ensures
        applied(task, event).last_error == Some(RoutingError::RetryBudgetExhausted),
{
}

} // verus!
