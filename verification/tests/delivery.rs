use satellite_simulation::simulation::cgr::CGR;
use satellite_simulation::simulation::delivery::{
    CGREvent, CGRState, DeliveryTask, RoutingError,
};
use satellite_simulation::simulation::graph::{Contact, GraphEvent};

const A: u32 = 1;
const B: u32 = 2;
const C: u32 = 3;

const STATES: [CGRState; 8] = [
    CGRState::Idle,
    CGRState::DiscoveringContacts,
    CGRState::SelectingRoute,
    CGRState::Transmitting,
    CGRState::HoldingData,
    CGRState::Retransmitting,
    CGRState::Delivered,
    CGRState::Failed,
];

const EVENTS: [CGREvent; 9] = [
    CGREvent::NewPacketArrived,
    CGREvent::CommunicationLinksAvailable,
    CGREvent::NoCommunicationLinksAvailable,
    CGREvent::RouteComputed,
    CGREvent::NoFeasibleRoute,
    CGREvent::DataSent,
    CGREvent::CommunicationLinkLost,
    CGREvent::CommunicationLinkRestored,
    CGREvent::Timeout,
];

fn table(state: CGRState, event: CGREvent) -> CGRState {
    match (state, event) {
        (CGRState::Idle, CGREvent::NewPacketArrived) => CGRState::DiscoveringContacts,
        (CGRState::DiscoveringContacts, CGREvent::CommunicationLinksAvailable) => {
            CGRState::SelectingRoute
        }
        (CGRState::DiscoveringContacts, CGREvent::NoCommunicationLinksAvailable) => {
            CGRState::HoldingData
        }
        (CGRState::SelectingRoute, CGREvent::RouteComputed) => CGRState::Transmitting,
        (CGRState::SelectingRoute, CGREvent::NoFeasibleRoute) => CGRState::HoldingData,
        (CGRState::Transmitting, CGREvent::DataSent) => CGRState::Delivered,
        (CGRState::Transmitting, CGREvent::CommunicationLinkLost) => CGRState::HoldingData,
        (CGRState::HoldingData, CGREvent::Timeout) => CGRState::Failed,
        (CGRState::HoldingData, CGREvent::CommunicationLinkRestored) => CGRState::Retransmitting,
        (CGRState::Retransmitting, CGREvent::DataSent) => CGRState::Delivered,
        (CGRState::Retransmitting, CGREvent::CommunicationLinkLost) => CGRState::HoldingData,
        (unchanged, _) => unchanged,
    }
}

fn task_in(state: CGRState, path: Vec<u32>) -> DeliveryTask {
    let mut task = DeliveryTask::new(1, A, C, 0, 1000);
    task.state = state;
    task.current_path = path;
    task
}

fn contact(from: u32, destination: u32, start_time: u64, end_time: u64, latency: u64) -> Contact {
    Contact::new(from, destination, start_time, end_time, latency).unwrap()
}

#[test]
fn new_task_is_idle() {
    let task = DeliveryTask::new(9, A, C, 5, 50);
    assert_eq!(task.id, 9);
    assert_eq!(task.source, A);
    assert_eq!(task.destination, C);
    assert_eq!(task.created_at, 5);
    assert_eq!(task.deadline, 50);
    assert_eq!(task.state, CGRState::Idle);
    assert!(task.current_path.is_empty());
    assert_eq!(task.retry_count, 0);
    assert_eq!(task.last_error, None);
    assert!(task.failure_report().is_none());
}

#[test]
fn every_pair_follows_the_transition_table() {
    for state in STATES {
        for event in EVENTS {
            assert_eq!(state.next(event), table(state, event), "{:?} on {:?}", state, event);
            let mut task = task_in(state, vec![A, B, C]);
            task.transition(&event);
            assert_eq!(task.state, table(state, event));
            assert_eq!(task.current_path, vec![A, B, C]);
            assert_eq!((task.id, task.source, task.destination), (1, A, C));
            assert_eq!((task.created_at, task.deadline), (0, 1000));
        }
    }
}

#[test]
fn terminal_states_absorb_every_event() {
    for state in STATES {
        assert_eq!(
            state.is_terminal(),
            state == CGRState::Delivered || state == CGRState::Failed
        );
    }
    for event in EVENTS {
        assert_eq!(CGRState::Delivered.next(event), CGRState::Delivered);
        assert_eq!(CGRState::Failed.next(event), CGRState::Failed);
    }
}

#[test]
fn happy_path_delivers() {
    let mut task = DeliveryTask::new(1, A, C, 0, 100);
    for (event, expected) in [
        (CGREvent::NewPacketArrived, CGRState::DiscoveringContacts),
        (CGREvent::CommunicationLinksAvailable, CGRState::SelectingRoute),
        (CGREvent::RouteComputed, CGRState::Transmitting),
        (CGREvent::DataSent, CGRState::Delivered),
    ] {
        task.transition(&event);
        assert_eq!(task.state, expected);
    }
    assert_eq!(task.last_error, None);
    assert_eq!(task.retry_count, 0);
}

#[test]
fn causes_and_retries_are_recorded() {
    let mut task = task_in(CGRState::DiscoveringContacts, vec![]);
    task.transition(&CGREvent::NoCommunicationLinksAvailable);
    assert_eq!(task.last_error, Some(RoutingError::NoContactsAvailable));
    assert_eq!(task.retry_count, 0);

    task.transition(&CGREvent::CommunicationLinkRestored);
    assert_eq!(task.state, CGRState::Retransmitting);
    assert_eq!(task.retry_count, 1);
    // The cause of the last hold stays on record.
    assert_eq!(task.last_error, Some(RoutingError::NoContactsAvailable));

    task.transition(&CGREvent::CommunicationLinkLost);
    assert_eq!(task.state, CGRState::HoldingData);
    assert_eq!(task.last_error, Some(RoutingError::LinkLost));

    // A restored link counts as a retry only for a held delivery.
    let mut sending = task_in(CGRState::Transmitting, vec![A, B, C]);
    sending.transition(&CGREvent::CommunicationLinkRestored);
    assert_eq!(sending.retry_count, 0);
    assert_eq!(sending.state, CGRState::Transmitting);

    let mut selecting = task_in(CGRState::SelectingRoute, vec![]);
    selecting.transition(&CGREvent::NoFeasibleRoute);
    assert_eq!(selecting.last_error, Some(RoutingError::NoFeasibleRoute));

    let mut full = task_in(CGRState::HoldingData, vec![]);
    full.retry_count = u32::MAX;
    full.transition(&CGREvent::CommunicationLinkRestored);
    assert_eq!(full.retry_count, u32::MAX);
    assert_eq!(full.state, CGRState::Retransmitting);
}

#[test]
fn no_feasible_route_holds_the_data() {
    // No contact leads to the ground C.
    let engine = CGR::new(vec![contact(A, B, 0, 10, 1), contact(B, A, 0, 10, 1)]);
    let mut task = task_in(CGRState::SelectingRoute, vec![]);
    assert_eq!(engine.select_route(&mut task, 0), Err(RoutingError::NoFeasibleRoute));
    assert_eq!(task.state, CGRState::HoldingData);
    assert_eq!(task.last_error, Some(RoutingError::NoFeasibleRoute));
    assert!(task.current_path.is_empty());
}

#[test]
fn computed_route_starts_the_transmission() {
    let engine = CGR::new(vec![contact(A, B, 0, 10, 1), contact(B, C, 2, 12, 1)]);
    let mut task = task_in(CGRState::SelectingRoute, vec![]);
    assert_eq!(engine.select_route(&mut task, 0), Ok(3));
    assert_eq!(task.state, CGRState::Transmitting);
    assert_eq!(task.current_path, vec![A, B, C]);
    assert_eq!(task.last_error, None);

    // A delivery that is not selecting a route keeps its state and its path.
    let mut idle = task_in(CGRState::Idle, vec![A, C]);
    assert_eq!(engine.select_route(&mut idle, 0), Ok(3));
    assert_eq!(idle.state, CGRState::Idle);
    assert_eq!(idle.current_path, vec![A, C]);
}

#[test]
fn discovery_reports_whether_the_source_has_contacts() {
    let engine = CGR::new(vec![contact(A, B, 0, 10, 1)]);
    let mut task = task_in(CGRState::DiscoveringContacts, vec![]);
    assert_eq!(engine.discover_contacts(&mut task), Ok(()));
    assert_eq!(task.state, CGRState::SelectingRoute);

    let mut lonely = DeliveryTask::new(2, B, C, 0, 100);
    lonely.transition(&CGREvent::NewPacketArrived);
    assert_eq!(engine.discover_contacts(&mut lonely), Err(RoutingError::NoContactsAvailable));
    assert_eq!(lonely.state, CGRState::HoldingData);
    assert_eq!(lonely.last_error, Some(RoutingError::NoContactsAvailable));
}

#[test]
fn lost_link_on_the_path_holds_the_data() {
    let mut task = task_in(CGRState::Transmitting, vec![A, B, C]);
    task.observe(&GraphEvent::ContactsChanged { node: B, gained: vec![], lost: vec![C] });
    assert_eq!(task.state, CGRState::HoldingData);
    assert_ne!(task.state, CGRState::Failed);
    assert_eq!(task.last_error, Some(RoutingError::LinkLost));
    assert_eq!(task.current_path, vec![A, B, C]);

    // The link comes back: the delivery is taken up again.
    task.observe(&GraphEvent::ContactsChanged { node: B, gained: vec![C], lost: vec![] });
    assert_eq!(task.state, CGRState::Retransmitting);
    assert_eq!(task.retry_count, 1);
    task.transition(&CGREvent::DataSent);
    assert_eq!(task.state, CGRState::Delivered);
}

#[test]
fn changes_of_one_update_are_seen_in_order() {
    let changes = vec![
        GraphEvent::ContactsChanged { node: A, gained: vec![], lost: vec![9] },
        GraphEvent::ContactsChanged { node: B, gained: vec![], lost: vec![C] },
        GraphEvent::ContactsChanged { node: A, gained: vec![B], lost: vec![] },
    ];
    let mut task = task_in(CGRState::Transmitting, vec![A, B, C]);
    task.observe_all(&changes);
    // Lost at the second change, restored at the third.
    assert_eq!(task.state, CGRState::Retransmitting);
    assert_eq!(task.retry_count, 1);
    assert_eq!(task.last_error, Some(RoutingError::LinkLost));

    let mut one_by_one = task_in(CGRState::Transmitting, vec![A, B, C]);
    for change in &changes {
        one_by_one.observe(change);
    }
    assert_eq!(one_by_one.state, task.state);
    assert_eq!(one_by_one.retry_count, task.retry_count);

    let mut untouched = task_in(CGRState::Transmitting, vec![A, B, C]);
    untouched.observe_all(&vec![]);
    assert_eq!(untouched.state, CGRState::Transmitting);
}

#[test]
fn node_that_joins_restores_its_links() {
    let mut task = task_in(CGRState::HoldingData, vec![A, B, C]);
    task.observe(&GraphEvent::NodeJoined { node: B, neighbors: vec![A] });
    assert_eq!(task.state, CGRState::HoldingData);
    task.observe(&GraphEvent::NodeJoined { node: B, neighbors: vec![A, C] });
    assert_eq!(task.state, CGRState::Retransmitting);
    assert_eq!(task.retry_count, 1);
}

#[test]
fn changes_off_the_path_leave_the_task_alone() {
    let mut task = task_in(CGRState::Transmitting, vec![A, B, C]);
    // B loses another neighbour; C loses B; A gains C; the reverse edge.
    task.observe(&GraphEvent::ContactsChanged { node: B, gained: vec![], lost: vec![A, 9] });
    task.observe(&GraphEvent::ContactsChanged { node: C, gained: vec![], lost: vec![B] });
    task.observe(&GraphEvent::ContactsChanged { node: A, gained: vec![C], lost: vec![] });
    task.observe(&GraphEvent::NodeJoined { node: 9, neighbors: vec![A, B, C] });
    assert_eq!(task.state, CGRState::Transmitting);
    assert_eq!(task.last_error, None);

    // A lost edge counts before a gained one of the same event.
    task.observe(&GraphEvent::ContactsChanged { node: A, gained: vec![B], lost: vec![9, B] });
    assert_eq!(task.state, CGRState::HoldingData);

    // A path of one node crosses no edge.
    let mut alone = task_in(CGRState::Transmitting, vec![A]);
    alone.observe(&GraphEvent::ContactsChanged { node: A, gained: vec![], lost: vec![A, B] });
    assert_eq!(alone.state, CGRState::Transmitting);
}

#[test]
fn held_delivery_fails_when_it_runs_out() {
    // Retries used up.
    let mut task = task_in(CGRState::HoldingData, vec![A, B, C]);
    task.retry_count = 3;
    assert!(!task.check_timeout(10, 4));
    assert_eq!(task.state, CGRState::HoldingData);
    assert!(task.check_timeout(10, 3));
    assert_eq!(task.state, CGRState::Failed);
    assert_eq!(task.last_error, Some(RoutingError::RetryBudgetExhausted));
    let report = task.failure_report().unwrap();
    assert_eq!(report.cause, RoutingError::RetryBudgetExhausted);
    assert_eq!(report.last_path, vec![A, B, C]);

    // Deadline passed.
    let mut late = task_in(CGRState::HoldingData, vec![]);
    assert!(!late.check_timeout(1000, 5));
    assert!(late.check_timeout(1001, 5));
    assert_eq!(late.state, CGRState::Failed);

    // Only a held delivery times out.
    for state in STATES {
        if state == CGRState::HoldingData {
            continue;
        }
        let mut other = task_in(state, vec![]);
        assert!(!other.check_timeout(u64::MAX, 0));
        assert_eq!(other.state, state);
        assert_eq!(other.last_error, None);
    }
}
