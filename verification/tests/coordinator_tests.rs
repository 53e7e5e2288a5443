use fee_miner::coordinator::{
    total_attempts, worker_start_fee, Coordinator, CoordinatorAction, SearchError,
    WinningResult, WORKER_STRIDE,
};
use fee_miner::field::FieldElement;
use fee_miner::transaction::testnet_chain_id;
use fee_miner::window::AcceptanceWindow;
use fee_miner::worker::{SearchInput, WorkerState};

type Felt = starknet::core::types::FieldElement;

fn n(v: u64) -> FieldElement {
    FieldElement::from_u64(v)
}

fn window_00aa() -> AcceptanceWindow {
    let min = FieldElement::from_hex(&format!("0x00aa{}", "0".repeat(60))).unwrap();
    let max = FieldElement::from_hex(&format!("0x00aa{}", "f".repeat(60))).unwrap();
    AcceptanceWindow::new(min, max).unwrap()
}

fn input_with(window: AcceptanceWindow) -> SearchInput {
    SearchInput {
        call_hash: n(0x5678),
        sender_address: n(0x1234),
        chain_id: testnet_chain_id(),
        nonce: FieldElement::zero(),
        window,
    }
}

fn everything() -> AcceptanceWindow {
    let largest = FieldElement::from_bytes_be(Felt::MAX.to_bytes_be()).unwrap();
    AcceptanceWindow::new(FieldElement::zero(), largest).unwrap()
}

fn nothing_but_zero() -> AcceptanceWindow {
    AcceptanceWindow::new(FieldElement::zero(), FieldElement::zero()).unwrap()
}

#[test]
fn a_new_coordinator_has_no_winner_and_is_not_done() {
    let c = Coordinator::new(3);
    assert_eq!(c.worker_count(), 3);
    assert_eq!(c.winner(), None);
    assert!(!c.all_stopped());
    assert_eq!(c.conclude(), None);
}

#[test]
fn a_coordinator_without_workers_has_no_winner() {
    let c = Coordinator::new(0);
    assert!(c.all_stopped());
    assert_eq!(c.conclude(), Some(Err(SearchError::NoWinner)));
}

#[test]
fn the_first_found_report_elects_the_winner() {
    let mut c = Coordinator::new(3);
    assert_eq!(c.report(1, WorkerState::Found, n(77)), CoordinatorAction::RaiseCancellation);
    assert_eq!(c.winner(), Some(n(77)));
    assert_eq!(c.conclude(), None);
    assert_eq!(c.report(0, WorkerState::Cancelled, n(5)), CoordinatorAction::Wait);
    assert_eq!(c.conclude(), None);
    assert_eq!(c.report(2, WorkerState::Cancelled, n(9)), CoordinatorAction::Wait);
    assert!(c.all_stopped());
    assert_eq!(c.conclude(), Some(Ok(WinningResult { fee: n(77) })));
}

#[test]
fn a_later_found_report_does_not_replace_the_winner() {
    let mut c = Coordinator::new(2);
    assert_eq!(c.report(0, WorkerState::Found, n(10)), CoordinatorAction::RaiseCancellation);
    assert_eq!(c.report(1, WorkerState::Found, n(20)), CoordinatorAction::Wait);
    assert_eq!(c.winner(), Some(n(10)));
    assert_eq!(c.conclude(), Some(Ok(WinningResult { fee: n(10) })));
}

#[test]
fn a_second_report_of_the_same_worker_is_dropped() {
    let mut c = Coordinator::new(2);
    assert_eq!(c.report(0, WorkerState::Cancelled, n(1)), CoordinatorAction::Wait);
    assert_eq!(c.report(0, WorkerState::Found, n(2)), CoordinatorAction::Wait);
    assert_eq!(c.winner(), None);
    assert_eq!(c.report(1, WorkerState::Error, n(3)), CoordinatorAction::RaiseCancellation);
    assert_eq!(c.conclude(), Some(Err(SearchError::NoWinner)));
}

#[test]
fn a_report_of_running_or_of_an_unknown_worker_is_dropped() {
    let mut c = Coordinator::new(1);
    assert_eq!(c.report(0, WorkerState::Running, n(1)), CoordinatorAction::Wait);
    assert_eq!(c.report(5, WorkerState::Found, n(1)), CoordinatorAction::Wait);
    assert_eq!(c.winner(), None);
    assert_eq!(c.conclude(), None);
}

#[test]
fn an_error_report_raises_the_signal() {
    let mut c = Coordinator::new(2);
    assert_eq!(c.report(1, WorkerState::Error, n(1)), CoordinatorAction::RaiseCancellation);
    assert_eq!(c.report(0, WorkerState::Cancelled, n(1)), CoordinatorAction::Wait);
    assert_eq!(c.conclude(), Some(Err(SearchError::NoWinner)));
}

#[test]
fn worker_offsets_are_one_stride_apart() {
    assert_eq!(WORKER_STRIDE, 16 * 16 * 16 * 16);
    assert_eq!(worker_start_fee(6000000000000, 0), n(6000000000000));
    assert_eq!(worker_start_fee(6000000000000, 1), n(6000000065536));
    assert_eq!(worker_start_fee(6000000000000, 2), n(6000000131072));
    assert_eq!(
        worker_start_fee(u64::MAX, usize::MAX),
        FieldElement::from_u128(u64::MAX as u128 + 65536u128 * usize::MAX as u128)
    );
}

#[test]
fn search_with_one_worker_returns_the_first_accepted_fee() {
    let report = Coordinator::search(&input_with(window_00aa()), 6000000000920, 1, 100);
    assert_eq!(report.outcome, Ok(WinningResult { fee: n(6000000000950) }));
    assert_eq!(report.workers.len(), 1);
    assert_eq!(report.workers[0].state(), WorkerState::Found);
    assert_eq!(report.workers[0].attempts(), 29);
}

#[test]
fn search_with_one_worker_is_repeatable() {
    let a = Coordinator::search(&input_with(window_00aa()), 6000000000940, 1, 100);
    let b = Coordinator::search(&input_with(window_00aa()), 6000000000940, 1, 100);
    assert_eq!(a.outcome, b.outcome);
    assert_eq!(a.workers, b.workers);
}

#[test]
fn search_cancels_the_other_workers_soon_after_the_hit() {
    let report = Coordinator::search(&input_with(window_00aa()), 6000000004411, 3, 50);
    assert_eq!(report.outcome, Ok(WinningResult { fee: n(6000000069954) }));
    assert_eq!(report.workers.len(), 3);
    assert_eq!(report.workers[1].state(), WorkerState::Found);
    assert_eq!(report.workers[1].candidate(), n(6000000069954));
    assert!(report.workers[1].attempts() < 10);
    assert_eq!(report.workers[0].state(), WorkerState::Cancelled);
    assert_eq!(report.workers[2].state(), WorkerState::Cancelled);
    assert!(report.workers[0].attempts() <= report.workers[1].attempts() + 1);
    assert!(report.workers[2].attempts() <= report.workers[1].attempts() + 1);
    assert_eq!(report.workers[0].attempts(), 7);
    assert_eq!(report.workers[2].attempts(), 6);
}

#[test]
fn search_lets_the_lowest_index_win_a_round() {
    let report = Coordinator::search(&input_with(everything()), 100, 3, 5);
    assert_eq!(report.outcome, Ok(WinningResult { fee: n(101) }));
    assert_eq!(report.workers[0].state(), WorkerState::Found);
    assert_eq!(report.workers[1].state(), WorkerState::Cancelled);
    assert_eq!(report.workers[2].state(), WorkerState::Cancelled);
    assert_eq!(report.workers[1].attempts(), 0);
}

#[test]
fn search_without_a_hit_ends_with_no_winner() {
    let report = Coordinator::search(&input_with(nothing_but_zero()), 100, 3, 4);
    assert_eq!(report.outcome, Err(SearchError::NoWinner));
    assert_eq!(report.workers[0].state(), WorkerState::Error);
    assert_eq!(report.workers[1].state(), WorkerState::Cancelled);
    assert_eq!(report.workers[2].state(), WorkerState::Cancelled);
    for w in report.workers.iter() {
        assert_eq!(w.attempts(), 4);
    }
}

#[test]
fn search_without_workers_ends_with_no_winner() {
    let report = Coordinator::search(&input_with(everything()), 100, 0, 4);
    assert_eq!(report.outcome, Err(SearchError::NoWinner));
    assert!(report.workers.is_empty());
}

#[test]
fn search_without_attempts_ends_with_no_winner() {
    let report = Coordinator::search(&input_with(everything()), 100, 2, 0);
    assert_eq!(report.outcome, Err(SearchError::NoWinner));
    assert_eq!(report.workers[0].state(), WorkerState::Error);
    assert_eq!(report.workers[1].state(), WorkerState::Cancelled);
}

#[test]
fn total_attempts_adds_up_the_counters_of_the_workers() {
    let report = Coordinator::search(&input_with(window_00aa()), 6000000004411, 3, 50);
    assert_eq!(total_attempts(&report.workers), 7 + 6 + 6);
    assert_eq!(total_attempts(&[]), 0);
    let lost = Coordinator::search(&input_with(nothing_but_zero()), 100, 3, 4);
    assert_eq!(total_attempts(&lost.workers), 12);
}

#[test]
fn fail_running_writes_off_the_workers_that_have_not_reported() {
    let mut c = Coordinator::new(3);
    assert_eq!(c.report(1, WorkerState::Found, n(77)), CoordinatorAction::RaiseCancellation);
    assert_eq!(c.fail_running(), CoordinatorAction::RaiseCancellation);
    assert!(c.all_stopped());
    assert_eq!(c.conclude(), Some(Ok(WinningResult { fee: n(77) })));
    assert_eq!(c.fail_running(), CoordinatorAction::Wait);
    let mut silent = Coordinator::new(2);
    assert_eq!(silent.fail_running(), CoordinatorAction::RaiseCancellation);
    assert_eq!(silent.conclude(), Some(Err(SearchError::NoWinner)));
    assert_eq!(silent.report(0, WorkerState::Found, n(5)), CoordinatorAction::Wait);
    assert_eq!(silent.winner(), None);
}
