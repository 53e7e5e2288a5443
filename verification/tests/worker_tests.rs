use fee_miner::call::Call;
use fee_miner::field::FieldElement;
use fee_miner::signal::CancellationSignal;
use fee_miner::transaction::{testnet_chain_id, transaction_hash, PREFIX_INVOKE};
use fee_miner::window::AcceptanceWindow;
use fee_miner::worker::{mine_worker, search_alone, SearchInput, SearchWorker, WorkerState};

type Felt = starknet::core::types::FieldElement;

fn outside(f: &FieldElement) -> Felt {
    Felt::from_bytes_be(&f.to_bytes_be()).unwrap()
}

fn window_00aa() -> AcceptanceWindow {
    let min = FieldElement::from_hex(&format!("0x00aa{}", "0".repeat(60))).unwrap();
    let max = FieldElement::from_hex(&format!("0x00aa{}", "f".repeat(60))).unwrap();
    AcceptanceWindow::new(min, max).unwrap()
}

fn input_with(window: AcceptanceWindow) -> SearchInput {
    SearchInput {
        call_hash: FieldElement::from_u64(0x5678),
        sender_address: FieldElement::from_u64(0x1234),
        chain_id: testnet_chain_id(),
        nonce: FieldElement::zero(),
        window,
    }
}

fn reference_digest(input: &SearchInput, fee: &FieldElement) -> Felt {
    starknet::core::crypto::compute_hash_on_elements(&[
        Felt::from(PREFIX_INVOKE),
        Felt::ONE,
        outside(&input.sender_address),
        Felt::ZERO,
        outside(&input.call_hash),
        outside(fee),
        outside(&input.chain_id),
        outside(&input.nonce),
    ])
}

fn everything() -> AcceptanceWindow {
    let largest = FieldElement::from_bytes_be(Felt::MAX.to_bytes_be()).unwrap();
    AcceptanceWindow::new(FieldElement::zero(), largest).unwrap()
}

fn nothing_but_zero() -> AcceptanceWindow {
    AcceptanceWindow::new(FieldElement::zero(), FieldElement::zero()).unwrap()
}

#[test]
fn a_new_worker_is_running_at_its_offset() {
    let w = SearchWorker::new(input_with(everything()), FieldElement::from_u64(41), 10);
    assert_eq!(w.state(), WorkerState::Running);
    assert_eq!(w.candidate(), FieldElement::from_u64(41));
    assert_eq!(w.attempts(), 0);
    assert_eq!(w.attempt_limit(), 10);
    assert_eq!(w.task().candidate, FieldElement::from_u64(41));
    assert_eq!(w.task().attempts, 0);
}

#[test]
fn step_finds_the_next_candidate_when_everything_is_accepted() {
    let mut w = SearchWorker::new(input_with(everything()), FieldElement::from_u64(41), 10);
    assert_eq!(w.step(false), WorkerState::Found);
    assert_eq!(w.candidate(), FieldElement::from_u64(42));
    assert_eq!(w.attempts(), 0);
    assert_eq!(w.step(false), WorkerState::Found);
    assert_eq!(w.candidate(), FieldElement::from_u64(42));
}

#[test]
fn step_counts_a_rejected_candidate() {
    let mut w = SearchWorker::new(input_with(nothing_but_zero()), FieldElement::from_u64(41), 10);
    assert_eq!(w.step(false), WorkerState::Running);
    assert_eq!(w.candidate(), FieldElement::from_u64(42));
    assert_eq!(w.attempts(), 1);
}

#[test]
fn step_is_cancelled_by_the_signal_before_it_tries() {
    let mut w = SearchWorker::new(input_with(everything()), FieldElement::from_u64(41), 10);
    assert_eq!(w.step(true), WorkerState::Cancelled);
    assert_eq!(w.candidate(), FieldElement::from_u64(41));
    assert_eq!(w.attempts(), 0);
    assert_eq!(w.step(false), WorkerState::Cancelled);
}

#[test]
fn step_ends_in_error_when_the_attempts_are_used_up() {
    let mut w = SearchWorker::new(input_with(nothing_but_zero()), FieldElement::from_u64(41), 2);
    assert_eq!(w.step(false), WorkerState::Running);
    assert_eq!(w.step(false), WorkerState::Running);
    assert_eq!(w.step(false), WorkerState::Error);
    assert_eq!(w.attempts(), 2);
    assert_eq!(w.candidate(), FieldElement::from_u64(43));
    assert_eq!(w.step(true), WorkerState::Error);
}

#[test]
fn a_worker_without_attempts_ends_in_error_at_once() {
    let mut w = SearchWorker::new(input_with(everything()), FieldElement::from_u64(41), 0);
    assert_eq!(search_alone(&mut w), WorkerState::Error);
    assert_eq!(w.candidate(), FieldElement::from_u64(41));
}

#[test]
fn the_candidate_wraps_at_the_modulus() {
    let largest = FieldElement::from_bytes_be(Felt::MAX.to_bytes_be()).unwrap();
    let mut w = SearchWorker::new(input_with(nothing_but_zero()), largest, 3);
    assert_eq!(w.step(false), WorkerState::Running);
    assert_eq!(w.candidate(), FieldElement::zero());
}

#[test]
fn a_single_worker_finds_a_fee_inside_the_window() {
    let input = input_with(window_00aa());
    let start = FieldElement::from_u64(6000000000900);
    let mut w = SearchWorker::new(input, start, 1000);
    assert_eq!(search_alone(&mut w), WorkerState::Found);
    let fee = w.candidate();
    assert!(start.le(&fee));
    assert_eq!(fee, FieldElement::from_u64(6000000000950));
    assert_eq!(w.attempts(), 49);
    let digest = reference_digest(&input, &fee);
    assert!(outside(&input.window.min()) <= digest);
    assert!(digest <= outside(&input.window.max()));
    assert_eq!(&digest.to_bytes_be()[..2], &[0x00, 0xaa]);
    let ours = transaction_hash(
        &input.sender_address,
        &input.call_hash,
        &fee,
        &input.chain_id,
        &input.nonce,
    );
    assert_eq!(outside(&ours), digest);
}

#[test]
fn a_single_worker_search_gives_the_same_fee_twice() {
    let input = input_with(window_00aa());
    let start = FieldElement::from_u64(6000000000930);
    let mut first = SearchWorker::new(input, start, 100);
    let mut second = SearchWorker::new(input, start, 100);
    assert_eq!(search_alone(&mut first), WorkerState::Found);
    assert_eq!(search_alone(&mut second), WorkerState::Found);
    assert_eq!(first.candidate(), second.candidate());
    assert_eq!(first, second);
}

#[test]
fn a_single_worker_gives_up_at_its_limit() {
    let input = input_with(window_00aa());
    let mut w = SearchWorker::new(input, FieldElement::from_u64(6000000000900), 20);
    assert_eq!(search_alone(&mut w), WorkerState::Error);
    assert_eq!(w.attempts(), 20);
    assert_eq!(w.candidate(), FieldElement::from_u64(6000000000920));
}

#[test]
fn mine_worker_finds_the_fee_and_raises_the_signal() {
    let input = input_with(window_00aa());
    let mut signal = CancellationSignal::new();
    let mut w = SearchWorker::new(input, FieldElement::from_u64(6000000000940), 100);
    assert_eq!(mine_worker(&mut w, &mut signal), WorkerState::Found);
    assert_eq!(w.candidate(), FieldElement::from_u64(6000000000950));
    assert_eq!(w.attempts(), 9);
    assert!(signal.is_raised());
}

#[test]
fn mine_worker_raises_the_signal_when_it_gives_up() {
    let mut signal = CancellationSignal::new();
    let mut w = SearchWorker::new(input_with(nothing_but_zero()), FieldElement::from_u64(1), 3);
    assert_eq!(mine_worker(&mut w, &mut signal), WorkerState::Error);
    assert_eq!(w.attempts(), 3);
    assert!(signal.is_raised());
}

#[test]
fn mine_worker_stops_before_its_first_candidate_when_the_signal_is_up() {
    let mut signal = CancellationSignal::new();
    assert!(signal.raise());
    let mut w = SearchWorker::new(input_with(everything()), FieldElement::from_u64(1), 3);
    assert_eq!(mine_worker(&mut w, &mut signal), WorkerState::Cancelled);
    assert_eq!(w.attempts(), 0);
    assert_eq!(w.candidate(), FieldElement::from_u64(1));
}

#[test]
fn the_other_workers_are_cancelled_after_the_first_success() {
    let input = input_with(window_00aa());
    let mut signal = CancellationSignal::new();
    let base = 6000000004411u64;
    let mut workers: Vec<SearchWorker> = (0..3u64)
        .map(|i| SearchWorker::new(input, FieldElement::from_u64(base + 65536 * i), 50))
        .collect();
    let mut held_by_first = signal.clone();
    let mut held_by_third = signal.clone();
    assert_eq!(mine_worker(&mut workers[1], &mut signal), WorkerState::Found);
    assert!(workers[1].attempts() < 10);
    assert_eq!(workers[1].candidate(), FieldElement::from_u64(6000000069954));
    assert_eq!(mine_worker(&mut workers[0], &mut held_by_first), WorkerState::Cancelled);
    assert_eq!(mine_worker(&mut workers[2], &mut held_by_third), WorkerState::Cancelled);
    assert_eq!(workers[0].attempts(), 0);
    assert_eq!(workers[2].attempts(), 0);
}

#[test]
fn the_signal_is_raised_once() {
    let mut signal = CancellationSignal::new();
    assert!(!signal.is_raised());
    assert!(signal.raise());
    assert!(signal.is_raised());
    assert!(!signal.raise());
    assert!(signal.is_raised());
}

#[test]
fn every_holder_sees_the_signal_that_one_of_them_raised() {
    let mut first = CancellationSignal::new();
    let mut second = first.clone();
    let mut third = first.clone();
    assert!(!first.is_raised());
    assert!(!second.is_raised());
    assert!(second.raise());
    assert!(first.is_raised());
    assert!(third.is_raised());
    assert!(!first.raise());
    assert!(!third.raise());
    let mut late = third.clone();
    assert!(late.is_raised());
}

#[test]
fn signals_over_different_flags_do_not_touch_each_other() {
    let mut one = CancellationSignal::new();
    let mut other = CancellationSignal::new();
    assert!(one.raise());
    assert!(!other.is_raised());
    assert!(other.raise());
}

#[test]
fn a_worker_that_finds_a_fee_stops_the_holders_of_the_other_signals() {
    let input = input_with(everything());
    let mut signal = CancellationSignal::new();
    let mut seen_elsewhere = signal.clone();
    let mut finder = SearchWorker::new(input, FieldElement::from_u64(1), 3);
    assert_eq!(mine_worker(&mut finder, &mut signal), WorkerState::Found);
    let mut other = SearchWorker::new(input, FieldElement::from_u64(100), 3);
    assert_eq!(mine_worker(&mut other, &mut seen_elsewhere), WorkerState::Cancelled);
    assert_eq!(other.attempts(), 0);
    assert_eq!(other.candidate(), FieldElement::from_u64(100));
}

#[test]
fn search_input_for_calls_hashes_the_calls() {
    let calls = vec![Call {
        to: FieldElement::from_u64(100),
        selector: FieldElement::from_u64(200),
        calldata: vec![FieldElement::from_u64(1)],
    }];
    let input = SearchInput::for_calls(
        &calls,
        FieldElement::from_u64(0x1234),
        testnet_chain_id(),
        FieldElement::from_u64(5),
        everything(),
    );
    let felts: Vec<Felt> = [1u64, 100, 200, 1, 1].iter().map(|v| Felt::from(*v)).collect();
    assert_eq!(
        outside(&input.call_hash),
        starknet::core::crypto::compute_hash_on_elements(&felts)
    );
    assert_eq!(input.nonce, FieldElement::from_u64(5));
    assert_eq!(input.sender_address, FieldElement::from_u64(0x1234));
}
