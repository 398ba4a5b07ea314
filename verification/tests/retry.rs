use ethereum_networks::capabilities::NodeCapabilities;
use ethereum_networks::operations::{Operation, ATTEMPT_TIMEOUT_SECS};
use ethereum_networks::pool::EthereumNetworkAdapters;
use ethereum_networks::retry::{AttemptOutcome, CallError, Retry, RetryStep};
use std::cell::RefCell;
use std::sync::Arc;

fn three() -> EthereumNetworkAdapters<&'static str> {
    let mut pool = EthereumNetworkAdapters::new();
    let full = NodeCapabilities { archive: false, traces: false };
    pool.push(full, Arc::new("first"));
    pool.push(full, Arc::new("second"));
    pool.push(full, Arc::new("third"));
    pool
}

#[test]
fn executor_succeeds_on_the_third_endpoint() {
    let pool = three();
    let tried: RefCell<Vec<&'static str>> = RefCell::new(Vec::new());
    let result: Result<u64, CallError<String>> = pool.run("block number".to_string(), 3, |handle| {
        tried.borrow_mut().push(**handle);
        if **handle == "third" {
            AttemptOutcome::Completed(42)
        } else {
            AttemptOutcome::TimedOut
        }
    });
    assert_eq!(result, Ok(42));
    assert_eq!(*tried.borrow(), vec!["first", "second", "third"]);
}

#[test]
fn executor_fails_when_all_endpoints_time_out() {
    let pool = three();
    let attempts = RefCell::new(0);
    let result: Result<u64, CallError<String>> = pool.run("<label>".to_string(), 3, |_| {
        *attempts.borrow_mut() += 1;
        AttemptOutcome::TimedOut
    });
    assert_eq!(result, Err(CallError::AggregateTimeout("<label>".to_string())));
    assert_eq!(*attempts.borrow(), 3);
}

#[test]
fn executor_stops_at_the_first_answer() {
    let pool = three();
    let tried: RefCell<Vec<&'static str>> = RefCell::new(Vec::new());
    let result: Result<&'static str, CallError<String>> = pool.run("op".to_string(), 3, |handle| {
        tried.borrow_mut().push(**handle);
        AttemptOutcome::Completed(**handle)
    });
    assert_eq!(result, Ok("first"));
    assert_eq!(*tried.borrow(), vec!["first"]);
}

#[test]
fn executor_hands_on_a_remote_error() {
    let pool = three();
    let result: Result<u64, CallError<String>> =
        pool.run("op".to_string(), 3, |handle| AttemptOutcome::Failed(format!("{} refused", handle)));
    assert_eq!(result, Err(CallError::Remote("third refused".to_string())));
}

#[test]
fn executor_keeps_a_remote_error_over_later_timeouts() {
    let pool = three();
    let result: Result<u64, CallError<String>> = pool.run("op".to_string(), 3, |handle| {
        if **handle == "second" {
            AttemptOutcome::Failed("second refused".to_string())
        } else {
            AttemptOutcome::TimedOut
        }
    });
    assert_eq!(result, Err(CallError::Remote("second refused".to_string())));
}

#[test]
fn executor_makes_no_more_attempts_than_the_limit() {
    let pool = three();
    let tried: RefCell<Vec<&'static str>> = RefCell::new(Vec::new());
    let result: Result<u64, CallError<String>> = pool.run("op".to_string(), 2, |handle| {
        tried.borrow_mut().push(**handle);
        AttemptOutcome::TimedOut
    });
    assert_eq!(result, Err(CallError::AggregateTimeout("op".to_string())));
    assert_eq!(*tried.borrow(), vec!["first", "second"]);
}

#[test]
fn executor_makes_no_more_attempts_than_the_pool_has_endpoints() {
    let pool = three();
    let tried: RefCell<Vec<&'static str>> = RefCell::new(Vec::new());
    let result: Result<u64, CallError<String>> = pool.run("op".to_string(), 10, |handle| {
        tried.borrow_mut().push(**handle);
        AttemptOutcome::TimedOut
    });
    assert_eq!(result, Err(CallError::AggregateTimeout("op".to_string())));
    assert_eq!(*tried.borrow(), vec!["first", "second", "third"]);
}

#[test]
fn executor_on_an_empty_pool_makes_no_attempt() {
    let pool: EthereumNetworkAdapters<&'static str> = EthereumNetworkAdapters::new();
    let attempts = RefCell::new(0);
    let result: Result<u64, CallError<String>> = pool.run("op".to_string(), 3, |_| {
        *attempts.borrow_mut() += 1;
        AttemptOutcome::Completed(1)
    });
    assert_eq!(result, Err(CallError::AggregateTimeout("op".to_string())));
    assert_eq!(*attempts.borrow(), 0);
}

#[test]
fn plan_rotates_through_the_pool() {
    let step: RetryStep<u64, String> = Retry::start("op".to_string(), 3, 3);
    let state = match step {
        RetryStep::Attempt(state) => state,
        RetryStep::Finished(_) => panic!("an attempt is due"),
    };
    assert_eq!(state.attempts, 0);
    assert_eq!(state.budget, 3);
    let state = match state.record(AttemptOutcome::<u64, String>::TimedOut) {
        RetryStep::Attempt(state) => state,
        RetryStep::Finished(_) => panic!("an attempt is due"),
    };
    assert_eq!(state.attempts, 1);
    let state = match state.record(AttemptOutcome::<u64, String>::Failed("no".to_string())) {
        RetryStep::Attempt(state) => state,
        RetryStep::Finished(_) => panic!("an attempt is due"),
    };
    assert_eq!(state.attempts, 2);
    assert_eq!(state.last_failure, Some("no".to_string()));
    assert_eq!(state.label, "op");
    match state.record(AttemptOutcome::Completed(5)) {
        RetryStep::Finished(result) => assert_eq!(result, Ok(5)),
        RetryStep::Attempt(_) => panic!("the operation has ended"),
    }
}

#[test]
fn plan_with_one_attempt_ends_after_it() {
    let step: RetryStep<u64, String> = Retry::start("op".to_string(), 5, 1);
    let state = match step {
        RetryStep::Attempt(state) => state,
        RetryStep::Finished(_) => panic!("an attempt is due"),
    };
    assert_eq!(state.budget, 1);
    match state.record(AttemptOutcome::<u64, String>::TimedOut) {
        RetryStep::Finished(result) => {
            assert_eq!(result, Err(CallError::AggregateTimeout("op".to_string())))
        }
        RetryStep::Attempt(_) => panic!("the operation has ended"),
    }
}

#[test]
fn plan_without_attempts_ends_at_once() {
    let step: RetryStep<u64, String> = Retry::start("op".to_string(), 0, 3);
    assert!(matches!(step, RetryStep::Finished(Err(CallError::AggregateTimeout(label))) if label == "op"));
    let step: RetryStep<u64, String> = Retry::start("op".to_string(), 3, 0);
    assert!(matches!(step, RetryStep::Finished(Err(CallError::AggregateTimeout(label))) if label == "op"));
}

#[test]
fn operations_have_their_labels() {
    assert_eq!(Operation::NetIdentifiers.label(), "NetworkAdapters: net_version RPC call");
    assert_eq!(
        Operation::LatestBlockHeader.label(),
        "NetworkAdapters: eth_getBlockByNumber(latest) no txs RPC call"
    );
    for operation in [
        Operation::LatestBlock,
        Operation::LoadBlock,
        Operation::BlockByHash,
        Operation::BlockByNumber,
    ] {
        assert_eq!(
            operation.label(),
            "NetworkAdapters: eth_getBlockByNumber(latest) with txs RPC call"
        );
    }
    assert_eq!(
        Operation::LoadFullBlock.label(),
        "NetworkAdapters: batch eth_getTransactionReceipt RPC call"
    );
    assert_eq!(Operation::BlockPointerFromNumber.label(), "NetworkAdapters: block pointer from number");
    assert_eq!(Operation::BlockHashByBlockNumber.label(), "NetworkAdapters: block hash by block number");
    assert_eq!(
        Operation::Uncles.label(),
        "NetworkAdapters: eth_getUncleByBlockHashAndIndex RPC call"
    );
    assert_eq!(Operation::IsOnMainChain.label(), "NetworkAdapters: is on main chain");
    assert_eq!(Operation::CallsInBlock.label(), "NetworkAdapters: calls in block");
    assert_eq!(Operation::ContractCall.label(), "NetworkAdapters: contract call");
    assert_eq!(Operation::LoadBlocks.label(), "NetworkAdapters: load blocks");
    assert_eq!(Operation::BlockRangeToPtrs.label(), "NetworkAdapters: block range to ptrs");
}

#[test]
fn operations_with_a_timeout_wording_of_their_own() {
    assert_eq!(
        Operation::LatestBlockHeader.timeout_message(),
        Some("All compatible Ethereum nodes took too long to return latest block header")
    );
    assert_eq!(
        Operation::LatestBlock.timeout_message(),
        Some("All compatible Ethereum nodes took too long to return latest block")
    );
    assert_eq!(
        Operation::LoadFullBlock.timeout_message(),
        Some("All compatible Ethereum nodes took too long to load full block")
    );
    assert_eq!(
        Operation::BlockPointerFromNumber.timeout_message(),
        Some("All compatible Ethereum nodes took too long to return block pointer from number")
    );
    assert_eq!(Operation::NetIdentifiers.timeout_message(), None);
    assert_eq!(Operation::ContractCall.timeout_message(), None);
    assert_eq!(Operation::LoadBlock.timeout_message(), None);
}

#[test]
fn every_operation_gets_one_attempt_for_each_endpoint() {
    let pool = three();
    let plan = Operation::Uncles.plan(pool.adapters.len());
    assert_eq!(plan.label, "NetworkAdapters: eth_getUncleByBlockHashAndIndex RPC call");
    assert_eq!(plan.limit, 3);
    assert_eq!(plan.timeout_secs, 20);
    assert_eq!(ATTEMPT_TIMEOUT_SECS, 20);
    let result: Result<u64, CallError<String>> =
        pool.run(plan.label, plan.limit, |_| AttemptOutcome::TimedOut);
    assert_eq!(
        result,
        Err(CallError::AggregateTimeout(
            "NetworkAdapters: eth_getUncleByBlockHashAndIndex RPC call".to_string()
        ))
    );
}

#[test]
fn timeout_report_of_each_kind() {
    assert_eq!(
        Operation::LoadFullBlock.timeout_report(),
        "All compatible Ethereum nodes took too long to load full block"
    );
    assert_eq!(
        Operation::ContractCall.timeout_report(),
        "NetworkAdapters: contract call: all eligible endpoints failed to respond in time"
    );
}
