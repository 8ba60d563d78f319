use remitwise::bytes::Address;
use remitwise::flow::{FlowAction, FlowRun};
use remitwise::wasm_budget::{verify_wasm_size, wasm_size_budgets};
use remitwise::orchestrator::{
    Dependencies, ExecutionStats, Orchestrator, OrchestratorError, OrchestratorEvent, RemittanceFlowParams,
    MAX_AUDIT_ENTRIES, MAX_DEADLINE_WINDOW_SECS, MAX_USED_NONCES_PER_ADDR,
};

fn addr(name: &str) -> Address {
    Address::new(name.as_bytes().to_vec())
}

/// How the downstream contracts answer.
#[derive(Clone)]
struct Mocks {
    spending_ok: bool,
    split: Vec<i128>,
    goal_ok: bool,
    bill_ok: bool,
    premium_ok: bool,
    reversals: Vec<&'static str>,
}

fn mocks() -> Mocks {
    Mocks {
        spending_ok: true,
        split: vec![2500, 2500, 2500, 2500],
        goal_ok: true,
        bill_ok: true,
        premium_ok: true,
        reversals: Vec::new(),
    }
}

/// Runs the flow's calls against the mocks until it ends.
fn drive(run: &mut FlowRun, m: &mut Mocks) -> Result<(), OrchestratorError> {
    loop {
        match run.action() {
            FlowAction::CheckSpendingLimit { .. } => run.on_reply(m.spending_ok),
            FlowAction::CalculateSplit { .. } => {
                let split = m.split.clone();
                run.on_split(&split)
            },
            FlowAction::AddToGoal { .. } => run.on_reply(m.goal_ok),
            FlowAction::PayBill { .. } => run.on_reply(m.bill_ok),
            FlowAction::PayPremium { .. } => run.on_reply(m.premium_ok),
            FlowAction::RemoveFromGoal { .. } => {
                m.reversals.push("remove_from_goal");
                run.on_reply(true)
            },
            FlowAction::ReversePayment { .. } => {
                m.reversals.push("reverse_payment");
                run.on_reply(true)
            },
            FlowAction::Finish(outcome) => return outcome,
        }
    }
}

fn params(caller: &Address, amount: i128) -> RemittanceFlowParams {
    let mock_id = addr("MOCK");
    RemittanceFlowParams {
        caller: caller.clone(),
        total_amount: amount,
        family_wallet: mock_id.clone(),
        remittance_split: mock_id.clone(),
        savings: mock_id.clone(),
        bills: mock_id.clone(),
        insurance: mock_id.clone(),
        goal_id: 1,
        bill_id: 1,
        policy_id: 1,
    }
}

fn execute_unsigned(
    o: &mut Orchestrator,
    p: &RemittanceFlowParams,
    now: u64,
    ev: &mut Vec<OrchestratorEvent>,
    m: &mut Mocks,
) -> Result<(), OrchestratorError> {
    let mut run = o.begin_unsigned(p, now, ev)?;
    let outcome = drive(&mut run, m);
    o.finish_unsigned(&p.caller, p.total_amount, outcome, now, ev)
}

fn execute_signed(
    o: &mut Orchestrator,
    executor: &Address,
    amount: i128,
    nonce: u64,
    deadline: u64,
    hash: u64,
    now: u64,
    m: &mut Mocks,
) -> Result<bool, OrchestratorError> {
    let mut ev = Vec::new();
    let mut run = o.begin_signed(executor, amount, nonce, deadline, hash, now, &mut ev)?;
    let outcome = drive(&mut run, m);
    o.finish_signed(executor, amount, outcome, now, &mut ev)
}

fn request_hash(nonce: u64, amount: i128, deadline: u64) -> u64 {
    Orchestrator::compute_request_hash("flow", &addr("ANY"), nonce, amount, deadline)
}

fn deps() -> Dependencies {
    Dependencies {
        family_wallet: addr("FW"),
        remittance_split: addr("RS"),
        savings_goals: addr("SG"),
        bill_payments: addr("BP"),
        insurance: addr("INS"),
    }
}

fn initialized() -> Orchestrator {
    let mut o = Orchestrator::new();
    let mut ev = Vec::new();
    assert_eq!(o.init(&addr("OWNER"), deps(), &mut ev), Ok(true));
    o
}

fn do_flow(o: &mut Orchestrator, executor: &Address, now: u64) {
    let mut ev = Vec::new();
    execute_unsigned(o, &params(executor, 1000), now, &mut ev, &mut mocks()).unwrap();
}

fn count(ev: &[OrchestratorEvent], kind: &str) -> usize {
    ev.iter()
        .filter(|e| match (e, kind) {
            (OrchestratorEvent::FlowStarted { .. }, "flow") => true,
            (OrchestratorEvent::FlowSucceeded { .. }, "flow_ok") => true,
            (OrchestratorEvent::FlowFailed { .. }, "flow_fail") => true,
            _ => false,
        })
        .count()
}

#[test]
fn test_wasm_size_budget_validation_rejects_oversized_artifacts() {
    assert!(verify_wasm_size("example.wasm", 10_001, 10_000).is_err());
}

#[test]
fn wasm_size_within_budget_is_accepted_with_exact_refusal_text() {
    assert_eq!(verify_wasm_size("example.wasm", 10_000, 10_000), Ok(()));
    assert_eq!(
        verify_wasm_size("insurance.wasm", 42_058, 42_057),
        Err("WASM size for 'insurance.wasm' is 42058 bytes, which exceeds the budget of 42057 bytes.".to_string())
    );
    let budgets = wasm_size_budgets();
    assert_eq!(budgets.len(), 5);
    assert_eq!(budgets[3], ("insurance.wasm", 42_057));
    assert_eq!(budgets[4], ("family_wallet.wasm", 63_296));
}

#[test]
fn test_execute_flow_success() {
    let mut o = Orchestrator::new();
    let mut ev = Vec::new();
    let r = execute_unsigned(&mut o, &params(&addr("CALLER"), 10000), 0, &mut ev, &mut mocks());
    assert_eq!(r, Ok(()));
    assert!(!o.get_execution_state());
}

#[test]
fn test_lock_released_on_invalid_amount() {
    let mut o = Orchestrator::new();
    let mut ev = Vec::new();
    let r = execute_unsigned(&mut o, &params(&addr("CALLER"), -100), 0, &mut ev, &mut mocks());
    assert!(r.is_err());
    assert!(!o.get_execution_state());
}

#[test]
fn test_reentrancy_rejection() {
    let mut o = Orchestrator::new();
    o.exec_lock = true;
    let mut ev = Vec::new();
    let r = execute_unsigned(&mut o, &params(&addr("CALLER"), 1000), 0, &mut ev, &mut mocks());
    match r {
        Err(OrchestratorError::ExecutionLocked) => (),
        _ => panic!("Expected ExecutionLocked error"),
    }
    assert!(o.get_execution_state());
}

#[test]
fn test_lock_recovery_after_failure() {
    // A downstream contract that cannot answer aborts the whole transaction,
    // so the stored state is the one from before the call.
    let stored = Orchestrator::new();
    let mut working = stored.clone();
    let mut ev = Vec::new();
    let run = working.begin_unsigned(&params(&addr("CALLER"), 1000), 0, &mut ev);
    assert!(run.is_ok());
    assert!(working.get_execution_state());
    let result: Result<(), OrchestratorError> = Err(OrchestratorError::CrossContractCallFailed);
    assert!(result.is_err());
    let o = stored;
    assert!(!o.get_execution_state());
}

#[test]
fn test_audit_log_limit_clamped_to_max() {
    let mut o = initialized();
    let executor = addr("EXECUTOR");
    for _ in 0..10u64 {
        do_flow(&mut o, &executor, 0);
    }
    assert_eq!(o.get_audit_log(0, 9999).len(), 10);
}

#[test]
fn test_audit_log_pagination_no_duplicates() {
    let mut o = initialized();
    let executor = addr("EXECUTOR");
    for _ in 0..10u64 {
        do_flow(&mut o, &executor, 0);
    }
    let page0 = o.get_audit_log(0, 3);
    let page1 = o.get_audit_log(3, 3);
    let page2 = o.get_audit_log(6, 3);
    let page3 = o.get_audit_log(9, 3);
    assert_eq!(page0.len(), 3);
    assert_eq!(page1.len(), 3);
    assert_eq!(page2.len(), 3);
    assert_eq!(page3.len(), 1);
    let mut timestamps = Vec::new();
    for p in [&page0, &page1, &page2, &page3] {
        for e in p.iter() {
            timestamps.push(e.timestamp);
        }
    }
    assert_eq!(timestamps.len(), 10);
}

#[test]
fn test_audit_log_cap_eviction_order() {
    let mut o = initialized();
    let executor = addr("EXECUTOR");
    for nonce in 0..MAX_AUDIT_ENTRIES as u64 {
        do_flow(&mut o, &executor, 100_000 + nonce);
    }
    let full_page = o.get_audit_log(0, MAX_AUDIT_ENTRIES);
    assert_eq!(full_page.len(), MAX_AUDIT_ENTRIES as usize);
    assert_eq!(full_page[0].timestamp, 100_000);
    do_flow(&mut o, &executor, 100_000 + MAX_AUDIT_ENTRIES as u64);
    let after_eviction = o.get_audit_log(0, MAX_AUDIT_ENTRIES);
    assert_eq!(after_eviction.len(), MAX_AUDIT_ENTRIES as usize);
    assert_eq!(after_eviction[0].timestamp, 100_001);
    assert_eq!(after_eviction[MAX_AUDIT_ENTRIES as usize - 1].timestamp, 100_000 + MAX_AUDIT_ENTRIES as u64);
}

#[test]
fn test_evicted_entries_counter_increments() {
    let mut o = initialized();
    let executor = addr("EXECUTOR");
    for _ in 0..MAX_AUDIT_ENTRIES as u64 {
        do_flow(&mut o, &executor, 0);
    }
    assert_eq!(o.get_execution_stats().unwrap().evicted_entries, 0);
    for _ in 0..3 {
        do_flow(&mut o, &executor, 0);
    }
    assert_eq!(o.get_execution_stats().unwrap().evicted_entries, 3);
}

#[test]
fn test_audit_log_entries_ordered_oldest_to_newest() {
    let mut o = initialized();
    let executor = addr("EXECUTOR");
    for nonce in 0..5u64 {
        do_flow(&mut o, &executor, 100_000 + nonce * 10);
    }
    let page = o.get_audit_log(0, 10);
    assert_eq!(page.len(), 5);
    for i in 0..(page.len() - 1) {
        let a = page[i].timestamp;
        let b = page[i + 1].timestamp;
        assert!(a <= b, "entries not in ascending order: {} > {}", a, b);
    }
}

#[test]
fn test_audit_log_from_index_at_last_entry() {
    let mut o = initialized();
    let executor = addr("EXECUTOR");
    for _ in 0..5u64 {
        do_flow(&mut o, &executor, 0);
    }
    assert_eq!(o.get_audit_log(4, 10).len(), 1);
    assert_eq!(o.get_audit_log(5, 10).len(), 0);
}

#[test]
fn test_audit_log_limit_exactly_one() {
    let mut o = initialized();
    let executor = addr("EXECUTOR");
    for _ in 0..5u64 {
        do_flow(&mut o, &executor, 0);
    }
    assert_eq!(o.get_audit_log(0, 1).len(), 1);
}

#[test]
fn test_audit_log_cap_does_not_exceed_max() {
    let mut o = initialized();
    let executor = addr("EXECUTOR");
    for _ in 0..(MAX_AUDIT_ENTRIES as u64 + 20) {
        do_flow(&mut o, &executor, 0);
    }
    assert_eq!(o.get_audit_log(0, MAX_AUDIT_ENTRIES + 100).len(), MAX_AUDIT_ENTRIES as usize);
}

#[test]
fn audit_page_size_zero_uses_the_default_page() {
    let mut o = initialized();
    let executor = addr("EXECUTOR");
    for _ in 0..30u64 {
        do_flow(&mut o, &executor, 0);
    }
    assert_eq!(o.get_audit_log(0, 0).len(), 20);
    assert_eq!(Orchestrator::clamp_limit(0), 20);
    assert_eq!(Orchestrator::clamp_limit(7), 7);
    assert_eq!(Orchestrator::clamp_limit(101), 100);
}

#[test]
fn test_get_execution_stats_initial() {
    let o = initialized();
    assert_eq!(
        o.get_execution_stats(),
        Some(ExecutionStats {
            total_executions: 0,
            successful_executions: 0,
            failed_executions: 0,
            last_execution_time: 0,
            evicted_entries: 0,
        })
    );
}

#[test]
fn test_nonce_starts_at_zero() {
    let o = initialized();
    assert_eq!(o.get_nonce(&addr("EXECUTOR")), 0, "New address should start with nonce 0");
}

#[test]
fn test_execute_flow_signed_invalid_amount() {
    let mut o = initialized();
    let executor = addr("EXECUTOR");
    let deadline = 0 + 1000;
    let hash = request_hash(0, 0, deadline);
    let result = execute_signed(&mut o, &executor, 0, 0, deadline, hash, 0, &mut mocks());
    assert_eq!(result, Err(OrchestratorError::InvalidAmount));
}

#[test]
fn test_execute_flow_deadline_expired() {
    let mut o = initialized();
    let executor = addr("EXECUTOR");
    let deadline = 0;
    let hash = request_hash(0, 1000, deadline);
    let result = execute_signed(&mut o, &executor, 1000, 0, deadline, hash, 0, &mut mocks());
    assert_eq!(result, Err(OrchestratorError::DeadlineExpired));
}

#[test]
fn test_execute_flow_deadline_too_far() {
    let mut o = initialized();
    let executor = addr("EXECUTOR");
    let deadline = 0 + MAX_DEADLINE_WINDOW_SECS + 1000;
    let hash = request_hash(0, 1000, deadline);
    let result = execute_signed(&mut o, &executor, 1000, 0, deadline, hash, 0, &mut mocks());
    assert_eq!(result, Err(OrchestratorError::DeadlineExpired));
}

#[test]
fn test_execute_flow_invalid_hash() {
    let mut o = initialized();
    let executor = addr("EXECUTOR");
    let deadline = 0 + 1000;
    let result = execute_signed(&mut o, &executor, 1000, 0, deadline, 12345, 0, &mut mocks());
    assert_eq!(result, Err(OrchestratorError::InvalidNonce));
}

#[test]
fn test_out_of_order_nonce_fails() {
    let mut o = initialized();
    let executor = addr("EXECUTOR");
    let deadline = 0 + 1000;
    let hash = request_hash(5, 1000, deadline);
    let result = execute_signed(&mut o, &executor, 1000, 5, deadline, hash, 0, &mut mocks());
    assert_eq!(result, Err(OrchestratorError::InvalidNonce), "Out-of-order nonce should fail (must equal current nonce)");
}

#[test]
fn test_multiple_addresses_independent_nonces() {
    let mut o = initialized();
    let executor1 = addr("EXECUTOR_1");
    let executor2 = addr("EXECUTOR_2");
    assert_eq!(o.get_nonce(&executor1), 0);
    assert_eq!(o.get_nonce(&executor2), 0);
    let deadline = 0 + 1000;
    let hash1 = request_hash(0, 1000, deadline);
    let result1 = execute_signed(&mut o, &executor1, 1000, 0, deadline, hash1, 0, &mut mocks());
    assert!(result1.is_ok());
    assert_eq!(o.get_nonce(&executor1), 1);
    assert_eq!(o.get_nonce(&executor2), 0);
    let hash2 = request_hash(0, 500, deadline);
    let result2 = execute_signed(&mut o, &executor2, 500, 0, deadline, hash2, 0, &mut mocks());
    assert!(result2.is_ok(), "Executor2 should execute with nonce 0");
}

#[test]
fn test_request_hash_binding_prevents_parameter_swap() {
    let mut o = initialized();
    let executor = addr("EXECUTOR");
    let deadline = 0 + 1000;
    let hash_1000 = request_hash(0, 1000, deadline);
    let result = execute_signed(&mut o, &executor, 5000, 0, deadline, hash_1000, 0, &mut mocks());
    assert_eq!(result, Err(OrchestratorError::InvalidNonce), "Parameter swap attempt should fail (hash mismatch)");
}

#[test]
fn test_deadline_window_prevents_old_requests() {
    let mut o = initialized();
    let executor = addr("EXECUTOR");
    let far_deadline = 0 + 366 * 86400;
    let hash = request_hash(0, 1000, far_deadline);
    let result = execute_signed(&mut o, &executor, 1000, 0, far_deadline, hash, 0, &mut mocks());
    assert_eq!(result, Err(OrchestratorError::DeadlineExpired), "Request with deadline too far in future should fail");
}

#[test]
fn test_signed_deadline_at_window_edge_accepted() {
    let mut o = initialized();
    let executor = addr("EXECUTOR");
    let now = 1_000;
    let deadline = now + MAX_DEADLINE_WINDOW_SECS;
    let hash = request_hash(0, 1000, deadline);
    let result = execute_signed(&mut o, &executor, 1000, 0, deadline, hash, now, &mut mocks());
    assert_eq!(result, Ok(true));
    assert_eq!(o.get_nonce(&executor), 1);
}

#[test]
fn test_signed_deadline_one_past_window_rejected() {
    let mut o = initialized();
    let executor = addr("EXECUTOR");
    let now = 1_000;
    let deadline = now + MAX_DEADLINE_WINDOW_SECS + 1;
    let hash = request_hash(0, 1000, deadline);
    let result = execute_signed(&mut o, &executor, 1000, 0, deadline, hash, now, &mut mocks());
    assert_eq!(result, Err(OrchestratorError::DeadlineExpired));
    assert_eq!(o.get_nonce(&executor), 0);
}

#[test]
fn test_signed_deadline_in_past_rejected() {
    let mut o = initialized();
    let executor = addr("EXECUTOR");
    let now = 5_000;
    let deadline = now - 1;
    let hash = request_hash(0, 1000, deadline);
    let result = execute_signed(&mut o, &executor, 1000, 0, deadline, hash, now, &mut mocks());
    assert_eq!(result, Err(OrchestratorError::DeadlineExpired));
    assert_eq!(o.get_nonce(&executor), 0);
}

#[test]
fn test_signed_in_window_replay_with_used_nonce_rejected() {
    let mut o = initialized();
    let executor = addr("EXECUTOR");
    let now = 1_000;
    let deadline = now + MAX_DEADLINE_WINDOW_SECS;
    let hash = request_hash(0, 1000, deadline);
    let first = execute_signed(&mut o, &executor, 1000, 0, deadline, hash, now, &mut mocks());
    assert_eq!(first, Ok(true));
    assert_eq!(o.get_nonce(&executor), 1);
    let replay = execute_signed(&mut o, &executor, 1000, 0, deadline, hash, now, &mut mocks());
    assert_eq!(replay, Err(OrchestratorError::NonceAlreadyUsed));
    assert_eq!(o.get_nonce(&executor), 1);
}

fn signed_with(m: &mut Mocks) -> (Orchestrator, Result<bool, OrchestratorError>, Address) {
    let mut o = initialized();
    let executor = addr("EXECUTOR");
    let deadline = 0 + 1000;
    let hash = request_hash(0, 10000, deadline);
    let result = execute_signed(&mut o, &executor, 10000, 0, deadline, hash, 0, m);
    (o, result, executor)
}

#[test]
fn test_rollback_savings_step_returns_cross_contract_error() {
    let mut m = Mocks { goal_ok: false, ..mocks() };
    let (o, result, executor) = signed_with(&mut m);
    assert_eq!(result, Err(OrchestratorError::CrossContractCallFailed));
    assert!(!o.get_execution_state());
    assert_eq!(o.get_nonce(&executor), 0);
    assert!(m.reversals.is_empty());
}

#[test]
fn test_rollback_bill_step_triggers_compensation() {
    let mut m = Mocks { bill_ok: false, ..mocks() };
    let (o, result, executor) = signed_with(&mut m);
    assert_eq!(result, Err(OrchestratorError::RemittanceFlowRolledBack));
    assert!(!o.get_execution_state());
    assert_eq!(o.get_nonce(&executor), 0);
    assert_eq!(m.reversals, vec!["remove_from_goal"]);
}

#[test]
fn test_rollback_insurance_step_triggers_compensation() {
    let mut m = Mocks { premium_ok: false, ..mocks() };
    let (o, result, executor) = signed_with(&mut m);
    assert_eq!(result, Err(OrchestratorError::RemittanceFlowRolledBack));
    assert!(!o.get_execution_state());
    assert_eq!(o.get_nonce(&executor), 0);
    assert_eq!(m.reversals, vec!["remove_from_goal", "reverse_payment"]);
}

#[test]
fn test_rollback_lock_released_and_stats_updated_on_failure() {
    let mut m = Mocks { goal_ok: false, ..mocks() };
    let (o, result, _) = signed_with(&mut m);
    assert!(result.is_err(), "expected error, got {:?}", result);
    assert!(!o.get_execution_state());
    let stats = o.get_execution_stats().unwrap();
    assert_eq!(stats.total_executions, 1);
    assert_eq!(stats.failed_executions, 1);
}

#[test]
fn test_rollback_spending_check_rejection() {
    let mut m = Mocks { spending_ok: false, ..mocks() };
    let (o, result, _) = signed_with(&mut m);
    assert_eq!(result, Err(OrchestratorError::Unauthorized));
    assert!(!o.get_execution_state());
}

#[test]
fn test_rollback_audit_records_failure_with_step_context() {
    let mut m = Mocks { goal_ok: false, ..mocks() };
    let (o, result, executor) = signed_with(&mut m);
    assert_eq!(result, Err(OrchestratorError::CrossContractCallFailed));
    let audit = o.get_audit_log(0, 10);
    assert_eq!(audit.len(), 1);
    assert!(!audit[0].success);
    assert_eq!(audit[0].executor.bytes, executor.bytes);
    assert_eq!(audit[0].operation.text, b"flow_exec".to_vec());
}

#[test]
fn test_signed_deadline_rejected_does_not_mutate_stats() {
    let mut o = initialized();
    let executor = addr("EXECUTOR");
    let before = o.get_execution_stats().unwrap();
    let now = 1_000;
    let deadline = now + MAX_DEADLINE_WINDOW_SECS + 1;
    let hash = request_hash(0, 1000, deadline);
    let result = execute_signed(&mut o, &executor, 1000, 0, deadline, hash, now, &mut mocks());
    assert_eq!(result, Err(OrchestratorError::DeadlineExpired));
    let after = o.get_execution_stats().unwrap();
    assert_eq!(before, after, "deadline-rejected signed call must not mutate ExecutionStats");
}

#[test]
fn test_flow_event_emitted_on_start() {
    let mut o = Orchestrator::new();
    let mut ev = Vec::new();
    assert_eq!(count(&ev, "flow"), 0);
    execute_unsigned(&mut o, &params(&addr("CALLER"), 1000), 0, &mut ev, &mut mocks()).unwrap();
    assert_eq!(count(&ev, "flow"), 1);
}

#[test]
fn test_flow_ok_event_emitted_on_success() {
    let mut o = Orchestrator::new();
    let mut ev = Vec::new();
    execute_unsigned(&mut o, &params(&addr("CALLER"), 1000), 0, &mut ev, &mut mocks()).unwrap();
    assert_eq!(count(&ev, "flow_ok"), 1);
    let stats = o.get_execution_stats().unwrap();
    assert_eq!(stats.total_executions, 1);
    assert_eq!(stats.successful_executions, 1);
    assert_eq!(stats.failed_executions, 0);
    let audit = o.get_audit_log(0, 1);
    assert_eq!(audit.len(), 1);
    assert_eq!(audit[0].operation.text, b"flow_exec".to_vec());
    assert!(audit[0].success);
}

#[test]
fn test_flow_fail_event_emitted_on_failure() {
    let mut o = Orchestrator::new();
    let mut ev = Vec::new();
    let mut m = Mocks { spending_ok: false, ..mocks() };
    let result = execute_unsigned(&mut o, &params(&addr("CALLER"), 1000), 0, &mut ev, &mut m);
    assert_eq!(result, Err(OrchestratorError::Unauthorized));
    assert_eq!(count(&ev, "flow"), 1);
    assert_eq!(count(&ev, "flow_fail"), 1);
    assert_eq!(count(&ev, "flow_ok"), 0);
}

#[test]
fn test_record_flow_outcome_failure_updates_stats() {
    let mut o = initialized();
    let caller = addr("CALLER");
    let mut ev = Vec::new();
    let _ = o.record_flow_outcome(&caller, 1000, Err(OrchestratorError::Unauthorized), 0, &mut ev);
    let stats = o.get_execution_stats().unwrap();
    assert_eq!(stats.total_executions, 1);
    assert_eq!(stats.successful_executions, 0);
    assert_eq!(stats.failed_executions, 1);
    let audit = o.get_audit_log(0, 1);
    assert_eq!(audit.len(), 1);
    assert!(!audit[0].success);
}

#[test]
fn test_flow_lifecycle_events_order() {
    let mut o = Orchestrator::new();
    let mut ev = Vec::new();
    execute_unsigned(&mut o, &params(&addr("CALLER"), 1000), 0, &mut ev, &mut mocks()).unwrap();
    let flow_idx = ev.iter().position(|e| matches!(e, OrchestratorEvent::FlowStarted { .. }));
    let ok_idx = ev.iter().position(|e| matches!(e, OrchestratorEvent::FlowSucceeded { .. }));
    assert!(flow_idx.is_some());
    assert!(ok_idx.is_some());
    assert!(flow_idx.unwrap() < ok_idx.unwrap());
}

#[test]
fn test_flow_fail_does_not_leak_sensitive_amount() {
    let mut o = Orchestrator::new();
    let mut ev = Vec::new();
    let caller = addr("CALLER");
    let mut m = Mocks { spending_ok: false, ..mocks() };
    let _ = execute_unsigned(&mut o, &params(&caller, 999_999), 0, &mut ev, &mut m);
    let fail = ev.iter().find_map(|e| match e {
        OrchestratorEvent::FlowFailed { executor, error_code } => Some((executor.clone(), *error_code)),
        _ => None,
    });
    let (who, code) = fail.expect("flow_fail event missing");
    assert_eq!(who.bytes, caller.bytes);
    assert_eq!(code, OrchestratorError::Unauthorized.code());
    assert_eq!(code, 1);
}

#[test]
fn test_unsigned_and_signed_flow_stats_parity() {
    let mut o = initialized();
    let unsigned_executor = addr("UNSIGNED");
    let signed_executor = addr("SIGNED");
    let mut ev = Vec::new();
    execute_unsigned(&mut o, &params(&unsigned_executor, 1000), 0, &mut ev, &mut mocks()).unwrap();
    let after_unsigned = o.get_execution_stats().unwrap();
    assert_eq!(after_unsigned.total_executions, 1);
    assert_eq!(after_unsigned.successful_executions, 1);
    assert_eq!(after_unsigned.failed_executions, 0);
    let deadline = 0 + 1000;
    let hash = request_hash(0, 1000, deadline);
    assert_eq!(execute_signed(&mut o, &signed_executor, 1000, 0, deadline, hash, 0, &mut mocks()), Ok(true));
    let after_signed = o.get_execution_stats().unwrap();
    assert_eq!(after_signed.total_executions, 2);
    assert_eq!(after_signed.successful_executions, 2);
    assert_eq!(after_signed.failed_executions, 0);
}

#[test]
fn test_invalid_amount_unsigned_emits_audit_without_lifecycle_events() {
    let mut o = initialized();
    let mut ev = Vec::new();
    let result = execute_unsigned(&mut o, &params(&addr("CALLER"), 0), 0, &mut ev, &mut mocks());
    assert_eq!(result, Err(OrchestratorError::InvalidAmount));
    assert_eq!(count(&ev, "flow"), 0);
    assert_eq!(count(&ev, "flow_ok"), 0);
    let stats = o.get_execution_stats().unwrap();
    assert_eq!(stats.total_executions, 0);
    assert_eq!(stats.successful_executions, 0);
    assert_eq!(stats.failed_executions, 0);
    assert_eq!(o.get_audit_log(0, 10).len(), 1);
}

#[test]
fn test_negative_amount_rejections() {
    let mut o = initialized();
    let caller = addr("CALLER");
    let mut ev = Vec::new();
    let res_unsigned = execute_unsigned(&mut o, &params(&caller, -100), 0, &mut ev, &mut mocks());
    assert_eq!(res_unsigned, Err(OrchestratorError::InvalidAmount));
    let deadline = 0 + 1000;
    let hash = request_hash(0, -100, deadline);
    let res_signed = execute_signed(&mut o, &caller, -100, 0, deadline, hash, 0, &mut mocks());
    assert_eq!(res_signed, Err(OrchestratorError::InvalidAmount));
}

// The harness of the signed-flow tests: a ledger at BASE_TIME and an initialised orchestrator.
const BASE_TIME: u64 = 1_000;
const FLOW_AMOUNT: i128 = 1_000;

fn valid_deadline() -> u64 {
    BASE_TIME + MAX_DEADLINE_WINDOW_SECS
}

fn execute_signed_flow(o: &mut Orchestrator, executor: &Address, amount: i128, nonce: u64, deadline: u64) {
    let hash = request_hash(nonce, amount, deadline);
    assert_eq!(execute_signed(o, executor, amount, nonce, deadline, hash, BASE_TIME, &mut mocks()), Ok(true));
}

#[test]
fn used_nonce_set_rejects_current_nonce_before_hash_binding() {
    let mut o = initialized();
    let executor = addr("EXECUTOR");
    let nonce = 0;
    let deadline = valid_deadline();
    let hash = request_hash(nonce, FLOW_AMOUNT, deadline);
    o.mark_nonce_used(&executor, nonce);
    let replay = o.require_nonce_hardened(&executor, nonce, deadline, hash, hash, BASE_TIME);
    assert_eq!(replay, Err(OrchestratorError::NonceAlreadyUsed));
    assert_eq!(o.get_nonce(&executor), 0);
    assert!(o.is_nonce_used(&executor, 0));
}

#[test]
fn signed_flow_replay_uses_used_set_and_old_nonce_uses_sequential_counter() {
    let mut o = initialized();
    let executor = addr("EXECUTOR");
    let deadline = valid_deadline();
    execute_signed_flow(&mut o, &executor, FLOW_AMOUNT, 0, deadline);
    assert_eq!(o.get_nonce(&executor), 1);
    let replay_hash = request_hash(0, FLOW_AMOUNT, deadline);
    let replay = execute_signed(&mut o, &executor, FLOW_AMOUNT, 0, deadline, replay_hash, BASE_TIME, &mut mocks());
    assert_eq!(replay, Err(OrchestratorError::NonceAlreadyUsed));
    let skipped_hash = request_hash(3, FLOW_AMOUNT, deadline);
    let skipped = execute_signed(&mut o, &executor, FLOW_AMOUNT, 3, deadline, skipped_hash, BASE_TIME, &mut mocks());
    assert_eq!(skipped, Err(OrchestratorError::InvalidNonce));
    assert_eq!(o.get_nonce(&executor), 1);
}

#[test]
fn used_nonce_eviction_keeps_stale_replay_closed() {
    let mut o = initialized();
    let executor = addr("EXECUTOR");
    let independent_executor = addr("INDEPENDENT");
    let deadline = valid_deadline();
    for nonce in 0..MAX_USED_NONCES_PER_ADDR {
        execute_signed_flow(&mut o, &executor, FLOW_AMOUNT, nonce, deadline);
    }
    let cap_nonce = MAX_USED_NONCES_PER_ADDR;
    assert_eq!(o.get_nonce(&executor), cap_nonce);
    let h = request_hash(0, FLOW_AMOUNT, deadline);
    let oldest = execute_signed(&mut o, &executor, FLOW_AMOUNT, 0, deadline, h, BASE_TIME, &mut mocks());
    assert_eq!(oldest, Err(OrchestratorError::NonceAlreadyUsed));
    execute_signed_flow(&mut o, &executor, FLOW_AMOUNT, cap_nonce, deadline);
    let next_nonce = MAX_USED_NONCES_PER_ADDR + 1;
    assert_eq!(o.get_nonce(&executor), next_nonce);
    let evicted = execute_signed(&mut o, &executor, FLOW_AMOUNT, 0, deadline, h, BASE_TIME, &mut mocks());
    assert_eq!(evicted, Err(OrchestratorError::InvalidNonce));
    assert!(!o.is_nonce_used(&executor, 0));
    assert!(o.is_nonce_used(&executor, 1));
    assert_eq!(o.get_nonce(&executor), next_nonce);
    execute_signed_flow(&mut o, &independent_executor, FLOW_AMOUNT, 0, deadline);
    assert_eq!(o.get_nonce(&independent_executor), 1);
}

#[test]
fn deadline_window_rejections_do_not_consume_nonce() {
    let mut o = initialized();
    let executor = addr("EXECUTOR");
    let expired_deadline = BASE_TIME;
    let h = request_hash(0, FLOW_AMOUNT, expired_deadline);
    let expired = execute_signed(&mut o, &executor, FLOW_AMOUNT, 0, expired_deadline, h, BASE_TIME, &mut mocks());
    assert_eq!(expired, Err(OrchestratorError::DeadlineExpired));
    assert_eq!(o.get_nonce(&executor), 0);
    let beyond = BASE_TIME + MAX_DEADLINE_WINDOW_SECS + 1;
    let h = request_hash(0, FLOW_AMOUNT, beyond);
    let beyond_window = execute_signed(&mut o, &executor, FLOW_AMOUNT, 0, beyond, h, BASE_TIME, &mut mocks());
    assert_eq!(beyond_window, Err(OrchestratorError::DeadlineExpired));
    assert_eq!(o.get_nonce(&executor), 0);
    execute_signed_flow(&mut o, &executor, FLOW_AMOUNT, 0, valid_deadline());
    assert_eq!(o.get_nonce(&executor), 1);
}

#[test]
fn request_hash_binding_rejects_parameter_swap_without_consuming_nonce() {
    let mut o = initialized();
    let executor = addr("EXECUTOR");
    let nonce = 0;
    let deadline = valid_deadline();
    let original_hash = request_hash(nonce, FLOW_AMOUNT, deadline);
    let swapped = execute_signed(&mut o, &executor, FLOW_AMOUNT + 1, nonce, deadline, original_hash, BASE_TIME, &mut mocks());
    assert_eq!(swapped, Err(OrchestratorError::InvalidNonce));
    assert_eq!(o.get_nonce(&executor), 0);
    execute_signed_flow(&mut o, &executor, FLOW_AMOUNT, nonce, deadline);
    assert_eq!(o.get_nonce(&executor), 1);
}

#[test]
fn request_hash_uses_the_packed_symbol_of_the_operation() {
    #[allow(deprecated)]
    let op_bits = soroban_sdk::Symbol::short("flow").to_val().get_payload();
    let expected = Orchestrator::hash_request_bits(op_bits, 3, 1000, 4000);
    assert_eq!(Orchestrator::compute_request_hash("flow", &addr("ANY"), 3, 1000, 4000), expected);
    assert_ne!(
        Orchestrator::compute_request_hash("flow", &addr("ANY"), 3, 1000, 4000),
        Orchestrator::compute_request_hash("flows", &addr("ANY"), 3, 1000, 4000)
    );
}

#[test]
fn hash_request_bits_exact_value() {
    // (1 + 2 + 3 + 0 + 4) * 1_000_000_007
    assert_eq!(Orchestrator::hash_request_bits(1, 2, 3, 4), 10_000_000_070);
    // A negative amount contributes its low half and its all-ones high half.
    let h = Orchestrator::hash_request_bits(0, 0, -1, 0);
    assert_eq!(h, u64::MAX.wrapping_add(u64::MAX).wrapping_mul(1_000_000_007));
}

#[test]
fn signed_flow_before_init_is_unauthorized() {
    let mut o = Orchestrator::new();
    let executor = addr("EXECUTOR");
    let h = request_hash(0, 1000, 500);
    assert_eq!(execute_signed(&mut o, &executor, 1000, 0, 500, h, 0, &mut mocks()), Err(OrchestratorError::Unauthorized));
}

#[test]
fn init_refuses_duplicates_and_second_call() {
    let mut o = Orchestrator::new();
    let mut ev = Vec::new();
    let mut d = deps();
    d.insurance = addr("FW");
    assert_eq!(o.init(&addr("OWNER"), d, &mut ev), Err(OrchestratorError::DuplicateDependency));
    let mut d = deps();
    d.savings_goals = addr("OWNER");
    assert_eq!(o.init(&addr("OWNER"), d, &mut ev), Err(OrchestratorError::DuplicateDependency));
    assert!(ev.is_empty());
    assert_eq!(o.init(&addr("OWNER"), deps(), &mut ev), Ok(true));
    assert_eq!(o.init(&addr("OWNER"), deps(), &mut ev), Err(OrchestratorError::Unauthorized));
    assert_eq!(ev.len(), 1);
}

#[test]
fn version_is_owner_controlled() {
    let mut o = initialized();
    let mut ev = Vec::new();
    assert_eq!(o.get_version(), 1);
    assert_eq!(o.set_version(&addr("STRANGER"), 2, &mut ev), Err(OrchestratorError::Unauthorized));
    assert_eq!(o.set_version(&addr("OWNER"), 2, &mut ev), Ok(true));
    assert_eq!(o.get_version(), 2);
    match &ev[0] {
        OrchestratorEvent::VersionUpgraded { previous, current } => {
            assert_eq!((*previous, *current), (1, 2));
        },
        _ => panic!("expected a version event"),
    }
}

#[test]
fn zero_split_amounts_skip_their_writes() {
    let mut o = Orchestrator::new();
    let mut ev = Vec::new();
    let mut m = Mocks { split: vec![1000, 0, 0, 0], goal_ok: false, bill_ok: false, premium_ok: false, ..mocks() };
    let r = execute_unsigned(&mut o, &params(&addr("CALLER"), 1000), 0, &mut ev, &mut m);
    assert_eq!(r, Ok(()));
}

#[test]
fn short_split_is_an_invalid_amount() {
    let mut o = Orchestrator::new();
    let mut ev = Vec::new();
    let mut m = Mocks { split: vec![1000, 0, 0], ..mocks() };
    let r = execute_unsigned(&mut o, &params(&addr("CALLER"), 1000), 0, &mut ev, &mut m);
    assert_eq!(r, Err(OrchestratorError::InvalidAmount));
}

#[test]
fn unsigned_refusal_of_a_write_does_not_compensate() {
    let mut o = Orchestrator::new();
    let mut ev = Vec::new();
    let mut m = Mocks { premium_ok: false, ..mocks() };
    let r = execute_unsigned(&mut o, &params(&addr("CALLER"), 1000), 0, &mut ev, &mut m);
    assert_eq!(r, Err(OrchestratorError::CrossContractCallFailed));
    assert!(m.reversals.is_empty());
    assert!(!o.get_execution_state());
}

#[test]
fn orchestrator_error_codes_match_the_ledger_numbers() {
    let all = [
        (OrchestratorError::Unauthorized, 1),
        (OrchestratorError::InvalidAmount, 2),
        (OrchestratorError::Overflow, 3),
        (OrchestratorError::CrossContractCallFailed, 4),
        (OrchestratorError::NonceAlreadyUsed, 5),
        (OrchestratorError::InvalidNonce, 6),
        (OrchestratorError::DeadlineExpired, 7),
        (OrchestratorError::ExecutionLocked, 8),
        (OrchestratorError::InvalidDependency, 9),
        (OrchestratorError::DuplicateDependency, 10),
        (OrchestratorError::RemittanceFlowRolledBack, 11),
    ];
    for (e, c) in all {
        assert_eq!(e.code(), c);
    }
}

#[test]
fn stats_count_every_completed_flow_once() {
    let mut o = initialized();
    let caller = addr("CALLER");
    let mut ev = Vec::new();
    for i in 0..7u64 {
        let mut m = Mocks { spending_ok: i % 3 != 0, ..mocks() };
        let _ = execute_unsigned(&mut o, &params(&caller, 1000), 50 + i, &mut ev, &mut m);
    }
    // Refused requests are audited but not counted.
    let _ = execute_unsigned(&mut o, &params(&caller, 0), 99, &mut ev, &mut mocks());
    let s = o.get_execution_stats().unwrap();
    assert_eq!(s.total_executions, 7);
    assert_eq!(s.successful_executions, 4);
    assert_eq!(s.failed_executions, 3);
    assert_eq!(s.total_executions, s.successful_executions + s.failed_executions);
    assert_eq!(s.last_execution_time, 56);
    assert_eq!(o.get_audit_log(0, 0).len(), 8);
}

#[test]
fn signed_refusals_before_the_window_check_hold_at_any_ledger_time() {
    let late = u64::MAX;
    let executor = addr("EXECUTOR");
    let mut fresh = Orchestrator::new();
    assert_eq!(
        execute_signed(&mut fresh, &executor, 1000, 0, 5, 0, late, &mut mocks()),
        Err(OrchestratorError::Unauthorized)
    );
    let mut o = initialized();
    assert_eq!(
        execute_signed(&mut o, &executor, 1000, 0, late, 0, late, &mut mocks()),
        Err(OrchestratorError::DeadlineExpired)
    );
    assert_eq!(
        o.require_nonce_hardened(&executor, 0, 17, 0, 0, late),
        Err(OrchestratorError::DeadlineExpired)
    );
    assert_eq!(o.get_nonce(&executor), 0);
}
