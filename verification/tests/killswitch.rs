use remitwise::bytes::{Address, Symbol};
use remitwise::killswitch::{EmergencyKillswitch, Error, KillswitchEvent, MAX_PAUSED_FUNCTIONS};

fn addr(name: &str) -> Address {
    Address::new(name.as_bytes().to_vec())
}

fn sym(name: &str) -> Symbol {
    Symbol::new(name.as_bytes().to_vec())
}

fn contract_id() -> Address {
    addr("CONTRACT_KILLSWITCH")
}

/// A killswitch with an admin, at ledger time 0.
fn initialized() -> EmergencyKillswitch {
    let mut ks = EmergencyKillswitch::new();
    ks.initialize(addr("ADMIN"), &contract_id()).unwrap();
    ks
}

#[test]
fn initialize_rejects_self_address() {
    let mut ks = EmergencyKillswitch::new();
    assert_eq!(ks.initialize(contract_id(), &contract_id()), Err(Error::InvalidAdmin));
}

#[test]
fn initialize_succeeds_with_valid_address() {
    let mut ks = EmergencyKillswitch::new();
    assert_eq!(ks.initialize(addr("ADMIN"), &contract_id()), Ok(()));
}

#[test]
fn initialize_twice_is_refused() {
    let mut ks = initialized();
    assert_eq!(ks.initialize(addr("OTHER"), &contract_id()), Err(Error::AlreadyInitialized));
}

#[test]
fn transfer_admin_rejects_self_address() {
    let mut ks = initialized();
    let mut ev = Vec::new();
    assert_eq!(ks.transfer_admin(contract_id(), &contract_id(), 0, &mut ev), Err(Error::InvalidAdmin));
    assert!(ev.is_empty());
}

#[test]
fn transfer_admin_rejects_same_admin() {
    let mut ks = initialized();
    let mut ev = Vec::new();
    assert_eq!(ks.transfer_admin(addr("ADMIN"), &contract_id(), 0, &mut ev), Err(Error::InvalidAdmin));
}

#[test]
fn transfer_admin_succeeds_with_different_address() {
    let mut ks = initialized();
    let mut ev = Vec::new();
    assert_eq!(ks.transfer_admin(addr("NEW_ADMIN"), &contract_id(), 7, &mut ev), Ok(()));
    assert_eq!(ks.admin_to_authorize().unwrap().bytes, b"NEW_ADMIN".to_vec());
    assert_eq!(ev.len(), 1);
    match &ev[0] {
        KillswitchEvent::AdminTransferred(t) => {
            assert_eq!(t.old_admin.bytes, b"ADMIN".to_vec());
            assert_eq!(t.new_admin.bytes, b"NEW_ADMIN".to_vec());
            assert_eq!(t.timestamp, 7);
        },
        _ => panic!("expected an admin transfer event"),
    }
}

#[test]
fn transfer_admin_requires_initialization() {
    let mut ks = EmergencyKillswitch::new();
    let mut ev = Vec::new();
    assert_eq!(ks.transfer_admin(addr("NEW_ADMIN"), &contract_id(), 0, &mut ev), Err(Error::NotInitialized));
    assert!(ks.admin_to_authorize().is_err());
}

#[test]
fn test_authorized_emergency_flow() {
    let mut ks = initialized();
    let mut ev = Vec::new();
    ks.pause(0, &mut ev).unwrap();
    assert!(ks.is_paused());
    let future = 0 + 3600;
    ks.schedule_unpause(future, 0).unwrap();
    ks.unpause(future, &mut ev).unwrap();
    assert!(!ks.is_paused());
}

#[test]
fn test_premature_unpause_rejection() {
    let mut ks = initialized();
    let mut ev = Vec::new();
    ks.pause(0, &mut ev).unwrap();
    let future = 0 + 3600;
    ks.schedule_unpause(future, 0).unwrap();
    assert_eq!(ks.unpause(future - 1, &mut ev), Err(Error::Unauthorized));
    ks.unpause(future, &mut ev).unwrap();
    assert!(!ks.is_paused());
}

#[test]
fn test_re_pause_cancels_schedule() {
    let mut ks = initialized();
    let mut ev = Vec::new();
    ks.pause(0, &mut ev).unwrap();
    let future = 0 + 3600;
    ks.schedule_unpause(future, 0).unwrap();
    ks.pause(0, &mut ev).unwrap();
    assert_eq!(ks.unpause(future, &mut ev), Err(Error::InvalidSchedule));
}

#[test]
fn test_timelock_bypass_rejection() {
    let mut ks = initialized();
    let mut ev = Vec::new();
    ks.pause(0, &mut ev).unwrap();
    assert_eq!(ks.schedule_unpause(999, 1000), Err(Error::InvalidSchedule));
    ks.schedule_unpause(1000, 1000).unwrap();
}

#[test]
fn test_clear_emergency_state_recovers_stuck_pause() {
    let mut ks = initialized();
    let mut ev = Vec::new();
    ks.pause(0, &mut ev).unwrap();
    let future = 0 + 3600;
    ks.schedule_unpause(future, 0).unwrap();
    ks.pause(0, &mut ev).unwrap();
    assert_eq!(ks.unpause(future, &mut ev), Err(Error::InvalidSchedule));
    assert!(ks.is_paused());
    ks.clear_emergency_state(future, &mut ev).unwrap();
    assert!(!ks.is_paused());
}

#[test]
fn test_clear_emergency_state_bypasses_timelock() {
    let mut ks = initialized();
    let mut ev = Vec::new();
    ks.pause(0, &mut ev).unwrap();
    let future = 0 + 3600;
    ks.schedule_unpause(future, 0).unwrap();
    assert_eq!(ks.unpause(0, &mut ev), Err(Error::Unauthorized));
    ks.clear_emergency_state(0, &mut ev).unwrap();
    assert!(!ks.is_paused());
    assert_eq!(ks.unpause(future, &mut ev), Err(Error::InvalidSchedule));
}

#[test]
fn test_clear_emergency_state_is_idempotent_when_active() {
    let mut ks = initialized();
    let mut ev = Vec::new();
    assert!(!ks.is_paused());
    ks.clear_emergency_state(0, &mut ev).unwrap();
    assert!(!ks.is_paused());
}

#[test]
fn test_clear_emergency_state_requires_initialization() {
    let mut ks = EmergencyKillswitch::new();
    let mut ev = Vec::new();
    assert_eq!(ks.clear_emergency_state(0, &mut ev), Err(Error::NotInitialized));
}

#[test]
fn test_clear_emergency_state_preserves_module_and_function_pauses() {
    let mut ks = initialized();
    let mut ev = Vec::new();
    let module = sym("bill");
    let func = sym("pay");
    ks.pause_module(&module, 0, &mut ev).unwrap();
    ks.pause_function(&module, &func, 0, &mut ev).unwrap();
    ks.pause(0, &mut ev).unwrap();
    assert!(ks.is_paused());
    ks.clear_emergency_state(0, &mut ev).unwrap();
    assert!(!ks.is_paused());
    assert!(ks.is_function_paused(&module, &func));
    assert!(ks.is_module_paused(&module));
}

#[test]
fn test_per_function_pause() {
    let mut ks = initialized();
    let mut ev = Vec::new();
    let module = sym("bill");
    let func = sym("pay");
    assert!(!ks.is_function_paused(&module, &func));
    ks.pause_function(&module, &func, 0, &mut ev).unwrap();
    assert!(ks.is_function_paused(&module, &func));
    ks.unpause_function(&module, &func, 0, &mut ev).unwrap();
    assert!(!ks.is_function_paused(&module, &func));
}

#[test]
fn test_module_pause_precedence() {
    let mut ks = initialized();
    let mut ev = Vec::new();
    let module = sym("bill");
    let paused_fn = sym("pay");
    let other_fn = sym("refund");
    ks.pause_function(&module, &paused_fn, 0, &mut ev).unwrap();
    assert!(ks.is_function_paused(&module, &paused_fn));
    assert!(!ks.is_function_paused(&module, &other_fn));
    ks.pause_module(&module, 0, &mut ev).unwrap();
    assert!(ks.is_function_paused(&module, &other_fn));
    ks.unpause_module(&module, 0, &mut ev).unwrap();
    assert!(ks.is_function_paused(&module, &paused_fn));
    assert!(!ks.is_function_paused(&module, &other_fn));
}

#[test]
fn test_global_pause_dominates() {
    let mut ks = initialized();
    let mut ev = Vec::new();
    let module = sym("bill");
    let func = sym("pay");
    ks.pause_function(&module, &func, 0, &mut ev).unwrap();
    ks.pause_module(&module, 0, &mut ev).unwrap();
    ks.pause(0, &mut ev).unwrap();
    assert!(ks.is_paused());
    assert!(ks.is_function_paused(&module, &func));
}

#[test]
fn test_max_paused_functions_limit() {
    let mut ks = initialized();
    let mut ev = Vec::new();
    let module = sym("bill");
    for i in 0..10 {
        ks.pause_function(&module, &sym(&format!("f{}", i)), 0, &mut ev).unwrap();
    }
    assert_eq!(ks.list_paused_functions(&module).len(), MAX_PAUSED_FUNCTIONS as usize);
    assert_eq!(ks.pause_function(&module, &sym("one_more"), 0, &mut ev), Err(Error::LimitExceeded));
    // Pausing one that is already paused is still accepted at the limit.
    assert_eq!(ks.pause_function(&module, &sym("f3"), 0, &mut ev), Ok(()));
}

#[test]
fn test_module_pause() {
    let mut ks = initialized();
    let mut ev = Vec::new();
    let module = sym("bill");
    let func = sym("pay");
    assert!(!ks.is_function_paused(&module, &func));
    ks.pause_module(&module, 0, &mut ev).unwrap();
    assert!(ks.is_function_paused(&module, &func));
    ks.unpause_module(&module, 0, &mut ev).unwrap();
    assert!(!ks.is_function_paused(&module, &func));
}

#[test]
fn get_unpause_schedule_none_when_not_set() {
    let ks = initialized();
    assert_eq!(ks.get_unpause_schedule(), None);
}

#[test]
fn get_unpause_schedule_returns_scheduled_time() {
    let mut ks = initialized();
    let mut ev = Vec::new();
    ks.pause(0, &mut ev).unwrap();
    let future = 0 + 3600;
    ks.schedule_unpause(future, 0).unwrap();
    assert_eq!(ks.get_unpause_schedule(), Some(future));
}

#[test]
fn get_unpause_schedule_none_after_pause_clears_it() {
    let mut ks = initialized();
    let mut ev = Vec::new();
    ks.pause(0, &mut ev).unwrap();
    let future = 0 + 3600;
    ks.schedule_unpause(future, 0).unwrap();
    ks.pause(0, &mut ev).unwrap();
    assert_eq!(ks.get_unpause_schedule(), None);
}

#[test]
fn get_unpause_schedule_none_after_unpause_clears_it() {
    let mut ks = initialized();
    let mut ev = Vec::new();
    ks.pause(0, &mut ev).unwrap();
    let future = 0 + 3600;
    ks.schedule_unpause(future, 0).unwrap();
    ks.unpause(future, &mut ev).unwrap();
    assert_eq!(ks.get_unpause_schedule(), None);
}

#[test]
fn list_paused_functions_empty_when_none_paused() {
    let ks = initialized();
    assert!(ks.list_paused_functions(&sym("bill")).is_empty());
}

#[test]
fn list_paused_functions_reflects_pause_then_unpause() {
    let mut ks = initialized();
    let mut ev = Vec::new();
    let module = sym("bill");
    let func = sym("pay");
    ks.pause_function(&module, &func, 0, &mut ev).unwrap();
    let list = ks.list_paused_functions(&module);
    assert_eq!(list.len(), 1);
    assert_eq!(list[0].text, func.text);
    ks.unpause_function(&module, &func, 0, &mut ev).unwrap();
    assert!(ks.list_paused_functions(&module).is_empty());
}

#[test]
fn list_paused_functions_multiple_functions() {
    let mut ks = initialized();
    let mut ev = Vec::new();
    let module = sym("bill");
    let f1 = sym("pay");
    let f2 = sym("refund");
    ks.pause_function(&module, &f1, 0, &mut ev).unwrap();
    ks.pause_function(&module, &f2, 0, &mut ev).unwrap();
    let list = ks.list_paused_functions(&module);
    assert_eq!(list.len(), 2);
    assert!(list.iter().any(|s| s.text == f1.text));
    assert!(list.iter().any(|s| s.text == f2.text));
}

#[test]
fn list_paused_functions_isolated_per_module() {
    let mut ks = initialized();
    let mut ev = Vec::new();
    let m1 = sym("bill");
    let m2 = sym("savings");
    let func = sym("pay");
    ks.pause_function(&m1, &func, 0, &mut ev).unwrap();
    assert_eq!(ks.list_paused_functions(&m1).len(), 1);
    assert!(ks.list_paused_functions(&m2).is_empty());
}

#[test]
fn is_module_paused_false_when_not_set() {
    let ks = initialized();
    assert!(!ks.is_module_paused(&sym("bill")));
}

#[test]
fn is_module_paused_true_after_pause_module() {
    let mut ks = initialized();
    let mut ev = Vec::new();
    let module = sym("bill");
    ks.pause_module(&module, 0, &mut ev).unwrap();
    assert!(ks.is_module_paused(&module));
}

#[test]
fn is_module_paused_false_after_unpause_module() {
    let mut ks = initialized();
    let mut ev = Vec::new();
    let module = sym("bill");
    ks.pause_module(&module, 0, &mut ev).unwrap();
    ks.unpause_module(&module, 0, &mut ev).unwrap();
    assert!(!ks.is_module_paused(&module));
}

#[test]
fn is_module_paused_independent_of_global_pause() {
    let mut ks = initialized();
    let mut ev = Vec::new();
    let module = sym("bill");
    ks.pause(0, &mut ev).unwrap();
    assert!(!ks.is_module_paused(&module));
    ks.pause_module(&module, 0, &mut ev).unwrap();
    assert!(ks.is_module_paused(&module));
}

#[test]
fn is_module_paused_does_not_affect_function_list() {
    let mut ks = initialized();
    let mut ev = Vec::new();
    let module = sym("bill");
    ks.pause_module(&module, 0, &mut ev).unwrap();
    assert!(ks.list_paused_functions(&module).is_empty());
}

#[test]
fn admin_operations_require_initialization() {
    let mut ks = EmergencyKillswitch::new();
    let mut ev = Vec::new();
    let module = sym("bill");
    assert_eq!(ks.pause(0, &mut ev), Err(Error::NotInitialized));
    assert_eq!(ks.unpause(0, &mut ev), Err(Error::NotInitialized));
    assert_eq!(ks.schedule_unpause(10, 0), Err(Error::NotInitialized));
    assert_eq!(ks.pause_function(&module, &sym("pay"), 0, &mut ev), Err(Error::NotInitialized));
    assert_eq!(ks.unpause_function(&module, &sym("pay"), 0, &mut ev), Err(Error::NotInitialized));
    assert_eq!(ks.pause_module(&module, 0, &mut ev), Err(Error::NotInitialized));
    assert_eq!(ks.unpause_module(&module, 0, &mut ev), Err(Error::NotInitialized));
    assert!(ev.is_empty());
}

#[test]
fn unpause_without_schedule_is_refused() {
    let mut ks = initialized();
    let mut ev = Vec::new();
    ks.pause(0, &mut ev).unwrap();
    assert_eq!(ks.unpause(5000, &mut ev), Err(Error::InvalidSchedule));
    assert!(ks.is_paused());
}

#[test]
fn killswitch_error_codes_match_the_ledger_numbers() {
    assert_eq!(Error::Unauthorized.code(), 1);
    assert_eq!(Error::AlreadyInitialized.code(), 2);
    assert_eq!(Error::NotInitialized.code(), 3);
    assert_eq!(Error::LimitExceeded.code(), 4);
    assert_eq!(Error::InvalidSchedule.code(), 5);
    assert_eq!(Error::InvalidAdmin.code(), 6);
}

#[test]
fn test_clear_emergency_state_requires_admin_auth() {
    let mut ks = initialized();
    let mut ev = Vec::new();
    ks.pause(0, &mut ev).unwrap();
    // The call needs the authorisation of the stored admin; the host refuses
    // a call without it before any state changes, so the pause stays.
    let needed = ks.admin_to_authorize().unwrap();
    assert_eq!(needed.bytes, b"ADMIN".to_vec());
    assert_ne!(needed.bytes, b"STRANGER".to_vec());
    assert!(ks.is_paused());
    // Before initialisation there is nobody whose authorisation could be asked.
    assert_eq!(EmergencyKillswitch::new().admin_to_authorize().err(), Some(Error::NotInitialized));
}

#[test]
fn clear_emergency_state_drops_a_pending_schedule_while_not_paused() {
    let mut ks = initialized();
    let mut ev = Vec::new();
    ks.schedule_unpause(500, 0).unwrap();
    assert!(!ks.is_paused());
    ks.clear_emergency_state(0, &mut ev).unwrap();
    assert_eq!(ks.get_unpause_schedule(), None);
    assert!(!ks.is_paused());
}
