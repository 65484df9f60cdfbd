use zend_hooks::registry::{HookRegistry, ZendFunctionHook, HookErrorKind};
use zend_hooks::table::FunctionTable;

fn hook(name: &str, handler: u64) -> ZendFunctionHook {
    ZendFunctionHook {
        hooked_function_name: name.to_string(),
        handler,
        previous_handler: None,
    }
}

#[test]
fn register_and_get_back() {
    let mut reg = HookRegistry::new();
    reg.add_function_hook(hook("strlen", 0xA));
    let h = reg.get_function_hook("strlen").unwrap();
    assert_eq!(h.hooked_function_name, "strlen");
    assert_eq!(h.handler, 0xA);
    assert_eq!(h.previous_handler, None);
    assert!(reg.get_function_hook("strpos").is_none());
}

#[test]
fn register_same_name_twice_replaces_record() {
    let mut reg = HookRegistry::new();
    reg.add_function_hook(hook("strlen", 0xA));
    reg.add_function_hook(hook("strlen", 0xB));
    let h = reg.get_function_hook("strlen").unwrap();
    assert_eq!(h.handler, 0xB);
}

#[test]
fn remove_and_clear() {
    let mut reg = HookRegistry::new();
    reg.add_function_hook(hook("strlen", 0xA));
    reg.add_function_hook(hook("strpos", 0xB));
    reg.remove_function_hook("strlen");
    assert!(reg.get_function_hook("strlen").is_none());
    assert!(reg.get_function_hook("strpos").is_some());
    reg.remove_all_function_hooks();
    assert!(reg.get_function_hook("strpos").is_none());
}

#[test]
fn install_then_restore_round_trips_every_slot() {
    let mut table = FunctionTable::new();
    table.define_function("strlen".to_string(), true, 0x1);
    table.define_function("strpos".to_string(), true, 0x2);
    table.define_function("substr".to_string(), true, 0x3);

    let mut reg = HookRegistry::new();
    reg.add_function_hook(hook("strlen", 0xA));
    reg.add_function_hook(hook("substr", 0xC));

    let report = reg.setup_function_hooks(&mut table);
    assert!(report.is_empty());
    assert_eq!(table.get_handler("strlen"), 0xA);
    assert_eq!(table.get_handler("strpos"), 0x2);
    assert_eq!(table.get_handler("substr"), 0xC);

    let restore_report = reg.remove_function_hooks(&mut table);
    assert!(restore_report.is_empty());
    assert_eq!(table.get_handler("strlen"), 0x1);
    assert_eq!(table.get_handler("strpos"), 0x2);
    assert_eq!(table.get_handler("substr"), 0x3);
    // The captures are cleared, so the registry is back to its pre-install state.
    assert_eq!(reg.get_function_hook("strlen").unwrap().previous_handler, None);
    assert_eq!(reg.get_function_hook("substr").unwrap().previous_handler, None);
}

#[test]
fn install_absent_name_reports_not_found_and_captures_nothing() {
    let mut table = FunctionTable::new();
    table.define_function("strlen".to_string(), true, 0x1);

    let mut reg = HookRegistry::new();
    reg.add_function_hook(hook("no_such_function", 0xA));

    let report = reg.setup_function_hooks(&mut table);
    assert_eq!(report.len(), 1);
    assert_eq!(report[0].function_name, "no_such_function");
    assert_eq!(report[0].kind, HookErrorKind::NotFound);
    let h = reg.get_function_hook("no_such_function").unwrap();
    assert_eq!(h.previous_handler, None);
    assert_eq!(table.get_handler("strlen"), 0x1);
}

#[test]
fn install_non_internal_reports_not_eligible_without_hurting_others() {
    let mut table = FunctionTable::new();
    table.define_function("user_func".to_string(), false, 0x7);
    table.define_function("strlen".to_string(), true, 0x1);

    let mut reg = HookRegistry::new();
    reg.add_function_hook(hook("user_func", 0xA));
    reg.add_function_hook(hook("strlen", 0xB));

    let report = reg.setup_function_hooks(&mut table);
    assert_eq!(report.len(), 1);
    assert_eq!(report[0].function_name, "user_func");
    assert_eq!(report[0].kind, HookErrorKind::NotEligible);
    // The ineligible target keeps its handler and nothing is captured for it.
    assert_eq!(table.get_handler("user_func"), 0x7);
    assert_eq!(reg.get_function_hook("user_func").unwrap().previous_handler, None);
    // The other hook of the same batch is installed normally.
    assert_eq!(table.get_handler("strlen"), 0xB);
    assert_eq!(reg.get_function_hook("strlen").unwrap().previous_handler, Some(0x1));
}

#[test]
fn strlen_scenario_with_double_install_policy() {
    let original: u64 = 0x51;
    let handler_a: u64 = 0xA1;

    let mut table = FunctionTable::new();
    table.define_function("strlen".to_string(), true, original);

    let mut reg = HookRegistry::new();
    reg.add_function_hook(hook("strlen", handler_a));

    // First install succeeds and captures the true original.
    let report = reg.setup_function_hooks(&mut table);
    assert!(report.is_empty());
    let h = reg.get_function_hook("strlen").unwrap();
    assert_eq!(h.previous_handler, Some(original));
    // Dispatch for "strlen" now reaches handler A, which can call through to
    // the captured previous handler to preserve default behaviour.
    assert_eq!(table.get_handler("strlen"), handler_a);
    assert_eq!(h.previous_handler.unwrap(), original);

    // A second install without an intervening restore is a guarded no-op:
    // the capture still holds the true original, not handler A.
    let report2 = reg.setup_function_hooks(&mut table);
    assert!(report2.is_empty());
    let h2 = reg.get_function_hook("strlen").unwrap();
    assert_eq!(h2.previous_handler, Some(original));
    assert_eq!(table.get_handler("strlen"), handler_a);

    // Restore returns "strlen" to its original handler.
    let restore_report = reg.remove_function_hooks(&mut table);
    assert!(restore_report.is_empty());
    assert_eq!(table.get_handler("strlen"), original);
}

#[test]
fn restore_skips_records_with_nothing_captured() {
    let mut table = FunctionTable::new();
    table.define_function("strlen".to_string(), true, 0x1);

    let mut reg = HookRegistry::new();
    reg.add_function_hook(hook("strlen", 0xA));
    // Never installed: restoring must leave the table untouched, and a
    // record with nothing captured is no failure.
    let report = reg.remove_function_hooks(&mut table);
    assert!(report.is_empty());
    assert_eq!(table.get_handler("strlen"), 0x1);
}

#[test]
fn restore_reports_vanished_target_and_retains_capture() {
    let mut table = FunctionTable::new();
    table.define_function("strlen".to_string(), true, 0x1);

    let mut reg = HookRegistry::new();
    reg.add_function_hook(hook("strlen", 0xA));
    let report = reg.setup_function_hooks(&mut table);
    assert!(report.is_empty());

    // The worker is handed a table that no longer has the slot: the failure
    // is collected, not swallowed, and the capture is retained.
    let mut other_table = FunctionTable::new();
    let restore_report = reg.remove_function_hooks(&mut other_table);
    assert_eq!(restore_report.len(), 1);
    assert_eq!(restore_report[0].function_name, "strlen");
    assert_eq!(restore_report[0].kind, HookErrorKind::NotFound);
    assert_eq!(reg.get_function_hook("strlen").unwrap().previous_handler, Some(0x1));

    // Against the real table the retained capture still restores the slot.
    let second = reg.remove_function_hooks(&mut table);
    assert!(second.is_empty());
    assert_eq!(table.get_handler("strlen"), 0x1);
    assert_eq!(reg.get_function_hook("strlen").unwrap().previous_handler, None);
}

#[test]
fn many_distinct_registrations_lose_no_record() {
    let mut reg = HookRegistry::new();
    let count = 150;
    for k in 0..count {
        let idx = (k * 53) % count;
        reg.add_function_hook(hook(&format!("func_{}", idx), idx as u64));
    }
    for idx in 0..count {
        let h = reg.get_function_hook(&format!("func_{}", idx)).unwrap();
        assert_eq!(h.handler, idx as u64);
    }
}
