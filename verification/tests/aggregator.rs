use zend_hooks::aggregator::HookAggregator;

#[test]
fn finalize_empty_is_empty() {
    let agg = HookAggregator::new();
    assert_eq!(agg.finalize(), "");
}

#[test]
fn finalize_single_snippet() {
    let mut agg = HookAggregator::new();
    agg.add("strlen".to_string(), "register_strlen();".to_string());
    assert_eq!(agg.finalize(), "register_strlen();");
}

#[test]
fn finalize_sorts_by_name_not_insertion_order() {
    let mut agg = HookAggregator::new();
    agg.add("gamma".to_string(), "g();".to_string());
    agg.add("alpha".to_string(), "a();".to_string());
    agg.add("beta".to_string(), "b();".to_string());
    assert_eq!(agg.finalize(), "a();\nb();\ng();");
}

#[test]
fn finalize_independent_of_insertion_order() {
    let orders: Vec<Vec<(&str, &str)>> = vec![
        vec![("a", "1"), ("b", "2"), ("c", "3")],
        vec![("c", "3"), ("a", "1"), ("b", "2")],
        vec![("b", "2"), ("c", "3"), ("a", "1")],
        vec![("c", "3"), ("b", "2"), ("a", "1")],
    ];
    let mut outputs = Vec::new();
    for order in orders {
        let mut agg = HookAggregator::new();
        for (name, snippet) in order {
            agg.add(name.to_string(), snippet.to_string());
        }
        outputs.push(agg.finalize());
    }
    for out in &outputs {
        assert_eq!(out, "1\n2\n3");
    }
}

#[test]
fn finalize_is_idempotent() {
    let mut agg = HookAggregator::new();
    agg.add("second".to_string(), "s();".to_string());
    agg.add("first".to_string(), "f();".to_string());
    let once = agg.finalize();
    let twice = agg.finalize();
    assert_eq!(once, twice);
    assert_eq!(once, "f();\ns();");
}

#[test]
fn add_under_existing_name_replaces_snippet() {
    let mut agg = HookAggregator::new();
    agg.add("hook".to_string(), "old_code();".to_string());
    agg.add("hook".to_string(), "new_code();".to_string());
    assert_eq!(agg.finalize(), "new_code();");
}

#[test]
fn many_distinct_names_lose_no_entry() {
    let mut agg = HookAggregator::new();
    let count = 200;
    // Insert in a scrambled order and check that every fragment survives.
    for k in 0..count {
        let idx = (k * 37) % count;
        agg.add(format!("hook_{:03}", idx), format!("snippet_{:03}();", idx));
    }
    let out = agg.finalize();
    let fragments: Vec<&str> = out.split('\n').collect();
    assert_eq!(fragments.len(), count);
    for idx in 0..count {
        assert_eq!(fragments[idx], format!("snippet_{:03}();", idx));
    }
}
