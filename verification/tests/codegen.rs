use zend_hooks::aggregator::{generate_function_hooks, HookAggregator};
use zend_hooks::descriptor::registration_snippet;

#[test]
fn generate_parses_registration_snippets() {
    let mut agg = HookAggregator::new();
    agg.add(
        "strlen".to_string(),
        registration_snippet("strlen", "strlen_hook_wrapper"),
    );
    agg.add(
        "strpos".to_string(),
        registration_snippet("strpos", "strpos_hook_wrapper"),
    );
    let tokens = generate_function_hooks(&agg).expect("snippets must lex");
    let text = tokens.to_string();
    // Token rendering normalises spacing, so check the essential pieces.
    assert!(text.contains("add_function_hook"));
    assert!(text.contains("\"strlen\""));
    assert!(text.contains("strlen_hook_wrapper"));
    assert!(text.contains("\"strpos\""));
    assert!(text.contains("strpos_hook_wrapper"));
    // Sorted emission: the strlen registration precedes the strpos one.
    assert!(text.find("\"strlen\"").unwrap() < text.find("\"strpos\"").unwrap());
}

#[test]
fn generate_empty_aggregator_yields_empty_stream() {
    let agg = HookAggregator::new();
    let tokens = generate_function_hooks(&agg).expect("empty text lexes");
    assert!(tokens.is_empty());
}

#[test]
fn generate_rejects_text_that_does_not_lex() {
    let mut agg = HookAggregator::new();
    agg.add("broken".to_string(), "fn oops( {".to_string());
    assert!(generate_function_hooks(&agg).is_none());
}

#[test]
fn generate_round_trips_through_syn() {
    let mut agg = HookAggregator::new();
    agg.add("alpha".to_string(), "alpha_register();".to_string());
    let tokens = generate_function_hooks(&agg).unwrap();
    // The emitted block is consumable as statements by the macro front end.
    let parsed: syn::Block = syn::parse_str(&format!("{{ {} }}", tokens)).unwrap();
    assert_eq!(parsed.stmts.len(), 1);
}
