use zend_hooks::descriptor::{parse_function_hook, registration_snippet, ConfigField, ConfigValue,
    LitValue, SchemaErrorKind};

fn str_field(key: &str, value: &str) -> ConfigField {
    ConfigField { key: key.to_string(), value: ConfigValue::Lit(LitValue::Str(value.to_string())) }
}

fn bool_field(key: &str, value: bool) -> ConfigField {
    ConfigField { key: key.to_string(), value: ConfigValue::Lit(LitValue::Bool(value)) }
}

#[test]
fn empty_config_takes_all_defaults() {
    let args: Vec<ConfigField> = Vec::new();
    let d = parse_function_hook("strlen", &args).unwrap();
    assert_eq!(d.hook_name, "strlen");
    assert_eq!(d.optional, None);
    assert!(!d.ignore_module);
    assert!(d.defaults.is_empty());
    assert_eq!(d.source_ident, "strlen");
}

#[test]
fn full_config_is_read_field_by_field() {
    let defaults = ConfigField {
        key: "defaults".to_string(),
        value: ConfigValue::Pairs(vec![
            ("needle".to_string(), LitValue::Str("x".to_string())),
            ("offset".to_string(), LitValue::Int(0)),
        ]),
    };
    let args = vec![
        str_field("optional", "offset"),
        bool_field("ignore_module", true),
        defaults,
        str_field("name", "strpos"),
    ];
    let d = parse_function_hook("my_strpos_hook", &args).unwrap();
    assert_eq!(d.hook_name, "strpos");
    assert_eq!(d.optional, Some("offset".to_string()));
    assert!(d.ignore_module);
    assert_eq!(
        d.defaults,
        vec![
            ("needle".to_string(), LitValue::Str("x".to_string())),
            ("offset".to_string(), LitValue::Int(0)),
        ]
    );
    assert_eq!(d.source_ident, "my_strpos_hook");
}

#[test]
fn defaults_carry_other_literal_kinds_verbatim() {
    let defaults = ConfigField {
        key: "defaults".to_string(),
        value: ConfigValue::Pairs(vec![
            ("ratio".to_string(), LitValue::Raw("1.5".to_string())),
            ("sep".to_string(), LitValue::Raw("'x'".to_string())),
        ]),
    };
    let d = parse_function_hook("f", &vec![defaults]).unwrap();
    assert_eq!(
        d.defaults,
        vec![
            ("ratio".to_string(), LitValue::Raw("1.5".to_string())),
            ("sep".to_string(), LitValue::Raw("'x'".to_string())),
        ]
    );
}

#[test]
fn name_override_falls_back_to_function_identifier() {
    let args = vec![bool_field("ignore_module", false)];
    let d = parse_function_hook("my_hook", &args).unwrap();
    assert_eq!(d.hook_name, "my_hook");
}

#[test]
fn unknown_field_is_rejected() {
    let args = vec![str_field("optionnal", "offset")];
    let e = parse_function_hook("f", &args).unwrap_err();
    assert_eq!(e.kind, SchemaErrorKind::UnknownField);
    assert_eq!(e.key, "optionnal");
}

#[test]
fn wrong_literal_kind_is_rejected() {
    let args = vec![bool_field("name", true)];
    let e = parse_function_hook("f", &args).unwrap_err();
    assert_eq!(e.kind, SchemaErrorKind::WrongKind);
    assert_eq!(e.key, "name");
}

#[test]
fn wrong_kind_for_defaults_is_rejected() {
    let args = vec![str_field("defaults", "oops")];
    let e = parse_function_hook("f", &args).unwrap_err();
    assert_eq!(e.kind, SchemaErrorKind::WrongKind);
    assert_eq!(e.key, "defaults");
}

#[test]
fn duplicate_field_is_rejected() {
    let args = vec![str_field("name", "a"), str_field("name", "b")];
    let e = parse_function_hook("f", &args).unwrap_err();
    assert_eq!(e.kind, SchemaErrorKind::DuplicateField);
    assert_eq!(e.key, "name");
}

#[test]
fn first_faulty_field_wins() {
    let args = vec![str_field("bogus", "x"), bool_field("name", true)];
    let e = parse_function_hook("f", &args).unwrap_err();
    assert_eq!(e.kind, SchemaErrorKind::UnknownField);
    assert_eq!(e.key, "bogus");
}

#[test]
fn registration_snippet_exact_text() {
    let s = registration_snippet("strlen", "strlen_hook_wrapper");
    assert_eq!(
        s,
        "registry.add_function_hook(zend_hooks::registry::ZendFunctionHook { \
         hooked_function_name: \"strlen\".to_string(), handler: strlen_hook_wrapper, \
         previous_handler: None });"
    );
}
