//! The hook declaration parser: it turns the configuration payload attached
//! to one decorated function declaration into a structured hook descriptor,
//! or rejects the payload with a schema error naming the first offending
//! field. The payload arrives as plain key/value fields; the front end that
//! reads attribute syntax hands them over in declaration order.

use vstd::prelude::*;
use vstd::string::StringExecFns;
use crate::text::str_eq;

verus! {

/// A configuration literal. String, boolean and integer literals are
/// carried as values; any other literal kind is carried verbatim as its
/// token text, so `defaults` can hold it without this crate interpreting it.
#[derive(PartialEq, Eq, Debug)]
pub enum LitValue {
    Str(String),
    Bool(bool),
    Int(i64),
    Raw(String),
}

/// The value given for one configuration field: a single literal, or a
/// nested list of parameter-name/literal pairs (the shape of `defaults`).
pub enum ConfigValue {
    Lit(LitValue),
    Pairs(Vec<(String, LitValue)>),
}

/// One field of the configuration payload.
pub struct ConfigField {
    pub key: String,
    pub value: ConfigValue,
}

/// The structured descriptor of one hook declaration. Immutable once
/// parsed; it exists only during the build and is consumed to emit code.
#[derive(Debug)]
pub struct HookDescriptor {
    /// The externally visible hook name: the `name` override when given,
    /// otherwise the declared function's own identifier.
    pub hook_name: String,
    /// The parameter after which arguments become optional, if any.
    pub optional: Option<String>,
    /// Suppress automatic module registration.
    pub ignore_module: bool,
    /// Default literals by parameter name.
    pub defaults: Vec<(String, LitValue)>,
    /// The declared function's own identifier.
    pub source_ident: String,
}

/// Why a configuration payload was rejected.
#[derive(Clone, Copy, PartialEq, Eq, Structural, Debug)]
pub enum SchemaErrorKind {
    /// The field's key is not one of the accepted configuration fields.
    UnknownField,
    /// The field's value has the wrong literal kind for its key.
    WrongKind,
    /// An earlier field already used the same key.
    DuplicateField,
}

/// A malformed configuration payload: the first offending key, and why. A
/// build-time diagnostic that aborts compilation at the declaration site.
#[derive(Debug)]
pub struct SchemaError {
    pub key: String,
    pub kind: SchemaErrorKind,
}

/// The accepted configuration keys.
pub open spec fn known_key(k: Seq<char>) -> bool {
    k == "optional"@ || k == "ignore_module"@ || k == "defaults"@ || k == "name"@
}

/// The literal kind each key requires: `optional` and `name` take a string,
/// `ignore_module` a boolean, `defaults` a pair list.
pub open spec fn kind_ok(f: ConfigField) -> bool {
    if f.key@ == "optional"@ || f.key@ == "name"@ {
        f.value matches ConfigValue::Lit(LitValue::Str(_))
    } else if f.key@ == "ignore_module"@ {
        f.value matches ConfigValue::Lit(LitValue::Bool(_))
    } else if f.key@ == "defaults"@ {
        f.value matches ConfigValue::Pairs(_)
    } else {
        true
    }
}

/// The fault of field `i`, checked in this order: unknown key, wrong
/// literal kind, duplicate of an earlier key.
pub open spec fn field_fault(s: Seq<ConfigField>, i: int) -> Option<SchemaErrorKind> {
    if !known_key(s[i].key@) {
        Option::Some(SchemaErrorKind::UnknownField)
    } else if !kind_ok(s[i]) {
        Option::Some(SchemaErrorKind::WrongKind)
    } else if exists|j: int| 0 <= j < i && #[trigger] s[j].key@ == s[i].key@ {
        Option::Some(SchemaErrorKind::DuplicateField)
    } else {
        Option::None
    }
}

/// A well-formed payload: no field is faulty.
pub open spec fn fields_wf(s: Seq<ConfigField>) -> bool {
    forall|i: int| 0 <= i < s.len() ==> #[trigger] field_fault(s, i) is None
}

/// The value of the first field keyed `k`.
pub open spec fn lookup(s: Seq<ConfigField>, k: Seq<char>) -> Option<ConfigValue>
    decreases s.len(),
{
    if s.len() == 0 {
        Option::None
    } else if s[0].key@ == k {
        Option::Some(s[0].value)
    } else {
        lookup(s.skip(1), k)
    }
}

/// The hook name a well-formed payload selects.
pub open spec fn spec_hook_name(fn_name: Seq<char>, s: Seq<ConfigField>) -> Seq<char> {
    match lookup(s, "name"@) {
        Option::Some(ConfigValue::Lit(LitValue::Str(v))) => v@,
        _ => fn_name,
    }
}

/// The `optional` parameter name a well-formed payload selects.
pub open spec fn spec_optional(s: Seq<ConfigField>) -> Option<Seq<char>> {
    match lookup(s, "optional"@) {
        Option::Some(ConfigValue::Lit(LitValue::Str(v))) => Option::Some(v@),
        _ => Option::None,
    }
}

/// The `ignore_module` flag a well-formed payload selects.
pub open spec fn spec_ignore_module(s: Seq<ConfigField>) -> bool {
    match lookup(s, "ignore_module"@) {
        Option::Some(ConfigValue::Lit(LitValue::Bool(b))) => b,
        _ => false,
    }
}

/// The default literals a well-formed payload selects.
pub open spec fn spec_defaults(s: Seq<ConfigField>) -> Seq<(String, LitValue)> {
    match lookup(s, "defaults"@) {
        Option::Some(ConfigValue::Pairs(v)) => v@,
        _ => Seq::empty(),
    }
}

/// Whether the field's value kind fits its key.
fn kind_check(f: &ConfigField) -> (r: bool)
    ensures
        r == kind_ok(*f),
{
    if str_eq(f.key.as_str(), "optional") || str_eq(f.key.as_str(), "name") {
        match &f.value {
            ConfigValue::Lit(LitValue::Str(_)) => true,
            _ => false,
        }
    } else if str_eq(f.key.as_str(), "ignore_module") {
        match &f.value {
            ConfigValue::Lit(LitValue::Bool(_)) => true,
            _ => false,
        }
    } else if str_eq(f.key.as_str(), "defaults") {
        match &f.value {
            ConfigValue::Pairs(_) => true,
            _ => false,
        }
    } else {
        true
    }
}

/// A reference to the value of the first field keyed `key`, if any.
fn lookup_field<'a>(args: &'a Vec<ConfigField>, key: &str) -> (r: Option<&'a ConfigValue>)
    ensures
        match r {
            Option::Some(v) => lookup(args@, key@) == Option::Some(*v),
            Option::None => lookup(args@, key@) is None,
        },
{
    let n = args.len();
    let mut i: usize = 0;
    proof {
        assert(args@.skip(0) =~= args@);
    }
    while i < n
        invariant
            i <= n,
            n == args@.len(),
            lookup(args@, key@) == lookup(args@.skip(i as int), key@),
        decreases n - i,
    {
        proof {
            assert(args@.skip(i as int)[0] == args@[i as int]);
        }
        if str_eq(args[i].key.as_str(), key) {
            return Option::Some(&args[i].value);
        }
        proof {
            assert(args@.skip(i as int).skip(1) =~= args@.skip(i + 1));
        }
        i = i + 1;
    }
    proof {
        assert(args@.skip(n as int).len() == 0);
    }
    Option::None
}

/// An exact copy of a configuration literal.
fn clone_lit(l: &LitValue) -> (r: LitValue)
    ensures
        r == *l,
{
    match l {
        LitValue::Str(s) => LitValue::Str(s.clone()),
        LitValue::Bool(b) => LitValue::Bool(*b),
        LitValue::Int(x) => LitValue::Int(*x),
        LitValue::Raw(s) => LitValue::Raw(s.clone()),
    }
}

/// An exact copy of a default-literal list.
fn clone_defaults(v: &Vec<(String, LitValue)>) -> (r: Vec<(String, LitValue)>)
    ensures
        r@ == v@,
{
    let n = v.len();
    let mut out: Vec<(String, LitValue)> = Vec::new();
    let mut i: usize = 0;
    while i < n
        invariant
            i <= n,
            n == v@.len(),
            out@.len() == i,
            forall|j: int| 0 <= j < i ==> out@[j] == v@[j],
        decreases n - i,
    {
        out.push((v[i].0.clone(), clone_lit(&v[i].1)));
        i = i + 1;
    }
    proof {
        assert(out@ =~= v@);
    }
    out
}

/// Parse one hook declaration's configuration payload into a descriptor.
/// `fn_name` is the declared function's identifier; the fields arrive in
/// declaration order. Succeeds exactly on well-formed payloads; a malformed
/// payload yields a schema error naming its first faulty field.
pub fn parse_function_hook(fn_name: &str, args: &Vec<ConfigField>) -> (r: Result<
    HookDescriptor,
    SchemaError,
>)
    ensures
        r is Ok <==> fields_wf(args@),
        r matches Result::Ok(d) ==> {
            &&& d.hook_name@ == spec_hook_name(fn_name@, args@)
            &&& (d.optional is Some <==> spec_optional(args@) is Some)
            &&& (d.optional matches Option::Some(o) ==> spec_optional(args@) == Option::Some(o@))
            &&& d.ignore_module == spec_ignore_module(args@)
            &&& d.defaults@ == spec_defaults(args@)
            &&& d.source_ident@ == fn_name@
        },
        r matches Result::Err(e) ==> exists|i: int|
            {
                &&& 0 <= i < args@.len()
                &&& #[trigger] field_fault(args@, i) == Option::Some(e.kind)
                &&& args@[i].key@ == e.key@
                &&& forall|j: int| 0 <= j < i ==> field_fault(args@, j) is None
            },
{
    let n = args.len();
    let mut i: usize = 0;
    while i < n
        invariant
            i <= n,
            n == args@.len(),
            forall|j: int| 0 <= j < i ==> #[trigger] field_fault(args@, j) is None,
        decreases n - i,
    {
        let known = str_eq(args[i].key.as_str(), "optional") || str_eq(
            args[i].key.as_str(),
            "ignore_module",
        ) || str_eq(args[i].key.as_str(), "defaults") || str_eq(args[i].key.as_str(), "name");
        if !known {
            proof {
                assert(field_fault(args@, i as int) == Option::Some(SchemaErrorKind::UnknownField));
            }
            return Result::Err(
                SchemaError { key: args[i].key.clone(), kind: SchemaErrorKind::UnknownField },
            );
        }
        if !kind_check(&args[i]) {
            proof {
                assert(field_fault(args@, i as int) == Option::Some(SchemaErrorKind::WrongKind));
            }
            return Result::Err(
                SchemaError { key: args[i].key.clone(), kind: SchemaErrorKind::WrongKind },
            );
        }
        let mut j: usize = 0;
        while j < i
            invariant
                j <= i,
                i < n,
                n == args@.len(),
                forall|l: int| 0 <= l < j ==> #[trigger] args@[l].key@ != args@[i as int].key@,
                known_key(args@[i as int].key@),
                kind_ok(args@[i as int]),
                forall|l: int| 0 <= l < i ==> #[trigger] field_fault(args@, l) is None,
            decreases i - j,
        {
            if str_eq(args[j].key.as_str(), args[i].key.as_str()) {
                proof {
                    assert(args@[j as int].key@ == args@[i as int].key@);
                    assert(field_fault(args@, i as int) == Option::Some(
                        SchemaErrorKind::DuplicateField,
                    ));
                }
                return Result::Err(
                    SchemaError { key: args[i].key.clone(), kind: SchemaErrorKind::DuplicateField },
                );
            }
            j = j + 1;
        }
        proof {
            assert(field_fault(args@, i as int) is None);
        }
        i = i + 1;
    }
    let hook_name: String = match lookup_field(args, "name") {
        Option::Some(ConfigValue::Lit(LitValue::Str(s))) => s.clone(),
        _ => fn_name.to_owned(),
    };
    let optional: Option<String> = match lookup_field(args, "optional") {
        Option::Some(ConfigValue::Lit(LitValue::Str(s))) => Option::Some(s.clone()),
        _ => Option::None,
    };
    let ignore_module: bool = match lookup_field(args, "ignore_module") {
        Option::Some(ConfigValue::Lit(LitValue::Bool(b))) => *b,
        _ => false,
    };
    let defaults: Vec<(String, LitValue)> = match lookup_field(args, "defaults") {
        Option::Some(ConfigValue::Pairs(v)) => clone_defaults(v),
        _ => Vec::new(),
    };
    proof {
        if !(lookup(args@, "defaults"@) matches Option::Some(ConfigValue::Pairs(_))) {
            assert(defaults@ =~= spec_defaults(args@));
        }
    }
    Result::Ok(
        HookDescriptor {
            hook_name,
            optional,
            ignore_module,
            defaults,
            source_ident: fn_name.to_owned(),
        },
    )
}

/// The text of the registration call generated for one hook: it constructs
/// a fresh hook record that binds `hook_name` to the wrapper function named
/// `handler_ident`, and registers the record with the worker's registry.
pub open spec fn snippet_text(hook_name: Seq<char>, handler_ident: Seq<char>) -> Seq<char> {
    "registry.add_function_hook(zend_hooks::registry::ZendFunctionHook { hooked_function_name: \""@
        + hook_name + "\".to_string(), handler: "@ + handler_ident
        + ", previous_handler: None });"@
}

/// Build the registration snippet for one hook. The hook name is spliced
/// into a string literal, so a quote or backslash in it would change what
/// the generated registration means; such names are excluded here, and the
/// front end refuses them before calling.
pub fn registration_snippet(hook_name: &str, handler_ident: &str) -> (r: String)
    requires
        forall|i: int| 0 <= i < hook_name@.len() ==> hook_name@[i] != '"' && hook_name@[i] != '\\',
    ensures
        r@ == snippet_text(hook_name@, handler_ident@),
{
    let mut out = String::new();
    out.append(
        "registry.add_function_hook(zend_hooks::registry::ZendFunctionHook { hooked_function_name: \"",
    );
    out.append(hook_name);
    out.append("\".to_string(), handler: ");
    out.append(handler_ident);
    out.append(", previous_handler: None });");
    proof {
        assert(out@ =~= snippet_text(hook_name@, handler_ident@));
    }
    out
}

} // verus!
