//! Tests for the registry lifecycle: registration, usage counting,
//! stale-handle defense, eviction, and call resolution.

use serde_ipc::adapter::ServiceClass;
use serde_ipc::config::{MetaFunc, Metadata, MetaFuncMap, RuntimeTemplate, ServiceConfig};
use serde_ipc::handle::parse_handle;
use serde_ipc::registry::FFIManager;

fn ping_config(name: &str, class: &str) -> ServiceConfig {
    let mut func: MetaFuncMap = Vec::new();
    func.push((
        String::from("ping"),
        MetaFunc { restype: String::from("str"), args: Vec::new() },
    ));
    ServiceConfig {
        entry: String::from("libping.so"),
        files: vec![String::from("libping.so")],
        metadata: Metadata {
            name: String::from(name),
            class: String::from(class),
            version: String::from("0.1.0"),
            func,
        },
        runtime: RuntimeTemplate {
            dependency: None,
            status: String::from(""),
            enable: Vec::new(),
            disable: Vec::new(),
        },
    }
}

fn two_arg_config(name: &str, class: &str) -> ServiceConfig {
    let mut cfg = ping_config(name, class);
    cfg.metadata.func.push((
        String::from("greet"),
        MetaFunc {
            restype: String::from("str"),
            args: vec![
                (String::from("who"), String::from("str")),
                (String::from("how"), String::from("str")),
            ],
        },
    ));
    cfg
}

#[test]
fn register_needs_a_configuration_for_a_new_name() {
    let mut reg = FFIManager::new(String::from("/tmp/caps"));
    let name = String::from("svc");
    assert!(reg.register(&name, None).is_none());
}

#[test]
fn register_rejects_an_unknown_language_class() {
    let mut reg = FFIManager::new(String::from("/tmp/caps"));
    let name = String::from("svc");
    assert!(reg.register(&name, Some(ping_config("svc", "fortran"))).is_none());
}

#[test]
fn register_then_unregister_returns_to_the_prior_state() {
    let mut reg = FFIManager::new(String::from("/tmp/caps"));
    let name = String::from("svc");
    let (handle, meta) = reg.register(&name, Some(ping_config("svc", "c"))).unwrap();
    assert!(meta.is_some());
    assert!(reg.get_service_by_sig(&handle).is_some());
    reg.unregister(&name, &handle);
    // the service was evicted: the handle is dead and the name needs its
    // configuration again
    assert!(reg.get_service_by_sig(&handle).is_none());
    assert!(reg.register(&name, None).is_none());
}

#[test]
fn concurrent_registrations_share_one_service() {
    let mut reg = FFIManager::new(String::from("/tmp/caps"));
    let name = String::from("svc");
    let (h1, meta1) = reg.register(&name, Some(ping_config("svc", "c"))).unwrap();
    // the second registration needs no configuration and returns none of
    // the metadata: only the first load carries it
    let (h2, meta2) = reg.register(&name, None).unwrap();
    assert!(meta1.is_some());
    assert!(meta2.is_none());
    let v1 = parse_handle(h1.as_str());
    let v2 = parse_handle(h2.as_str());
    assert_eq!(v1 >> 32, v2 >> 32);
    assert_ne!(v1 as u32, v2 as u32);
}

#[test]
fn unregister_with_mismatched_high_bits_is_a_no_op() {
    let mut reg = FFIManager::new(String::from("/tmp/caps"));
    let name = String::from("svc");
    let (handle, _) = reg.register(&name, Some(ping_config("svc", "c"))).unwrap();
    let real = parse_handle(handle.as_str());
    let forged = format!("{}", (real ^ (1u64 << 40)));
    reg.unregister(&name, &forged);
    // the real handle still resolves: nothing was evicted
    assert!(reg.get_service_by_sig(&handle).is_some());
}

#[test]
fn evicted_only_when_the_last_usage_leaves() {
    let mut reg = FFIManager::new(String::from("/tmp/caps"));
    let name = String::from("svc");
    let (h1, _) = reg.register(&name, Some(ping_config("svc", "c"))).unwrap();
    let (h2, _) = reg.register(&name, None).unwrap();
    reg.unregister(&name, &h1);
    // one usage remains: not evicted
    assert!(reg.get_service_by_sig(&h2).is_some());
    reg.unregister(&name, &h2);
    // the set became empty: evicted
    assert!(reg.get_service_by_sig(&h2).is_none());
}

#[test]
fn resolve_rejects_handles_with_wrong_usage_bits() {
    let mut reg = FFIManager::new(String::from("/tmp/caps"));
    let name = String::from("svc");
    let (handle, _) = reg.register(&name, Some(ping_config("svc", "c"))).unwrap();
    let real = parse_handle(handle.as_str());
    let forged = format!("{}", real ^ 1);
    assert!(reg.get_service_by_sig(&forged).is_none());
}

#[test]
fn execute_plans_a_declared_call() {
    let mut reg = FFIManager::new(String::from("/tmp/caps"));
    let name = String::from("svc");
    let (handle, _) = reg.register(&name, Some(two_arg_config("svc", "python"))).unwrap();
    let args = vec![String::from("\"world\""), String::from("\"loud\"")];
    let planned = reg
        .execute((handle.clone(), String::from("greet"), args))
        .expect("handle is valid");
    let plan = planned.expect("greet is declared with two arguments");
    assert_eq!(plan.symbol.as_str(), "greet");
    assert!(matches!(plan.class, ServiceClass::Interpreted));
    assert_eq!(plan.args.len(), 2);
    assert_eq!(plan.kwargs.len(), 2);
    assert_eq!(plan.kwargs[0].0.as_str(), "who");
    assert_eq!(plan.kwargs[0].1.as_str(), "\"world\"");
    assert_eq!(plan.kwargs[1].0.as_str(), "how");
    assert_eq!(plan.kwargs[1].1.as_str(), "\"loud\"");
}

#[test]
fn execute_fails_silently_on_an_unknown_handle() {
    let reg = FFIManager::new(String::from("/tmp/caps"));
    let r = reg.execute((String::from("12345"), String::from("ping"), Vec::new()));
    assert!(r.is_none());
}

#[test]
fn plan_is_refused_for_undeclared_or_misused_functions() {
    let mut reg = FFIManager::new(String::from("/tmp/caps"));
    let name = String::from("svc");
    let (handle, _) = reg.register(&name, Some(two_arg_config("svc", "c"))).unwrap();
    // undeclared function name
    let r = reg
        .execute((handle.clone(), String::from("missing"), Vec::new()))
        .unwrap();
    assert!(r.is_none());
    // wrong arity
    let r = reg
        .execute((handle.clone(), String::from("greet"), vec![String::from("one")]))
        .unwrap();
    assert!(r.is_none());
    // C-shaped marshaling refuses an interior null
    let r = reg
        .execute((
            handle.clone(),
            String::from("greet"),
            vec![String::from("a\0b"), String::from("c")],
        ))
        .unwrap();
    assert!(r.is_none());
    // a well-shaped call still plans
    let r = reg
        .execute((handle, String::from("greet"), vec![String::from("a"), String::from("b")]))
        .unwrap();
    assert!(r.is_some());
}
