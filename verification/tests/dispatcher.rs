//! Tests for the per-connection dispatcher: liveness probes, silent
//! failures, connection teardown, malformed-frame policy, and chain-step
//! wiring.

use serde_ipc::config::{MetaFunc, Metadata, MetaFuncMap, RuntimeTemplate, ServiceConfig};
use serde_ipc::dispatch::{
    chain_key, cleanup_connection, handle_request, substitute_chain_args, CommandMsg, ConnState,
    DispatchAction, FuncCall, ReplyBody,
};
use serde_ipc::registry::FFIManager;

fn ping_config(name: &str) -> ServiceConfig {
    let mut func: MetaFuncMap = Vec::new();
    func.push((
        String::from("ping"),
        MetaFunc { restype: String::from("str"), args: Vec::new() },
    ));
    ServiceConfig {
        entry: String::from("libping.so"),
        files: vec![String::from("libping.so")],
        metadata: Metadata {
            name: String::from(name),
            class: String::from("c"),
            version: String::from("0.1.0"),
            func,
        },
        runtime: RuntimeTemplate {
            dependency: None,
            status: String::from(""),
            enable: Vec::new(),
            disable: Vec::new(),
        },
    }
}

#[test]
fn alive_echoes_the_sequence_with_an_empty_payload() {
    let mut reg = FFIManager::new(String::from("/tmp/caps"));
    let mut conn = ConnState::new();
    let action = handle_request(&mut reg, &mut conn, 42, Some(CommandMsg::Alive), None);
    match action {
        DispatchAction::Reply { seq, body } => {
            assert_eq!(seq, 42);
            assert!(matches!(body, ReplyBody::Empty));
        },
        _ => panic!("a liveness probe must be answered"),
    }
}

#[test]
fn register_records_the_handle_for_teardown() {
    let mut reg = FFIManager::new(String::from("/tmp/caps"));
    let mut conn = ConnState::new();
    let action = handle_request(
        &mut reg,
        &mut conn,
        7,
        Some(CommandMsg::Register { name: String::from("svc") }),
        Some(ping_config("svc")),
    );
    let sig = match action {
        DispatchAction::Reply { seq, body } => {
            assert_eq!(seq, 7);
            match body {
                ReplyBody::Registered { sig, spec } => {
                    assert!(spec.is_some());
                    sig
                },
                _ => panic!("a successful registration answers with the handle"),
            }
        },
        _ => panic!("a successful registration answers"),
    };
    assert_eq!(conn.records.len(), 1);
    assert_eq!(conn.records[0].0.as_str(), "svc");
    assert_eq!(conn.records[0].1.as_str(), sig.as_str());
}

#[test]
fn register_without_configuration_fails_silently() {
    let mut reg = FFIManager::new(String::from("/tmp/caps"));
    let mut conn = ConnState::new();
    let action = handle_request(
        &mut reg,
        &mut conn,
        7,
        Some(CommandMsg::Register { name: String::from("svc") }),
        None,
    );
    assert!(matches!(action, DispatchAction::NoReply));
    assert_eq!(conn.records.len(), 0);
}

#[test]
fn unregister_drops_the_record_and_writes_nothing() {
    let mut reg = FFIManager::new(String::from("/tmp/caps"));
    let mut conn = ConnState::new();
    handle_request(
        &mut reg,
        &mut conn,
        1,
        Some(CommandMsg::Register { name: String::from("svc") }),
        Some(ping_config("svc")),
    );
    let handle = conn.records[0].1.clone();
    let action = handle_request(
        &mut reg,
        &mut conn,
        2,
        Some(CommandMsg::Unregister { name: String::from("svc") }),
        None,
    );
    assert!(matches!(action, DispatchAction::NoReply));
    assert_eq!(conn.records.len(), 0);
    assert!(reg.get_service_by_sig(&handle).is_none());
}

#[test]
fn call_with_an_unregistered_handle_yields_no_response_frame() {
    let mut reg = FFIManager::new(String::from("/tmp/caps"));
    let mut conn = ConnState::new();
    let fc = FuncCall {
        sig: String::from("99999"),
        func: String::from("ping"),
        args: Vec::new(),
    };
    let action = handle_request(&mut reg, &mut conn, 5, Some(CommandMsg::Call(fc)), None);
    assert!(matches!(action, DispatchAction::NoReply));
}

#[test]
fn call_with_a_registered_handle_plans_the_invocation() {
    let mut reg = FFIManager::new(String::from("/tmp/caps"));
    let mut conn = ConnState::new();
    handle_request(
        &mut reg,
        &mut conn,
        1,
        Some(CommandMsg::Register { name: String::from("svc") }),
        Some(ping_config("svc")),
    );
    let handle = conn.records[0].1.clone();
    let fc = FuncCall { sig: handle, func: String::from("ping"), args: Vec::new() };
    let action = handle_request(&mut reg, &mut conn, 9, Some(CommandMsg::Call(fc)), None);
    match action {
        DispatchAction::RunCall { seq, plan } => {
            assert_eq!(seq, 9);
            let plan = plan.expect("ping is declared with no arguments");
            assert_eq!(plan.symbol.as_str(), "ping");
            assert_eq!(plan.entry.as_str(), "libping.so");
            assert_eq!(plan.args.len(), 0);
        },
        _ => panic!("a valid call is run off the read loop"),
    }
}

#[test]
fn malformed_payload_terminates_only_its_own_connection() {
    let mut reg = FFIManager::new(String::from("/tmp/caps"));
    let mut conn1 = ConnState::new();
    let mut conn2 = ConnState::new();
    // a handle issued to the second connection beforehand
    let action = handle_request(
        &mut reg,
        &mut conn2,
        1,
        Some(CommandMsg::Register { name: String::from("svc") }),
        Some(ping_config("svc")),
    );
    assert!(matches!(action, DispatchAction::Reply { .. }));
    // the first connection sends garbage: it dies, nothing else changes
    let action = handle_request(&mut reg, &mut conn1, 2, None, None);
    assert!(matches!(action, DispatchAction::Terminate));
    cleanup_connection(&mut reg, &mut conn1);
    // the second connection is fully functional: its handle resolves and
    // it keeps answering probes
    let handle = conn2.records[0].1.clone();
    assert!(reg.get_service_by_sig(&handle).is_some());
    let action = handle_request(&mut reg, &mut conn2, 3, Some(CommandMsg::Alive), None);
    assert!(matches!(action, DispatchAction::Reply { .. }));
}

#[test]
fn teardown_unregisters_every_issued_handle() {
    let mut reg = FFIManager::new(String::from("/tmp/caps"));
    let mut conn = ConnState::new();
    handle_request(
        &mut reg,
        &mut conn,
        1,
        Some(CommandMsg::Register { name: String::from("alpha") }),
        Some(ping_config("alpha")),
    );
    handle_request(
        &mut reg,
        &mut conn,
        2,
        Some(CommandMsg::Register { name: String::from("beta") }),
        Some(ping_config("beta")),
    );
    let h_alpha = conn.records[0].1.clone();
    let h_beta = conn.records[1].1.clone();
    cleanup_connection(&mut reg, &mut conn);
    assert_eq!(conn.records.len(), 0);
    assert!(reg.get_service_by_sig(&h_alpha).is_none());
    assert!(reg.get_service_by_sig(&h_beta).is_none());
}

#[test]
fn teardown_leaves_other_connections_usages_alone() {
    let mut reg = FFIManager::new(String::from("/tmp/caps"));
    let mut conn1 = ConnState::new();
    let mut conn2 = ConnState::new();
    handle_request(
        &mut reg,
        &mut conn1,
        1,
        Some(CommandMsg::Register { name: String::from("svc") }),
        Some(ping_config("svc")),
    );
    handle_request(
        &mut reg,
        &mut conn2,
        2,
        Some(CommandMsg::Register { name: String::from("svc") }),
        None,
    );
    let h2 = conn2.records[0].1.clone();
    cleanup_connection(&mut reg, &mut conn1);
    // the other connection's registration keeps the service loaded
    assert!(reg.get_service_by_sig(&h2).is_some());
}

#[test]
fn chain_keys_and_substitution() {
    let key = chain_key(&String::from("41"), &String::from("ping"));
    assert_eq!(key.as_str(), "restype_41_ping");
    let args = vec![String::from("restype_41_ping"), String::from("literal")];
    let results = vec![(String::from("restype_41_ping"), String::from("\"pong\""))];
    let wired = substitute_chain_args(&args, &results);
    assert_eq!(wired.len(), 2);
    assert_eq!(wired[0].as_str(), "\"pong\"");
    assert_eq!(wired[1].as_str(), "literal");
}

#[test]
fn chain_call_hands_the_steps_to_the_loop() {
    let mut reg = FFIManager::new(String::from("/tmp/caps"));
    let mut conn = ConnState::new();
    let steps = vec![FuncCall {
        sig: String::from("1"),
        func: String::from("f"),
        args: Vec::new(),
    }];
    let action = handle_request(&mut reg, &mut conn, 4, Some(CommandMsg::ChainCall(steps)), None);
    match action {
        DispatchAction::RunChain { seq, steps } => {
            assert_eq!(seq, 4);
            assert_eq!(steps.len(), 1);
            assert_eq!(steps[0].func.as_str(), "f");
        },
        _ => panic!("a chain call is evaluated off the read loop"),
    }
}

#[test]
fn one_way_runs_without_answering() {
    let mut reg = FFIManager::new(String::from("/tmp/caps"));
    let mut conn = ConnState::new();
    handle_request(
        &mut reg,
        &mut conn,
        1,
        Some(CommandMsg::Register { name: String::from("svc") }),
        Some(ping_config("svc")),
    );
    let handle = conn.records[0].1.clone();
    let fc = FuncCall { sig: handle, func: String::from("ping"), args: Vec::new() };
    let action = handle_request(&mut reg, &mut conn, 8, Some(CommandMsg::OneWay(fc)), None);
    match action {
        DispatchAction::RunOneWay { plan } => {
            assert_eq!(plan.expect("ping is declared").symbol.as_str(), "ping");
        },
        _ => panic!("a one-way call runs and discards its result"),
    }
    let fc = FuncCall { sig: String::from("77"), func: String::from("ping"), args: Vec::new() };
    let action = handle_request(&mut reg, &mut conn, 9, Some(CommandMsg::OneWay(fc)), None);
    assert!(matches!(action, DispatchAction::NoReply));
}
