//! Tests for the command planner, the install/uninstall cascade, the
//! manifest validation, and the full service scenario.

use serde_ipc::command::{CmdStep, Commander};
use serde_ipc::config::{
    BuildTemplate, DepMap, MetaFunc, Metadata, MetaFuncMap, RuntimeTemplate, ServiceConfig,
};
use serde_ipc::jsonify::{validate_manifest, JsonifyIPC, RawManifest};
use serde_ipc::lifecycle::UninstallPlan;
use serde_ipc::mailbox::{decode_res_frame, encode_res_frame};
use serde_ipc::registry::FFIManager;

fn commander() -> Commander {
    Commander::new(String::from("/tmp/caps"), String::from("/tmp/work"))
}

fn step_cmd(step: &CmdStep) -> &str {
    match step {
        CmdStep::Run { cmd, .. } => cmd.as_str(),
        CmdStep::Fail { msg } => msg.as_str(),
    }
}

#[test]
fn dependency_plan_commands_and_messages() {
    let mut dep: DepMap = Vec::new();
    dep.push((String::from("pip"), vec![String::from("requests"), String::from("")]));
    dep.push((String::from("cargo"), vec![String::from("ripgrep")]));
    let steps = commander().dependency_steps(&Some(dep));
    // the empty package name plans nothing
    assert_eq!(steps.len(), 2);
    assert_eq!(step_cmd(&steps[0]), "pip install 'requests'");
    assert_eq!(step_cmd(&steps[1]), "cargo install ripgrep");
    let r = commander().build_dependency(&None, &Vec::new());
    assert!(r.is_ok());
}

#[test]
fn dependency_failure_names_the_package() {
    let mut dep: DepMap = Vec::new();
    dep.push((String::from("pip"), vec![String::from("requests")]));
    let err = commander().build_dependency(&Some(dep), &vec![false]).unwrap_err();
    assert_eq!(err.as_str(), "pip install failed for 'requests'");
}

#[test]
fn unsupported_installer_fails_the_plan() {
    let mut dep: DepMap = Vec::new();
    dep.push((String::from("apt"), vec![String::from("curl")]));
    let steps = commander().dependency_steps(&Some(dep));
    assert_eq!(steps.len(), 1);
    assert_eq!(step_cmd(&steps[0]), "Unsupported command: apt");
    let err = commander().build_dependency(&Some(vec![(
        String::from("apt"),
        vec![String::from("curl")],
    )]), &vec![true]).unwrap_err();
    assert_eq!(err.as_str(), "Unsupported command: apt");
}

#[test]
fn build_script_first_failure_decides() {
    let script = Some(vec![String::from("make"), String::from("make install")]);
    let ok = commander().build_script(&script, &vec![true, true]);
    assert!(ok.is_ok());
    let err = commander().build_script(&script, &vec![true, false]).unwrap_err();
    assert_eq!(err.as_str(), "build failed for 'make install'");
    let err = commander().build_script(&script, &vec![false, false]).unwrap_err();
    assert_eq!(err.as_str(), "build failed for 'make'");
}

#[test]
fn runtime_status_interprets_the_probe() {
    let c = commander();
    assert_eq!(c.runtime_status(&String::from(""), true), None);
    assert_eq!(c.runtime_status(&String::from("systemctl status x"), true), Some(true));
    assert_eq!(c.runtime_status(&String::from("systemctl status x"), false), Some(false));
    let (prog, params) = c.status_prog_args(&String::from("systemctl status x")).unwrap();
    assert_eq!(prog.as_str(), "systemctl");
    assert_eq!(params.len(), 2);
    assert_eq!(params[0].as_str(), "status");
    assert_eq!(params[1].as_str(), "x");
    assert!(c.status_prog_args(&String::from("")).is_none());
}

#[test]
fn runtime_enable_skips_empty_probes_and_names_failures() {
    let c = commander();
    let args = vec![String::from(""), String::from("probe-a"), String::from("probe-b")];
    // only the two non-empty probes consume outcomes
    assert!(c.runtime_enable(&args, &vec![true, true]).is_ok());
    let err = c.runtime_enable(&args, &vec![true, false]).unwrap_err();
    assert_eq!(err.as_str(), "Enable failed for 'probe-b'");
    let err = c.runtime_disable(&args, &vec![false, true]).unwrap_err();
    assert_eq!(err.as_str(), "Disable failed for 'probe-a'");
}

#[test]
fn output_plan_parses_declarations() {
    let c = commander();
    let args = vec![String::from(" libping.so "), String::from("target/out.so@ping.so")];
    let steps = c.build_output(&args).unwrap();
    assert_eq!(steps.len(), 2);
    assert_eq!(steps[0].source.as_str(), "libping.so");
    assert_eq!(steps[0].dest.as_str(), "libping.so");
    assert!(!steps[0].rename);
    assert_eq!(steps[1].source.as_str(), "target/out.so");
    assert_eq!(steps[1].dest.as_str(), "ping.so");
    assert!(steps[1].rename);
    assert!(c.build_output(&vec![String::from("a@b@c")]).is_none());
    assert!(c.build_output(&vec![String::from("@dest")]).is_none());
}

fn ping_manifest(name: &str) -> RawManifest {
    let mut func: MetaFuncMap = Vec::new();
    func.push((
        String::from("ping"),
        MetaFunc { restype: String::from("str"), args: Vec::new() },
    ));
    RawManifest {
        name: Some(String::from(name)),
        class: Some(String::from("c")),
        version: Some(String::from("0.1.0")),
        build: Some(BuildTemplate {
            dependency: None,
            script: Some(vec![String::from("make")]),
            output: vec![String::from("libping.so")],
        }),
        runtime: Some(RuntimeTemplate {
            dependency: None,
            status: String::from(""),
            enable: Vec::new(),
            disable: Vec::new(),
        }),
        func: Some(func),
    }
}

#[test]
fn manifest_sections_are_required_in_order() {
    let mut m = ping_manifest("svc");
    m.name = None;
    assert_eq!(
        validate_manifest(m).unwrap_err().as_str(),
        "'name' section missing in manifest file.",
    );
    let mut m = ping_manifest("svc");
    m.class = None;
    assert_eq!(
        validate_manifest(m).unwrap_err().as_str(),
        "'type' section missing in manifest file.",
    );
    let mut m = ping_manifest("svc");
    m.version = None;
    assert_eq!(
        validate_manifest(m).unwrap_err().as_str(),
        "'version' section missing in manifest file.",
    );
    let mut m = ping_manifest("svc");
    m.build = None;
    assert_eq!(
        validate_manifest(m).unwrap_err().as_str(),
        "'build' section missing in manifest file.",
    );
    let mut m = ping_manifest("svc");
    m.runtime = None;
    assert_eq!(
        validate_manifest(m).unwrap_err().as_str(),
        "'runtime' section missing in manifest file.",
    );
    let mut m = ping_manifest("svc");
    m.func = None;
    assert_eq!(validate_manifest(m).unwrap_err().as_str(), "'metadata' format error.");
    let ok = validate_manifest(ping_manifest("svc")).unwrap();
    assert_eq!(ok.0.name.as_str(), "svc");
}

#[test]
fn install_produces_the_configuration_to_persist() {
    let server = JsonifyIPC::new(Some(String::from("/tmp/caps")), None);
    let cfg = server
        .install_service(
            ping_manifest("svc"),
            &Vec::new(),
            &vec![true],
            &vec![true],
            &Vec::new(),
            &Vec::new(),
        )
        .unwrap();
    assert_eq!(cfg.entry.as_str(), "libping.so");
    assert_eq!(cfg.files.len(), 1);
    assert_eq!(cfg.files[0].as_str(), "libping.so");
    assert_eq!(cfg.metadata.name.as_str(), "svc");
}

#[test]
fn install_failure_after_outputs_names_the_cleanup() {
    let server = JsonifyIPC::new(Some(String::from("/tmp/caps")), None);
    let mut manifest = ping_manifest("svc");
    manifest.runtime = Some(RuntimeTemplate {
        dependency: None,
        status: String::from(""),
        enable: vec![String::from("probe")],
        disable: Vec::new(),
    });
    let failure = server
        .install_service(
            manifest,
            &Vec::new(),
            &vec![true],
            &vec![true],
            &Vec::new(),
            &vec![false],
        )
        .unwrap_err();
    assert_eq!(failure.msg.as_str(), "Enable failed for 'probe'");
    let (name, files) = failure.cleanup.unwrap();
    assert_eq!(name.as_str(), "svc");
    assert_eq!(files.len(), 1);
    assert_eq!(files[0].as_str(), "libping.so");
}

#[test]
fn install_build_failure_cleans_nothing() {
    let server = JsonifyIPC::new(Some(String::from("/tmp/caps")), None);
    let failure = server
        .install_service(
            ping_manifest("svc"),
            &Vec::new(),
            &vec![false],
            &vec![true],
            &Vec::new(),
            &Vec::new(),
        )
        .unwrap_err();
    assert_eq!(failure.msg.as_str(), "build failed for 'make'");
    assert!(failure.cleanup.is_none());
}

#[test]
fn uninstall_is_idempotent_without_a_configuration() {
    // removing a service that was never installed (or was already
    // removed) succeeds and does nothing: no disable probes, no file
    // deletions, no directory removal
    let server = JsonifyIPC::new(Some(String::from("/tmp/caps")), None);
    let plan = server.uninstall_service(&String::from("ghost"), None);
    assert_eq!(plan.disable.len(), 0);
    assert_eq!(plan.files.len(), 0);
    assert!(!plan.remove_dir);
    assert_eq!(plan.name.as_str(), "ghost");
    // and again: the second removal is the same no-op
    let plan = server.uninstall_service(&String::from("ghost"), None);
    assert!(!plan.remove_dir);
    assert_eq!(plan.files.len(), 0);
}

#[test]
fn switch_and_status_need_the_configuration() {
    let server = JsonifyIPC::new(Some(String::from("/tmp/caps")), None);
    let err = server.enable_service(&None, &Vec::new()).unwrap_err();
    assert_eq!(err.as_str(), "failed to load config file.");
    let err = server.disable_service(&None, &Vec::new()).unwrap_err();
    assert_eq!(err.as_str(), "failed to load config file.");
    assert_eq!(server.service_status(&None, true), None);
}

#[test]
fn config_path_is_under_the_service_directory() {
    let reg = FFIManager::new(String::from("/tmp/caps"));
    let p = reg.config_path(&String::from("svc"));
    assert_eq!(p.as_str(), "/tmp/caps/svc/.conf");
}

#[test]
fn jsonify_defaults() {
    let server = JsonifyIPC::new(None, None);
    assert_eq!(server.server_port, 42000);
    assert_eq!(server.ffi.root.as_str(), "~/.serde_ipc");
    let server = JsonifyIPC::new(Some(String::from("/srv")), Some(4400));
    assert_eq!(server.server_port, 4400);
    assert_eq!(server.ffi.root.as_str(), "/srv");
}

#[test]
fn install_register_call_unregister_uninstall() {
    // the whole service life, with a zero-argument "ping" returning a
    // fixed literal at the invocation boundary
    let mut server = JsonifyIPC::new(Some(String::from("/tmp/caps")), None);
    let cfg = server
        .install_service(
            ping_manifest("pingsvc"),
            &Vec::new(),
            &vec![true],
            &vec![true],
            &Vec::new(),
            &Vec::new(),
        )
        .unwrap();
    let name = String::from("pingsvc");
    let (handle, meta) = server.get_service(&name, Some(cfg)).unwrap();
    assert!(meta.is_some());
    // CALL ping with no arguments: the plan resolves the declared symbol
    let planned = server
        .ffi
        .execute((handle.clone(), String::from("ping"), Vec::new()))
        .expect("the issued handle is valid");
    let plan = planned.expect("ping is declared with no arguments");
    assert_eq!(plan.symbol.as_str(), "ping");
    assert_eq!(plan.entry.as_str(), "libping.so");
    // the invocation returns the plugin's fixed literal, which rides a
    // response frame unchanged
    let literal = "\"pong\"";
    let frame = encode_res_frame(3, &literal.as_bytes().to_vec()).unwrap();
    let (seq, body) = decode_res_frame(&frame).unwrap();
    assert_eq!(seq, 3);
    assert_eq!(body, literal.as_bytes());
    // unregister: the handle dies with the last usage
    server.put_service(&name, &handle);
    assert!(server.ffi.get_service_by_sig(&handle).is_none());
    // uninstall: every installed file and the service directory go
    let cfg_again = validate_manifest(ping_manifest("pingsvc")).unwrap();
    let stored = ServiceConfig {
        entry: String::from("libping.so"),
        files: vec![String::from("libping.so")],
        metadata: cfg_again.0,
        runtime: cfg_again.2,
    };
    let plan: UninstallPlan = server.uninstall_service(&name, Some(stored));
    assert_eq!(plan.name.as_str(), "pingsvc");
    assert!(plan.remove_dir);
    assert_eq!(plan.files.len(), 1);
    assert_eq!(plan.files[0].as_str(), "libping.so");
    // a repeated uninstall finds no configuration and performs nothing
    let plan = server.uninstall_service(&name, None);
    assert!(!plan.remove_dir);
    assert_eq!(plan.files.len(), 0);
}
