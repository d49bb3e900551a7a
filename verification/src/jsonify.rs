//! The JSON-facing facade over the registry: manifest validation with its
//! exact error messages, and the service management entry points a host
//! process drives.  The file and socket work around them — reading the
//! manifest, persisting configurations, running commands — reports its
//! outcomes in, and every decision is made here.

use vstd::prelude::*;
use vstd::string::*;
use crate::command::{spec_dep_steps, spec_run_steps, spec_switch_steps, opt_dep_view, ExecResult};
use crate::config::{BuildTemplate, Metadata, MetaFuncMap, RuntimeTemplate, ServiceConfig};
use crate::lifecycle::{InstallFailure, UninstallPlan, install_post};
use crate::registry::{FFIManager, ls_usages_bounded, register_post, spec_unregister};
use crate::adapter::strs_view;

verus! {

/// A manifest as parsed from JSON: each section present or not.  The
/// unverified reader fills this from the manifest file; which sections a
/// usable manifest must carry is decided here.
pub struct RawManifest {
    pub name: Option<String>,
    pub class: Option<String>,
    pub version: Option<String>,
    pub build: Option<BuildTemplate>,
    pub runtime: Option<RuntimeTemplate>,
    pub func: Option<MetaFuncMap>,
}

/// What validating a manifest yields: its metadata and section templates,
/// or the exact message naming the first missing section.
pub open spec fn spec_validate_manifest(raw: RawManifest) -> Result<
    (Metadata, BuildTemplate, RuntimeTemplate),
    Seq<char>,
> {
    if raw.name is None {
        Err("'name' section missing in manifest file."@)
    } else if raw.class is None {
        Err("'type' section missing in manifest file."@)
    } else if raw.version is None {
        Err("'version' section missing in manifest file."@)
    } else if raw.build is None {
        Err("'build' section missing in manifest file."@)
    } else if raw.runtime is None {
        Err("'runtime' section missing in manifest file."@)
    } else if raw.func is None {
        Err("'metadata' format error."@)
    } else {
        Ok(
            (
                Metadata {
                    name: raw.name->0,
                    class: raw.class->0,
                    version: raw.version->0,
                    func: raw.func->0,
                },
                raw.build->0,
                raw.runtime->0,
            ),
        )
    }
}

/// Validate a parsed manifest: every section must be present.
pub fn validate_manifest(raw: RawManifest) -> (r: Result<
    (Metadata, BuildTemplate, RuntimeTemplate),
    String,
>)
    ensures
        match r {
            Ok(v) => spec_validate_manifest(raw) == Ok::<_, Seq<char>>(v),
            Err(m) => spec_validate_manifest(raw) matches Err(em) && m@ == em,
        },
{
    let RawManifest { name, class, version, build, runtime, func } = raw;
    let name = match name {
        None => {
            return Err(String::from_str("'name' section missing in manifest file."));
        },
        Some(v) => v,
    };
    let class = match class {
        None => {
            return Err(String::from_str("'type' section missing in manifest file."));
        },
        Some(v) => v,
    };
    let version = match version {
        None => {
            return Err(String::from_str("'version' section missing in manifest file."));
        },
        Some(v) => v,
    };
    let build = match build {
        None => {
            return Err(String::from_str("'build' section missing in manifest file."));
        },
        Some(v) => v,
    };
    let runtime = match runtime {
        None => {
            return Err(String::from_str("'runtime' section missing in manifest file."));
        },
        Some(v) => v,
    };
    let func = match func {
        None => {
            return Err(String::from_str("'metadata' format error."));
        },
        Some(v) => v,
    };
    Ok((Metadata { name, class, version, func }, build, runtime))
}

/// The facade a host process holds: the registry and the port its
/// bootstrap listener announces.
pub struct JsonifyIPC {
    pub server_port: u16,
    pub ffi: FFIManager,
}

impl JsonifyIPC {
    /// A facade over a fresh registry: the working directory defaults to
    /// `~/.serde_ipc` (expanded by the process half) and the port to
    /// 42000.
    pub fn new(root: Option<String>, server_port: Option<u16>) -> (r: JsonifyIPC)
        ensures
            r.ffi.wf(),
            r.ffi.loaded@.len() == 0,
            r.ffi.root@ == match root {
                Some(s) => s@,
                None => "~/.serde_ipc"@,
            },
            r.server_port == match server_port {
                Some(p) => p,
                None => 42000u16,
            },
    {
        let root = match root {
            Some(s) => s,
            None => String::from_str("~/.serde_ipc"),
        };
        let server_port = match server_port {
            Some(p) => p,
            None => 42000,
        };
        JsonifyIPC { server_port, ffi: FFIManager::new(root) }
    }

    /// Install a service from a validated manifest: the sections are
    /// checked, then the install cascade runs against the reported
    /// outcomes.
    pub fn install_service(
        &self,
        raw: RawManifest,
        dep_outcomes: &Vec<bool>,
        script_outcomes: &Vec<bool>,
        output_outcomes: &Vec<bool>,
        runtime_dep_outcomes: &Vec<bool>,
        enable_outcomes: &Vec<bool>,
    ) -> (r: Result<ServiceConfig, InstallFailure>)
        requires
            spec_validate_manifest(raw) matches Ok(v) ==> {
                &&& dep_outcomes@.len() == spec_dep_steps(opt_dep_view(v.1.dependency)).len()
                &&& script_outcomes@.len() == crate::command::spec_script_steps(
                    crate::command::opt_strs_view(v.1.script),
                ).len()
                &&& output_outcomes@.len() == v.1.output@.len()
                &&& runtime_dep_outcomes@.len() == spec_dep_steps(
                    opt_dep_view(v.2.dependency),
                ).len()
                &&& enable_outcomes@.len() == spec_switch_steps(
                    strs_view(v.2.enable@),
                    "Enable failed for '"@,
                ).len()
            },
        ensures
            match spec_validate_manifest(raw) {
                Err(em) => r matches Err(f) && f.msg@ == em && f.cleanup is None,
                Ok(v) => install_post(
                    v.0,
                    v.1,
                    v.2,
                    dep_outcomes@,
                    script_outcomes@,
                    output_outcomes@,
                    runtime_dep_outcomes@,
                    enable_outcomes@,
                    r,
                ),
            },
    {
        match validate_manifest(raw) {
            Err(msg) => Err(InstallFailure { msg, cleanup: None }),
            Ok((metadata, build, runtime)) => self.ffi.install(
                metadata,
                build,
                runtime,
                dep_outcomes,
                script_outcomes,
                output_outcomes,
                runtime_dep_outcomes,
                enable_outcomes,
            ),
        }
    }

    /// Remove a service.  Idempotent: with no persisted configuration
    /// there is nothing to undo, and the plan is empty.
    pub fn uninstall_service(&self, name: &String, cfg: Option<ServiceConfig>) -> (plan:
        UninstallPlan)
        ensures
            match cfg {
                None => {
                    &&& plan.disable@.len() == 0
                    &&& plan.files@.len() == 0
                    &&& !plan.remove_dir
                    &&& plan.name@ == name@
                },
                Some(c) => {
                    &&& plan.disable == c.runtime.disable
                    &&& plan.name@ == c.metadata.name@
                    &&& plan.files == c.files
                    &&& plan.remove_dir
                },
            },
    {
        self.ffi.uninstall(name, cfg)
    }

    /// Register directly against the registry, as a host process does
    /// without a connection.
    pub fn get_service(&mut self, name: &String, cfg: Option<ServiceConfig>) -> (r: Option<
        (String, Option<MetaFuncMap>),
    >)
        requires
            old(self).ffi.wf(),
            old(self).ffi.loaded@.len() <= 0xffff_ffff,
            forall|i: int|
                0 <= i < old(self).ffi.loaded@.len() ==> (#[trigger] old(
                    self,
                ).ffi.loaded@[i]).usages@.len() <= 0xffff_ffff,
        ensures
            final(self).ffi.wf(),
            final(self).server_port == old(self).server_port,
            register_post(old(self).ffi.maps(), final(self).ffi.maps(), name@, cfg, r),
            final(self).ffi.loaded@.len() <= old(self).ffi.loaded@.len() + 1,
            forall|b: int|
                b >= 0 && #[trigger] ls_usages_bounded(old(self).ffi.loaded@, b)
                    ==> ls_usages_bounded(final(self).ffi.loaded@, b + 1),
    {
        self.ffi.register(name, cfg)
    }

    /// Unregister a handle directly against the registry.
    pub fn put_service(&mut self, name: &String, srv_use_sig: &String)
        requires
            old(self).ffi.wf(),
        ensures
            final(self).ffi.wf(),
            final(self).server_port == old(self).server_port,
            final(self).ffi.maps() == spec_unregister(old(self).ffi.maps(), name@, srv_use_sig@),
            final(self).ffi.loaded@.len() <= old(self).ffi.loaded@.len(),
            forall|b: int|
                b >= 0 && #[trigger] ls_usages_bounded(old(self).ffi.loaded@, b)
                    ==> ls_usages_bounded(final(self).ffi.loaded@, b),
    {
        self.ffi.unregister(name, srv_use_sig)
    }

    /// Enable a service's runtime hooks.
    pub fn enable_service(&self, cfg: &Option<ServiceConfig>, outcomes: &Vec<bool>) -> (r:
        ExecResult)
        requires
            cfg matches Some(c) ==> outcomes@.len() == spec_switch_steps(
                strs_view(c.runtime.enable@),
                "Enable failed for '"@,
            ).len(),
        ensures
            match *cfg {
                None => r matches Err(m) && m@ == "failed to load config file."@,
                Some(c) => {
                    let steps = spec_switch_steps(
                        strs_view(c.runtime.enable@),
                        "Enable failed for '"@,
                    );
                    match r {
                        Ok(u) => spec_run_steps(steps, outcomes@, 0) is Ok,
                        Err(m) => spec_run_steps(steps, outcomes@, 0) matches Err(em) && m@ == em,
                    }
                },
            },
    {
        self.ffi.switch(cfg, true, outcomes)
    }

    /// Disable a service's runtime hooks.
    pub fn disable_service(&self, cfg: &Option<ServiceConfig>, outcomes: &Vec<bool>) -> (r:
        ExecResult)
        requires
            cfg matches Some(c) ==> outcomes@.len() == spec_switch_steps(
                strs_view(c.runtime.disable@),
                "Disable failed for '"@,
            ).len(),
        ensures
            match *cfg {
                None => r matches Err(m) && m@ == "failed to load config file."@,
                Some(c) => {
                    let steps = spec_switch_steps(
                        strs_view(c.runtime.disable@),
                        "Disable failed for '"@,
                    );
                    match r {
                        Ok(u) => spec_run_steps(steps, outcomes@, 0) is Ok,
                        Err(m) => spec_run_steps(steps, outcomes@, 0) matches Err(em) && m@ == em,
                    }
                },
            },
    {
        self.ffi.switch(cfg, false, outcomes)
    }

    /// A service's status: what its probe reported, if it has one.
    pub fn service_status(&self, cfg: &Option<ServiceConfig>, ran_ok: bool) -> (r: Option<bool>)
        ensures
            match *cfg {
                None => r is None,
                Some(c) => r == if c.runtime.status@.len() == 0 {
                    None::<bool>
                } else {
                    Some(ran_ok)
                },
            },
    {
        self.ffi.report(cfg, ran_ok)
    }
}

} // verus!
