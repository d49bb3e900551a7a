//! Service lifecycle: install, uninstall, report and switch.  Each
//! operation is a cascade of planned commands, file placements and a
//! config-store write; the decisions and exact failure messages stand
//! here, while the process half runs the commands, copies the files and
//! persists the configuration, reporting each outcome.

use vstd::prelude::*;
use vstd::string::*;
use crate::command::{
    Commander, ExecResult, opt_dep_view, opt_strs_view, spec_dep_steps, spec_run_steps,
    spec_script_steps, spec_switch_steps,
};
use crate::config::{BuildTemplate, Metadata, RuntimeTemplate, ServiceConfig};
use crate::registry::FFIManager;
use crate::strutil::{concat3, spec_split, spec_trim, split_char, trim};
use crate::adapter::strs_view;

verus! {

/// One planned file placement: which build product moves where, and
/// whether it keeps the destination name given after the `@`.
#[derive(Debug)]
pub struct OutputStep {
    pub source: String,
    pub dest: String,
    pub rename: bool,
}

/// What one output declaration means: `src` places the file under its own
/// name, `src@dest` renames it; a declaration with an empty source or
/// more than one `@` is invalid.
pub open spec fn spec_output_step(a: Seq<char>) -> Option<(Seq<char>, Seq<char>, bool)> {
    let parts = spec_split(spec_trim(a), '@');
    if parts.len() == 1 && parts[0].len() > 0 {
        Some((parts[0], parts[0], false))
    } else if parts.len() == 2 && parts[0].len() > 0 {
        Some((parts[0], parts[1], true))
    } else {
        None
    }
}

impl Commander {
    /// Plan the build-output placements.  One invalid declaration voids
    /// the whole plan, as the original copy pipeline collects options.
    pub fn build_output(&self, args: &Vec<String>) -> (r: Option<Vec<OutputStep>>)
        ensures
            match r {
                Some(v) => {
                    &&& v@.len() == args@.len()
                    &&& forall|i: int|
                        0 <= i < v@.len() ==> spec_output_step(args@[i]@) == Some(
                            ((#[trigger] v@[i]).source@, v@[i].dest@, v@[i].rename),
                        )
                },
                None => exists|i: int|
                    0 <= i < args@.len() && spec_output_step((#[trigger] args@[i])@) is None,
            },
    {
        let mut r: Vec<OutputStep> = Vec::new();
        let n: usize = args.len();
        let mut i: usize = 0;
        while i < n
            invariant
                0 <= i <= n,
                n == args@.len(),
                r@.len() == i,
                forall|j: int|
                    0 <= j < i ==> spec_output_step(args@[j]@) == Some(
                        ((#[trigger] r@[j]).source@, r@[j].dest@, r@[j].rename),
                    ),
            decreases n - i,
        {
            let trimmed = trim(&args[i]);
            let parts = split_char(&trimmed, '@');
            proof {
                assert(parts@.map_values(|t: String| t@) == spec_split(
                    spec_trim(args@[i as int]@),
                    '@',
                ));
                assert(parts@.len() == spec_split(spec_trim(args@[i as int]@), '@').len());
            }
            if parts.len() == 1 {
                let src = &parts[0];
                proof {
                    assert(spec_split(spec_trim(args@[i as int]@), '@')[0] == parts@[0]@);
                }
                if src.as_str().unicode_len() == 0 {
                    proof {
                        assert(spec_output_step(args@[i as int]@) is None);
                    }
                    return None;
                }
                let dest = src.clone();
                let source = src.clone();
                r.push(OutputStep { source, dest, rename: false });
            } else if parts.len() == 2 {
                let src = &parts[0];
                proof {
                    assert(spec_split(spec_trim(args@[i as int]@), '@')[0] == parts@[0]@);
                    assert(spec_split(spec_trim(args@[i as int]@), '@')[1] == parts@[1]@);
                }
                if src.as_str().unicode_len() == 0 {
                    proof {
                        assert(spec_output_step(args@[i as int]@) is None);
                    }
                    return None;
                }
                let source = src.clone();
                let dest = parts[1].clone();
                r.push(OutputStep { source, dest, rename: true });
            } else {
                proof {
                    assert(spec_output_step(args@[i as int]@) is None);
                }
                return None;
            }
            i = i + 1;
        }
        Some(r)
    }

    /// Parse a status probe into the program and its arguments, split on
    /// spaces; an empty probe is nothing to run.
    pub fn status_prog_args(&self, arg: &String) -> (r: Option<(String, Vec<String>)>)
        ensures
            match r {
                Some(pa) => {
                    let parts = spec_split(arg@, ' ');
                    &&& arg@.len() > 0
                    &&& pa.0@ == parts[0]
                    &&& strs_view(pa.1@) == parts.subrange(1, parts.len() as int)
                },
                None => arg@.len() == 0,
            },
    {
        if arg.as_str().unicode_len() == 0 {
            return None;
        }
        let mut parts = split_char(arg, ' ');
        let ghost pview = spec_split(arg@, ' ');
        let ghost whole = parts@;
        proof {
            assert(parts@.map_values(|t: String| t@) == pview);
            assert(parts@[0]@ == pview[0]);
        }
        let prog = parts.remove(0);
        proof {
            assert forall|j: int| 0 <= j < parts@.len() implies (#[trigger] parts@[j])@ == pview[j
                + 1] by {
                assert(parts@[j] == whole[j + 1]);
            }
            assert(strs_view(parts@) =~= pview.subrange(1, pview.len() as int));
        }
        Some((prog, parts))
    }
}

/// What an install failure carries: the message, and — where build
/// products were already placed — the service name and files to remove,
/// so that a failed install leaves no partial state.
#[derive(Debug)]
pub struct InstallFailure {
    pub msg: String,
    pub cleanup: Option<(String, Vec<String>)>,
}

/// The spec-level phases of an install against the reported outcomes.
pub open spec fn install_dep_result(build: BuildTemplate, dep_outcomes: Seq<bool>) -> Result<
    (),
    Seq<char>,
> {
    spec_run_steps(spec_dep_steps(opt_dep_view(build.dependency)), dep_outcomes, 0)
}

pub open spec fn install_script_result(build: BuildTemplate, script_outcomes: Seq<bool>) -> Result<
    (),
    Seq<char>,
> {
    spec_run_steps(spec_script_steps(opt_strs_view(build.script)), script_outcomes, 0)
}

/// Whether every output declaration is valid and every planned copy was
/// reported successful, with at least one output.
pub open spec fn install_outputs_ok(build: BuildTemplate, output_outcomes: Seq<bool>) -> bool {
    &&& forall|i: int|
        0 <= i < build.output@.len() ==> spec_output_step((#[trigger] build.output@[i])@) is Some
    &&& forall|i: int| 0 <= i < output_outcomes.len() ==> #[trigger] output_outcomes[i]
    &&& build.output@.len() > 0
}

/// The installed file names an install's outputs produce: each valid
/// declaration's destination.
pub open spec fn install_files(build: BuildTemplate) -> Seq<Seq<char>> {
    Seq::new(build.output@.len(), |i: int| spec_output_step(build.output@[i]@)->Some_0.1)
}

pub open spec fn install_runtime_dep_result(
    runtime: RuntimeTemplate,
    runtime_dep_outcomes: Seq<bool>,
) -> Result<(), Seq<char>> {
    spec_run_steps(spec_dep_steps(opt_dep_view(runtime.dependency)), runtime_dep_outcomes, 0)
}

pub open spec fn install_enable_result(
    runtime: RuntimeTemplate,
    enable_outcomes: Seq<bool>,
) -> Result<(), Seq<char>> {
    spec_run_steps(
        spec_switch_steps(strs_view(runtime.enable@), "Enable failed for '"@),
        enable_outcomes,
        0,
    )
}

/// What installing gives back, phase by phase: the first failing phase's
/// message — with the service name and files to clean up once outputs
/// were placed — or the configuration to persist.
pub open spec fn install_post(
    metadata: Metadata,
    build: BuildTemplate,
    runtime: RuntimeTemplate,
    dep_outcomes: Seq<bool>,
    script_outcomes: Seq<bool>,
    output_outcomes: Seq<bool>,
    runtime_dep_outcomes: Seq<bool>,
    enable_outcomes: Seq<bool>,
    r: Result<ServiceConfig, InstallFailure>,
) -> bool {
    match r {
        Ok(cfg) => {
            &&& install_dep_result(build, dep_outcomes) is Ok
            &&& install_script_result(build, script_outcomes) is Ok
            &&& install_outputs_ok(build, output_outcomes)
            &&& install_runtime_dep_result(runtime, runtime_dep_outcomes) is Ok
            &&& install_enable_result(runtime, enable_outcomes) is Ok
            &&& strs_view(cfg.files@) == install_files(build)
            &&& cfg.entry@ == install_files(build)[0]
            &&& cfg.metadata == metadata
            &&& cfg.runtime == runtime
        },
        Err(f) => {
            if install_dep_result(build, dep_outcomes) is Err {
                f.msg@ == install_dep_result(build, dep_outcomes)->Err_0 && f.cleanup is None
            } else if install_script_result(build, script_outcomes) is Err {
                f.msg@ == install_script_result(build, script_outcomes)->Err_0 && f.cleanup
                    is None
            } else if !install_outputs_ok(build, output_outcomes) {
                f.msg@ == "No output files specified."@ && f.cleanup is None
            } else if install_runtime_dep_result(runtime, runtime_dep_outcomes) is Err {
                &&& f.msg@ == install_runtime_dep_result(runtime, runtime_dep_outcomes)->Err_0
                &&& f.cleanup matches Some(c) && c.0@ == metadata.name@ && strs_view(c.1@)
                    == install_files(build)
            } else if install_enable_result(runtime, enable_outcomes) is Err {
                &&& f.msg@ == install_enable_result(runtime, enable_outcomes)->Err_0
                &&& f.cleanup matches Some(c) && c.0@ == metadata.name@ && strs_view(c.1@)
                    == install_files(build)
            } else {
                false
            }
        },
    }
}

impl FFIManager {
    /// Install a service: install its build dependencies, run its build
    /// script, place its declared outputs, install its runtime
    /// dependencies, probe its enable commands, and hand back the
    /// configuration to persist.  The phases run in that order and the
    /// first failure decides; a failure after outputs were placed names
    /// the files to delete, so that no partial install survives.
    pub fn install(
        &self,
        metadata: Metadata,
        build: BuildTemplate,
        runtime: RuntimeTemplate,
        dep_outcomes: &Vec<bool>,
        script_outcomes: &Vec<bool>,
        output_outcomes: &Vec<bool>,
        runtime_dep_outcomes: &Vec<bool>,
        enable_outcomes: &Vec<bool>,
    ) -> (r: Result<ServiceConfig, InstallFailure>)
        requires
            dep_outcomes@.len() == spec_dep_steps(opt_dep_view(build.dependency)).len(),
            script_outcomes@.len() == spec_script_steps(opt_strs_view(build.script)).len(),
            output_outcomes@.len() == build.output@.len(),
            runtime_dep_outcomes@.len() == spec_dep_steps(opt_dep_view(runtime.dependency)).len(),
            enable_outcomes@.len() == spec_switch_steps(
                strs_view(runtime.enable@),
                "Enable failed for '"@,
            ).len(),
        ensures
            install_post(
                metadata,
                build,
                runtime,
                dep_outcomes@,
                script_outcomes@,
                output_outcomes@,
                runtime_dep_outcomes@,
                enable_outcomes@,
                r,
            ),
    {
        let commander = Commander::new(self.root.clone(), self.root.clone());
        if let Err(msg) = commander.build_dependency(&build.dependency, dep_outcomes) {
            return Err(InstallFailure { msg, cleanup: None });
        }
        if let Err(msg) = commander.build_script(&build.script, script_outcomes) {
            return Err(InstallFailure { msg, cleanup: None });
        }
        let steps = match commander.build_output(&build.output) {
            None => {
                let msg = String::from_str("No output files specified.");
                return Err(InstallFailure { msg, cleanup: None });
            },
            Some(steps) => steps,
        };
        let mut files: Vec<String> = Vec::new();
        let n: usize = steps.len();
        let mut i: usize = 0;
        while i < n
            invariant
                0 <= i <= n,
                n == steps@.len(),
                n == build.output@.len(),
                install_dep_result(build, dep_outcomes@) is Ok,
                install_script_result(build, script_outcomes@) is Ok,
                output_outcomes@.len() == n,
                files@.len() == i,
                forall|j: int|
                    0 <= j < n ==> spec_output_step(build.output@[j]@) == Some(
                        ((#[trigger] steps@[j]).source@, steps@[j].dest@, steps@[j].rename),
                    ),
                forall|j: int| 0 <= j < i ==> #[trigger] output_outcomes@[j],
                forall|j: int| 0 <= j < i ==> (#[trigger] files@[j])@ == steps@[j].dest@,
            decreases n - i,
        {
            if !outcomes_at(output_outcomes, i) {
                let msg = String::from_str("No output files specified.");
                return Err(InstallFailure { msg, cleanup: None });
            }
            files.push(steps[i].dest.clone());
            i = i + 1;
        }
        if files.is_empty() {
            let msg = String::from_str("No output files specified.");
            return Err(InstallFailure { msg, cleanup: None });
        }
        proof {
            assert(strs_view(files@) =~= install_files(build));
            assert forall|j: int| 0 <= j < build.output@.len() implies spec_output_step(
                (#[trigger] build.output@[j])@,
            ) is Some by {
                assert(spec_output_step(build.output@[j]@) == Some(
                    ((steps@[j]).source@, steps@[j].dest@, steps@[j].rename),
                ));
            }
            assert(install_outputs_ok(build, output_outcomes@));
        }
        if let Err(msg) = commander.runtime_dependency(&runtime.dependency, runtime_dep_outcomes) {
            let name = metadata.name.clone();
            return Err(InstallFailure { msg, cleanup: Some((name, files)) });
        }
        if let Err(msg) = commander.runtime_enable(&runtime.enable, enable_outcomes) {
            let name = metadata.name.clone();
            return Err(InstallFailure { msg, cleanup: Some((name, files)) });
        }
        let entry = files[0].clone();
        proof {
            assert(files@[0]@ == install_files(build)[0]);
        }
        Ok(ServiceConfig { entry, files, metadata, runtime })
    }

    /// Uninstall a named service: with its persisted configuration in
    /// hand, the runtime hooks are best-effort disabled and the installed
    /// files and the service directory go.  Uninstalling is idempotent —
    /// an absent configuration is not an error: the plan is empty, with
    /// nothing to disable, nothing to delete and no directory to remove.
    pub fn uninstall(&self, name: &String, cfg: Option<ServiceConfig>) -> (plan: UninstallPlan)
        ensures
            match cfg {
                None => {
                    &&& plan.disable@.len() == 0
                    &&& plan.files@.len() == 0
                    &&& !plan.remove_dir
                    &&& plan.name@ == name@
                },
                Some(c) => {
                    &&& plan.disable == c.runtime.disable
                    &&& plan.name@ == c.metadata.name@
                    &&& plan.files == c.files
                    &&& plan.remove_dir
                },
            },
    {
        match cfg {
            None => UninstallPlan {
                disable: Vec::new(),
                name: name.clone(),
                files: Vec::new(),
                remove_dir: false,
            },
            Some(c) => {
                let ServiceConfig { files, metadata, runtime, .. } = c;
                let plan_name = metadata.name;
                UninstallPlan { disable: runtime.disable, name: plan_name, files, remove_dir: true }
            },
        }
    }

    /// Report a service's status: nothing without a configuration or a
    /// status probe; otherwise whatever the probe reported.
    pub fn report(&self, cfg: &Option<ServiceConfig>, ran_ok: bool) -> (r: Option<bool>)
        ensures
            match *cfg {
                None => r is None,
                Some(c) => r == if c.runtime.status@.len() == 0 {
                    None::<bool>
                } else {
                    Some(ran_ok)
                },
            },
    {
        let commander = Commander::new(self.root.clone(), self.root.clone());
        match cfg {
            None => None,
            Some(c) => commander.runtime_status(&c.runtime.status, ran_ok),
        }
    }

    /// Enable or disable a service: probe the configured command list;
    /// without a configuration the switch fails.
    pub fn switch(&self, cfg: &Option<ServiceConfig>, enable: bool, outcomes: &Vec<bool>) -> (r:
        ExecResult)
        requires
            cfg matches Some(c) ==> outcomes@.len() == spec_switch_steps(
                strs_view(
                    if enable {
                        c.runtime.enable@
                    } else {
                        c.runtime.disable@
                    },
                ),
                if enable {
                    "Enable failed for '"@
                } else {
                    "Disable failed for '"@
                },
            ).len(),
        ensures
            match *cfg {
                None => r matches Err(m) && m@ == "failed to load config file."@,
                Some(c) => {
                    let steps = spec_switch_steps(
                        strs_view(
                            if enable {
                                c.runtime.enable@
                            } else {
                                c.runtime.disable@
                            },
                        ),
                        if enable {
                            "Enable failed for '"@
                        } else {
                            "Disable failed for '"@
                        },
                    );
                    match r {
                        Ok(u) => spec_run_steps(steps, outcomes@, 0) is Ok,
                        Err(m) => spec_run_steps(steps, outcomes@, 0) matches Err(em) && m@ == em,
                    }
                },
            },
    {
        let commander = Commander::new(self.root.clone(), self.root.clone());
        match cfg {
            None => Err(String::from_str("failed to load config file.")),
            Some(c) => {
                if enable {
                    commander.runtime_enable(&c.runtime.enable, outcomes)
                } else {
                    commander.runtime_disable(&c.runtime.disable, outcomes)
                }
            },
        }
    }

    /// The path a service's configuration is persisted under: its own
    /// directory below the root, file `.conf`.
    pub fn config_path(&self, name: &String) -> (r: String)
        ensures
            r@ == self.root@ + "/"@ + name@ + "/.conf"@,
    {
        let mut r = concat3(self.root.as_str(), "/", "");
        proof {
            reveal_strlit("");
        }
        r.append(name.as_str());
        r.append("/.conf");
        proof {
            assert(r@ =~= self.root@ + "/"@ + name@ + "/.conf"@);
        }
        r
    }
}

/// What an uninstall performs: the disable probes to attempt, the files
/// to remove, and whether the service's directory is to go at all — an
/// uninstall of a service that was never installed performs nothing.
#[derive(Debug)]
pub struct UninstallPlan {
    pub disable: Vec<String>,
    pub name: String,
    pub files: Vec<String>,
    pub remove_dir: bool,
}

fn outcomes_at(outcomes: &Vec<bool>, i: usize) -> (r: bool)
    requires
        i < outcomes@.len(),
    ensures
        r == outcomes@[i as int],
{
    outcomes[i]
}

} // verus!
