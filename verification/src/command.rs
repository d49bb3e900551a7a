//! The command runner's verified half.  The daemon's build and runtime
//! work is a sequence of shell commands; this module plans exactly which
//! commands are to be run and what each failure message is, and interprets
//! the reported outcomes, first failure first.  Actually spawning the
//! commands is process work outside the library, which runs the planned
//! steps in order and reports each success or failure.

use vstd::prelude::*;
use vstd::string::*;
use crate::adapter::strs_view;
use crate::config::DepMap;
use crate::strutil::{concat2, concat3};

verus! {

/// The outcome the command runner reports: unit, or a failure message.
pub type ExecResult = Result<(), String>;

/// One planned step: a command to run with the message its failure
/// raises, or an immediate failure discovered while planning.
#[derive(Debug)]
pub enum CmdStep {
    Run { cmd: String, fail_msg: String },
    Fail { msg: String },
}

/// Spec view of one planned step.
pub enum CmdStepV {
    Run { cmd: Seq<char>, fail_msg: Seq<char> },
    Fail { msg: Seq<char> },
}

pub open spec fn step_view(s: CmdStep) -> CmdStepV {
    match s {
        CmdStep::Run { cmd, fail_msg } => CmdStepV::Run { cmd: cmd@, fail_msg: fail_msg@ },
        CmdStep::Fail { msg } => CmdStepV::Fail { msg: msg@ },
    }
}

pub open spec fn steps_view(s: Seq<CmdStep>) -> Seq<CmdStepV> {
    s.map_values(|x: CmdStep| step_view(x))
}

/// Walking a plan against the reported outcomes: the first failed or
/// failing step decides.
pub open spec fn spec_run_steps(steps: Seq<CmdStepV>, outcomes: Seq<bool>, i: int) -> Result<
    (),
    Seq<char>,
>
    decreases steps.len() - i,
{
    if i < 0 || i >= steps.len() {
        Ok(())
    } else {
        match steps[i] {
            CmdStepV::Fail { msg } => Err(msg),
            CmdStepV::Run { cmd, fail_msg } => if !outcomes[i] {
                Err(fail_msg)
            } else {
                spec_run_steps(steps, outcomes, i + 1)
            },
        }
    }
}

/// Interpret the outcomes the runner reported for a plan's steps, in
/// order: the first failure's message, or success.  Outcomes past the
/// first failure are never consulted, so a runner that stops at the first
/// failure may pad the rest.
pub fn run_steps(steps: &Vec<CmdStep>, outcomes: &Vec<bool>) -> (r: ExecResult)
    requires
        outcomes@.len() == steps@.len(),
    ensures
        match r {
            Ok(u) => spec_run_steps(steps_view(steps@), outcomes@, 0) is Ok,
            Err(m) => spec_run_steps(steps_view(steps@), outcomes@, 0) matches Err(em) && m@ == em,
        },
{
    let n: usize = steps.len();
    let mut i: usize = 0;
    while i < n
        invariant
            0 <= i <= n,
            n == steps@.len(),
            outcomes@.len() == n,
            spec_run_steps(steps_view(steps@), outcomes@, 0) == spec_run_steps(
                steps_view(steps@),
                outcomes@,
                i as int,
            ),
        decreases n - i,
    {
        match &steps[i] {
            CmdStep::Fail { msg } => {
                return Err(msg.clone());
            },
            CmdStep::Run { cmd, fail_msg } => {
                if !outcomes[i] {
                    return Err(fail_msg.clone());
                }
            },
        }
        i = i + 1;
    }
    Ok(())
}

/// The steps one installer tool's package list plans: one install command
/// per non-empty package name.
pub open spec fn spec_dep_values_steps(tool: Seq<char>, vals: Seq<Seq<char>>) -> Seq<CmdStepV>
    decreases vals.len(),
{
    if vals.len() == 0 {
        Seq::empty()
    } else {
        let head: Seq<CmdStepV> = if vals[0].len() == 0 {
            Seq::empty()
        } else if tool == "pip"@ {
            seq![
                CmdStepV::Run {
                    cmd: "pip install '"@ + vals[0] + "'"@,
                    fail_msg: "pip install failed for '"@ + vals[0] + "'"@,
                },
            ]
        } else {
            seq![
                CmdStepV::Run {
                    cmd: "cargo install "@ + vals[0],
                    fail_msg: "cargo install failed for '"@ + vals[0] + "'"@,
                },
            ]
        };
        head + spec_dep_values_steps(tool, vals.subrange(1, vals.len() as int))
    }
}

/// The spec view of a dependency map.
pub open spec fn dep_map_view(d: Seq<(String, Vec<String>)>) -> Seq<(Seq<char>, Seq<Seq<char>>)> {
    d.map_values(|p: (String, Vec<String>)| (p.0@, strs_view(p.1@)))
}

/// The steps a dependency map plans: each supported tool's installs in
/// order; the first unsupported tool name ends the plan with a failing
/// step.
pub open spec fn spec_dep_steps(pairs: Seq<(Seq<char>, Seq<Seq<char>>)>) -> Seq<CmdStepV>
    decreases pairs.len(),
{
    if pairs.len() == 0 {
        Seq::empty()
    } else if pairs[0].0 == "pip"@ || pairs[0].0 == "cargo"@ {
        spec_dep_values_steps(pairs[0].0, pairs[0].1) + spec_dep_steps(
            pairs.subrange(1, pairs.len() as int),
        )
    } else {
        seq![CmdStepV::Fail { msg: "Unsupported command: "@ + pairs[0].0 }]
    }
}

/// The steps a build script plans: each command in order, with its
/// failure message.
pub open spec fn spec_script_steps(cmds: Seq<Seq<char>>) -> Seq<CmdStepV> {
    Seq::new(
        cmds.len(),
        |i: int|
            CmdStepV::Run {
                cmd: cmds[i],
                fail_msg: "build failed for '"@ + cmds[i] + "'"@,
            },
    )
}

/// The steps a runtime switch plans: one status probe per non-empty
/// command (an empty command is no probe and cannot fail), with the
/// given failure-message template around the command.
pub open spec fn spec_switch_steps(args: Seq<Seq<char>>, fail_prefix: Seq<char>) -> Seq<CmdStepV>
    decreases args.len(),
{
    if args.len() == 0 {
        Seq::empty()
    } else {
        let head: Seq<CmdStepV> = if args[0].len() == 0 {
            Seq::empty()
        } else {
            seq![
                CmdStepV::Run { cmd: args[0], fail_msg: fail_prefix + args[0] + "'"@ },
            ]
        };
        head + spec_switch_steps(args.subrange(1, args.len() as int), fail_prefix)
    }
}

/// The view of an optional command list.
pub open spec fn opt_strs_view(o: Option<Vec<String>>) -> Seq<Seq<char>> {
    match o {
        None => Seq::empty(),
        Some(v) => strs_view(v@),
    }
}

/// The view of an optional dependency map.
pub open spec fn opt_dep_view(o: Option<DepMap>) -> Seq<(Seq<char>, Seq<Seq<char>>)> {
    match o {
        None => Seq::empty(),
        Some(d) => dep_map_view(d@),
    }
}

/// The command runner's verified planner.  `root` is where runtime
/// probes run; `work` is where build commands run.  The unverified half
/// spawns the planned commands from those directories.
pub struct Commander {
    pub root: String,
    pub work: String,
}

impl Commander {
    pub fn new(root: String, work: String) -> (r: Commander)
        ensures
            r.root@ == root@,
            r.work@ == work@,
    {
        Commander { root, work }
    }

    /// Plan the dependency installs of a build or runtime section.
    pub fn dependency_steps(&self, args: &Option<DepMap>) -> (r: Vec<CmdStep>)
        ensures
            steps_view(r@) == spec_dep_steps(opt_dep_view(*args)),
    {
        let mut r: Vec<CmdStep> = Vec::new();
        let pairs = match args {
            None => {
                proof {
                    assert(steps_view(r@) =~= spec_dep_steps(opt_dep_view(*args)));
                }
                return r;
            },
            Some(pairs) => pairs,
        };
        let ghost pview = dep_map_view(pairs@);
        let n: usize = pairs.len();
        let mut i: usize = 0;
        let pip = String::from_str("pip");
        let cargo = String::from_str("cargo");
        proof {
            assert(pview.subrange(0, n as int) =~= pview);
            assert(steps_view(r@) =~= Seq::<CmdStepV>::empty());
        }
        while i < n
            invariant
                0 <= i <= n,
                n == pairs@.len(),
                pview == dep_map_view(pairs@),
                pview == opt_dep_view(*args),
                pview.len() == n,
                pip@ == "pip"@,
                cargo@ == "cargo"@,
                spec_dep_steps(pview) =~= steps_view(r@) + spec_dep_steps(
                    pview.subrange(i as int, n as int),
                ),
            decreases n - i,
        {
            let ghost rem = pview.subrange(i as int, n as int);
            proof {
                assert(rem[0] == pview[i as int]);
                assert(pview[i as int].0 == pairs@[i as int].0@);
                assert(rem.subrange(1, rem.len() as int) =~= pview.subrange(i + 1, n as int));
            }
            let tool = &pairs[i].0;
            if tool.eq(&pip) || tool.eq(&cargo) {
                let is_pip = tool.eq(&pip);
                let vals = &pairs[i].1;
                let m: usize = vals.len();
                let mut j: usize = 0;
                let ghost vview = strs_view(vals@);
                proof {
                    assert(rem[0].1 == vview);
                    assert(spec_dep_steps(rem) =~= spec_dep_values_steps(rem[0].0, rem[0].1)
                        + spec_dep_steps(rem.subrange(1, rem.len() as int)));
                    assert(vview.subrange(0, m as int) =~= vview);
                }
                while j < m
                    invariant
                        0 <= j <= m,
                        m == vals@.len(),
                        vview == strs_view(vals@),
                        vview.len() == m,
                        is_pip == (pview[i as int].0 == "pip"@),
                        pview[i as int].0 == "pip"@ || pview[i as int].0 == "cargo"@,
                        i < n == pview.len(),
                        pview[i as int].1 == vview,
                        spec_dep_steps(pview) =~= steps_view(r@) + spec_dep_values_steps(
                            pview[i as int].0,
                            vview.subrange(j as int, m as int),
                        ) + spec_dep_steps(pview.subrange(i + 1, n as int)),
                    decreases m - j,
                {
                    let ghost vrem = vview.subrange(j as int, m as int);
                    proof {
                        assert(vrem[0] == vview[j as int]);
                        assert(vview[j as int] == vals@[j as int]@);
                        assert(vrem.subrange(1, vrem.len() as int) =~= vview.subrange(
                            j + 1,
                            m as int,
                        ));
                    }
                    let v = &vals[j];
                    if v.unicode_len() > 0 {
                        let ghost prev = r@;
                        if is_pip {
                            let cmd = concat3("pip install '", v.as_str(), "'");
                            let fail_msg = concat3("pip install failed for '", v.as_str(), "'");
                            r.push(CmdStep::Run { cmd, fail_msg });
                        } else {
                            let cmd = concat2("cargo install ", v.as_str());
                            let fail_msg = concat3("cargo install failed for '", v.as_str(), "'");
                            r.push(CmdStep::Run { cmd, fail_msg });
                        }
                        proof {
                            assert(steps_view(r@) =~= steps_view(prev) + seq![
                                step_view(r@.last()),
                            ]);
                            assert(spec_dep_values_steps(pview[i as int].0, vrem) =~= seq![
                                step_view(r@.last()),
                            ] + spec_dep_values_steps(pview[i as int].0, vview.subrange(
                                j + 1,
                                m as int,
                            )));
                        }
                    } else {
                        proof {
                            assert(spec_dep_values_steps(pview[i as int].0, vrem)
                                =~= spec_dep_values_steps(pview[i as int].0, vview.subrange(
                                j + 1,
                                m as int,
                            )));
                        }
                    }
                    j = j + 1;
                }
                proof {
                    assert(vview.subrange(m as int, m as int) =~= Seq::<Seq<char>>::empty());
                    assert(spec_dep_values_steps(pview[i as int].0, vview.subrange(
                        m as int,
                        m as int,
                    )) =~= Seq::<CmdStepV>::empty());
                }
            } else {
                let msg = concat2("Unsupported command: ", tool.as_str());
                let ghost prev = r@;
                r.push(CmdStep::Fail { msg });
                proof {
                    assert(steps_view(r@) =~= steps_view(prev) + seq![step_view(r@.last())]);
                    assert(spec_dep_steps(rem) =~= seq![step_view(r@.last())]);
                    assert(steps_view(r@) =~= spec_dep_steps(pview));
                }
                return r;
            }
            i = i + 1;
        }
        proof {
            assert(pview.subrange(n as int, n as int) =~= Seq::<(Seq<char>, Seq<Seq<char>>)>::empty());
            assert(spec_dep_steps(pview.subrange(n as int, n as int)) =~= Seq::<CmdStepV>::empty());
            assert(steps_view(r@) =~= spec_dep_steps(pview));
        }
        r
    }

    /// Install the declared build dependencies: the runner reports one
    /// outcome per planned install, and the first failure decides.
    pub fn build_dependency(&self, args: &Option<DepMap>, outcomes: &Vec<bool>) -> (r: ExecResult)
        requires
            outcomes@.len() == spec_dep_steps(opt_dep_view(*args)).len(),
        ensures
            match r {
                Ok(u) => spec_run_steps(spec_dep_steps(opt_dep_view(*args)), outcomes@, 0) is Ok,
                Err(m) => spec_run_steps(spec_dep_steps(opt_dep_view(*args)), outcomes@, 0)
                    matches Err(em) && m@ == em,
            },
    {
        let steps = self.dependency_steps(args);
        run_steps(&steps, outcomes)
    }

    /// Plan the build script: each command in order.
    pub fn script_steps(&self, args: &Option<Vec<String>>) -> (r: Vec<CmdStep>)
        ensures
            steps_view(r@) == spec_script_steps(opt_strs_view(*args)),
    {
        let mut r: Vec<CmdStep> = Vec::new();
        let cmds = match args {
            None => {
                proof {
                    assert(steps_view(r@) =~= spec_script_steps(opt_strs_view(*args)));
                }
                return r;
            },
            Some(cmds) => cmds,
        };
        let n: usize = cmds.len();
        let mut i: usize = 0;
        proof {
            assert(steps_view(r@) =~= spec_script_steps(strs_view(cmds@)).subrange(0, 0));
        }
        while i < n
            invariant
                0 <= i <= n,
                n == cmds@.len(),
                steps_view(r@) =~= spec_script_steps(strs_view(cmds@)).subrange(0, i as int),
            decreases n - i,
        {
            let cmd = cmds[i].clone();
            let fail_msg = concat3("build failed for '", cmds[i].as_str(), "'");
            let ghost prev = r@;
            r.push(CmdStep::Run { cmd, fail_msg });
            proof {
                assert(steps_view(r@) =~= steps_view(prev) + seq![step_view(r@.last())]);
                assert(steps_view(r@) =~= spec_script_steps(strs_view(cmds@)).subrange(
                    0,
                    i + 1,
                ));
            }
            i = i + 1;
        }
        proof {
            assert(spec_script_steps(strs_view(cmds@)).subrange(
                0,
                n as int,
            ) =~= spec_script_steps(strs_view(cmds@)));
        }
        r
    }

    /// Run the build script: one outcome per command, first failure
    /// decides.
    pub fn build_script(&self, args: &Option<Vec<String>>, outcomes: &Vec<bool>) -> (r: ExecResult)
        requires
            outcomes@.len() == spec_script_steps(opt_strs_view(*args)).len(),
        ensures
            match r {
                Ok(u) => spec_run_steps(spec_script_steps(opt_strs_view(*args)), outcomes@, 0)
                    is Ok,
                Err(m) => spec_run_steps(spec_script_steps(opt_strs_view(*args)), outcomes@, 0)
                    matches Err(em) && m@ == em,
            },
    {
        let steps = self.script_steps(args);
        run_steps(&steps, outcomes)
    }

    /// Install the declared runtime dependencies, exactly as build
    /// dependencies are installed.
    pub fn runtime_dependency(&self, args: &Option<DepMap>, outcomes: &Vec<bool>) -> (r:
        ExecResult)
        requires
            outcomes@.len() == spec_dep_steps(opt_dep_view(*args)).len(),
        ensures
            match r {
                Ok(u) => spec_run_steps(spec_dep_steps(opt_dep_view(*args)), outcomes@, 0) is Ok,
                Err(m) => spec_run_steps(spec_dep_steps(opt_dep_view(*args)), outcomes@, 0)
                    matches Err(em) && m@ == em,
            },
    {
        self.build_dependency(args, outcomes)
    }

    /// Interpret one status probe: an empty probe command is no probe at
    /// all; otherwise the probe's reported success is the status.
    pub fn runtime_status(&self, arg: &String, ran_ok: bool) -> (r: Option<bool>)
        ensures
            r == if arg@.len() == 0 {
                None::<bool>
            } else {
                Some(ran_ok)
            },
    {
        if arg.as_str().unicode_len() == 0 {
            None
        } else {
            Some(ran_ok)
        }
    }

    /// Plan the enable probes of a runtime section.
    pub fn enable_steps(&self, args: &Vec<String>) -> (r: Vec<CmdStep>)
        ensures
            steps_view(r@) == spec_switch_steps(strs_view(args@), "Enable failed for '"@),
    {
        self.switch_steps(args, true)
    }

    /// Plan the disable probes of a runtime section.
    pub fn disable_steps(&self, args: &Vec<String>) -> (r: Vec<CmdStep>)
        ensures
            steps_view(r@) == spec_switch_steps(strs_view(args@), "Disable failed for '"@),
    {
        self.switch_steps(args, false)
    }

    fn switch_steps(&self, args: &Vec<String>, enable: bool) -> (r: Vec<CmdStep>)
        ensures
            steps_view(r@) == spec_switch_steps(
                strs_view(args@),
                if enable {
                    "Enable failed for '"@
                } else {
                    "Disable failed for '"@
                },
            ),
    {
        let ghost verb: Seq<char> = if enable {
            "Enable failed for '"@
        } else {
            "Disable failed for '"@
        };
        let ghost aview = strs_view(args@);
        let mut r: Vec<CmdStep> = Vec::new();
        let n: usize = args.len();
        let mut i: usize = 0;
        proof {
            assert(aview.subrange(0, n as int) =~= aview);
            assert(steps_view(r@) =~= Seq::<CmdStepV>::empty());
        }
        while i < n
            invariant
                0 <= i <= n,
                n == args@.len(),
                aview == strs_view(args@),
                aview.len() == n,
                verb == if enable {
                    "Enable failed for '"@
                } else {
                    "Disable failed for '"@
                },
                spec_switch_steps(aview, verb) =~= steps_view(r@) + spec_switch_steps(
                    aview.subrange(i as int, n as int),
                    verb,
                ),
            decreases n - i,
        {
            let ghost rem = aview.subrange(i as int, n as int);
            proof {
                assert(rem[0] == aview[i as int]);
                assert(aview[i as int] == args@[i as int]@);
                assert(rem.subrange(1, rem.len() as int) =~= aview.subrange(i + 1, n as int));
            }
            let arg = &args[i];
            if arg.as_str().unicode_len() > 0 {
                let cmd = arg.clone();
                let fail_msg = if enable {
                    concat3("Enable failed for '", arg.as_str(), "'")
                } else {
                    concat3("Disable failed for '", arg.as_str(), "'")
                };
                let ghost prev = r@;
                r.push(CmdStep::Run { cmd, fail_msg });
                proof {
                    assert(steps_view(r@) =~= steps_view(prev) + seq![step_view(r@.last())]);
                    assert(spec_switch_steps(rem, verb) =~= seq![step_view(r@.last())]
                        + spec_switch_steps(aview.subrange(i + 1, n as int), verb));
                }
            } else {
                proof {
                    assert(spec_switch_steps(rem, verb) =~= spec_switch_steps(
                        aview.subrange(i + 1, n as int),
                        verb,
                    ));
                }
            }
            i = i + 1;
        }
        proof {
            assert(aview.subrange(n as int, n as int) =~= Seq::<Seq<char>>::empty());
            assert(spec_switch_steps(aview.subrange(n as int, n as int), verb)
                =~= Seq::<CmdStepV>::empty());
            assert(steps_view(r@) =~= spec_switch_steps(aview, verb));
        }
        r
    }

    /// Probe every enable command: each non-empty command must report a
    /// successful status, and the first that does not decides.
    pub fn runtime_enable(&self, args: &Vec<String>, outcomes: &Vec<bool>) -> (r: ExecResult)
        requires
            outcomes@.len() == spec_switch_steps(strs_view(args@), "Enable failed for '"@).len(),
        ensures
            match r {
                Ok(u) => spec_run_steps(
                    spec_switch_steps(strs_view(args@), "Enable failed for '"@),
                    outcomes@,
                    0,
                ) is Ok,
                Err(m) => spec_run_steps(
                    spec_switch_steps(strs_view(args@), "Enable failed for '"@),
                    outcomes@,
                    0,
                ) matches Err(em) && m@ == em,
            },
    {
        let steps = self.enable_steps(args);
        run_steps(&steps, outcomes)
    }

    /// Probe every disable command, exactly as enable commands are
    /// probed.
    pub fn runtime_disable(&self, args: &Vec<String>, outcomes: &Vec<bool>) -> (r: ExecResult)
        requires
            outcomes@.len() == spec_switch_steps(strs_view(args@), "Disable failed for '"@).len(),
        ensures
            match r {
                Ok(u) => spec_run_steps(
                    spec_switch_steps(strs_view(args@), "Disable failed for '"@),
                    outcomes@,
                    0,
                ) is Ok,
                Err(m) => spec_run_steps(
                    spec_switch_steps(strs_view(args@), "Disable failed for '"@),
                    outcomes@,
                    0,
                ) matches Err(em) && m@ == em,
            },
    {
        let steps = self.disable_steps(args);
        run_steps(&steps, outcomes)
    }
}

} // verus!
