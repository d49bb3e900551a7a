//! The data a service carries: its manifest-derived metadata (name,
//! language class, version, function signatures), its build and runtime
//! command bundles, and the persisted per-service configuration.  Maps are
//! association vectors; each type has a spec-level view over character
//! sequences.

use vstd::prelude::*;
use vstd::string::*;

verus! {

/// Declared shape of one callable function: result type and the ordered
/// (argument name, argument type) list.  Arity is the list's length.
#[derive(Debug)]
pub struct MetaFunc {
    pub restype: String,
    pub args: Vec<(String, String)>,
}

/// Function name to declared shape.
pub type MetaFuncMap = Vec<(String, MetaFunc)>;

/// Dependency installer name ("pip", "cargo") to the packages it installs.
pub type DepMap = Vec<(String, Vec<String>)>;

/// The build section of a manifest.
#[derive(Debug)]
pub struct BuildTemplate {
    pub dependency: Option<DepMap>,
    pub script: Option<Vec<String>>,
    pub output: Vec<String>,
}

/// The runtime section of a manifest: status probe and enable/disable
/// command lists.
#[derive(Debug)]
pub struct RuntimeTemplate {
    pub dependency: Option<DepMap>,
    pub status: String,
    pub enable: Vec<String>,
    pub disable: Vec<String>,
}

/// Install-time identity of a service.
#[derive(Debug)]
pub struct Metadata {
    pub name: String,
    pub class: String,
    pub version: String,
    pub func: MetaFuncMap,
}

/// The persisted per-service configuration: resolved entry path, installed
/// files, metadata, runtime hooks.
#[derive(Debug)]
pub struct ServiceConfig {
    pub entry: String,
    pub files: Vec<String>,
    pub metadata: Metadata,
    pub runtime: RuntimeTemplate,
}

/// Spec view of a declared function shape.
pub struct MetaFuncV {
    pub restype: Seq<char>,
    pub args: Seq<(Seq<char>, Seq<char>)>,
}

pub open spec fn mf_view(m: MetaFunc) -> MetaFuncV {
    MetaFuncV {
        restype: m.restype@,
        args: m.args@.map_values(|p: (String, String)| (p.0@, p.1@)),
    }
}

/// Spec view of a function map: names to shapes, in order.
pub open spec fn mfm_view(m: Seq<(String, MetaFunc)>) -> Seq<(Seq<char>, MetaFuncV)> {
    m.map_values(|p: (String, MetaFunc)| (p.0@, mf_view(p.1)))
}

/// Copy one declared function shape.
pub fn clone_meta_func(m: &MetaFunc) -> (r: MetaFunc)
    ensures
        mf_view(r) == mf_view(*m),
{
    let mut args: Vec<(String, String)> = Vec::new();
    let n: usize = m.args.len();
    let mut i: usize = 0;
    while i < n
        invariant
            0 <= i <= n,
            n == m.args@.len(),
            args@.len() == i,
            forall|j: int|
                0 <= j < i ==> (#[trigger] args@[j]).0@ == m.args@[j].0@ && args@[j].1@
                    == m.args@[j].1@,
        decreases n - i,
    {
        let name = m.args[i].0.clone();
        let ty = m.args[i].1.clone();
        args.push((name, ty));
        i = i + 1;
    }
    let r = MetaFunc { restype: m.restype.clone(), args };
    proof {
        assert(mf_view(r).args =~= mf_view(*m).args);
        assert(mf_view(r) == mf_view(*m)) by {
            assert(mf_view(r).restype == mf_view(*m).restype);
        }
    }
    r
}

/// Copy a function map; the registry hands such a copy back on a service's
/// first registration while keeping its own.
pub fn clone_meta_map(m: &MetaFuncMap) -> (r: MetaFuncMap)
    ensures
        mfm_view(r@) == mfm_view(m@),
{
    let mut r: MetaFuncMap = Vec::new();
    let n: usize = m.len();
    let mut i: usize = 0;
    while i < n
        invariant
            0 <= i <= n,
            n == m@.len(),
            r@.len() == i,
            forall|j: int|
                0 <= j < i ==> (#[trigger] r@[j]).0@ == m@[j].0@ && mf_view(r@[j].1) == mf_view(
                    m@[j].1,
                ),
        decreases n - i,
    {
        let name = m[i].0.clone();
        let mf = clone_meta_func(&m[i].1);
        r.push((name, mf));
        i = i + 1;
    }
    proof {
        assert(mfm_view(r@) =~= mfm_view(m@));
    }
    r
}

} // verus!
