//! The plugin adapter model.  A loaded service is one of three closed
//! language classes; calling a function on it means resolving the declared
//! shape under the function's name and marshaling the supplied arguments
//! for that class.  This module decides whether a call is invocable and
//! builds the exact call plan; performing the native or interpreted call
//! itself is process plumbing outside the library, which takes the plan
//! and hands back the string result.

use vstd::prelude::*;
use vstd::string::*;
use crate::assoc::{ahas, aget, akey_view, assoc_find, lemma_afind, lemma_afind_at};
use crate::config::{MetaFunc, MetaFuncMap, MetaFuncV, Metadata, mf_view, mfm_view};

verus! {

/// The closed set of plugin language classes: native with C-shaped string
/// marshaling, native with owned-string marshaling, or an interpreted
/// module called with keyword arguments.
#[derive(Clone, Copy, Debug, PartialEq, Eq, Structural)]
pub enum ServiceClass {
    CAbi,
    AltAbi,
    Interpreted,
}

/// The class a manifest's `type` string declares, if any.
pub open spec fn spec_class_of(s: Seq<char>) -> Option<ServiceClass> {
    if s == "c"@ || s == "cpp"@ {
        Some(ServiceClass::CAbi)
    } else if s == "rust"@ {
        Some(ServiceClass::AltAbi)
    } else if s == "python"@ {
        Some(ServiceClass::Interpreted)
    } else {
        None
    }
}

/// Map a manifest's `type` string to a language class.
pub fn class_of(s: &String) -> (r: Option<ServiceClass>)
    ensures
        r == spec_class_of(s@),
{
    let c = String::from_str("c");
    let cpp = String::from_str("cpp");
    let rust_class = String::from_str("rust");
    let python = String::from_str("python");
    if s.eq(&c) || s.eq(&cpp) {
        Some(ServiceClass::CAbi)
    } else if s.eq(&rust_class) {
        Some(ServiceClass::AltAbi)
    } else if s.eq(&python) {
        Some(ServiceClass::Interpreted)
    } else {
        None
    }
}

/// One loaded service: its class, the entry path its code was loaded from,
/// and its declared functions.
#[derive(Debug)]
pub struct Service {
    pub class: ServiceClass,
    pub entry: String,
    pub func: MetaFuncMap,
}

/// Spec view of a loaded service.
pub struct ServiceV {
    pub class: ServiceClass,
    pub entry: Seq<char>,
    pub func: Seq<(Seq<char>, MetaFuncV)>,
}

pub open spec fn svc_view(s: Service) -> ServiceV {
    ServiceV { class: s.class, entry: s.entry@, func: mfm_view(s.func@) }
}

impl Service {
    /// Build the loaded-service model from an entry path and metadata.
    /// Refused exactly when the declared language class is unknown.
    pub fn load(entry: &String, metadata: Metadata) -> (r: Option<Service>)
        ensures
            match r {
                Some(s) => {
                    &&& spec_class_of(metadata.class@) == Some(s.class)
                    &&& s.entry@ == entry@
                    &&& s.func == metadata.func
                },
                None => spec_class_of(metadata.class@) is None,
            },
    {
        match class_of(&metadata.class) {
            Some(class) => Some(Service { class, entry: entry.clone(), func: metadata.func }),
            None => None,
        }
    }
}

/// The views of a vector of strings.
pub open spec fn strs_view(v: Seq<String>) -> Seq<Seq<char>> {
    v.map_values(|s: String| s@)
}

/// The views of a vector of string pairs.
pub open spec fn pairs_view(v: Seq<(String, String)>) -> Seq<(Seq<char>, Seq<char>)> {
    v.map_values(|p: (String, String)| (p.0@, p.1@))
}

/// Keyword arguments for an interpreted call: declared argument names
/// zipped with the supplied values.
pub open spec fn spec_zip_kwargs(decl: Seq<(Seq<char>, Seq<char>)>, args: Seq<Seq<char>>) -> Seq<
    (Seq<char>, Seq<char>),
>
    recommends
        decl.len() == args.len(),
{
    Seq::new(decl.len(), |i: int| (decl[i].0, args[i]))
}

pub open spec fn has_nul(s: Seq<char>) -> bool {
    exists|i: int| 0 <= i < s.len() && (#[trigger] s[i]) as u32 == 0
}

/// Arguments marshalable as null-terminated C strings: none holds an
/// interior null character.
pub open spec fn args_cstr_ok(args: Seq<Seq<char>>) -> bool {
    forall|i: int| 0 <= i < args.len() ==> !has_nul(#[trigger] args[i])
}

/// Whether a call is invocable: the function is declared, the supplied
/// argument count equals the declared arity, a native symbol takes at most
/// five arguments, and C-shaped marshaling has null-free arguments.
pub open spec fn plan_ok(sv: ServiceV, name: Seq<char>, args: Seq<Seq<char>>) -> bool {
    &&& ahas(sv.func, name)
    &&& args.len() == aget(sv.func, name)->Some_0.args.len()
    &&& (sv.class != ServiceClass::Interpreted ==> args.len() <= 5)
    &&& (sv.class == ServiceClass::CAbi ==> args_cstr_ok(args))
}

/// The marshaled plan for one invocation.
#[derive(Debug)]
pub struct CallPlan {
    pub class: ServiceClass,
    pub entry: String,
    pub symbol: String,
    pub args: Vec<String>,
    pub kwargs: Vec<(String, String)>,
}

/// What planning a call returns: the exact plan when the call is
/// invocable, nothing otherwise.
pub open spec fn plan_call_post(
    sv: ServiceV,
    name: Seq<char>,
    args: Seq<Seq<char>>,
    r: Option<CallPlan>,
) -> bool {
    match r {
        Some(p) => {
            &&& plan_ok(sv, name, args)
            &&& p.class == sv.class
            &&& p.entry@ == sv.entry
            &&& p.symbol@ == name
            &&& strs_view(p.args@) == args
            &&& pairs_view(p.kwargs@) == spec_zip_kwargs(aget(sv.func, name)->Some_0.args, args)
        },
        None => !plan_ok(sv, name, args),
    }
}

fn str_has_nul(s: &String) -> (r: bool)
    ensures
        r == has_nul(s@),
{
    let text = s.as_str();
    let n: usize = text.unicode_len();
    let mut i: usize = 0;
    while i < n
        invariant
            0 <= i <= n,
            n == s@.len(),
            text@ == s@,
            forall|j: int| 0 <= j < i ==> (#[trigger] s@[j]) as u32 != 0,
        decreases n - i,
    {
        if text.get_char(i) as u32 == 0 {
            return true;
        }
        i = i + 1;
    }
    false
}

impl Service {
    /// Decide whether `name(args)` is invocable on this service and build
    /// the call plan: the symbol, the arguments as supplied, and for an
    /// interpreted module the declared names zipped with the values.
    pub fn plan_call(&self, name: &String, args: Vec<String>) -> (r: Option<CallPlan>)
        ensures
            plan_call_post(svc_view(*self), name@, strs_view(args@), r),
    {
        let ghost sv = svc_view(*self);
        let ghost args_v = strs_view(args@);
        let i = assoc_find(&self.func, name);
        proof {
            assert(sv.func.len() == akey_view(self.func@).len());
            assert(forall|j: int|
                0 <= j < sv.func.len() ==> (#[trigger] sv.func[j]).0 == akey_view(self.func@)[j].0);
            lemma_afind(akey_view(self.func@), name@);
            lemma_afind_at(sv.func, name@, i as int);
        }
        if i == self.func.len() {
            return None;
        }
        let ghost decl = aget(sv.func, name@)->Some_0.args;
        let arity = self.func[i].1.args.len();
        proof {
            assert(sv.func[i as int].1 == mf_view(self.func@[i as int].1));
            assert(decl.len() == arity);
        }
        if args.len() != arity {
            return None;
        }
        let is_interp = matches!(self.class, ServiceClass::Interpreted);
        if !is_interp && arity > 5 {
            return None;
        }
        let is_cabi = matches!(self.class, ServiceClass::CAbi);
        if is_cabi {
            let mut k: usize = 0;
            while k < args.len()
                invariant
                    0 <= k <= args@.len(),
                    self.class == ServiceClass::CAbi,
                    forall|j: int| 0 <= j < k ==> !has_nul((#[trigger] args@[j])@),
                decreases args@.len() - k,
            {
                if str_has_nul(&args[k]) {
                    proof {
                        assert(has_nul(strs_view(args@)[k as int]));
                    }
                    return None;
                }
                k = k + 1;
            }
            proof {
                assert(forall|j: int|
                    0 <= j < args@.len() ==> strs_view(args@)[j] == (#[trigger] args@[j])@);
            }
        }
        let mut kwargs: Vec<(String, String)> = Vec::new();
        let mut k: usize = 0;
        while k < arity
            invariant
                0 <= k <= arity,
                arity == decl.len(),
                arity == args@.len(),
                arity == self.func@[i as int].1.args@.len(),
                i < self.func@.len(),
                decl == aget(sv.func, name@)->Some_0.args,
                sv == svc_view(*self),
                sv.func[i as int].1 == mf_view(self.func@[i as int].1),
                aget(sv.func, name@) == Some(sv.func[i as int].1),
                kwargs@.len() == k,
                forall|j: int|
                    0 <= j < k ==> (#[trigger] kwargs@[j]).0@ == decl[j].0 && kwargs@[j].1@
                        == args@[j]@,
            decreases arity - k,
        {
            let kw_name = self.func[i].1.args[k].0.clone();
            let kw_val = args[k].clone();
            proof {
                assert(decl[k as int].0 == self.func@[i as int].1.args@[k as int].0@);
            }
            kwargs.push((kw_name, kw_val));
            k = k + 1;
        }
        let plan = CallPlan {
            class: self.class,
            entry: self.entry.clone(),
            symbol: name.clone(),
            args,
            kwargs,
        };
        proof {
            assert(strs_view(plan.args@) =~= args_v);
            assert(pairs_view(plan.kwargs@) =~= spec_zip_kwargs(decl, args_v));
        }
        Some(plan)
    }
}

} // verus!
