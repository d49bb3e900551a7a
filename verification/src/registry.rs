//! The service registry: the daemon's central state.  It keeps three maps
//! in step — service name to service signature, service signature to the
//! set of usage signatures registered against it, and service signature to
//! the loaded plugin — as one vector of loaded-service entries.  A service
//! is created on the first successful registration of its name and evicted
//! the moment its usage set becomes empty.

use vstd::prelude::*;
use vstd::string::*;
use vstd::assert_by_contradiction;
use vstd::set_lib::{set_int_range, lemma_int_range, lemma_len_subset};
use crate::adapter::{CallPlan, Service, ServiceV, plan_call_post, svc_view};
use crate::config::{MetaFuncMap, ServiceConfig, clone_meta_map, mfm_view};
use crate::handle::{
    combine_sig, handle_high, handle_low, handle_of, parse_handle, parsed_handle, render_handle,
    split_sig, dec_rep,
};

verus! {

/// Relies on rand::random: one sample of the thread-local generator.
/// Nothing is promised of the value; freshness of signatures is checked
/// against the registry, never assumed.
pub assume_specification<T>[ rand::random::<T> ]() -> (r: T)
    where
        rand::distr::StandardUniform: rand::distr::Distribution<T>,
;

/// A call descriptor as the dispatcher hands it over: capability handle,
/// function name, arguments.
pub type FFIDescriptor = (String, String, Vec<String>);

/// One loaded service: its name, its service signature, the usage
/// signatures registered against it, and the loaded plugin.
pub struct LoadedService {
    pub name: String,
    pub sig: u32,
    pub usages: Vec<u32>,
    pub service: Service,
}

/// The registry.  `root` is the directory every per-service path is
/// resolved under; it is threaded explicitly and never made ambient
/// process state.
pub struct FFIManager {
    pub root: String,
    pub loaded: Vec<LoadedService>,
}

/// Whether some entry carries this name.
pub open spec fn ls_has_name(s: Seq<LoadedService>, k: Seq<char>) -> bool {
    exists|i: int| 0 <= i < s.len() && (#[trigger] s[i]).name@ == k
}

/// The index of the entry carrying this name.
pub open spec fn ls_idx_of_name(s: Seq<LoadedService>, k: Seq<char>) -> int {
    choose|i: int| 0 <= i < s.len() && (#[trigger] s[i]).name@ == k
}

/// Whether some entry carries this service signature.
pub open spec fn ls_has_sig(s: Seq<LoadedService>, g: u32) -> bool {
    exists|i: int| 0 <= i < s.len() && (#[trigger] s[i]).sig == g
}

/// The index of the entry carrying this service signature.
pub open spec fn ls_idx_of_sig(s: Seq<LoadedService>, g: u32) -> int {
    choose|i: int| 0 <= i < s.len() && (#[trigger] s[i]).sig == g
}

/// The first registry map: service name to service signature.
pub open spec fn ls_service_map(s: Seq<LoadedService>) -> Map<Seq<char>, u32> {
    Map::new(|k: Seq<char>| ls_has_name(s, k), |k: Seq<char>| s[ls_idx_of_name(s, k)].sig)
}

/// The second registry map: service signature to its set of usage
/// signatures.
pub open spec fn ls_usage_map(s: Seq<LoadedService>) -> Map<u32, Set<u32>> {
    Map::new(|g: u32| ls_has_sig(s, g), |g: u32| s[ls_idx_of_sig(s, g)].usages@.to_set())
}

/// The third registry map: service signature to the loaded plugin.
pub open spec fn ls_services(s: Seq<LoadedService>) -> Map<u32, ServiceV> {
    Map::new(|g: u32| ls_has_sig(s, g), |g: u32| svc_view(s[ls_idx_of_sig(s, g)].service))
}

/// Registry invariant: names and service signatures are each unique over
/// the entries, and every loaded service has at least one usage — a
/// service is never kept loaded with an empty usage set.
pub open spec fn ls_wf(s: Seq<LoadedService>) -> bool {
    &&& forall|i: int, j: int|
        0 <= i < j < s.len() ==> (#[trigger] s[i]).name@ != (#[trigger] s[j]).name@
    &&& forall|i: int, j: int| 0 <= i < j < s.len() ==> (#[trigger] s[i]).sig != (#[trigger] s[j]).sig
    &&& forall|i: int| 0 <= i < s.len() ==> (#[trigger] s[i]).usages@.len() > 0
    &&& forall|i: int, a: int, b: int|
        0 <= i < s.len() && 0 <= a < b < s[i].usages@.len() ==> (#[trigger] s[i].usages@[a])
            != (#[trigger] s[i].usages@[b])
}

/// Every loaded service's usage vector holds at most `b` signatures.
/// Registration and unregistration state how they move this bound, so a
/// caller can carry their own preconditions across a chain of calls.
pub open spec fn ls_usages_bounded(s: Seq<LoadedService>, b: int) -> bool {
    forall|i: int| 0 <= i < s.len() ==> (#[trigger] s[i]).usages@.len() <= b
}

impl FFIManager {
    pub open spec fn wf(self) -> bool {
        ls_wf(self.loaded@)
    }

    pub open spec fn service_map(self) -> Map<Seq<char>, u32> {
        ls_service_map(self.loaded@)
    }

    pub open spec fn usage_map(self) -> Map<u32, Set<u32>> {
        ls_usage_map(self.loaded@)
    }

    pub open spec fn services(self) -> Map<u32, ServiceV> {
        ls_services(self.loaded@)
    }

    /// A fresh registry under the given root: nothing loaded.
    pub fn new(root: String) -> (r: FFIManager)
        ensures
            r.wf(),
            r.root@ == root@,
            r.loaded@.len() == 0,
            r.service_map() =~= Map::<Seq<char>, u32>::empty(),
            r.usage_map() =~= Map::<u32, Set<u32>>::empty(),
            r.services() =~= Map::<u32, ServiceV>::empty(),
    {
        FFIManager { root, loaded: Vec::new() }
    }
}

/// A name held by an entry is found at that entry and nowhere else.
pub proof fn lemma_name_at(s: Seq<LoadedService>, i: int)
    requires
        ls_wf(s),
        0 <= i < s.len(),
    ensures
        ls_has_name(s, s[i].name@),
        ls_idx_of_name(s, s[i].name@) == i,
{
    assert(ls_has_name(s, s[i].name@));
    let j = ls_idx_of_name(s, s[i].name@);
    assert(0 <= j < s.len() && s[j].name@ == s[i].name@);
    if i < j {
        assert(s[i].name@ != s[j].name@);
    } else if j < i {
        assert(s[j].name@ != s[i].name@);
    }
}

/// A signature held by an entry is found at that entry and nowhere else.
pub proof fn lemma_sig_at(s: Seq<LoadedService>, i: int)
    requires
        ls_wf(s),
        0 <= i < s.len(),
    ensures
        ls_has_sig(s, s[i].sig),
        ls_idx_of_sig(s, s[i].sig) == i,
{
    assert(ls_has_sig(s, s[i].sig));
    let j = ls_idx_of_sig(s, s[i].sig);
    assert(0 <= j < s.len() && s[j].sig == s[i].sig);
    if i < j {
        assert(s[i].sig != s[j].sig);
    } else if j < i {
        assert(s[j].sig != s[i].sig);
    }
}

/// Among the values 0 through the length of a pairwise distinct `u32`
/// sequence, at least one is free: the sequence is one value too short to
/// hold them all.
proof fn lemma_free_u32_below(t: Seq<u32>)
    requires
        forall|a: int, b: int| 0 <= a < b < t.len() ==> t[a] != t[b],
        t.len() <= 0xffff_ffff,
    ensures
        exists|c: int| 0 <= c <= t.len() && !(#[trigger] t.contains(c as u32)),
{
    assert_by_contradiction!(exists|c: int| 0 <= c <= t.len() && !(#[trigger] t.contains(
        c as u32,
    )), {
        let ti = t.map_values(|x: u32| x as int);
        assert(forall|a: int, b: int| 0 <= a < b < ti.len() ==> ti[a] != ti[b]);
        assert(ti.no_duplicates()) by {
            assert(forall|a: int, b: int|
                0 <= a < ti.len() && 0 <= b < ti.len() && a != b ==> ti[a] != ti[b]);
        }
        ti.unique_seq_to_set();
        let range = set_int_range(0, t.len() as int + 1);
        lemma_int_range(0, t.len() as int + 1);
        assert forall|c: int| range.contains(c) implies ti.to_set().contains(c) by {
            assert(t.contains(c as u32));
            let i = choose|i: int| 0 <= i < t.len() && (#[trigger] t[i]) == c as u32;
            assert(ti[i] == (c as u32) as int);
            assert((c as u32) as int == c);
            assert(ti.to_set().contains(ti[i]));
        }
        lemma_len_subset(range, ti.to_set());
        assert(range.len() <= ti.to_set().len());
    });
}

/// The service signatures, in entry order.
pub open spec fn ls_sigs(s: Seq<LoadedService>) -> Seq<u32> {
    s.map_values(|e: LoadedService| e.sig)
}

impl FFIManager {
    /// The entry index registered under a name, if any.
    fn find_by_name(&self, name: &String) -> (r: Option<usize>)
        ensures
            match r {
                Some(i) => i < self.loaded@.len() && self.loaded@[i as int].name@ == name@,
                None => !ls_has_name(self.loaded@, name@),
            },
    {
        let n: usize = self.loaded.len();
        let mut i: usize = 0;
        while i < n
            invariant
                0 <= i <= n,
                n == self.loaded@.len(),
                forall|j: int| 0 <= j < i ==> (#[trigger] self.loaded@[j]).name@ != name@,
            decreases n - i,
        {
            if self.loaded[i].name.eq(name) {
                return Some(i);
            }
            i = i + 1;
        }
        None
    }

    /// The entry index holding a service signature, if any.
    fn find_by_sig(&self, sig: u32) -> (r: Option<usize>)
        ensures
            match r {
                Some(i) => i < self.loaded@.len() && self.loaded@[i as int].sig == sig,
                None => !ls_has_sig(self.loaded@, sig),
            },
    {
        let n: usize = self.loaded.len();
        let mut i: usize = 0;
        while i < n
            invariant
                0 <= i <= n,
                n == self.loaded@.len(),
                forall|j: int| 0 <= j < i ==> (#[trigger] self.loaded@[j]).sig != sig,
            decreases n - i,
        {
            if self.loaded[i].sig == sig {
                return Some(i);
            }
            i = i + 1;
        }
        None
    }

    /// A service signature no loaded service holds.  Drawn at random; on
    /// the (vanishing) chance of a collision the smallest free value is
    /// taken instead, which the uniqueness of held signatures guarantees
    /// to exist.
    fn fresh_service_sig(&self) -> (g: u32)
        requires
            self.wf(),
            self.loaded@.len() <= 0xffff_ffff,
        ensures
            !ls_has_sig(self.loaded@, g),
    {
        let r: u32 = rand::random::<u32>();
        if self.find_by_sig(r).is_none() {
            return r;
        }
        let ghost t = ls_sigs(self.loaded@);
        proof {
            assert(t.len() == self.loaded@.len());
            assert forall|a: int, b: int| 0 <= a < b < t.len() implies t[a] != t[b] by {
                assert(self.loaded@[a].sig != self.loaded@[b].sig);
            }
            lemma_free_u32_below(t);
        }
        let ghost c0 = choose|c: int| 0 <= c <= t.len() && !(#[trigger] t.contains(c as u32));
        let n: usize = self.loaded.len();
        let mut c: usize = 0;
        while c <= n
            invariant
                0 <= c <= c0 <= n,
                n == self.loaded@.len(),
                n <= 0xffff_ffff,
                self.wf(),
                t == ls_sigs(self.loaded@),
                !t.contains(c0 as u32),
            decreases n + 1 - c,
        {
            if self.find_by_sig(c as u32).is_none() {
                return c as u32;
            }
            proof {
                let i = ls_idx_of_sig(self.loaded@, c as u32);
                assert(0 <= i < self.loaded@.len() && self.loaded@[i].sig == c as u32);
                assert(t[i] == c as u32);
                assert(t.contains(c as u32));
                assert(c < c0);
            }
            c = c + 1;
        }
        unreached()
    }

    /// A usage signature the given set does not hold, found the same way.
    fn fresh_usage_sig(usages: &Vec<u32>) -> (u: u32)
        requires
            forall|a: int, b: int| 0 <= a < b < usages@.len() ==> usages@[a] != usages@[b],
            usages@.len() <= 0xffff_ffff,
        ensures
            !usages@.contains(u),
    {
        let r: u32 = rand::random::<u32>();
        if !contains_u32(usages, r) {
            return r;
        }
        proof {
            lemma_free_u32_below(usages@);
        }
        let ghost c0 = choose|c: int|
            0 <= c <= usages@.len() && !(#[trigger] usages@.contains(c as u32));
        let n: usize = usages.len();
        let mut c: usize = 0;
        while c <= n
            invariant
                0 <= c <= c0 <= n,
                n == usages@.len(),
                n <= 0xffff_ffff,
                !usages@.contains(c0 as u32),
            decreases n + 1 - c,
        {
            if !contains_u32(usages, c as u32) {
                return c as u32;
            }
            proof {
                assert(c < c0);
            }
            c = c + 1;
        }
        unreached()
    }
}

/// Whether a `u32` vector holds a value.
fn contains_u32(v: &Vec<u32>, x: u32) -> (r: bool)
    ensures
        r == v@.contains(x),
{
    let n: usize = v.len();
    let mut i: usize = 0;
    while i < n
        invariant
            0 <= i <= n,
            n == v@.len(),
            forall|j: int| 0 <= j < i ==> (#[trigger] v@[j]) != x,
        decreases n - i,
    {
        if v[i] == x {
            return true;
        }
        i = i + 1;
    }
    false
}


/// Eviction or removal of one entry takes exactly its name and signature
/// out of all three maps.
pub proof fn lemma_maps_remove(s: Seq<LoadedService>, i: int)
    requires
        ls_wf(s),
        0 <= i < s.len(),
    ensures
        ls_wf(s.remove(i)),
        !ls_has_name(s.remove(i), s[i].name@),
        !ls_has_sig(s.remove(i), s[i].sig),
        ls_service_map(s.remove(i)) =~= ls_service_map(s).remove(s[i].name@),
        ls_usage_map(s.remove(i)) =~= ls_usage_map(s).remove(s[i].sig),
        ls_services(s.remove(i)) =~= ls_services(s).remove(s[i].sig),
{
    let s2 = s.remove(i);
    assert(forall|j: int| 0 <= j < i ==> s2[j] == s[j]);
    assert(forall|j: int| i <= j < s2.len() ==> s2[j] == s[j + 1]);
    assert forall|j: int| 0 <= j < s2.len() implies s2[j].name@ != s[i].name@ && s2[j].sig
        != s[i].sig by {
        if j < i {
            assert(s[j].name@ != s[i].name@ && s[j].sig != s[i].sig);
        } else {
            assert(s[i].name@ != s[j + 1].name@ && s[i].sig != s[j + 1].sig);
        }
    }
    assert forall|k: Seq<char>| #[trigger] ls_has_name(s2, k) implies ls_has_name(s, k) && k
        != s[i].name@ && ls_service_map(s2)[k] == ls_service_map(s)[k] by {
        let j = ls_idx_of_name(s2, k);
        assert(0 <= j < s2.len() && s2[j].name@ == k);
        let j0 = if j < i { j } else { j + 1 };
        assert(s[j0].name@ == k);
        lemma_name_at(s, j0);
        lemma_name_at(s2, j);
        assert(ls_service_map(s2)[k] == s2[j].sig);
        assert(ls_service_map(s)[k] == s[j0].sig);
    }
    assert forall|k: Seq<char>| ls_has_name(s, k) && k != s[i].name@ implies ls_has_name(
        s2,
        k,
    ) by {
        let j0 = ls_idx_of_name(s, k);
        assert(0 <= j0 < s.len() && s[j0].name@ == k);
        assert(j0 != i);
        let j = if j0 < i { j0 } else { j0 - 1 };
        assert(s2[j].name@ == k);
    }
    assert forall|g: u32| #[trigger] ls_has_sig(s2, g) implies ls_has_sig(s, g) && g != s[i].sig
        && ls_usage_map(s2)[g] == ls_usage_map(s)[g] && ls_services(s2)[g] == ls_services(s)[g] by {
        let j = ls_idx_of_sig(s2, g);
        assert(0 <= j < s2.len() && s2[j].sig == g);
        let j0 = if j < i { j } else { j + 1 };
        assert(s[j0].sig == g);
        lemma_sig_at(s, j0);
        lemma_sig_at(s2, j);
    }
    assert forall|g: u32| ls_has_sig(s, g) && g != s[i].sig implies ls_has_sig(s2, g) by {
        let j0 = ls_idx_of_sig(s, g);
        assert(0 <= j0 < s.len() && s[j0].sig == g);
        assert(j0 != i);
        let j = if j0 < i { j0 } else { j0 - 1 };
        assert(s2[j].sig == g);
    }
}

/// Loading one entry with a fresh name, a fresh signature and a sound
/// usage vector puts exactly that entry into all three maps.
pub proof fn lemma_maps_push(s: Seq<LoadedService>, e: LoadedService)
    requires
        ls_wf(s),
        !ls_has_name(s, e.name@),
        !ls_has_sig(s, e.sig),
        e.usages@.len() > 0,
        forall|a: int, b: int| 0 <= a < b < e.usages@.len() ==> e.usages@[a] != e.usages@[b],
    ensures
        ls_wf(s.push(e)),
        ls_service_map(s.push(e)) =~= ls_service_map(s).insert(e.name@, e.sig),
        ls_usage_map(s.push(e)) =~= ls_usage_map(s).insert(e.sig, e.usages@.to_set()),
        ls_services(s.push(e)) =~= ls_services(s).insert(e.sig, svc_view(e.service)),
{
    let s2 = s.push(e);
    assert(forall|j: int| 0 <= j < s.len() ==> s2[j] == s[j]);
    assert(s2[s.len() as int] == e);
    assert forall|j: int| 0 <= j < s.len() implies s[j].name@ != e.name@ && s[j].sig != e.sig by {
        if s[j].name@ == e.name@ {
            assert(ls_has_name(s, e.name@));
        }
        if s[j].sig == e.sig {
            assert(ls_has_sig(s, e.sig));
        }
    }
    assert(ls_wf(s2)) by {
        assert(forall|i: int, j: int|
            0 <= i < j < s2.len() ==> (#[trigger] s2[i]).name@ != (#[trigger] s2[j]).name@);
        assert(forall|i: int, j: int|
            0 <= i < j < s2.len() ==> (#[trigger] s2[i]).sig != (#[trigger] s2[j]).sig);
        assert(forall|i: int| 0 <= i < s2.len() ==> (#[trigger] s2[i]).usages@.len() > 0);
        assert forall|i: int, a: int, b: int|
            0 <= i < s2.len() && 0 <= a < b < s2[i].usages@.len() implies (#[trigger] s2[i].usages@[a])
            != (#[trigger] s2[i].usages@[b]) by {
            if i < s.len() {
                assert(s[i].usages@[a] != s[i].usages@[b]);
            } else {
                assert(e.usages@[a] != e.usages@[b]);
            }
        }
    }
    lemma_name_at(s2, s.len() as int);
    lemma_sig_at(s2, s.len() as int);
    assert forall|k: Seq<char>| #[trigger] ls_has_name(s2, k) && k != e.name@ implies ls_has_name(
        s,
        k,
    ) && ls_service_map(s2)[k] == ls_service_map(s)[k] by {
        let j = ls_idx_of_name(s2, k);
        assert(0 <= j < s2.len() && s2[j].name@ == k);
        assert(j < s.len());
        lemma_name_at(s, j);
        lemma_name_at(s2, j);
    }
    assert forall|k: Seq<char>| ls_has_name(s, k) implies ls_has_name(s2, k) by {
        let j = ls_idx_of_name(s, k);
        assert(s2[j].name@ == k);
    }
    assert forall|g: u32| #[trigger] ls_has_sig(s2, g) && g != e.sig implies ls_has_sig(s, g)
        && ls_usage_map(s2)[g] == ls_usage_map(s)[g] && ls_services(s2)[g] == ls_services(s)[g] by {
        let j = ls_idx_of_sig(s2, g);
        assert(0 <= j < s2.len() && s2[j].sig == g);
        assert(j < s.len());
        lemma_sig_at(s, j);
        lemma_sig_at(s2, j);
    }
    assert forall|g: u32| ls_has_sig(s, g) implies ls_has_sig(s2, g) by {
        let j = ls_idx_of_sig(s, g);
        assert(s2[j].sig == g);
    }
}

/// Removing one position from a duplicate-free vector removes exactly that
/// value from the set it stands for.
pub proof fn lemma_to_set_remove(v: Seq<u32>, i: int)
    requires
        0 <= i < v.len(),
        forall|a: int, b: int| 0 <= a < b < v.len() ==> v[a] != v[b],
    ensures
        v.remove(i).to_set() =~= v.to_set().remove(v[i]),
{
    let v2 = v.remove(i);
    assert(forall|j: int| 0 <= j < i ==> v2[j] == v[j]);
    assert(forall|j: int| i <= j < v2.len() ==> v2[j] == v[j + 1]);
    assert forall|x: u32| #[trigger] v2.to_set().contains(x) implies v.to_set().contains(x) && x
        != v[i] by {
        let j = choose|j: int| 0 <= j < v2.len() && v2[j] == x;
        let j0 = if j < i { j } else { j + 1 };
        assert(v[j0] == x);
        assert(j0 != i);
        if j0 < i {
            assert(v[j0] != v[i]);
        } else {
            assert(v[i] != v[j0]);
        }
    }
    assert forall|x: u32| v.to_set().contains(x) && x != v[i] implies v2.to_set().contains(x) by {
        let j0 = choose|j0: int| 0 <= j0 < v.len() && v[j0] == x;
        assert(j0 != i);
        let j = if j0 < i { j0 } else { j0 - 1 };
        assert(v2[j] == x);
        assert(v2.contains(x));
    }
}

/// Appending a value to a vector adds exactly it to the set it stands for.
pub proof fn lemma_to_set_push(v: Seq<u32>, u: u32)
    ensures
        v.push(u).to_set() =~= v.to_set().insert(u),
{
    let v2 = v.push(u);
    assert forall|x: u32| #[trigger] v2.to_set().contains(x) implies v.to_set().contains(x) || x
        == u by {
        let j = choose|j: int| 0 <= j < v2.len() && v2[j] == x;
        if j < v.len() {
            assert(v[j] == x);
        }
    }
    assert forall|x: u32| v.to_set().contains(x) implies v2.to_set().contains(x) by {
        let j = choose|j: int| 0 <= j < v.len() && v[j] == x;
        assert(v2[j] == x);
    }
    assert(v2[v.len() as int] == u);
    assert(v2.to_set().contains(u));
}

/// The spec-level plugin a configuration loads.
pub open spec fn svc_of_config(c: ServiceConfig) -> ServiceV {
    ServiceV {
        class: crate::adapter::spec_class_of(c.metadata.class@)->Some_0,
        entry: c.entry@,
        func: mfm_view(c.metadata.func@),
    }
}

/// The registry's three maps as one abstract state.
#[verifier::ext_equal]
pub struct RegMaps {
    pub service_map: Map<Seq<char>, u32>,
    pub usage_map: Map<u32, Set<u32>>,
    pub services: Map<u32, ServiceV>,
}

impl FFIManager {
    /// The registry's abstract state.
    pub open spec fn maps(self) -> RegMaps {
        RegMaps {
            service_map: self.service_map(),
            usage_map: self.usage_map(),
            services: self.services(),
        }
    }
}

/// What a registration does to the registry's abstract state and what it
/// hands back.  `cfg` is the config store's answer for the name.
pub open spec fn register_post(
    pre: RegMaps,
    post: RegMaps,
    name: Seq<char>,
    cfg: Option<ServiceConfig>,
    r: Option<(String, Option<MetaFuncMap>)>,
) -> bool {
    match r {
        None => {
            &&& post == pre
            &&& !pre.service_map.dom().contains(name)
            &&& match cfg {
                None => true,
                Some(c) => crate::adapter::spec_class_of(c.metadata.class@) is None,
            }
        },
        Some(pair) => {
            let g = handle_high(parsed_handle(pair.0@));
            let u = handle_low(parsed_handle(pair.0@));
            &&& pair.0@ == dec_rep(handle_of(g, u) as nat)
            &&& if pre.service_map.dom().contains(name) {
                &&& g == pre.service_map[name]
                &&& !pre.usage_map[g].contains(u)
                &&& pair.1 is None
                &&& post.service_map == pre.service_map
                &&& post.services == pre.services
                &&& post.usage_map == pre.usage_map.insert(g, pre.usage_map[g].insert(u))
            } else {
                &&& cfg is Some
                &&& crate::adapter::spec_class_of(cfg->Some_0.metadata.class@) is Some
                &&& !pre.usage_map.dom().contains(g)
                &&& post.service_map == pre.service_map.insert(name, g)
                &&& post.usage_map == pre.usage_map.insert(g, Set::empty().insert(u))
                &&& post.services == pre.services.insert(g, svc_of_config(cfg->Some_0))
                &&& pair.1 matches Some(m) && mfm_view(m@) == mfm_view(cfg->Some_0.metadata.func@)
            }
        },
    }
}

/// What unregistering a handle does to the registry's abstract state: a
/// handle whose service signature does not match the name's recorded one
/// changes nothing; otherwise the usage signature leaves the set, and a
/// set emptied by that evicts the service from all three maps.
pub open spec fn spec_unregister(m: RegMaps, name: Seq<char>, handle: Seq<char>) -> RegMaps {
    let g = handle_high(parsed_handle(handle));
    let u = handle_low(parsed_handle(handle));
    if !m.service_map.dom().contains(name) || m.service_map[name] != g {
        m
    } else {
        let us = m.usage_map[g].remove(u);
        if us.len() == 0 {
            RegMaps {
                service_map: m.service_map.remove(name),
                usage_map: m.usage_map.remove(g),
                services: m.services.remove(g),
            }
        } else {
            RegMaps { service_map: m.service_map, usage_map: m.usage_map.insert(g, us), services: m.services }
        }
    }
}

/// Facts every well-formed registry's abstract state satisfies: a service
/// signature appears in all three maps consistently or in none, and every
/// usage set is finite and non-empty.
pub proof fn lemma_maps_wf(m: FFIManager)
    requires
        m.wf(),
    ensures
        m.maps().usage_map.dom() =~= m.maps().services.dom(),
        forall|k: Seq<char>| #[trigger] m.maps().service_map.dom().contains(k)
            ==> m.maps().usage_map.dom().contains(m.maps().service_map[k]),
        forall|g: u32| #[trigger] m.maps().usage_map.dom().contains(g) ==> exists|k: Seq<char>|
            #[trigger] m.maps().service_map.dom().contains(k) && m.maps().service_map[k] == g,
        forall|g: u32| #[trigger] m.maps().usage_map.dom().contains(g)
            ==> m.maps().usage_map[g].finite() && m.maps().usage_map[g].len() > 0,
{
    let s = m.loaded@;
    assert forall|g: u32| #[trigger] m.maps().usage_map.dom().contains(g) implies exists|
        k: Seq<char>,
    |
        #[trigger] m.maps().service_map.dom().contains(k) && m.maps().service_map[k] == g by {
        let i = ls_idx_of_sig(s, g);
        assert(0 <= i < s.len() && s[i].sig == g);
        lemma_name_at(s, i);
        assert(m.maps().service_map.dom().contains(s[i].name@) && m.maps().service_map[s[i].name@]
            == g);
    }
    assert forall|k: Seq<char>| #[trigger] ls_service_map(s).dom().contains(k) implies ls_usage_map(
        s,
    ).dom().contains(ls_service_map(s)[k]) by {
        let i = ls_idx_of_name(s, k);
        assert(0 <= i < s.len() && s[i].name@ == k);
        assert(ls_has_sig(s, s[i].sig));
    }
    assert forall|g: u32| #[trigger] ls_usage_map(s).dom().contains(g) implies ls_usage_map(s)[g]
        .finite() && ls_usage_map(s)[g].len() > 0 by {
        let i = ls_idx_of_sig(s, g);
        assert(0 <= i < s.len() && s[i].sig == g);
        let us = s[i].usages@;
        broadcast use vstd::seq_lib::seq_to_set_is_finite;

        assert(us.to_set().contains(us[0]));
        if us.to_set().len() == 0 {
            vstd::set::Set::lemma_len0_is_empty(us.to_set());
        }
    }
}

impl FFIManager {
    /// Register one client against a named service.
    ///
    /// If the name is already loaded, a fresh usage signature is allocated
    /// under its service signature and no metadata is returned (clients of
    /// an already-loaded service are expected to hold its metadata).
    /// Otherwise the persisted configuration `cfg`, as the config store
    /// answered for this name, is loaded: a fresh, collision-free service
    /// signature is allocated, the plugin model is stored with a one-element
    /// usage set, and the function metadata is returned.  Nothing is
    /// returned (and nothing changes) exactly when the name is not loaded
    /// and no usable configuration exists.
    ///
    /// The returned handle string is the decimal rendering of the packed
    /// (service signature, usage signature) pair.
    pub fn register(&mut self, name: &String, cfg: Option<ServiceConfig>) -> (r: Option<
        (String, Option<MetaFuncMap>),
    >)
        requires
            old(self).wf(),
            old(self).loaded@.len() <= 0xffff_ffff,
            forall|i: int|
                0 <= i < old(self).loaded@.len() ==> (#[trigger] old(
                    self,
                ).loaded@[i]).usages@.len() <= 0xffff_ffff,
        ensures
            final(self).wf(),
            final(self).root == old(self).root,
            register_post(old(self).maps(), final(self).maps(), name@, cfg, r),
            final(self).loaded@.len() <= old(self).loaded@.len() + 1,
            forall|b: int|
                b >= 0 && #[trigger] ls_usages_bounded(old(self).loaded@, b) ==> ls_usages_bounded(
                    final(self).loaded@,
                    b + 1,
                ),
    {
        let ghost pre = self.loaded@;
        match self.find_by_name(name) {
            Some(i) => {
                proof {
                    lemma_name_at(pre, i as int);
                }
                let mut entry = self.loaded.remove(i);
                proof {
                    lemma_maps_remove(pre, i as int);
                }
                let ghost mid = self.loaded@;
                let u = Self::fresh_usage_sig(&entry.usages);
                let g = entry.sig;
                let ghost old_usages = entry.usages@;
                entry.usages.push(u);
                proof {
                    lemma_maps_push(mid, entry);
                    lemma_to_set_push(old_usages, u);
                }
                self.loaded.push(entry);
                let h = combine_sig(g, u);
                let hs = render_handle(h);
                proof {
                    crate::handle::lemma_handle_split(g, u);
                    crate::handle::lemma_dec_round_trip(h);
                    lemma_sig_at(pre, i as int);
                    assert(ls_service_map(pre)[name@] == g);
                    assert(ls_usage_map(pre)[g] == old_usages.to_set());
                    assert(self.service_map() =~= old(self).service_map());
                    assert(self.services() =~= old(self).services());
                    assert(self.usage_map() =~= old(self).usage_map().insert(
                        g,
                        old(self).usage_map()[g].insert(u),
                    ));
                    assert forall|b: int|
                        b >= 0 && ls_usages_bounded(pre, b) implies ls_usages_bounded(
                        self.loaded@,
                        b + 1,
                    ) by {
                        assert forall|j: int|
                            0 <= j < self.loaded@.len() implies (#[trigger] self.loaded@[j])
                            .usages@.len() <= b + 1 by {
                            if j < self.loaded@.len() - 1 {
                                let j0: int = if j < i {
                                    j
                                } else {
                                    j + 1
                                };
                                assert(self.loaded@[j] == pre[j0]);
                                assert(pre[j0].usages@.len() <= b);
                            } else {
                                assert(self.loaded@[j].usages@.len() == old_usages.len() + 1);
                                assert(pre[i as int].usages@.len() <= b);
                            }
                        }
                    }
                }
                Some((hs, None))
            },
            None => {
                match cfg {
                    None => None,
                    Some(c) => {
                        let ServiceConfig { entry, metadata, .. } = c;
                        let spec_copy = clone_meta_map(&metadata.func);
                        match Service::load(&entry, metadata) {
                            None => None,
                            Some(svc) => {
                                let g = self.fresh_service_sig();
                                let u: u32 = rand::random::<u32>();
                                let mut usages: Vec<u32> = Vec::new();
                                usages.push(u);
                                let new_entry = LoadedService {
                                    name: name.clone(),
                                    sig: g,
                                    usages,
                                    service: svc,
                                };
                                proof {
                                    if ls_has_name(pre, name@) {
                                        let j = ls_idx_of_name(pre, name@);
                                        assert(pre[j].name@ == name@);
                                    }
                                    lemma_maps_push(pre, new_entry);
                                    assert(new_entry.usages@.len() == 1 && new_entry.usages@[0]
                                        == u);
                                    assert forall|x: u32| #[trigger] new_entry.usages@.to_set()
                                        .contains(x) implies x == u by {
                                        let j = choose|j: int|
                                            0 <= j < new_entry.usages@.len()
                                                && new_entry.usages@[j] == x;
                                    }
                                    assert(new_entry.usages@.contains(u));
                                    assert(new_entry.usages@.to_set() =~= Set::empty().insert(u));
                                }
                                self.loaded.push(new_entry);
                                let h = combine_sig(g, u);
                                let hs = render_handle(h);
                                proof {
                                    crate::handle::lemma_handle_split(g, u);
                                    crate::handle::lemma_dec_round_trip(h);
                                    assert forall|b: int|
                                        b >= 0 && ls_usages_bounded(
                                            pre,
                                            b,
                                        ) implies ls_usages_bounded(self.loaded@, b + 1) by {
                                        assert forall|j: int|
                                            0 <= j < self.loaded@.len() implies (
                                        #[trigger] self.loaded@[j]).usages@.len() <= b + 1 by {
                                            if j < pre.len() {
                                                assert(self.loaded@[j] == pre[j]);
                                                assert(pre[j].usages@.len() <= b);
                                            } else {
                                                assert(self.loaded@[j].usages@.len() == 1);
                                            }
                                        }
                                    }
                                }
                                Some((hs, Some(spec_copy)))
                            },
                        }
                    },
                }
            },
        }
    }

    /// Unregister one usage of a named service.
    ///
    /// The handle is split into its service and usage signatures.  A
    /// handle whose service signature does not match the one currently
    /// recorded for the name — stale or forged — is a no-op.  Otherwise
    /// the usage signature leaves the service's usage set, and the moment
    /// that set becomes empty the service is evicted: all three maps drop
    /// their entries for it.  A service with usages left is never evicted.
    pub fn unregister(&mut self, name: &String, srv_use_sig: &String)
        requires
            old(self).wf(),
        ensures
            final(self).wf(),
            final(self).root == old(self).root,
            final(self).maps() == spec_unregister(old(self).maps(), name@, srv_use_sig@),
            final(self).loaded@.len() <= old(self).loaded@.len(),
            forall|b: int|
                b >= 0 && #[trigger] ls_usages_bounded(old(self).loaded@, b) ==> ls_usages_bounded(
                    final(self).loaded@,
                    b,
                ),
    {
        let ghost pre = self.loaded@;
        let hv = parse_handle(srv_use_sig.as_str());
        let (g, u) = split_sig(hv);
        let i = match self.find_by_name(name) {
            Some(i) => i,
            None => {
                return ;
            },
        };
        proof {
            lemma_name_at(pre, i as int);
            lemma_sig_at(pre, i as int);
        }
        if self.loaded[i].sig != g {
            return ;
        }
        let mut entry = self.loaded.remove(i);
        proof {
            lemma_maps_remove(pre, i as int);
        }
        let ghost mid = self.loaded@;
        let ghost old_usages = entry.usages@;
        let n: usize = entry.usages.len();
        let mut j: usize = 0;
        let mut found: Option<usize> = None;
        while j < n
            invariant
                0 <= j <= n,
                n == entry.usages@.len(),
                entry.usages@ == old_usages,
                match found {
                    Some(p) => p < n && old_usages[p as int] == u,
                    None => forall|q: int| 0 <= q < j ==> (#[trigger] old_usages[q]) != u,
                },
            ensures
                match found {
                    Some(p) => p < n && old_usages[p as int] == u,
                    None => forall|q: int| 0 <= q < n ==> (#[trigger] old_usages[q]) != u,
                },
            decreases n - j,
        {
            if entry.usages[j] == u {
                found = Some(j);
                break ;
            }
            j = j + 1;
        }
        match found {
            Some(p) => {
                proof {
                    lemma_to_set_remove(old_usages, p as int);
                }
                entry.usages.remove(p);
            },
            None => {
                proof {
                    if old_usages.to_set().contains(u) {
                        let q = choose|q: int| 0 <= q < old_usages.len() && old_usages[q] == u;
                        assert(old_usages[q] != u);
                    }
                    assert(old_usages.to_set().remove(u) =~= old_usages.to_set());
                }
            },
        }
        let ghost kept = entry.usages@;
        proof {
            assert(kept.to_set() =~= old_usages.to_set().remove(u));
        }
        if entry.usages.is_empty() {
            proof {
                assert(kept.to_set() =~= Set::<u32>::empty());
                assert(old_usages.to_set().remove(u).len() == 0);
                assert(self.service_map() =~= old(self).service_map().remove(name@));
                assert(self.usage_map() =~= old(self).usage_map().remove(g));
                assert(self.services() =~= old(self).services().remove(g));
                assert forall|b: int|
                    b >= 0 && ls_usages_bounded(pre, b) implies ls_usages_bounded(
                    self.loaded@,
                    b,
                ) by {
                    assert forall|j: int|
                        0 <= j < self.loaded@.len() implies (#[trigger] self.loaded@[j])
                        .usages@.len() <= b by {
                        let j0: int = if j < i {
                            j
                        } else {
                            j + 1
                        };
                        assert(self.loaded@[j] == pre[j0]);
                        assert(pre[j0].usages@.len() <= b);
                    }
                }
            }
            return ;
        }
        proof {
            assert(kept.len() > 0);
            assert(kept.to_set().contains(kept[0]));
            assert(old_usages.to_set().remove(u).len() > 0) by {
                if old_usages.to_set().remove(u).len() == 0 {
                    assert(!old_usages.to_set().remove(u).contains(kept[0]));
                }
            }
            lemma_maps_push(mid, entry);
        }
        self.loaded.push(entry);
        proof {
            assert(self.service_map() =~= old(self).service_map());
            assert(self.services() =~= old(self).services());
            assert(self.usage_map() =~= old(self).usage_map().insert(
                g,
                old(self).usage_map()[g].remove(u),
            ));
            assert forall|b: int|
                b >= 0 && ls_usages_bounded(pre, b) implies ls_usages_bounded(
                self.loaded@,
                b,
            ) by {
                assert forall|j: int|
                    0 <= j < self.loaded@.len() implies (#[trigger] self.loaded@[j]).usages@.len()
                    <= b by {
                    if j < self.loaded@.len() - 1 {
                        let j0: int = if j < i {
                            j
                        } else {
                            j + 1
                        };
                        assert(self.loaded@[j] == pre[j0]);
                        assert(pre[j0].usages@.len() <= b);
                    } else {
                        assert(self.loaded@[j].usages@ == kept);
                        assert(kept.len() <= old_usages.len());
                        assert(pre[i as int].usages@.len() <= b);
                    }
                }
            }
        }
    }
}


impl FFIManager {
    /// Resolve a capability handle to the loaded service it names: the
    /// handle's service signature must be loaded and its usage signature
    /// must be registered there.  A handle that fails either check
    /// resolves to nothing.
    pub fn get_service_by_sig(&self, srv_use_sig: &String) -> (r: Option<&Service>)
        requires
            self.wf(),
        ensures
            ({
                let g = handle_high(parsed_handle(srv_use_sig@));
                let u = handle_low(parsed_handle(srv_use_sig@));
                match r {
                    Some(s) => {
                        &&& self.usage_map().dom().contains(g)
                        &&& self.usage_map()[g].contains(u)
                        &&& svc_view(*s) == self.services()[g]
                    },
                    None => !self.usage_map().dom().contains(g) || !self.usage_map()[g].contains(
                        u,
                    ),
                }
            }),
    {
        let hv = parse_handle(srv_use_sig.as_str());
        let (g, u) = split_sig(hv);
        match self.find_by_sig(g) {
            None => None,
            Some(i) => {
                proof {
                    lemma_sig_at(self.loaded@, i as int);
                }
                if contains_u32(&self.loaded[i].usages, u) {
                    proof {
                        assert(self.loaded@[i as int].usages@.to_set().contains(u));
                    }
                    Some(&self.loaded[i].service)
                } else {
                    proof {
                        if self.loaded@[i as int].usages@.to_set().contains(u) {
                            let q = choose|q: int|
                                0 <= q < self.loaded@[i as int].usages@.len()
                                    && self.loaded@[i as int].usages@[q] == u;
                            assert(self.loaded@[i as int].usages@[q] == u);
                        }
                    }
                    None
                }
            },
        }
    }

    /// Resolve a call descriptor and build its invocation plan.  Nothing
    /// comes back for an unknown or stale handle — the call fails
    /// silently and no response frame is ever produced for it.  For a
    /// valid handle the inner option is the plan, or nothing when the
    /// named function cannot be invoked on that service; the caller
    /// reports the latter as an empty result.
    pub fn execute(&self, descriptor: FFIDescriptor) -> (r: Option<Option<CallPlan>>)
        requires
            self.wf(),
        ensures
            ({
                let g = handle_high(parsed_handle(descriptor.0@));
                let u = handle_low(parsed_handle(descriptor.0@));
                match r {
                    Some(plan) => {
                        &&& self.usage_map().dom().contains(g)
                        &&& self.usage_map()[g].contains(u)
                        &&& plan_call_post(
                            self.services()[g],
                            descriptor.1@,
                            crate::adapter::strs_view(descriptor.2@),
                            plan,
                        )
                    },
                    None => !self.usage_map().dom().contains(g) || !self.usage_map()[g].contains(
                        u,
                    ),
                }
            }),
    {
        let (sig_str, func, args) = descriptor;
        match self.get_service_by_sig(&sig_str) {
            None => None,
            Some(service) => Some(service.plan_call(&func, args)),
        }
    }
}

/// Registering a name and then unregistering the handle it produced puts
/// all three registry maps back in their exact prior state.
///
/// With the name already loaded, the fresh usage signature leaves a
/// non-empty set behind on removal, so nothing is evicted and the set
/// shrinks back; with the name loaded by this registration, the set
/// becomes empty and the eviction removes precisely what the
/// registration added.
pub proof fn lemma_register_then_unregister(
    pre: FFIManager,
    mid: FFIManager,
    post: FFIManager,
    name: String,
    cfg: Option<ServiceConfig>,
    r: (String, Option<MetaFuncMap>),
)
    requires
        pre.wf(),
        register_post(pre.maps(), mid.maps(), name@, cfg, Some(r)),
        post.maps() == spec_unregister(mid.maps(), name@, r.0@),
    ensures
        post.maps() == pre.maps(),
{
    lemma_maps_wf(pre);
    let h = r.0@;
    let g = handle_high(parsed_handle(h));
    let u = handle_low(parsed_handle(h));
    if pre.service_map().dom().contains(name@) {
        let us0 = pre.usage_map()[g];
        let us = mid.maps().usage_map[g].remove(u);
        assert(mid.maps().usage_map[g] == us0.insert(u));
        assert(us =~= us0);
        assert(pre.usage_map().dom().contains(g));
        assert(us.len() > 0);
        assert(post.maps().usage_map =~= pre.maps().usage_map);
        assert(post.maps() =~= pre.maps());
    } else {
        let us = mid.maps().usage_map[g].remove(u);
        assert(mid.maps().usage_map[g] == Set::empty().insert(u));
        assert(us =~= Set::<u32>::empty());
        assert(us.len() == 0);
        assert(!pre.services().dom().contains(g));
        assert(post.maps().service_map =~= pre.maps().service_map);
        assert(post.maps().usage_map =~= pre.maps().usage_map);
        assert(post.maps().services =~= pre.maps().services);
        assert(post.maps() =~= pre.maps());
    }
}

/// A chain of registrations of one name, each acting on the registry the
/// one before left, as the registry lock serializes concurrent callers.
pub open spec fn register_chain(
    states: Seq<RegMaps>,
    name: Seq<char>,
    cfgs: Seq<Option<ServiceConfig>>,
    rs: Seq<(String, Option<MetaFuncMap>)>,
) -> bool {
    &&& states.len() == rs.len() + 1
    &&& cfgs.len() == rs.len()
    &&& forall|i: int|
        0 <= i < rs.len() ==> register_post(
            states[i],
            states[i + 1],
            name,
            cfgs[i],
            Some(#[trigger] rs[i]),
        )
}

proof fn lemma_register_chain_inv(
    states: Seq<RegMaps>,
    name: Seq<char>,
    cfgs: Seq<Option<ServiceConfig>>,
    rs: Seq<(String, Option<MetaFuncMap>)>,
    k: int,
)
    requires
        register_chain(states, name, cfgs, rs),
        !states[0].service_map.dom().contains(name),
        1 <= k <= rs.len(),
    ensures
        states[k].service_map.dom().contains(name),
        states[k].service_map[name] == handle_high(parsed_handle(rs[0].0@)),
        forall|i: int|
            0 <= i < k ==> handle_high(parsed_handle((#[trigger] rs[i]).0@)) == handle_high(
                parsed_handle(rs[0].0@),
            ),
        forall|i: int|
            0 <= i < k ==> states[k].usage_map[handle_high(parsed_handle(rs[0].0@))].contains(
                handle_low(parsed_handle((#[trigger] rs[i]).0@)),
            ),
        states[k].services == states[1].services,
    decreases k,
{
    let g0 = handle_high(parsed_handle(rs[0].0@));
    if k == 1 {
        assert(register_post(states[0], states[1], name, cfgs[0], Some(rs[0])));
    } else {
        lemma_register_chain_inv(states, name, cfgs, rs, k - 1);
        assert(register_post(states[k - 1], states[k], name, cfgs[k - 1], Some(rs[k - 1])));
        let uk = handle_low(parsed_handle(rs[k - 1].0@));
        assert(states[k].usage_map[g0] == states[k - 1].usage_map[g0].insert(uk));
        assert forall|i: int|
            0 <= i < k implies states[k].usage_map[g0].contains(
            handle_low(parsed_handle((#[trigger] rs[i]).0@)),
        ) by {
            if i < k - 1 {
                assert(states[k - 1].usage_map[g0].contains(
                    handle_low(parsed_handle(rs[i].0@)),
                ));
            }
        }
    }
}

/// Any number of registrations of a not-yet-loaded name, serialized by
/// the registry lock, load the plugin exactly once — the services map
/// never changes after the first call — and issue pairwise distinct
/// usage signatures, all under the one service signature the first call
/// allocated.
pub proof fn lemma_concurrent_registers(
    states: Seq<RegMaps>,
    name: Seq<char>,
    cfgs: Seq<Option<ServiceConfig>>,
    rs: Seq<(String, Option<MetaFuncMap>)>,
)
    requires
        register_chain(states, name, cfgs, rs),
        !states[0].service_map.dom().contains(name),
        rs.len() >= 1,
    ensures
        forall|i: int|
            0 <= i < rs.len() ==> handle_high(parsed_handle((#[trigger] rs[i]).0@)) == handle_high(
                parsed_handle(rs[0].0@),
            ),
        forall|i: int, j: int|
            0 <= i < j < rs.len() ==> handle_low(parsed_handle((#[trigger] rs[i]).0@))
                != handle_low(parsed_handle((#[trigger] rs[j]).0@)),
        forall|i: int| 1 <= i <= rs.len() ==> #[trigger] states[i].services == states[1].services,
{
    let g0 = handle_high(parsed_handle(rs[0].0@));
    assert forall|i: int| 1 <= i <= rs.len() implies #[trigger] states[i].services
        == states[1].services by {
        lemma_register_chain_inv(states, name, cfgs, rs, i);
    }
    assert forall|i: int|
        0 <= i < rs.len() implies handle_high(parsed_handle((#[trigger] rs[i]).0@)) == g0 by {
        lemma_register_chain_inv(states, name, cfgs, rs, i + 1);
    }
    assert forall|i: int, j: int|
        0 <= i < j < rs.len() implies handle_low(parsed_handle((#[trigger] rs[i]).0@))
        != handle_low(parsed_handle((#[trigger] rs[j]).0@)) by {
        lemma_register_chain_inv(states, name, cfgs, rs, j);
        assert(register_post(states[j], states[j + 1], name, cfgs[j], Some(rs[j])));
        assert(handle_high(parsed_handle(rs[j].0@)) == g0);
        assert(states[j].usage_map[g0].contains(handle_low(parsed_handle(rs[i].0@))));
        assert(!states[j].usage_map[g0].contains(handle_low(parsed_handle(rs[j].0@))));
    }
}

/// A service is evicted exactly when an unregistration empties its usage
/// set; while any usage remains, all three maps keep their entries for
/// it.
pub proof fn lemma_eviction_iff_empty(m: RegMaps, name: Seq<char>, h: Seq<char>)
    requires
        m.service_map.dom().contains(name),
        m.service_map[name] == handle_high(parsed_handle(h)),
        m.usage_map.dom() =~= m.services.dom(),
        m.usage_map.dom().contains(handle_high(parsed_handle(h))),
    ensures
        ({
            let g = handle_high(parsed_handle(h));
            let u = handle_low(parsed_handle(h));
            let post = spec_unregister(m, name, h);
            &&& (!post.services.dom().contains(g)) <==> m.usage_map[g].remove(u).len() == 0
            &&& (!post.usage_map.dom().contains(g)) <==> m.usage_map[g].remove(u).len() == 0
            &&& (!post.service_map.dom().contains(name)) <==> m.usage_map[g].remove(u).len() == 0
        }),
{
}

} // verus!
