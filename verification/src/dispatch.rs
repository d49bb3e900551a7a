//! The per-connection command dispatcher.  Each decoded request frame is
//! routed here: liveness probes are answered, registrations go to the
//! registry and are recorded for the connection, calls are resolved to
//! invocation plans, and anything malformed terminates the connection.
//! The surrounding loop performs the transport reads and writes and runs
//! the planned invocations; every decision stands here.

use vstd::prelude::*;
use vstd::string::*;
use crate::adapter::{CallPlan, plan_call_post, strs_view};
use crate::assoc::{aget, ahas, akey_view, assoc_find, lemma_afind, lemma_aget_push,
    lemma_aget_remove};
use crate::config::{MetaFuncMap, ServiceConfig};
use crate::handle::{handle_high, handle_low, parsed_handle};
use crate::registry::{FFIManager, RegMaps, ls_usages_bounded, register_post, spec_unregister};

verus! {

/// One call-shaped payload: capability handle, function name, arguments.
pub struct FuncCall {
    pub sig: String,
    pub func: String,
    pub args: Vec<String>,
}

/// A decoded request payload.
pub enum CommandMsg {
    Alive,
    Register { name: String },
    Unregister { name: String },
    Call(FuncCall),
    OneWay(FuncCall),
    ChainCall(Vec<FuncCall>),
}

/// What a response frame will carry.
pub enum ReplyBody {
    Empty,
    Registered { sig: String, spec: Option<MetaFuncMap> },
}

/// What the surrounding loop must do with one handled request.
pub enum DispatchAction {
    /// Write a response frame now, tagged with the request's sequence
    /// number.
    Reply { seq: u32, body: ReplyBody },
    /// Write nothing: the command fails silently or never answers.
    NoReply,
    /// Run the planned invocation off the read loop, then write its
    /// result under the sequence number; a missing plan yields the empty
    /// result.
    RunCall { seq: u32, plan: Option<CallPlan> },
    /// Run the planned invocation and discard the result.
    RunOneWay { plan: Option<CallPlan> },
    /// Evaluate the steps in order, wiring earlier results into later
    /// arguments, and answer with the last step's result.
    RunChain { seq: u32, steps: Vec<FuncCall> },
    /// Tear the connection down: the frame was malformed.
    Terminate,
}

/// What one connection remembers: the handles it was issued, by name,
/// so that its teardown can unregister them.
pub struct ConnState {
    pub records: Vec<(String, String)>,
}

/// The connection's name-to-handle records as an association sequence.
pub open spec fn records_view(c: ConnState) -> Seq<(Seq<char>, String)> {
    akey_view(c.records@)
}

impl ConnState {
    /// Record keys are unique: one handle per name per connection.
    pub open spec fn wf(self) -> bool {
        forall|a: int, b: int|
            0 <= a < b < records_view(self).len() ==> (#[trigger] records_view(self)[a].0)
                != (#[trigger] records_view(self)[b].0)
    }

    pub fn new() -> (r: ConnState)
        ensures
            r.wf(),
            r.records@.len() == 0,
    {
        ConnState { records: Vec::new() }
    }
}

/// Handle one decoded request frame against the registry and this
/// connection's records, and say what the loop must do next.
///
/// `cfg` is the config store's answer for the registered name and is
/// consulted only by a registration of a not-yet-loaded name.  An
/// undecodable frame (`msg` empty) terminates the connection rather than
/// desynchronize the stream; commands naming unknown services or handles
/// fail silently, with no response frame.
pub fn handle_request(
    reg: &mut FFIManager,
    conn: &mut ConnState,
    seq: u32,
    msg: Option<CommandMsg>,
    cfg: Option<ServiceConfig>,
) -> (action: DispatchAction)
    requires
        old(reg).wf(),
        old(conn).wf(),
        old(reg).loaded@.len() <= 0xffff_ffff,
        forall|i: int|
            0 <= i < old(reg).loaded@.len() ==> (#[trigger] old(reg).loaded@[i]).usages@.len()
                <= 0xffff_ffff,
    ensures
        final(reg).wf(),
        final(conn).wf(),
        final(reg).root == old(reg).root,
        final(reg).loaded@.len() <= old(reg).loaded@.len() + 1,
        forall|b: int|
            b >= 0 && #[trigger] ls_usages_bounded(old(reg).loaded@, b) ==> ls_usages_bounded(
                final(reg).loaded@,
                b + 1,
            ),
        match msg {
            None => {
                &&& action is Terminate
                &&& *final(reg) == *old(reg)
                &&& *final(conn) == *old(conn)
            },
            Some(m) => match m {
                CommandMsg::Alive => {
                    &&& action == (DispatchAction::Reply { seq, body: ReplyBody::Empty })
                    &&& *final(reg) == *old(reg)
                    &&& *final(conn) == *old(conn)
                },
                CommandMsg::Register { name } => match action {
                    DispatchAction::Reply { seq: s2, body } => {
                        &&& s2 == seq
                        &&& body matches ReplyBody::Registered { sig, spec }
                        &&& register_post(
                            old(reg).maps(),
                            final(reg).maps(),
                            name@,
                            cfg,
                            Some((body->Registered_sig, body->Registered_spec)),
                        )
                        &&& ahas(records_view(*final(conn)), name@)
                        &&& aget(records_view(*final(conn)), name@)->Some_0@
                            == body->Registered_sig@
                        &&& forall|k: Seq<char>|
                            k != name@ ==> #[trigger] aget(records_view(*final(conn)), k) == aget(
                                records_view(*old(conn)),
                                k,
                            )
                    },
                    DispatchAction::NoReply => {
                        &&& register_post(old(reg).maps(), final(reg).maps(), name@, cfg, None)
                        &&& *final(conn) == *old(conn)
                    },
                    _ => false,
                },
                CommandMsg::Unregister { name } => {
                    &&& action is NoReply
                    &&& if ahas(records_view(*old(conn)), name@) {
                        &&& final(reg).maps() == spec_unregister(
                            old(reg).maps(),
                            name@,
                            aget(records_view(*old(conn)), name@)->Some_0@,
                        )
                        &&& !ahas(records_view(*final(conn)), name@)
                        &&& forall|k: Seq<char>|
                            k != name@ ==> #[trigger] aget(records_view(*final(conn)), k) == aget(
                                records_view(*old(conn)),
                                k,
                            )
                    } else {
                        &&& *final(reg) == *old(reg)
                        &&& *final(conn) == *old(conn)
                    }
                },
                CommandMsg::Call(fc) => {
                    let g = handle_high(parsed_handle(fc.sig@));
                    let u = handle_low(parsed_handle(fc.sig@));
                    &&& *final(reg) == *old(reg)
                    &&& *final(conn) == *old(conn)
                    &&& match action {
                        DispatchAction::RunCall { seq: s2, plan } => {
                            &&& s2 == seq
                            &&& old(reg).usage_map().dom().contains(g)
                            &&& old(reg).usage_map()[g].contains(u)
                            &&& plan_call_post(
                                old(reg).services()[g],
                                fc.func@,
                                strs_view(fc.args@),
                                plan,
                            )
                        },
                        DispatchAction::NoReply => !old(reg).usage_map().dom().contains(g) || !old(
                            reg,
                        ).usage_map()[g].contains(u),
                        _ => false,
                    }
                },
                CommandMsg::OneWay(fc) => {
                    let g = handle_high(parsed_handle(fc.sig@));
                    let u = handle_low(parsed_handle(fc.sig@));
                    &&& *final(reg) == *old(reg)
                    &&& *final(conn) == *old(conn)
                    &&& match action {
                        DispatchAction::RunOneWay { plan } => {
                            &&& old(reg).usage_map().dom().contains(g)
                            &&& old(reg).usage_map()[g].contains(u)
                            &&& plan_call_post(
                                old(reg).services()[g],
                                fc.func@,
                                strs_view(fc.args@),
                                plan,
                            )
                        },
                        DispatchAction::NoReply => !old(reg).usage_map().dom().contains(g) || !old(
                            reg,
                        ).usage_map()[g].contains(u),
                        _ => false,
                    }
                },
                CommandMsg::ChainCall(steps) => {
                    &&& action == (DispatchAction::RunChain { seq, steps })
                    &&& *final(reg) == *old(reg)
                    &&& *final(conn) == *old(conn)
                },
            },
        },
{
    let m = match msg {
        None => {
            return DispatchAction::Terminate;
        },
        Some(m) => m,
    };
    match m {
        CommandMsg::Alive => DispatchAction::Reply { seq, body: ReplyBody::Empty },
        CommandMsg::Register { name } => {
            match reg.register(&name, cfg) {
                None => DispatchAction::NoReply,
                Some((sig, spec)) => {
                    let ghost pre_records = records_view(*conn);
                    let ghost namev = name@;
                    let i = assoc_find(&conn.records, &name);
                    proof {
                        lemma_afind(pre_records, namev);
                    }
                    if i < conn.records.len() {
                        conn.records.remove(i);
                        proof {
                            let mid = pre_records.remove(i as int);
                            assert(records_view(*conn) =~= mid);
                            assert forall|a: int, b: int|
                                0 <= a < b < mid.len() implies (#[trigger] mid[a].0)
                                != (#[trigger] mid[b].0) by {
                                if b < i {
                                    assert(pre_records[a].0 != pre_records[b].0);
                                } else if a < i {
                                    assert(pre_records[a].0 != pre_records[b + 1].0);
                                } else {
                                    assert(pre_records[a + 1].0 != pre_records[b + 1].0);
                                }
                            }
                            assert forall|k: Seq<char>| #[trigger] aget(records_view(*conn), k)
                                == (if k == namev {
                                None
                            } else {
                                aget(pre_records, k)
                            }) by {
                                lemma_aget_remove(pre_records, i as int, k);
                            }
                        }
                    }
                    let ghost base = records_view(*conn);
                    proof {
                        assert(aget(base, namev) is None);
                        crate::assoc::lemma_afind(base, namev);
                        assert(!ahas(base, namev));
                    }
                    let handle_copy = sig.clone();
                    let ghost hcv = handle_copy;
                    conn.records.push((name, handle_copy));
                    proof {
                        assert(records_view(*conn) =~= base.push((namev, hcv)));
                        assert forall|k: Seq<char>| #[trigger] aget(records_view(*conn), k) == (
                        if k == namev {
                            Some(hcv)
                        } else {
                            aget(base, k)
                        }) by {
                            lemma_aget_push(base, namev, hcv, k);
                        }
                        assert forall|a: int, b: int|
                            0 <= a < b < records_view(*conn).len() implies (
                        #[trigger] records_view(*conn)[a].0) != (#[trigger] records_view(
                            *conn,
                        )[b].0) by {
                            if b < base.len() {
                                assert(base[a].0 != base[b].0);
                            } else {
                                crate::assoc::lemma_ahas_exists(base, base[a].0);
                            }
                        }
                    }
                    DispatchAction::Reply { seq, body: ReplyBody::Registered { sig, spec } }
                },
            }
        },
        CommandMsg::Unregister { name } => {
            let i = assoc_find(&conn.records, &name);
            proof {
                lemma_afind(records_view(*conn), name@);
            }
            if i < conn.records.len() {
                let ghost pre_records = records_view(*conn);
                let ghost namev = name@;
                reg.unregister(&name, &conn.records[i].1);
                proof {
                    assert(pre_records[i as int].1@ == conn.records@[i as int].1@);
                }
                conn.records.remove(i);
                proof {
                    let mid = pre_records.remove(i as int);
                    assert(records_view(*conn) =~= mid);
                    assert forall|a: int, b: int|
                        0 <= a < b < mid.len() implies (#[trigger] mid[a].0) != (#[trigger] mid[b].0) by {
                        if b < i {
                            assert(pre_records[a].0 != pre_records[b].0);
                        } else if a < i {
                            assert(pre_records[a].0 != pre_records[b + 1].0);
                        } else {
                            assert(pre_records[a + 1].0 != pre_records[b + 1].0);
                        }
                    }
                    assert forall|k: Seq<char>| #[trigger] aget(records_view(*conn), k) == (
                    if k == namev {
                        None
                    } else {
                        aget(pre_records, k)
                    }) by {
                        lemma_aget_remove(pre_records, i as int, k);
                    }
                    assert(aget(records_view(*conn), namev) is None);
                }
            }
            DispatchAction::NoReply
        },
        CommandMsg::Call(fc) => {
            let FuncCall { sig, func, args } = fc;
            match reg.execute((sig, func, args)) {
                None => DispatchAction::NoReply,
                Some(plan) => DispatchAction::RunCall { seq, plan },
            }
        },
        CommandMsg::OneWay(fc) => {
            let FuncCall { sig, func, args } = fc;
            match reg.execute((sig, func, args)) {
                None => DispatchAction::NoReply,
                Some(plan) => DispatchAction::RunOneWay { plan },
            }
        },
        CommandMsg::ChainCall(steps) => DispatchAction::RunChain { seq, steps },
    }
}

/// The registry state after a connection's records are unregistered, most
/// recently recorded first.
pub open spec fn spec_cleanup(m: RegMaps, records: Seq<(Seq<char>, String)>) -> RegMaps
    decreases records.len(),
{
    if records.len() == 0 {
        m
    } else {
        spec_cleanup(
            spec_unregister(m, records.last().0, records.last().1@),
            records.drop_last(),
        )
    }
}

/// Tear a connection down: every handle it was issued is unregistered and
/// its records are dropped.  Run when a mailbox loop exits, so that a
/// dead client's usages never pin a service.
pub fn cleanup_connection(reg: &mut FFIManager, conn: &mut ConnState)
    requires
        old(reg).wf(),
    ensures
        final(reg).wf(),
        final(reg).root == old(reg).root,
        final(conn).records@.len() == 0,
        final(reg).maps() == spec_cleanup(old(reg).maps(), records_view(*old(conn))),
        final(reg).loaded@.len() <= old(reg).loaded@.len(),
        forall|b: int|
            b >= 0 && #[trigger] ls_usages_bounded(old(reg).loaded@, b) ==> ls_usages_bounded(
                final(reg).loaded@,
                b,
            ),
{
    loop
        invariant
            reg.wf(),
            reg.root == old(reg).root,
            reg.loaded@.len() <= old(reg).loaded@.len(),
            forall|b: int|
                b >= 0 && #[trigger] ls_usages_bounded(old(reg).loaded@, b) ==> ls_usages_bounded(
                    reg.loaded@,
                    b,
                ),
            spec_cleanup(old(reg).maps(), records_view(*old(conn))) == spec_cleanup(
                reg.maps(),
                records_view(*conn),
            ),
        ensures
            reg.wf(),
            reg.root == old(reg).root,
            conn.records@.len() == 0,
            reg.loaded@.len() <= old(reg).loaded@.len(),
            forall|b: int|
                b >= 0 && #[trigger] ls_usages_bounded(old(reg).loaded@, b) ==> ls_usages_bounded(
                    reg.loaded@,
                    b,
                ),
            spec_cleanup(old(reg).maps(), records_view(*old(conn))) == spec_cleanup(
                reg.maps(),
                records_view(*conn),
            ),
        decreases conn.records@.len(),
    {
        let ghost before = records_view(*conn);
        match conn.records.pop() {
            None => {
                break ;
            },
            Some((name, handle)) => {
                proof {
                    assert(records_view(*conn) =~= before.drop_last());
                    assert(before.last().0 == name@);
                    assert(before.last().1 == handle);
                }
                reg.unregister(&name, &handle);
            },
        }
    }
    proof {
        assert(records_view(*conn).len() == 0);
        assert(spec_cleanup(reg.maps(), records_view(*conn)) == reg.maps());
    }
}


/// The synthetic key under which one chain step's result is referenced by
/// later steps.
pub fn chain_key(sig: &String, func: &String) -> (r: String)
    ensures
        r@ == "restype_"@ + sig@ + "_"@ + func@,
{
    let mut r = crate::strutil::concat3("restype_", sig.as_str(), "_");
    r.append(func.as_str());
    proof {
        assert(r@ =~= "restype_"@ + sig@ + "_"@ + func@);
    }
    r
}

/// Substitute earlier chain results into one step's arguments: an
/// argument equal to an earlier step's synthetic key becomes that step's
/// result; every other argument passes through.  Steps may reference only
/// steps before them, so evaluation in listed order resolves every
/// reference.
pub fn substitute_chain_args(args: &Vec<String>, results: &Vec<(String, String)>) -> (r: Vec<
    String,
>)
    ensures
        r@.len() == args@.len(),
        forall|i: int|
            0 <= i < args@.len() ==> (#[trigger] r@[i])@ == (if ahas(
                akey_view(results@),
                args@[i]@,
            ) {
                aget(akey_view(results@), args@[i]@)->Some_0@
            } else {
                args@[i]@
            }),
{
    let mut r: Vec<String> = Vec::new();
    let n: usize = args.len();
    let mut i: usize = 0;
    while i < n
        invariant
            0 <= i <= n,
            n == args@.len(),
            r@.len() == i,
            forall|j: int|
                0 <= j < i ==> (#[trigger] r@[j])@ == (if ahas(akey_view(results@), args@[j]@) {
                    aget(akey_view(results@), args@[j]@)->Some_0@
                } else {
                    args@[j]@
                }),
        decreases n - i,
    {
        let k = assoc_find(results, &args[i]);
        proof {
            lemma_afind(akey_view(results@), args@[i as int]@);
        }
        if k < results.len() {
            r.push(results[k].1.clone());
        } else {
            r.push(args[i].clone());
        }
        i = i + 1;
    }
    r
}


/// A connection's death is its own: tearing one connection down spares
/// every other connection's registrations.  A usage signature that none
/// of the dying connection's recorded handles carries — in particular,
/// any handle another connection was issued — is still registered, under
/// a still-loaded service, after the teardown's unregistrations; with a
/// malformed frame itself changing nothing (the dispatcher's terminate
/// arm), the other connections stay fully functional.
pub proof fn lemma_teardown_spares_other_connections(
    m: RegMaps,
    records: Seq<(Seq<char>, String)>,
    g: u32,
    u: u32,
)
    requires
        m.usage_map.dom().contains(g),
        m.usage_map[g].contains(u),
        m.usage_map[g].finite(),
        forall|i: int|
            0 <= i < records.len() ==> !(handle_high(
                parsed_handle((#[trigger] records[i]).1@),
            ) == g && handle_low(parsed_handle(records[i].1@)) == u),
    ensures
        spec_cleanup(m, records).usage_map.dom().contains(g),
        spec_cleanup(m, records).usage_map[g].contains(u),
        spec_cleanup(m, records).usage_map[g].finite(),
    decreases records.len(),
{
    if records.len() > 0 {
        let name = records.last().0;
        let h = records.last().1@;
        let m2 = spec_unregister(m, name, h);
        let g2 = handle_high(parsed_handle(h));
        let u2 = handle_low(parsed_handle(h));
        assert(!(g2 == g && u2 == u));
        if m.service_map.dom().contains(name) && m.service_map[name] == g2 {
            let us = m.usage_map[g2].remove(u2);
            if g2 == g {
                // the dying connection held a different usage of the same
                // service: the set shrinks but keeps this usage, so no
                // eviction happens
                assert(us.contains(u));
                assert(us.len() > 0) by {
                    if us.len() == 0 {
                        vstd::set::Set::lemma_len0_is_empty(us);
                    }
                }
                assert(m2.usage_map.dom().contains(g));
                assert(m2.usage_map[g] == us);
            } else {
                assert(m2.usage_map.dom().contains(g));
                assert(m2.usage_map[g] == m.usage_map[g]);
            }
        } else {
            assert(m2 == m);
        }
        lemma_teardown_spares_other_connections(m2, records.drop_last(), g, u);
    }
}

} // verus!
