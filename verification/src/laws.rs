//! What holds of the engine as a whole, proved from the model of its
//! functions.

use vstd::prelude::*;
use crate::deferred::{
    bind_from, build, commands, conc_params, copy_exprs, events_first, events_second, ext_params,
    ext_ports, if_stmt, initial_binding, owned, request, sig, sig_ports, unroll, State,
};
use crate::fault::Fault;
use crate::frame::{
    lemma_events_second, lemma_ext_params, lemma_ext_ports, lemma_prop_truth, lemma_sig_ports,
    mentions, prop_value, signature_ports,
};
use crate::invariants::{lemma_build, lemma_finish, lemma_request, lemma_sig_pass};
use crate::base::BaseView;
use crate::ir::{at, Command, Component, If, Loop, Param, TimeSub};
use crate::maps::{find_first, find_last, lemma_first_is_entry, lemma_first_stays, KeyView};
use crate::monosig::SigView;
use crate::pass::PassView;
use crate::replay::{lemma_commands_again, lemma_known_trans, lemma_sig_any};
use crate::scope::lemma_commands_frame;

verus! {

// The record of the pass

/// A pass that has answered nothing is well formed.
pub proof fn law_empty_pass_is_well_formed()
    ensures
        PassView::empty().wf(),
        PassView::empty().fits(),
{
}

/// Every answer leaves the pass well formed, and the component that it
/// names is stored.
pub proof fn law_request_keeps_well_formed(
    prog: Seq<Component>,
    p: PassView,
    c: usize,
    params: Seq<u64>,
)
    requires
        p.wf(),
        request(prog, p, c, params) is Ok,
        request(prog, p, c, params)->Ok_0.0.fits(),
    ensures
        request(prog, p, c, params)->Ok_0.0.wf(),
        request(prog, p, c, params)->Ok_0.1 < request(prog, p, c, params)->Ok_0.0.ctx.len(),
{
    lemma_request(prog, p, c, params);
}

/// A request that is made again is answered with the same component, and
/// the second answer changes nothing.
pub proof fn law_same_request_same_component(
    prog: Seq<Component>,
    p: PassView,
    c: usize,
    params: Seq<u64>,
)
    requires
        p.wf(),
        request(prog, p, c, params) is Ok,
        request(prog, p, c, params)->Ok_0.0.fits(),
    ensures
        ({
            let (p1, b) = request(prog, p, c, params)->Ok_0;
            request(prog, p1, c, params) == Ok::<(PassView, usize), Fault>((p1, b))
        }),
{
    lemma_request(prog, p, c, params);
}

/// In a well-formed pass two different keys are recorded with different
/// components.
pub proof fn law_distinct_keys_distinct_components(p: PassView, k1: KeyView, k2: KeyView)
    requires
        p.wf(),
        k1 != k2,
        find_first(p.processed, k1) is Some,
        find_first(p.processed, k2) is Some,
    ensures
        find_first(p.processed, k1) != find_first(p.processed, k2),
{
    let i = lemma_first_is_entry(p.processed, k1, 0);
    let j = lemma_first_is_entry(p.processed, k2, 0);
    assert(p.processed[i].0 == k1);
    assert(p.processed[j].0 == k2);
    assert(i != j);
}

/// Two requests for one generic component under different parameter
/// values are answered with different components, whatever was requested
/// between them.
pub proof fn law_different_bindings_different_components(
    prog: Seq<Component>,
    p: PassView,
    q: PassView,
    c: usize,
    params1: Seq<u64>,
    params2: Seq<u64>,
)
    requires
        p.wf(),
        params1 != params2,
        request(prog, p, c, params1) is Ok,
        request(prog, p, c, params1)->Ok_0.0.fits(),
        request(prog, p, c, params1)->Ok_0.0.known_in(q),
        q.wf(),
        request(prog, q, c, params2) is Ok,
        request(prog, q, c, params2)->Ok_0.0.fits(),
    ensures
        request(prog, p, c, params1)->Ok_0.1 != request(prog, q, c, params2)->Ok_0.1,
{
    let k1 = KeyView { comp: c, params: params1 };
    let k2 = KeyView { comp: c, params: params2 };
    let (p1, b1) = request(prog, p, c, params1)->Ok_0;
    let (q1, b2) = request(prog, q, c, params2)->Ok_0;
    lemma_request(prog, q, c, params2);
    lemma_request(prog, p, c, params1);
    lemma_first_stays(p1.processed, q.processed, k1, 0);
    lemma_first_stays(q.processed, q1.processed, k1, 0);
    law_distinct_keys_distinct_components(q1, k1, k2);
}

// Determinism

/// Building is deterministic: a component that was built is built again
/// the same, with the same entities, the same connections and the same
/// literal bounds, in every state of the pass that holds what the pass held
/// after the first build.
pub proof fn law_build_again_same_component(
    prog: Seq<Component>,
    p: PassView,
    q: PassView,
    c: usize,
    params: Seq<u64>,
)
    requires
        p.wf(),
        build(prog, p, c, params) is Ok,
        build(prog, p, c, params)->Ok_0.0.fits(),
        build(prog, p, c, params)->Ok_0.0.known_in(q),
    ensures
        build(prog, q, c, params) is Ok,
        build(prog, q, c, params)->Ok_0.1 == build(prog, p, c, params)->Ok_0.1,
{
    let ul = at(prog, c)->Some_0;
    let binding = initial_binding(ul, params)->Ok_0;
    let start = SigView::start(binding);
    let a0 = State { sig: start, pass: p.reserve() };
    let a1 = sig(ul, c, a0)->Ok_0;
    let a2 = commands(prog, c, ul, a1, ul.cmds@, 0)->Ok_0;
    lemma_sig_pass(ul, c, a0);
    assert(a0.pass.wf());
    assert(a1.pass.wf());
    let b0 = State { sig: start, pass: q.reserve() };
    lemma_sig_any(ul, c, a0, b0.pass);
    let b1 = sig(ul, c, b0)->Ok_0;
    lemma_sig_pass(ul, c, b0);
    assert(q.known_in(b1.pass));
    lemma_known_trans(a2.pass, q, b1.pass);
    lemma_commands_again(prog, c, ul, a1, ul.cmds@, 0, b1.pass);
}

/// The component that answers a request that was not on record is the one
/// that building for the key gives again, in the state of the pass after
/// the answer: were the record not consulted, the request would yield the
/// same component.
pub proof fn law_request_is_deterministic(
    prog: Seq<Component>,
    p: PassView,
    c: usize,
    params: Seq<u64>,
)
    requires
        p.wf(),
        find_first(p.processed, KeyView { comp: c, params }) is None,
        request(prog, p, c, params) is Ok,
        request(prog, p, c, params)->Ok_0.0.fits(),
    ensures
        ({
            let (p1, b) = request(prog, p, c, params)->Ok_0;
            &&& b < p1.ctx.len()
            &&& build(prog, p1, c, params) is Ok
            &&& build(prog, p1, c, params)->Ok_0.1 == p1.ctx[b as int]
        }),
{
    let key = KeyView { comp: c, params };
    let (p2, base) = build(prog, p, c, params)->Ok_0;
    let (p1, b) = request(prog, p, c, params)->Ok_0;
    lemma_build(prog, p, c, params);
    lemma_finish(p, p2, base, key);
    assert(p2.known_in(p1));
    law_build_again_same_component(prog, p, p1, c, params);
}

// The key of a request

/// Whether each entry of `b` binds a signature parameter among `ps` to the
/// value at its own place in `vals`.
spec fn binds_in_order(ps: Seq<Param>, vals: Seq<u64>, b: Seq<(usize, u64)>) -> bool {
    &&& b.len() <= vals.len()
    &&& forall|j: int|
        0 <= j < b.len() ==> {
            &&& (#[trigger] b[j]).0 < ps.len()
            &&& ps[b[j].0 as int].sig_owned()
            &&& b[j].1 == vals[j]
        }
}

/// The binding that a request starts from binds signature parameters
/// only, to the values of the request in order.
proof fn lemma_bind_from(ps: Seq<Param>, vals: Seq<u64>, k: int, acc: Seq<(usize, u64)>)
    requires
        0 <= k,
        ps.len() <= usize::MAX,
        binds_in_order(ps, vals, acc),
        bind_from(ps, vals, k, acc) is Ok,
    ensures
        binds_in_order(ps, vals, bind_from(ps, vals, k, acc)->Ok_0),
        bind_from(ps, vals, k, acc)->Ok_0.len() == vals.len(),
    decreases ps.len() - k,
{
    if k < ps.len() {
        if ps[k].sig_owned() {
            lemma_bind_from(ps, vals, k + 1, acc.push((k as usize, vals[acc.len() as int])));
        } else {
            lemma_bind_from(ps, vals, k + 1, acc);
        }
    }
}

/// Of a binding that binds signature parameters only, every entry is
/// picked.
proof fn lemma_owned_all(ul: Component, vals: Seq<u64>, b: Seq<(usize, u64)>, k: int, acc: Seq<(usize, u64)>)
    requires
        0 <= k <= b.len(),
        binds_in_order(ul.params@, vals, b),
        acc == b.take(k),
    ensures
        owned(ul, b, k, acc) == Ok::<Seq<(usize, u64)>, Fault>(b),
    decreases b.len() - k,
{
    if k < b.len() {
        assert(b[k].0 < ul.params@.len());
        assert(b.take(k).push(b[k]) == b.take(k + 1));
        lemma_owned_all(ul, vals, b, k + 1, acc.push(b[k]));
    } else {
        assert(b.take(k) == b);
    }
}

/// The signature of a component is registered under the key of the
/// request: the values that the initial binding gives to the signature
/// parameters are the values of the request.
pub proof fn law_signature_key_is_request_key(ul: Component, params: Seq<u64>)
    requires
        initial_binding(ul, params) is Ok,
    ensures
        conc_params(ul, initial_binding(ul, params)->Ok_0) == Ok::<Seq<u64>, Fault>(params),
{
    let b = initial_binding(ul, params)->Ok_0;
    if ul.is_ext {
        assert(params =~= Seq::empty());
    } else {
        assert(ul.params.len() == ul.params@.len());
        lemma_bind_from(ul.params@, params, 0, Seq::empty());
        assert(b.take(0) =~= Seq::empty());
        lemma_owned_all(ul, params, b, 0, Seq::empty());
        assert(b.map_values(|e: (usize, u64)| e.1) =~= params);
    }
}

// Loops and scopes

/// A loop over an empty range of index values changes nothing.
pub proof fn law_unroll_empty_range(
    prog: Seq<Component>,
    c: usize,
    ul: Component,
    st: State,
    lp: Loop,
    i: u64,
    bound: u64,
)
    requires
        bound <= i,
    ensures
        unroll(prog, c, ul, st, lp, i, bound) == Ok::<State, Fault>(st),
{
}

/// Unrolling the index values `i..bound` is unrolling `i..k` and then
/// `k..bound`: the iterations come in ascending order of the index, one
/// for each value, and each starts from what the one before it left.
pub proof fn law_unroll_split(
    prog: Seq<Component>,
    c: usize,
    ul: Component,
    st: State,
    lp: Loop,
    i: u64,
    k: u64,
    bound: u64,
)
    requires
        i <= k <= bound,
    ensures
        unroll(prog, c, ul, st, lp, i, bound) == match unroll(prog, c, ul, st, lp, i, k) {
            Ok(st1) => unroll(prog, c, ul, st1, lp, k, bound),
            Err(f) => Err(f),
        },
    decreases k - i,
{
    if i < k {
        match commands(prog, c, ul, st.bind(lp.index, i), lp.body@, 0) {
            Ok(st1) => {
                law_unroll_split(prog, c, ul, st1.unbind(), lp, (i + 1) as u64, k, bound);
            },
            Err(_) => {},
        }
    }
}

/// One iteration of a loop: the body is translated, in the order of its
/// commands, with the index bound to `i`, and the binding is dropped.
pub open spec fn iteration(prog: Seq<Component>, c: usize, ul: Component, st: State, lp: Loop, i: u64) -> Result<
    State,
    Fault,
> {
    match commands(prog, c, ul, st.bind(lp.index, i), lp.body@, 0) {
        Ok(st1) => Ok(st1.unbind()),
        Err(f) => Err(f),
    }
}

/// Unrolling the index values `i..bound + 1` is unrolling `i..bound` and
/// then one iteration with the index bound to `bound`: the last value that
/// the index takes is the end of the range less one.
pub proof fn law_unroll_last(
    prog: Seq<Component>,
    c: usize,
    ul: Component,
    st: State,
    lp: Loop,
    i: u64,
    bound: u64,
)
    requires
        i <= bound < u64::MAX,
    ensures
        unroll(prog, c, ul, st, lp, i, (bound + 1) as u64) == match unroll(
            prog,
            c,
            ul,
            st,
            lp,
            i,
            bound,
        ) {
            Ok(st1) => iteration(prog, c, ul, st1, lp, bound),
            Err(f) => Err(f),
        },
{
    law_unroll_split(prog, c, ul, st, lp, i, bound, (bound + 1) as u64);
    match unroll(prog, c, ul, st, lp, i, bound) {
        Ok(st1) => {
            match commands(prog, c, ul, st1.bind(lp.index, bound), lp.body@, 0) {
                Ok(st2) => {
                    assert(unroll(prog, c, ul, st2.unbind(), lp, (bound + 1) as u64, (bound + 1) as u64)
                        == Ok::<State, Fault>(st2.unbind()));
                },
                Err(_) => {},
            }
        },
        Err(_) => {},
    }
}

/// The translation of a body leaves the binding as it found it: what a
/// loop binds is bound within its iterations only, and neither a later
/// command nor the scope around the loop sees it. The events and the
/// parameters of the signature are left alone as well.
pub proof fn law_binding_is_scoped(
    prog: Seq<Component>,
    c: usize,
    ul: Component,
    st: State,
    cmds: Seq<Command>,
)
    requires
        commands(prog, c, ul, st, cmds, 0) is Ok,
    ensures
        ({
            let st1 = commands(prog, c, ul, st, cmds, 0)->Ok_0;
            &&& st1.sig.binding == st.sig.binding
            &&& st1.sig.base.events == st.sig.base.events
            &&& st1.sig.base.params == st.sig.base.params
            &&& st1.sig.event_map == st.sig.event_map
        }),
{
    lemma_commands_frame(prog, c, ul, st, cmds, 0);
}

// Conditionals

/// A conditional is decided by what its translated condition resolves to:
/// true selects the first branch and nothing of the second, false the
/// second and nothing of the first, and a condition that stays undecided
/// is a fault.
pub proof fn law_conditional(prog: Seq<Component>, c: usize, ul: Component, st: State, ifs: If)
    requires
        st.sig.prop(ul, ifs.cond) is Ok,
        at(st.sig.prop(ul, ifs.cond)->Ok_0.0.base.props, st.sig.prop(ul, ifs.cond)->Ok_0.1) is Some,
    ensures
        ({
            let (s1, cond) = st.sig.prop(ul, ifs.cond)->Ok_0;
            let p = s1.base.props[cond as int];
            let next = st.with_sig(s1.with_base(s1.base.resolve_prop(p)));
            if_stmt(prog, c, ul, st, ifs) == match s1.base.truth(p, s1.base.props.len() as usize) {
                Some(true) => commands(prog, c, ul, next, ifs.then_cmds@, 0),
                Some(false) => commands(prog, c, ul, next, ifs.alt@, 0),
                None => Err(Fault::NonBoolCondition),
            }
        }),
{
}

/// A conditional follows its condition: where the condition holds under
/// the binding, the commands of the first branch are translated and none
/// of the second; where it does not hold, those of the second and none of
/// the first; and where it is not decided, the conditional is a fault.
pub proof fn law_conditional_follows_condition(
    prog: Seq<Component>,
    c: usize,
    ul: Component,
    st: State,
    ifs: If,
)
    requires
        st.sig.prop(ul, ifs.cond) is Ok,
        st.sig.prop(ul, ifs.cond)->Ok_0.0.base.fits(),
    ensures
        ({
            let (s1, cond) = st.sig.prop(ul, ifs.cond)->Ok_0;
            let next = st.with_sig(s1.with_base(s1.base.resolve_prop(s1.base.props[cond as int])));
            if_stmt(prog, c, ul, st, ifs) == match prop_value(ul, st.sig.binding, ifs.cond) {
                Some(true) => commands(prog, c, ul, next, ifs.then_cmds@, 0),
                Some(false) => commands(prog, c, ul, next, ifs.alt@, 0),
                None => Err(Fault::NonBoolCondition),
            }
        }),
{
    let (s1, cond) = st.sig.prop(ul, ifs.cond)->Ok_0;
    lemma_prop_truth(st.sig, ul, ifs.cond, s1.base, s1.base.props.len() as usize);
}

// External components

/// Building a signature appends no command.
proof fn lemma_signature_has_no_command(ul: Component, c: usize, st: State)
    requires
        sig(ul, c, st) is Ok,
    ensures
        sig(ul, c, st)->Ok_0.sig.base.cmds == st.sig.base.cmds,
{
    let conc = conc_params(ul, st.sig.binding)->Ok_0;
    let key = KeyView { comp: c, params: conc };
    let sa = events_first(ul, key, st, ul.events@.len() as int);
    let sd = if ul.is_ext {
        let sb = copy_exprs(ul, sa.sig, ul.exprs@.len() as int);
        lemma_ext_params(ul, sb, 0);
        let sc = ext_params(ul, sb, 0)->Ok_0;
        lemma_ext_ports(ul, c, State { sig: sc, pass: sa.pass }, 0);
        ext_ports(ul, c, State { sig: sc, pass: sa.pass }, 0)->Ok_0
    } else {
        lemma_sig_ports(ul, key, sa, 0);
        sig_ports(ul, key, sa, 0)->Ok_0
    };
    crate::frame::lemma_events_second_cmds(ul, sd.sig, sd.sig.event_map, 0);
}

/// Building an external component is building its signature.
proof fn lemma_build_without_body(prog: Seq<Component>, p: PassView, c: usize)
    requires
        c < prog.len(),
        prog[c as int].is_ext,
        prog[c as int].cmds@.len() == 0,
        build(prog, p, c, Seq::empty()) is Ok,
    ensures
        sig(prog[c as int], c, State { sig: SigView::start(Seq::empty()), pass: p.reserve() }) is Ok,
        build(prog, p, c, Seq::empty())->Ok_0.1 == sig(
            prog[c as int],
            c,
            State { sig: SigView::start(Seq::empty()), pass: p.reserve() },
        )->Ok_0.sig.base,
        build(prog, p, c, Seq::empty())->Ok_0.1.cmds.len() == 0,
{
    let ul = prog[c as int];
    assert(at(prog, c) == Some(ul));
    assert(initial_binding(ul, Seq::empty()) == Ok::<Seq<(usize, u64)>, Fault>(Seq::empty()));
    let st0 = State { sig: SigView::start(Seq::empty()), pass: p.reserve() };
    let st1 = sig(ul, c, st0)->Ok_0;
    assert(commands(prog, c, ul, st1, ul.cmds@, 0) == Ok::<State, Fault>(st1));
    lemma_signature_has_no_command(ul, c, st0);
}

/// The signature of an external component is a copy: the expressions are
/// those of the generic component, every parameter is there with its
/// owner, every event is there, and the ports are the signature ports of
/// the generic component, in order, each with its owner, which holds its
/// direction, and its width.
pub proof fn law_external_signature_is_copied(
    ul: Component,
    c: usize,
    binding: Seq<(usize, u64)>,
    pass: PassView,
)
    requires
        ul.is_ext,
        sig(ul, c, State { sig: SigView::start(binding), pass }) is Ok,
        sig(ul, c, State { sig: SigView::start(binding), pass })->Ok_0.sig.base.fits(),
    ensures
        ({
            let base = sig(ul, c, State { sig: SigView::start(binding), pass })->Ok_0.sig.base;
            let sp = signature_ports(ul.ports@, 0);
            &&& base.exprs == ul.exprs@
            &&& base.events.len() == ul.events@.len()
            &&& base.params.len() == ul.params@.len()
            &&& forall|k: int|
                0 <= k < ul.params@.len() ==> (#[trigger] base.params[k]).owner
                    == ul.params@[k].owner
            &&& base.ports.len() == sp.len()
            &&& forall|j: int|
                0 <= j < sp.len() ==> {
                    &&& (#[trigger] base.ports[j]).owner == sp[j].owner
                    &&& base.ports[j].width == sp[j].width
                }
        }),
{
    let st = State { sig: SigView::start(binding), pass };
    let key = KeyView { comp: c, params: Seq::empty() };
    let sa = events_first(ul, key, st, ul.events@.len() as int);
    let sb = copy_exprs(ul, sa.sig, ul.exprs@.len() as int);
    assert(sb.base.exprs =~= ul.exprs@);
    assert(sa.sig.base.events =~= ul.events@);
    lemma_ext_params(ul, sb, 0);
    let sc = ext_params(ul, sb, 0)->Ok_0;
    lemma_ext_ports(ul, c, State { sig: sc, pass: sa.pass }, 0);
    let sd = ext_ports(ul, c, State { sig: sc, pass: sa.pass }, 0)->Ok_0;
    let se = events_second(ul, sd.sig, sd.sig.event_map, 0)->Ok_0;
    assert(ul.events.len() == ul.events@.len());
    assert(sd.sig.event_map =~= sa.sig.event_map);
    lemma_events_second(ul, sd.sig, sd.sig.event_map, 0);
    let base = sig(ul, c, st)->Ok_0.sig.base;
    assert(base.params == sc.base.params);
    assert(base.ports == sd.sig.base.ports);
    assert forall|k: int| 0 <= k < ul.params@.len() implies (#[trigger] base.params[k]).owner
        == ul.params@[k].owner by {
        assert(sc.base.params[sb.base.params.len() + k - 0].owner == ul.params@[k].owner);
    }
    let sp = signature_ports(ul.ports@, 0);
    assert forall|j: int| 0 <= j < sp.len() implies {
        &&& (#[trigger] base.ports[j]).owner == sp[j].owner
        &&& base.ports[j].width == sp[j].width
    } by {
        assert(sd.sig.base.ports[sc.base.ports.len() + j].owner == sp[j].owner);
    }
}

/// A built external component is a copy of the generic one: it has the
/// expressions of the generic component, every parameter with its owner,
/// every event, and the signature ports in order, each with its owner,
/// which holds its direction, and its width. An external component has no
/// body, and a request for one gives no values.
pub proof fn law_external_component_is_copied(prog: Seq<Component>, p: PassView, c: usize)
    requires
        c < prog.len(),
        prog[c as int].is_ext,
        prog[c as int].cmds@.len() == 0,
        build(prog, p, c, Seq::empty()) is Ok,
        build(prog, p, c, Seq::empty())->Ok_0.1.fits(),
    ensures
        ({
            let ul = prog[c as int];
            let base = build(prog, p, c, Seq::empty())->Ok_0.1;
            let sp = signature_ports(ul.ports@, 0);
            &&& base.exprs == ul.exprs@
            &&& base.events.len() == ul.events@.len()
            &&& base.params.len() == ul.params@.len()
            &&& forall|k: int|
                0 <= k < ul.params@.len() ==> (#[trigger] base.params[k]).owner
                    == ul.params@[k].owner
            &&& base.ports.len() == sp.len()
            &&& forall|j: int|
                0 <= j < sp.len() ==> {
                    &&& (#[trigger] base.ports[j]).owner == sp[j].owner
                    &&& base.ports[j].width == sp[j].width
                }
            &&& base.cmds.len() == 0
        }),
{
    lemma_build_without_body(prog, p, c);
    law_external_signature_is_copied(prog[c as int], c, Seq::empty(), p.reserve());
}

// Events

/// In the table that sends each of the first `m` places to itself, each of
/// them is found.
proof fn lemma_identity_table(t: Seq<(usize, usize)>, e: usize)
    requires
        t.len() <= usize::MAX,
        forall|j: int| 0 <= j < t.len() ==> t[j] == (j as usize, j as usize),
        e < t.len(),
    ensures
        find_last(t, e) == Some(e),
    decreases t.len(),
{
    if t.last().0 != e {
        lemma_identity_table(t.drop_last(), e);
    }
}

/// What the identity table holds for a place is that place.
proof fn lemma_identity_value(t: Seq<(usize, usize)>, e: usize)
    requires
        forall|j: int| 0 <= j < t.len() ==> t[j] == (j as usize, j as usize),
        find_last(t, e) is Some,
    ensures
        find_last(t, e) == Some(e),
    decreases t.len(),
{
    if t.len() > 0 && t.last().0 != e {
        lemma_identity_value(t.drop_last(), e);
    }
}

/// After the signature is built from nothing, the event table sends each
/// place to itself.
proof fn lemma_table_is_identity(ul: Component, c: usize, st: State)
    requires
        st.sig.base.events.len() == 0,
        st.sig.event_map.len() == 0,
        sig(ul, c, st) is Ok,
    ensures
        ({
            let t = sig(ul, c, st)->Ok_0.sig.event_map;
            forall|j: int| 0 <= j < t.len() ==> t[j] == (j as usize, j as usize)
        }),
{
    let conc = conc_params(ul, st.sig.binding)->Ok_0;
    let key = KeyView { comp: c, params: conc };
    let sa = events_first(ul, key, st, ul.events@.len() as int);
    let sd = if ul.is_ext {
        let sb = copy_exprs(ul, sa.sig, ul.exprs@.len() as int);
        lemma_ext_params(ul, sb, 0);
        let sc = ext_params(ul, sb, 0)->Ok_0;
        lemma_ext_ports(ul, c, State { sig: sc, pass: sa.pass }, 0);
        ext_ports(ul, c, State { sig: sc, pass: sa.pass }, 0)->Ok_0
    } else {
        lemma_sig_ports(ul, key, sa, 0);
        sig_ports(ul, key, sa, 0)->Ok_0
    };
    assert(sd.sig.event_map =~= sa.sig.event_map);
    crate::frame::lemma_events_second_frame(ul, sd.sig, sd.sig.event_map, 0);
}

/// Whether the concrete event at `e` of `base` mentions the concrete
/// events of the events that the event at `e` of `ul` mentions: where the
/// delay of that event is the distance between two times, the delay of the
/// concrete event is the distance between two concrete times, each of the
/// concrete event at the place of the event that the time names.
pub open spec fn mentions_in_place(ul: Component, base: BaseView, e: int) -> bool {
    ul.events@[e].delay matches TimeSub::Sym { l, r } ==> {
        &&& base.events[e].delay matches TimeSub::Sym { l: l1, r: r1 }
        &&& l1 < base.times.len()
        &&& r1 < base.times.len()
        &&& base.times[l1 as int].event == ul.times@[l as int].event
        &&& base.times[r1 as int].event == ul.times@[r as int].event
    }
}

/// After the signature is built every event of the generic component has
/// its concrete event, at the same place, and each concrete event mentions
/// the concrete events of the events that the generic event at its place
/// mentions. Two events that mention each other thus give two concrete events that
/// mention each other.
pub proof fn law_events_mention_their_translations(
    ul: Component,
    c: usize,
    binding: Seq<(usize, u64)>,
    pass: PassView,
)
    requires
        sig(ul, c, State { sig: SigView::start(binding), pass }) is Ok,
        sig(ul, c, State { sig: SigView::start(binding), pass })->Ok_0.sig.base.fits(),
    ensures
        ({
            let t = sig(ul, c, State { sig: SigView::start(binding), pass })->Ok_0.sig;
            &&& t.base.events.len() == ul.events@.len()
            &&& forall|e: usize|
                e < ul.events@.len() ==> #[trigger] find_last(t.event_map, e) == Some(e)
            &&& forall|e: int| 0 <= e < ul.events@.len() ==> #[trigger] mentions(ul, t, e, e)
        }),
{
    let st = State { sig: SigView::start(binding), pass };
    let conc = conc_params(ul, binding)->Ok_0;
    let key = KeyView { comp: c, params: conc };
    let sa = events_first(ul, key, st, ul.events@.len() as int);
    assert(sa.sig.base.events =~= ul.events@);
    assert(ul.events.len() == ul.events@.len());
    let sd = if ul.is_ext {
        let sb = copy_exprs(ul, sa.sig, ul.exprs@.len() as int);
        lemma_ext_params(ul, sb, 0);
        let sc = ext_params(ul, sb, 0)->Ok_0;
        lemma_ext_ports(ul, c, State { sig: sc, pass: sa.pass }, 0);
        ext_ports(ul, c, State { sig: sc, pass: sa.pass }, 0)->Ok_0
    } else {
        lemma_sig_ports(ul, key, sa, 0);
        sig_ports(ul, key, sa, 0)->Ok_0
    };
    assert(sd.sig.event_map =~= sa.sig.event_map);
    let se = events_second(ul, sd.sig, sd.sig.event_map, 0)->Ok_0;
    lemma_events_second(ul, sd.sig, sd.sig.event_map, 0);
    let t = sig(ul, c, st)->Ok_0.sig;
    assert(t.event_map == sd.sig.event_map);
    assert(t.base.events == se.base.events);
    assert(t.base.times == se.base.times);
    assert forall|e: usize| e < ul.events@.len() implies #[trigger] find_last(t.event_map, e)
        == Some(e) by {
        lemma_identity_table(t.event_map, e);
    }
    assert forall|e: int| 0 <= e < ul.events@.len() implies #[trigger] mentions(ul, t, e, e) by {
        assert(mentions(ul, se, e, e));
    }
}

/// A built component has a concrete event for every event of the generic
/// component, at the same place, and each concrete event mentions the
/// concrete events of the events that the generic event mentions. Events
/// that mention each other, or themselves, are built like any other: no
/// event waits for another to be built.
pub proof fn law_component_events(prog: Seq<Component>, p: PassView, c: usize, params: Seq<u64>)
    requires
        c < prog.len(),
        build(prog, p, c, params) is Ok,
        build(prog, p, c, params)->Ok_0.1.fits(),
    ensures
        ({
            let ul = prog[c as int];
            let base = build(prog, p, c, params)->Ok_0.1;
            &&& base.events.len() == ul.events@.len()
            &&& forall|e: int| 0 <= e < ul.events@.len() ==> #[trigger] mentions_in_place(ul, base, e)
        }),
{
    let ul = prog[c as int];
    let binding = initial_binding(ul, params)->Ok_0;
    let st0 = State { sig: SigView::start(binding), pass: p.reserve() };
    let st1 = sig(ul, c, st0)->Ok_0;
    let st2 = commands(prog, c, ul, st1, ul.cmds@, 0)->Ok_0;
    lemma_commands_frame(prog, c, ul, st1, ul.cmds@, 0);
    assert(st1.sig.base.fits());
    law_events_mention_their_translations(ul, c, binding, p.reserve());
    let base = st2.sig.base;
    assert forall|e: int| 0 <= e < ul.events@.len() implies #[trigger] mentions_in_place(
        ul,
        base,
        e,
    ) by {
        assert(mentions(ul, st1.sig, e, e));
        match ul.events@[e].delay {
            TimeSub::Sym { l, r } => {
                let l1 = st1.sig.base.events[e].delay->l;
                let r1 = st1.sig.base.events[e].delay->r;
                assert(base.times[l1 as int] == st1.sig.base.times[l1 as int]);
                assert(base.times[r1 as int] == st1.sig.base.times[r1 as int]);
                lemma_table_is_identity(ul, c, st0);
                lemma_identity_value(st1.sig.event_map, ul.times@[l as int].event);
                lemma_identity_value(st1.sig.event_map, ul.times@[r as int].event);
            },
            _ => {},
        }
    }
}

} // verus!
