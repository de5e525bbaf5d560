//! A translation that succeeded succeeds again, with the same result, in
//! every later state of the pass: what it asked of the pass then, the pass
//! still answers in the same way.

use vstd::prelude::*;
use crate::base::concretes;
use crate::deferred::{
    command, commands, conc_params, copy_exprs, events_first, ext_params, ext_ports, forloop,
    if_stmt, inst_def, request, sig, sig_ports, unroll, State,
};
use crate::fault::Fault;
use crate::invariants::{lemma_command, lemma_commands, lemma_request, lemma_unroll};
use crate::ir::{at, BaseCmd, Command, Component, EventBind, If, Loop, PortOwner, Prop};
use crate::maps::{find_first, find_last, lemma_first_stays, lemma_key_stays, KeyView};
use crate::monosig::SigView;
use crate::pass::PassView;

verus! {

/// Being known in a later state composes.
pub proof fn lemma_known_trans(p: PassView, q: PassView, r: PassView)
    requires
        p.known_in(q),
        q.known_in(r),
    ensures
        p.known_in(r),
{
}

/// The owner of a port is translated in a later state of the pass as
/// before.
pub proof fn lemma_owner_again(s: SigView, p: PassView, q: PassView, o: PortOwner)
    requires
        s.owner(p, o) is Ok,
        p.known_in(q),
    ensures
        s.owner(q, o) == s.owner(p, o),
{
    match o {
        PortOwner::Inv { inv, dir, base } => {
            let n = find_last(s.inv_map, inv)->Some_0;
            let iv = at(s.base.invokes, n)->Some_0;
            let inst = at(s.base.instances, iv.inst)->Some_0;
            lemma_key_stays(p.processed, q.processed, inst.comp, 0);
            let key = s.callee_key(p, n)->Some_0;
            lemma_first_stays(p.port_map, q.port_map, (key, base), 0);
        },
        _ => {},
    }
}

/// A port is translated in a later state of the pass as before.
pub proof fn lemma_port_def_again(s: SigView, ul: Component, p: PassView, q: PassView, k: usize)
    requires
        s.port_def(ul, p, k) is Ok,
        p.known_in(q),
    ensures
        s.port_def(ul, q, k) == s.port_def(ul, p, k),
{
    let port = at(ul.ports@, k)->Some_0;
    lemma_owner_again(s, p, q, port.owner);
}

/// Event bindings are translated in a later state of the pass as before.
pub proof fn lemma_event_binds_again(
    s: SigView,
    ul: Component,
    p: PassView,
    q: PassView,
    key: KeyView,
    binds: Seq<EventBind>,
    k: int,
    acc: Seq<EventBind>,
)
    requires
        s.event_binds(ul, p, key, binds, k, acc) is Ok,
        p.known_in(q),
    ensures
        s.event_binds(ul, q, key, binds, k, acc) == s.event_binds(ul, p, key, binds, k, acc),
    decreases binds.len() - k,
{
    if 0 <= k < binds.len() {
        lemma_first_stays(p.event_map, q.event_map, (key, binds[k].base), 0);
        let base = find_first(p.event_map, (key, binds[k].base))->Some_0;
        let (s1, arg) = s.time(ul, binds[k].arg)->Ok_0;
        lemma_event_binds_again(s1, ul, p, q, key, binds, k + 1, acc.push(EventBind { base, arg }));
    }
}

/// An invocation is translated in a later state of the pass as before.
pub proof fn lemma_inv_def_again(s: SigView, ul: Component, p: PassView, q: PassView, i: usize)
    requires
        s.inv_def(ul, p, i) is Ok,
        p.known_in(q),
    ensures
        s.inv_def(ul, q, i) == s.inv_def(ul, p, i),
{
    let inv = at(ul.invokes@, i)->Some_0;
    let inst = find_last(s.inst_map, inv.inst)->Some_0;
    let x = at(s.base.instances, inst)->Some_0;
    lemma_key_stays(p.processed, q.processed, x.comp, 0);
    let key = s.instance_key(p, inst)->Some_0;
    lemma_event_binds_again(s, ul, p, q, key, inv.events@, 0, Seq::empty());
}

/// An instance is translated in a later state of the pass as before, and
/// the later state is left as it is: the component that the instance names
/// is on record there.
pub proof fn lemma_inst_def_again(
    prog: Seq<Component>,
    c: usize,
    ul: Component,
    st: State,
    i: usize,
    q: PassView,
)
    requires
        st.pass.wf(),
        inst_def(prog, c, ul, st, i) is Ok,
        inst_def(prog, c, ul, st, i)->Ok_0.0.pass.fits(),
        inst_def(prog, c, ul, st, i)->Ok_0.0.pass.known_in(q),
    ensures
        ({
            let (st1, n) = inst_def(prog, c, ul, st, i)->Ok_0;
            inst_def(prog, c, ul, State { sig: st.sig, pass: q }, i) == Ok::<(State, usize), Fault>(
                (State { sig: st1.sig, pass: q }, n),
            )
        }),
{
    let inst = at(ul.instances@, i)->Some_0;
    let callee = at(prog, inst.comp)->Some_0;
    let (s1, args) = st.sig.exprs(ul, inst.params@, 0, Seq::empty())->Ok_0;
    let vals = if callee.is_ext {
        Seq::<u64>::empty()
    } else {
        concretes(s1.base, args, 0, Seq::empty())->Some_0
    };
    lemma_request(prog, st.pass, inst.comp, vals);
    let (p1, b) = request(prog, st.pass, inst.comp, vals)->Ok_0;
    lemma_first_stays(p1.processed, q.processed, KeyView { comp: inst.comp, params: vals }, 0);
    assert(request(prog, q, inst.comp, vals) == Ok::<(PassView, usize), Fault>((q, b)));
}

/// A command is translated in a later state of the pass as before, and
/// the later state is left as it is.
pub proof fn lemma_command_again(
    prog: Seq<Component>,
    c: usize,
    ul: Component,
    st: State,
    cmd: Command,
    q: PassView,
)
    requires
        st.pass.wf(),
        command(prog, c, ul, st, cmd) is Ok,
        command(prog, c, ul, st, cmd)->Ok_0.0.pass.fits(),
        command(prog, c, ul, st, cmd)->Ok_0.0.pass.known_in(q),
    ensures
        ({
            let (st1, out) = command(prog, c, ul, st, cmd)->Ok_0;
            command(prog, c, ul, State { sig: st.sig, pass: q }, cmd) == Ok::<
                (State, Option<BaseCmd>),
                Fault,
            >((State { sig: st1.sig, pass: q }, out))
        }),
    decreases c, 1nat, cmd, 0nat, 0nat,
{
    lemma_command(prog, c, ul, st, cmd);
    match cmd {
        Command::Instance(i) => {
            lemma_inst_def_again(prog, c, ul, st, i, q);
        },
        Command::Invoke(i) => {
            lemma_inv_def_again(st.sig, ul, st.pass, q, i);
        },
        Command::BundleDef(p) => {
            lemma_port_def_again(st.sig, ul, st.pass, q, p);
        },
        Command::ForLoop(lp) => {
            lemma_forloop_again(prog, c, ul, st, lp, q);
        },
        Command::If(ifs) => {
            lemma_if_stmt_again(prog, c, ul, st, ifs, q);
        },
        _ => {},
    }
}

/// Commands are translated in a later state of the pass as before, and the
/// later state is left as it is.
pub proof fn lemma_commands_again(
    prog: Seq<Component>,
    c: usize,
    ul: Component,
    st: State,
    cmds: Seq<Command>,
    k: int,
    q: PassView,
)
    requires
        st.pass.wf(),
        commands(prog, c, ul, st, cmds, k) is Ok,
        commands(prog, c, ul, st, cmds, k)->Ok_0.pass.fits(),
        commands(prog, c, ul, st, cmds, k)->Ok_0.pass.known_in(q),
    ensures
        commands(prog, c, ul, State { sig: st.sig, pass: q }, cmds, k) == Ok::<State, Fault>(
            State { sig: commands(prog, c, ul, st, cmds, k)->Ok_0.sig, pass: q },
        ),
    decreases c, 1nat, cmds, 0nat, cmds.len() - k,
{
    if 0 <= k < cmds.len() {
        let (st1, out) = command(prog, c, ul, st, cmds[k])->Ok_0;
        lemma_commands(prog, c, ul, st1.emit(out), cmds, k + 1);
        let st2 = commands(prog, c, ul, st1.emit(out), cmds, k + 1)->Ok_0;
        lemma_command(prog, c, ul, st, cmds[k]);
        lemma_command_again(prog, c, ul, st, cmds[k], q);
        lemma_commands_again(prog, c, ul, st1.emit(out), cmds, k + 1, q);
        assert((State { sig: st1.sig, pass: q }).emit(out) == State {
            sig: st1.emit(out).sig,
            pass: q,
        });
    }
}

/// A loop is unrolled in a later state of the pass as before, and the
/// later state is left as it is.
pub proof fn lemma_unroll_again(
    prog: Seq<Component>,
    c: usize,
    ul: Component,
    st: State,
    lp: Loop,
    i: u64,
    bound: u64,
    q: PassView,
)
    requires
        st.pass.wf(),
        unroll(prog, c, ul, st, lp, i, bound) is Ok,
        unroll(prog, c, ul, st, lp, i, bound)->Ok_0.pass.fits(),
        unroll(prog, c, ul, st, lp, i, bound)->Ok_0.pass.known_in(q),
    ensures
        unroll(prog, c, ul, State { sig: st.sig, pass: q }, lp, i, bound) == Ok::<State, Fault>(
            State { sig: unroll(prog, c, ul, st, lp, i, bound)->Ok_0.sig, pass: q },
        ),
    decreases c, 1nat, lp, 0nat, bound - i,
{
    if i < bound {
        let st1 = commands(prog, c, ul, st.bind(lp.index, i), lp.body@, 0)->Ok_0;
        lemma_unroll(prog, c, ul, st1.unbind(), lp, (i + 1) as u64, bound);
        lemma_commands(prog, c, ul, st.bind(lp.index, i), lp.body@, 0);
        lemma_commands_again(prog, c, ul, st.bind(lp.index, i), lp.body@, 0, q);
        lemma_unroll_again(prog, c, ul, st1.unbind(), lp, (i + 1) as u64, bound, q);
        assert((State { sig: st.sig, pass: q }).bind(lp.index, i) == State {
            sig: st.bind(lp.index, i).sig,
            pass: q,
        });
        assert((State { sig: st1.sig, pass: q }).unbind() == State {
            sig: st1.unbind().sig,
            pass: q,
        });
    }
}

/// A loop is translated in a later state of the pass as before, and the
/// later state is left as it is.
pub proof fn lemma_forloop_again(
    prog: Seq<Component>,
    c: usize,
    ul: Component,
    st: State,
    lp: Loop,
    q: PassView,
)
    requires
        st.pass.wf(),
        forloop(prog, c, ul, st, lp) is Ok,
        forloop(prog, c, ul, st, lp)->Ok_0.pass.fits(),
        forloop(prog, c, ul, st, lp)->Ok_0.pass.known_in(q),
    ensures
        forloop(prog, c, ul, State { sig: st.sig, pass: q }, lp) == Ok::<State, Fault>(
            State { sig: forloop(prog, c, ul, st, lp)->Ok_0.sig, pass: q },
        ),
    decreases c, 1nat, lp, 1nat, 0nat,
{
    let (s1, start) = st.sig.expr(ul, lp.start)->Ok_0;
    let (s2, end) = s1.expr(ul, lp.end)->Ok_0;
    let i = s2.base.concrete(start)->Some_0;
    let bound = s2.base.concrete(end)->Some_0;
    lemma_unroll_again(prog, c, ul, st.with_sig(s2), lp, i, bound, q);
    assert((State { sig: st.sig, pass: q }).with_sig(s2) == State { sig: s2, pass: q });
}

/// A conditional is translated in a later state of the pass as before,
/// and the later state is left as it is.
pub proof fn lemma_if_stmt_again(
    prog: Seq<Component>,
    c: usize,
    ul: Component,
    st: State,
    ifs: If,
    q: PassView,
)
    requires
        st.pass.wf(),
        if_stmt(prog, c, ul, st, ifs) is Ok,
        if_stmt(prog, c, ul, st, ifs)->Ok_0.pass.fits(),
        if_stmt(prog, c, ul, st, ifs)->Ok_0.pass.known_in(q),
    ensures
        if_stmt(prog, c, ul, State { sig: st.sig, pass: q }, ifs) == Ok::<State, Fault>(
            State { sig: if_stmt(prog, c, ul, st, ifs)->Ok_0.sig, pass: q },
        ),
    decreases c, 1nat, ifs, 0nat, 0nat,
{
    let (s1, cond) = st.sig.prop(ul, ifs.cond)->Ok_0;
    let p = at(s1.base.props, cond)->Some_0;
    let s2 = s1.with_base(s1.base.resolve_prop(p));
    assert((State { sig: st.sig, pass: q }).with_sig(s2) == State { sig: s2, pass: q });
    match s1.base.resolve(p) {
        Prop::True => {
            lemma_commands_again(prog, c, ul, st.with_sig(s2), ifs.then_cmds@, 0, q);
        },
        Prop::False => {
            lemma_commands_again(prog, c, ul, st.with_sig(s2), ifs.alt@, 0, q);
        },
        _ => {},
    }
}

/// Copying the signature ports of an external component asks nothing of
/// the pass: in any state of the pass it gives the same translation, and
/// the pass keeps what it held.
pub proof fn lemma_ext_ports_any(ul: Component, c: usize, st: State, k: int, q: PassView)
    requires
        ext_ports(ul, c, st, k) is Ok,
    ensures
        ext_ports(ul, c, State { sig: st.sig, pass: q }, k) is Ok,
        ext_ports(ul, c, State { sig: st.sig, pass: q }, k)->Ok_0.sig == ext_ports(
            ul,
            c,
            st,
            k,
        )->Ok_0.sig,
    decreases ul.ports@.len() - k,
{
    if 0 <= k < ul.ports@.len() {
        if ul.ports@[k].sig() {
            let (s1, n) = st.sig.ext_port_local(ul, k as usize)->Ok_0;
            let key = KeyView { comp: c, params: Seq::empty() };
            lemma_ext_ports_any(
                ul,
                c,
                State { sig: s1, pass: st.pass.add_port(key, k as usize, n) },
                k + 1,
                q.add_port(key, k as usize, n),
            );
        } else {
            lemma_ext_ports_any(ul, c, st, k + 1, q);
        }
    }
}

/// Translating the signature ports asks nothing of the pass: in any state
/// of the pass it gives the same translation.
pub proof fn lemma_sig_ports_any(ul: Component, key: KeyView, st: State, k: int, q: PassView)
    requires
        sig_ports(ul, key, st, k) is Ok,
    ensures
        sig_ports(ul, key, State { sig: st.sig, pass: q }, k) is Ok,
        sig_ports(ul, key, State { sig: st.sig, pass: q }, k)->Ok_0.sig == sig_ports(
            ul,
            key,
            st,
            k,
        )->Ok_0.sig,
    decreases ul.ports@.len() - k,
{
    if 0 <= k < ul.ports@.len() {
        if ul.ports@[k].sig() {
            let (s1, n) = st.sig.port_def(ul, st.pass, k as usize)->Ok_0;
            assert(ul.ports.len() == ul.ports@.len());
            assert(at(ul.ports@, k as usize) == Some(ul.ports@[k]));
            assert(st.sig.port_def(ul, q, k as usize) == st.sig.port_def(ul, st.pass, k as usize));
            lemma_sig_ports_any(
                ul,
                key,
                State { sig: s1, pass: st.pass.add_port(key, k as usize, n) },
                k + 1,
                q.add_port(key, k as usize, n),
            );
        } else {
            lemma_sig_ports_any(ul, key, st, k + 1, q);
        }
    }
}

/// Building a signature asks nothing of the pass: in any state of the
/// pass it gives the same translation, and the pass keeps what it held.
pub proof fn lemma_sig_any(ul: Component, c: usize, st: State, q: PassView)
    requires
        sig(ul, c, st) is Ok,
    ensures
        sig(ul, c, State { sig: st.sig, pass: q }) is Ok,
        sig(ul, c, State { sig: st.sig, pass: q })->Ok_0.sig == sig(ul, c, st)->Ok_0.sig,
{
    let conc = conc_params(ul, st.sig.binding)->Ok_0;
    let key = KeyView { comp: c, params: conc };
    let m = ul.events@.len() as int;
    let a = events_first(ul, key, st, m);
    let b = events_first(ul, key, State { sig: st.sig, pass: q }, m);
    assert(b.sig == a.sig);
    if ul.is_ext {
        let s2 = ext_params(ul, copy_exprs(ul, a.sig, ul.exprs@.len() as int), 0)->Ok_0;
        lemma_ext_ports_any(ul, c, State { sig: s2, pass: a.pass }, 0, b.pass);
    } else {
        lemma_sig_ports_any(ul, key, a, 0, b.pass);
    }
}

} // verus!
