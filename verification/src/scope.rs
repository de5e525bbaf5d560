//! What the translation of a body leaves alone: the events and the
//! parameters of the signature, and the binding, which every loop leaves as
//! it found it.

use vstd::prelude::*;
use crate::base::concretes;
use crate::deferred::{
    command, commands, forloop, if_stmt, inst_def, push_instance, request, unroll, State,
};
use crate::frame::{
    lemma_connect, lemma_expr, lemma_info, lemma_port_def, lemma_prop, lemma_time,
};
use crate::ir::{at, Command, Component, EventBind, If, InstanceView, Loop, Prop};
use crate::maps::{find_first, find_last, prefix, KeyView};
use crate::monosig::SigView;
use crate::pass::PassView;

verus! {

impl SigView {
    /// `t` has the binding, the events, the parameters and the tables of
    /// these that `self` has, and every other store and table of `t`
    /// begins with what it held in `self`.
    pub open spec fn body_frame(self, t: SigView) -> bool {
        &&& t.binding == self.binding
        &&& t.event_map == self.event_map
        &&& t.param_map == self.param_map
        &&& t.base.events == self.base.events
        &&& t.base.params == self.base.params
        &&& t.base.src_info == self.base.src_info
        &&& t.base.unannotated_ports == self.base.unannotated_ports
        &&& prefix(self.base.exprs, t.base.exprs)
        &&& prefix(self.base.times, t.base.times)
        &&& prefix(self.base.props, t.base.props)
        &&& prefix(self.base.infos, t.base.infos)
        &&& prefix(self.base.ports, t.base.ports)
        &&& prefix(self.base.instances, t.base.instances)
        &&& prefix(self.base.invokes, t.base.invokes)
        &&& prefix(self.base.cmds, t.base.cmds)
        &&& prefix(self.port_map, t.port_map)
        &&& prefix(self.inst_map, t.inst_map)
        &&& prefix(self.inv_map, t.inv_map)
    }
}

/// The frame of a body composes.
pub proof fn lemma_body_frame_trans(s: SigView, t: SigView, u: SigView)
    requires
        s.body_frame(t),
        t.body_frame(u),
    ensures
        s.body_frame(u),
{
}

/// Translating a list of expressions adds expressions and nothing else.
pub proof fn lemma_exprs(s: SigView, ul: Component, es: Seq<usize>, k: int, acc: Seq<usize>)
    requires
        s.exprs(ul, es, k, acc) is Ok,
    ensures
        s.values_grow(s.exprs(ul, es, k, acc)->Ok_0.0),
    decreases es.len() - k,
{
    if 0 <= k < es.len() {
        lemma_expr(s, ul, es[k]);
        let (s1, i) = s.expr(ul, es[k])->Ok_0;
        lemma_exprs(s1, ul, es, k + 1, acc.push(i));
    }
}

/// Translating event bindings adds expressions and times, and nothing
/// else.
pub proof fn lemma_event_binds(
    s: SigView,
    ul: Component,
    pass: PassView,
    key: KeyView,
    binds: Seq<EventBind>,
    k: int,
    acc: Seq<EventBind>,
)
    requires
        s.event_binds(ul, pass, key, binds, k, acc) is Ok,
    ensures
        s.values_grow(s.event_binds(ul, pass, key, binds, k, acc)->Ok_0.0),
    decreases binds.len() - k,
{
    if 0 <= k < binds.len() {
        let base = find_first(pass.event_map, (key, binds[k].base))->Some_0;
        lemma_time(s, ul, binds[k].arg);
        let (s1, arg) = s.time(ul, binds[k].arg)->Ok_0;
        lemma_event_binds(s1, ul, pass, key, binds, k + 1, acc.push(EventBind { base, arg }));
    }
}

/// Translating an invocation stays within the frame of a body.
pub proof fn lemma_inv_def(s: SigView, ul: Component, pass: PassView, i: usize)
    requires
        s.inv_def(ul, pass, i) is Ok,
    ensures
        s.body_frame(s.inv_def(ul, pass, i)->Ok_0.0),
{
    let inv = at(ul.invokes@, i)->Some_0;
    let inst = find_last(s.inst_map, inv.inst)->Some_0;
    let key = s.instance_key(pass, inst)->Some_0;
    lemma_event_binds(s, ul, pass, key, inv.events@, 0, Seq::empty());
    let (s1, events) = s.event_binds(ul, pass, key, inv.events@, 0, Seq::empty())->Ok_0;
    lemma_info(s1, ul, inv.info);
}

/// Translating a bundle stays within the frame of a body.
pub proof fn lemma_bundle(s: SigView, ul: Component, pass: PassView, p: usize)
    requires
        s.port_def(ul, pass, p) is Ok,
    ensures
        s.body_frame(s.port_def(ul, pass, p)->Ok_0.0),
{
    lemma_port_def(s, ul, pass, p);
    let port = at(ul.ports@, p)->Some_0;
    lemma_expr(s, ul, port.width);
    let (s1, width) = s.expr(ul, port.width)->Ok_0;
    lemma_time(s1, ul, port.live.start);
    let (s2, start) = s1.time(ul, port.live.start)->Ok_0;
    lemma_time(s2, ul, port.live.end);
    let (s3, end) = s2.time(ul, port.live.end)->Ok_0;
    lemma_info(s3, ul, port.info);
}

/// Translating an instance stays within the frame of a body.
pub proof fn lemma_instance(prog: Seq<Component>, c: usize, ul: Component, st: State, i: usize)
    requires
        inst_def(prog, c, ul, st, i) is Ok,
    ensures
        st.sig.body_frame(inst_def(prog, c, ul, st, i)->Ok_0.0.sig),
{
    let inst = at(ul.instances@, i)->Some_0;
    lemma_exprs(st.sig, ul, inst.params@, 0, Seq::empty());
    let (s1, args) = st.sig.exprs(ul, inst.params@, 0, Seq::empty())->Ok_0;
    lemma_info(s1, ul, inst.info);
}

/// Translating a command stays within the frame of a body.
pub proof fn lemma_command_frame(prog: Seq<Component>, c: usize, ul: Component, st: State, cmd: Command)
    requires
        command(prog, c, ul, st, cmd) is Ok,
    ensures
        st.sig.body_frame(command(prog, c, ul, st, cmd)->Ok_0.0.sig),
    decreases cmd, 0nat, 0nat,
{
    match cmd {
        Command::Instance(i) => {
            lemma_instance(prog, c, ul, st, i);
        },
        Command::Invoke(i) => {
            lemma_inv_def(st.sig, ul, st.pass, i);
        },
        Command::BundleDef(p) => {
            lemma_bundle(st.sig, ul, st.pass, p);
        },
        Command::Connect(con) => {
            lemma_connect(st.sig, ul, con);
        },
        Command::ForLoop(lp) => {
            lemma_forloop_frame(prog, c, ul, st, lp);
        },
        Command::If(ifs) => {
            lemma_if_frame(prog, c, ul, st, ifs);
        },
        _ => {},
    }
}

/// Translating commands stays within the frame of a body.
pub proof fn lemma_commands_frame(
    prog: Seq<Component>,
    c: usize,
    ul: Component,
    st: State,
    cmds: Seq<Command>,
    k: int,
)
    requires
        commands(prog, c, ul, st, cmds, k) is Ok,
    ensures
        st.sig.body_frame(commands(prog, c, ul, st, cmds, k)->Ok_0.sig),
    decreases cmds, 0nat, cmds.len() - k,
{
    if 0 <= k < cmds.len() {
        lemma_command_frame(prog, c, ul, st, cmds[k]);
        let (st1, out) = command(prog, c, ul, st, cmds[k])->Ok_0;
        lemma_commands_frame(prog, c, ul, st1.emit(out), cmds, k + 1);
        let st2 = commands(prog, c, ul, st1.emit(out), cmds, k + 1)->Ok_0;
        assert(st1.sig.body_frame(st1.emit(out).sig));
        lemma_body_frame_trans(st.sig, st1.sig, st1.emit(out).sig);
        lemma_body_frame_trans(st.sig, st1.emit(out).sig, st2.sig);
    }
}

/// Unrolling stays within the frame of a body: each iteration leaves the
/// binding as it found it.
pub proof fn lemma_unroll_frame(
    prog: Seq<Component>,
    c: usize,
    ul: Component,
    st: State,
    lp: Loop,
    i: u64,
    bound: u64,
)
    requires
        unroll(prog, c, ul, st, lp, i, bound) is Ok,
    ensures
        st.sig.body_frame(unroll(prog, c, ul, st, lp, i, bound)->Ok_0.sig),
    decreases lp, 0nat, bound - i,
{
    if i < bound {
        let inner = st.bind(lp.index, i);
        lemma_commands_frame(prog, c, ul, inner, lp.body@, 0);
        let st1 = commands(prog, c, ul, inner, lp.body@, 0)->Ok_0;
        assert(st.sig.binding.push((lp.index, i)).drop_last() =~= st.sig.binding);
        assert(st.sig.body_frame(st1.unbind().sig));
        lemma_unroll_frame(prog, c, ul, st1.unbind(), lp, (i + 1) as u64, bound);
        let st2 = unroll(prog, c, ul, st1.unbind(), lp, (i + 1) as u64, bound)->Ok_0;
        lemma_body_frame_trans(st.sig, st1.unbind().sig, st2.sig);
    }
}

/// Translating a loop stays within the frame of a body.
pub proof fn lemma_forloop_frame(prog: Seq<Component>, c: usize, ul: Component, st: State, lp: Loop)
    requires
        forloop(prog, c, ul, st, lp) is Ok,
    ensures
        st.sig.body_frame(forloop(prog, c, ul, st, lp)->Ok_0.sig),
    decreases lp, 1nat, 0nat,
{
    lemma_expr(st.sig, ul, lp.start);
    let (s1, start) = st.sig.expr(ul, lp.start)->Ok_0;
    lemma_expr(s1, ul, lp.end);
    let (s2, end) = s1.expr(ul, lp.end)->Ok_0;
    let i = s2.base.concrete(start)->Some_0;
    let bound = s2.base.concrete(end)->Some_0;
    lemma_unroll_frame(prog, c, ul, st.with_sig(s2), lp, i, bound);
    let st1 = unroll(prog, c, ul, st.with_sig(s2), lp, i, bound)->Ok_0;
    lemma_body_frame_trans(st.sig, s2, st1.sig);
}

/// Translating a conditional stays within the frame of a body.
pub proof fn lemma_if_frame(prog: Seq<Component>, c: usize, ul: Component, st: State, ifs: If)
    requires
        if_stmt(prog, c, ul, st, ifs) is Ok,
    ensures
        st.sig.body_frame(if_stmt(prog, c, ul, st, ifs)->Ok_0.sig),
    decreases ifs, 0nat, 0nat,
{
    lemma_prop(st.sig, ul, ifs.cond);
    let (s1, cond) = st.sig.prop(ul, ifs.cond)->Ok_0;
    let p = at(s1.base.props, cond)->Some_0;
    let s2 = s1.with_base(s1.base.resolve_prop(p));
    assert(st.sig.body_frame(s2));
    match s1.base.resolve(p) {
        Prop::True => {
            lemma_commands_frame(prog, c, ul, st.with_sig(s2), ifs.then_cmds@, 0);
            let st1 = commands(prog, c, ul, st.with_sig(s2), ifs.then_cmds@, 0)->Ok_0;
            lemma_body_frame_trans(st.sig, s2, st1.sig);
        },
        Prop::False => {
            lemma_commands_frame(prog, c, ul, st.with_sig(s2), ifs.alt@, 0);
            let st1 = commands(prog, c, ul, st.with_sig(s2), ifs.alt@, 0)->Ok_0;
            lemma_body_frame_trans(st.sig, s2, st1.sig);
        },
        _ => {},
    }
}

} // verus!
