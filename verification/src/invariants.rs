//! What every state of the pass satisfies, and how a state relates to the
//! states that come after it.

use vstd::prelude::*;
use crate::base::{concretes, BaseView};
use crate::deferred::{
    build, command, commands, conc_params, copy_exprs, events_first, ext_params, ext_ports,
    forloop, if_stmt, initial_binding, inst_def, request, sig, sig_ports, unroll, State,
};
use crate::ir::{at, Command, Component, If, Loop, Prop};
use crate::maps::{find_first, first_from, lemma_first_is_entry, lemma_first_push, prefix, KeyView};
use crate::monosig::SigView;
use crate::pass::PassView;

verus! {

impl PassView {
    /// Every recorded component is stored, and no two records name the
    /// same one.
    pub open spec fn wf(self) -> bool {
        &&& forall|i: int|
            0 <= i < self.processed.len() ==> (#[trigger] self.processed[i]).1 < self.ctx.len()
        &&& forall|i: int, j: int|
            0 <= i < j < self.processed.len() ==> (#[trigger] self.processed[i]).1 != (
            #[trigger] self.processed[j]).1
    }

    /// The concrete components are no more than a machine can count.
    pub open spec fn fits(self) -> bool {
        self.ctx.len() <= usize::MAX
    }

    /// `q` has every entry of `self`, in the same place.
    pub open spec fn known_in(self, q: PassView) -> bool {
        &&& prefix(self.processed, q.processed)
        &&& prefix(self.event_map, q.event_map)
        &&& prefix(self.port_map, q.port_map)
    }

    /// `q` came after `self` by answering requests for components stored
    /// before `c`: nothing that was there is gone, and what was recorded
    /// since is for such components and stored in room made since.
    pub open spec fn grows(self, q: PassView, c: int) -> bool {
        &&& self.ctx.len() <= q.ctx.len()
        &&& self.known_in(q)
        &&& forall|i: int|
            self.processed.len() <= i < q.processed.len() ==> {
                &&& (#[trigger] q.processed[i]).0.comp < c
                &&& self.ctx.len() <= q.processed[i].1
            }
    }
}

/// A key that is not recorded, and that no entry made since is under, is
/// still not recorded.
pub proof fn lemma_first_none<K, V>(a: Seq<(K, V)>, b: Seq<(K, V)>, k: K, i: int)
    requires
        prefix(a, b),
        0 <= i,
        first_from(a, k, i) is None,
        forall|j: int| a.len() <= j < b.len() ==> (#[trigger] b[j]).0 != k,
    ensures
        first_from(b, k, i) is None,
    decreases b.len() - i,
{
    if i < b.len() {
        if i < a.len() {
            assert(a[i] == b[i]);
        }
        lemma_first_none(a, b, k, i + 1);
    }
}

/// Copying the signature ports of an external component leaves the pass
/// as it is but for its port table, which gets longer.
pub proof fn lemma_ext_ports_pass(ul: Component, c: usize, st: State, k: int)
    requires
        ext_ports(ul, c, st, k) is Ok,
    ensures
        ({
            let st1 = ext_ports(ul, c, st, k)->Ok_0;
            &&& st1.pass.ctx == st.pass.ctx
            &&& st1.pass.processed == st.pass.processed
            &&& st1.pass.event_map == st.pass.event_map
            &&& prefix(st.pass.port_map, st1.pass.port_map)
        }),
    decreases ul.ports@.len() - k,
{
    if 0 <= k < ul.ports@.len() {
        if ul.ports@[k].sig() {
            let (s1, n) = st.sig.ext_port_local(ul, k as usize)->Ok_0;
            let next = State {
                sig: s1,
                pass: st.pass.add_port(KeyView { comp: c, params: Seq::empty() }, k as usize, n),
            };
            lemma_ext_ports_pass(ul, c, next, k + 1);
        } else {
            lemma_ext_ports_pass(ul, c, st, k + 1);
        }
    }
}

/// Translating the signature ports of a component leaves the pass as it
/// is but for its port table, which gets longer.
pub proof fn lemma_sig_ports_pass(ul: Component, key: KeyView, st: State, k: int)
    requires
        sig_ports(ul, key, st, k) is Ok,
    ensures
        ({
            let st1 = sig_ports(ul, key, st, k)->Ok_0;
            &&& st1.pass.ctx == st.pass.ctx
            &&& st1.pass.processed == st.pass.processed
            &&& st1.pass.event_map == st.pass.event_map
            &&& prefix(st.pass.port_map, st1.pass.port_map)
        }),
    decreases ul.ports@.len() - k,
{
    if 0 <= k < ul.ports@.len() {
        if ul.ports@[k].sig() {
            let (s1, n) = st.sig.port_def(ul, st.pass, k as usize)->Ok_0;
            let next = State { sig: s1, pass: st.pass.add_port(key, k as usize, n) };
            lemma_sig_ports_pass(ul, key, next, k + 1);
        } else {
            lemma_sig_ports_pass(ul, key, st, k + 1);
        }
    }
}

/// Building a signature records no component and makes no room: only the
/// event table and the port table of the pass get longer.
pub proof fn lemma_sig_pass(ul: Component, c: usize, st: State)
    requires
        sig(ul, c, st) is Ok,
    ensures
        ({
            let st1 = sig(ul, c, st)->Ok_0;
            &&& st1.pass.ctx == st.pass.ctx
            &&& st1.pass.processed == st.pass.processed
            &&& prefix(st.pass.event_map, st1.pass.event_map)
            &&& prefix(st.pass.port_map, st1.pass.port_map)
        }),
{
    let conc = conc_params(ul, st.sig.binding)->Ok_0;
    let key = KeyView { comp: c, params: conc };
    let st1 = events_first(ul, key, st, ul.events@.len() as int);
    if ul.is_ext {
        let s2 = ext_params(
            ul,
            copy_exprs(ul, st1.sig, ul.exprs@.len() as int),
            0,
        )->Ok_0;
        lemma_ext_ports_pass(ul, c, State { sig: s2, pass: st1.pass }, 0);
    } else {
        lemma_sig_ports_pass(ul, key, st1, 0);
    }
}

/// Putting a built component in its room and recording it keeps the pass
/// well formed, where the key was not recorded when the room was made.
pub proof fn lemma_finish(p: PassView, p2: PassView, base: BaseView, key: KeyView)
    requires
        p.wf(),
        p2.wf(),
        p2.fits(),
        p.reserve().grows(p2, key.comp as int),
        find_first(p.processed, key) is None,
    ensures
        ({
            let b = p.ctx.len() as usize;
            let p1 = p2.finish(b, base, key);
            &&& p1.wf()
            &&& p.grows(p1, key.comp + 1)
            &&& b < p1.ctx.len()
            &&& p1.ctx[b as int] == base
            &&& find_first(p1.processed, key) == Some(b)
        }),
{
    let b = p.ctx.len() as usize;
    let p1 = p2.finish(b, base, key);
    let c = key.comp;
    assert(p.reserve().ctx.len() == p.ctx.len() + 1);
    lemma_first_none(p.processed, p2.processed, key, 0);
    lemma_first_push(p2.processed, key, b, key, 0);
    assert forall|i: int| 0 <= i < p1.processed.len() implies (#[trigger] p1.processed[i]).1
        < p1.ctx.len() by {
        if i < p2.processed.len() {
            assert(p1.processed[i] == p2.processed[i]);
        }
    }
    assert forall|i: int, j: int| 0 <= i < j < p1.processed.len() implies (
    #[trigger] p1.processed[i]).1 != (#[trigger] p1.processed[j]).1 by {
        assert(p1.processed[i] == p2.processed[i]);
        if j < p2.processed.len() {
            assert(p1.processed[j] == p2.processed[j]);
        } else {
            if i < p.processed.len() {
                assert(p2.processed[i] == p.processed[i]);
            }
        }
    }
    assert forall|i: int| p.processed.len() <= i < p1.processed.len() implies {
        &&& (#[trigger] p1.processed[i]).0.comp < c + 1
        &&& p.ctx.len() <= p1.processed[i].1
    } by {
        if i < p2.processed.len() {
            assert(p1.processed[i] == p2.processed[i]);
        }
    }
    assert(prefix(p.processed, p1.processed)) by {
        assert forall|i: int| 0 <= i < p.processed.len() implies p.processed[i]
            == p1.processed[i] by {
            assert(p1.processed[i] == p2.processed[i]);
        }
    }
}

/// Answering a request keeps the pass well formed. The answer is stored,
/// it is what the record holds under the key from then on, and the pass
/// grew by requests for components stored at or before `c`.
pub proof fn lemma_request(prog: Seq<Component>, p: PassView, c: usize, params: Seq<u64>)
    requires
        request(prog, p, c, params) is Ok,
    ensures
        ({
            let (p1, b) = request(prog, p, c, params)->Ok_0;
            &&& p.ctx.len() <= p1.ctx.len()
            &&& p.known_in(p1)
            &&& p.wf() && p1.fits() ==> {
                &&& p1.wf()
                &&& p.grows(p1, c + 1)
                &&& b < p1.ctx.len()
                &&& find_first(p1.processed, KeyView { comp: c, params }) == Some(b)
            }
        }),
    decreases c, 4nat, prog, 0nat, 0nat,
{
    let key = KeyView { comp: c, params };
    match find_first(p.processed, key) {
        Some(b) => {
            let j = lemma_first_is_entry(p.processed, key, 0);
        },
        None => {
            lemma_build(prog, p, c, params);
            let (p2, base) = build(prog, p, c, params)->Ok_0;
            let p1 = p2.finish(p.ctx.len() as usize, base, key);
            assert(p2.known_in(p1));
            if p.wf() && p1.fits() {
                lemma_finish(p, p2, base, key);
            }
        },
    }
}

/// Building a component keeps the pass well formed. Room was made for one
/// component at least, and the pass grew by requests for components
/// stored before `c`, all of them stored in room made after that.
pub proof fn lemma_build(prog: Seq<Component>, p: PassView, c: usize, params: Seq<u64>)
    requires
        build(prog, p, c, params) is Ok,
    ensures
        ({
            let (p2, base) = build(prog, p, c, params)->Ok_0;
            &&& p.ctx.len() < p2.ctx.len()
            &&& p.known_in(p2)
            &&& p.wf() && p2.fits() ==> {
                &&& p2.wf()
                &&& p.reserve().grows(p2, c as int)
            }
        }),
    decreases c, 3nat, prog, 0nat, 0nat,
{
    let ul = at(prog, c)->Some_0;
    let binding = initial_binding(ul, params)->Ok_0;
    let st0 = State { sig: SigView::start(binding), pass: p.reserve() };
    lemma_sig_pass(ul, c, st0);
    let st1 = sig(ul, c, st0)->Ok_0;
    lemma_commands(prog, c, ul, st1, ul.cmds@, 0);
    let st2 = commands(prog, c, ul, st1, ul.cmds@, 0)->Ok_0;
    if p.wf() && st2.pass.fits() {
        assert(st0.pass.wf());
        assert(st1.pass.wf());
        assert(st0.pass.grows(st1.pass, c as int));
        lemma_grows_trans(st0.pass, st1.pass, st2.pass, c as int);
    }
}

/// Growth composes.
pub proof fn lemma_grows_trans(p: PassView, q: PassView, r: PassView, c: int)
    requires
        p.grows(q, c),
        q.grows(r, c),
    ensures
        p.grows(r, c),
{
    assert forall|i: int| p.processed.len() <= i < r.processed.len() implies {
        &&& (#[trigger] r.processed[i]).0.comp < c
        &&& p.ctx.len() <= r.processed[i].1
    } by {
        if i < q.processed.len() {
            assert(r.processed[i] == q.processed[i]);
        }
    }
}

/// Translating an instance keeps the pass well formed and lets it grow.
pub proof fn lemma_inst_def(prog: Seq<Component>, c: usize, ul: Component, st: State, i: usize)
    requires
        inst_def(prog, c, ul, st, i) is Ok,
    ensures
        ({
            let (st1, n) = inst_def(prog, c, ul, st, i)->Ok_0;
            &&& st.pass.ctx.len() <= st1.pass.ctx.len()
            &&& st.pass.known_in(st1.pass)
            &&& st.pass.wf() && st1.pass.fits() ==> {
                &&& st1.pass.wf()
                &&& st.pass.grows(st1.pass, c as int)
            }
        }),
    decreases c, 0nat, prog, 0nat, 0nat,
{
    let inst = at(ul.instances@, i)->Some_0;
    let callee = at(prog, inst.comp)->Some_0;
    let (s1, args) = st.sig.exprs(ul, inst.params@, 0, Seq::empty())->Ok_0;
    let vals = if callee.is_ext {
        Seq::<u64>::empty()
    } else {
        concretes(s1.base, args, 0, Seq::empty())->Some_0
    };
    lemma_request(prog, st.pass, inst.comp, vals);
    let (p1, b) = request(prog, st.pass, inst.comp, vals)->Ok_0;
    if st.pass.wf() && p1.fits() {
        lemma_grows_wider(st.pass, p1, inst.comp + 1, c as int);
    }
}

/// What grew by requests for components stored before `c` grew by
/// requests for components stored before any later place.
pub proof fn lemma_grows_wider(p: PassView, q: PassView, c: int, d: int)
    requires
        p.grows(q, c),
        c <= d,
    ensures
        p.grows(q, d),
{
}

/// Translating a command keeps the pass well formed and lets it grow.
pub proof fn lemma_command(prog: Seq<Component>, c: usize, ul: Component, st: State, cmd: Command)
    requires
        command(prog, c, ul, st, cmd) is Ok,
    ensures
        ({
            let (st1, out) = command(prog, c, ul, st, cmd)->Ok_0;
            &&& st.pass.ctx.len() <= st1.pass.ctx.len()
            &&& st.pass.known_in(st1.pass)
            &&& st.pass.wf() && st1.pass.fits() ==> {
                &&& st1.pass.wf()
                &&& st.pass.grows(st1.pass, c as int)
            }
        }),
    decreases c, 1nat, cmd, 0nat, 0nat,
{
    match cmd {
        Command::Instance(i) => {
            lemma_inst_def(prog, c, ul, st, i);
        },
        Command::ForLoop(lp) => {
            lemma_forloop(prog, c, ul, st, lp);
        },
        Command::If(ifs) => {
            lemma_if_stmt(prog, c, ul, st, ifs);
        },
        _ => {},
    }
}

/// Translating commands keeps the pass well formed and lets it grow.
pub proof fn lemma_commands(
    prog: Seq<Component>,
    c: usize,
    ul: Component,
    st: State,
    cmds: Seq<Command>,
    k: int,
)
    requires
        commands(prog, c, ul, st, cmds, k) is Ok,
    ensures
        ({
            let st1 = commands(prog, c, ul, st, cmds, k)->Ok_0;
            &&& st.pass.ctx.len() <= st1.pass.ctx.len()
            &&& st.pass.known_in(st1.pass)
            &&& st.pass.wf() && st1.pass.fits() ==> {
                &&& st1.pass.wf()
                &&& st.pass.grows(st1.pass, c as int)
            }
        }),
    decreases c, 1nat, cmds, 0nat, cmds.len() - k,
{
    if 0 <= k < cmds.len() {
        lemma_command(prog, c, ul, st, cmds[k]);
        let (st1, out) = command(prog, c, ul, st, cmds[k])->Ok_0;
        lemma_commands(prog, c, ul, st1.emit(out), cmds, k + 1);
        let st2 = commands(prog, c, ul, st1.emit(out), cmds, k + 1)->Ok_0;
        if st.pass.wf() && st2.pass.fits() {
            lemma_grows_trans(st.pass, st1.pass, st2.pass, c as int);
        }
    }
}

/// Unrolling keeps the pass well formed and lets it grow.
pub proof fn lemma_unroll(
    prog: Seq<Component>,
    c: usize,
    ul: Component,
    st: State,
    lp: Loop,
    i: u64,
    bound: u64,
)
    requires
        unroll(prog, c, ul, st, lp, i, bound) is Ok,
    ensures
        ({
            let st1 = unroll(prog, c, ul, st, lp, i, bound)->Ok_0;
            &&& st.pass.ctx.len() <= st1.pass.ctx.len()
            &&& st.pass.known_in(st1.pass)
            &&& st.pass.wf() && st1.pass.fits() ==> {
                &&& st1.pass.wf()
                &&& st.pass.grows(st1.pass, c as int)
            }
        }),
    decreases c, 1nat, lp, 0nat, bound - i,
{
    if i < bound {
        lemma_commands(prog, c, ul, st.bind(lp.index, i), lp.body@, 0);
        let st1 = commands(prog, c, ul, st.bind(lp.index, i), lp.body@, 0)->Ok_0;
        lemma_unroll(prog, c, ul, st1.unbind(), lp, (i + 1) as u64, bound);
        let st2 = unroll(prog, c, ul, st1.unbind(), lp, (i + 1) as u64, bound)->Ok_0;
        if st.pass.wf() && st2.pass.fits() {
            lemma_grows_trans(st.pass, st1.pass, st2.pass, c as int);
        }
    }
}

/// Translating a loop keeps the pass well formed and lets it grow.
pub proof fn lemma_forloop(prog: Seq<Component>, c: usize, ul: Component, st: State, lp: Loop)
    requires
        forloop(prog, c, ul, st, lp) is Ok,
    ensures
        ({
            let st1 = forloop(prog, c, ul, st, lp)->Ok_0;
            &&& st.pass.ctx.len() <= st1.pass.ctx.len()
            &&& st.pass.known_in(st1.pass)
            &&& st.pass.wf() && st1.pass.fits() ==> {
                &&& st1.pass.wf()
                &&& st.pass.grows(st1.pass, c as int)
            }
        }),
    decreases c, 1nat, lp, 1nat, 0nat,
{
    let (s1, start) = st.sig.expr(ul, lp.start)->Ok_0;
    let (s2, end) = s1.expr(ul, lp.end)->Ok_0;
    let i = s2.base.concrete(start)->Some_0;
    let bound = s2.base.concrete(end)->Some_0;
    lemma_unroll(prog, c, ul, st.with_sig(s2), lp, i, bound);
}

/// Translating a conditional keeps the pass well formed and lets it grow.
pub proof fn lemma_if_stmt(prog: Seq<Component>, c: usize, ul: Component, st: State, ifs: If)
    requires
        if_stmt(prog, c, ul, st, ifs) is Ok,
    ensures
        ({
            let st1 = if_stmt(prog, c, ul, st, ifs)->Ok_0;
            &&& st.pass.ctx.len() <= st1.pass.ctx.len()
            &&& st.pass.known_in(st1.pass)
            &&& st.pass.wf() && st1.pass.fits() ==> {
                &&& st1.pass.wf()
                &&& st.pass.grows(st1.pass, c as int)
            }
        }),
    decreases c, 1nat, ifs, 0nat, 0nat,
{
    let (s1, cond) = st.sig.prop(ul, ifs.cond)->Ok_0;
    let p = at(s1.base.props, cond)->Some_0;
    let s2 = s1.with_base(s1.base.resolve_prop(p));
    match s1.base.resolve(p) {
        Prop::True => {
            lemma_commands(prog, c, ul, st.with_sig(s2), ifs.then_cmds@, 0);
        },
        Prop::False => {
            lemma_commands(prog, c, ul, st.with_sig(s2), ifs.alt@, 0);
        },
        _ => {},
    }
}

} // verus!
