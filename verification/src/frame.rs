//! What the translation of one entity leaves alone, and what the
//! translation of an expression comes to.

use vstd::prelude::*;
use crate::base::{fold, holds, BaseView};
use crate::deferred::{events_second, ext_params, ext_ports, push_param, sig_ports, State};
use crate::ir::{at, Access, Component, Connect, Expr, Param, Port, Prop, TimeSub};
use crate::maps::{find_last, prefix, KeyView};
use crate::monosig::SigView;
use crate::pass::PassView;

verus! {

/// The number that the expression at `e` of `ul` is under `binding`, where
/// every parameter in it is bound and every operation in it is defined.
pub open spec fn value(ul: Component, binding: Seq<(usize, u64)>, e: usize) -> Option<u64>
    decreases e,
{
    match at(ul.exprs@, e) {
        None => None,
        Some(Expr::Param(p)) => find_last(binding, p),
        Some(Expr::Concrete(n)) => Some(n),
        Some(Expr::Bin { op, lhs, rhs }) => if lhs < e && rhs < e {
            match (value(ul, binding, lhs), value(ul, binding, rhs)) {
                (Some(a), Some(b)) => fold(op, a, b),
                _ => None,
            }
        } else {
            None
        },
    }
}

impl BaseView {
    /// No store holds more than a machine can count.
    pub open spec fn fits(self) -> bool {
        &&& self.exprs.len() <= usize::MAX
        &&& self.times.len() <= usize::MAX
        &&& self.props.len() <= usize::MAX
        &&& self.events.len() <= usize::MAX
        &&& self.ports.len() <= usize::MAX
        &&& self.params.len() <= usize::MAX
        &&& self.instances.len() <= usize::MAX
        &&& self.invokes.len() <= usize::MAX
        &&& self.infos.len() <= usize::MAX
        &&& self.cmds.len() <= usize::MAX
    }
}

impl SigView {
    /// `t` differs from `self` at most in the stores of expressions, times,
    /// properties and source positions, and each of these begins with what
    /// it held in `self`.
    pub open spec fn values_grow(self, t: SigView) -> bool {
        &&& t == SigView {
            base: BaseView {
                exprs: t.base.exprs,
                times: t.base.times,
                props: t.base.props,
                infos: t.base.infos,
                ..self.base
            },
            ..self
        }
        &&& prefix(self.base.exprs, t.base.exprs)
        &&& prefix(self.base.times, t.base.times)
        &&& prefix(self.base.props, t.base.props)
        &&& prefix(self.base.infos, t.base.infos)
    }
}

/// Translating an expression adds expressions and nothing else. What it
/// returns is the place of an expression that is a literal exactly where
/// the expression has a value under the binding, and then that value.
pub proof fn lemma_expr(s: SigView, ul: Component, e: usize)
    requires
        s.expr(ul, e) is Ok,
    ensures
        ({
            let (t, i) = s.expr(ul, e)->Ok_0;
            &&& s.values_grow(t)
            &&& t.base.times == s.base.times
            &&& t.base.props == s.base.props
            &&& t.base.infos == s.base.infos
            &&& t.base.fits() ==> {
                &&& s.base.exprs.len() <= i < t.base.exprs.len()
                &&& t.base.concrete(i) == value(ul, s.binding, e)
            }
        }),
    decreases e,
{
    match at(ul.exprs@, e) {
        Some(Expr::Bin { op, lhs, rhs }) => {
            lemma_expr(s, ul, lhs);
            let (s1, l) = s.expr(ul, lhs)->Ok_0;
            lemma_expr(s1, ul, rhs);
            let (s2, r) = s1.expr(ul, rhs)->Ok_0;
            let (t, i) = s2.push_bin(Expr::Bin { op, lhs: l, rhs: r });
            if t.base.fits() {
                assert(s2.base.exprs[l as int] == s1.base.exprs[l as int]);
                assert(s2.base.concrete(l) == s1.base.concrete(l));
            }
        },
        _ => {},
    }
}

/// Translating a time adds expressions and one time, and nothing else.
/// The time that it returns the place of names the concrete event of the
/// event that the translated time names.
pub proof fn lemma_time(s: SigView, ul: Component, t: usize)
    requires
        s.time(ul, t) is Ok,
    ensures
        ({
            let (s1, i) = s.time(ul, t)->Ok_0;
            &&& s.values_grow(s1)
            &&& s1.base.props == s.base.props
            &&& s1.base.infos == s.base.infos
            &&& s1.base.fits() ==> {
                &&& s.base.times.len() <= i < s1.base.times.len()
                &&& Some(s1.base.times[i as int].event) == find_last(
                    s.event_map,
                    ul.times@[t as int].event,
                )
            }
        }),
{
    let tm = at(ul.times@, t)->Some_0;
    lemma_expr(s, ul, tm.offset);
}

/// Translating a length of time adds expressions and times, and nothing
/// else. A distance between two times stays one, between the translated
/// times.
pub proof fn lemma_timesub(s: SigView, ul: Component, ts: TimeSub)
    requires
        s.timesub(ul, ts) is Ok,
    ensures
        ({
            let (s1, out) = s.timesub(ul, ts)->Ok_0;
            &&& s.values_grow(s1)
            &&& s1.base.props == s.base.props
            &&& s1.base.infos == s.base.infos
            &&& ts is Unit <==> out is Unit
            &&& s1.base.fits() ==> (ts matches TimeSub::Sym { l, r } ==> {
                &&& out matches TimeSub::Sym { l: l1, r: r1 }
                &&& l1 < s1.base.times.len()
                &&& r1 < s1.base.times.len()
                &&& s.base.times.len() <= l1
                &&& s.base.times.len() <= r1
                &&& Some(s1.base.times[l1 as int].event) == find_last(
                    s.event_map,
                    ul.times@[l as int].event,
                )
                &&& Some(s1.base.times[r1 as int].event) == find_last(
                    s.event_map,
                    ul.times@[r as int].event,
                )
            })
        }),
{
    match ts {
        TimeSub::Unit(e) => {
            lemma_expr(s, ul, e);
        },
        TimeSub::Sym { l, r } => {
            lemma_time(s, ul, l);
            let (s1, l1) = s.time(ul, l)->Ok_0;
            lemma_time(s1, ul, r);
            let (s2, r1) = s1.time(ul, r)->Ok_0;
            if s2.base.fits() {
                assert(s2.base.times[l1 as int] == s1.base.times[l1 as int]);
            }
        },
    }
}

/// Copying a source position adds one source position and nothing else.
pub proof fn lemma_info(s: SigView, ul: Component, i: usize)
    requires
        s.info(ul, i) is Ok,
    ensures
        ({
            let (s1, n) = s.info(ul, i)->Ok_0;
            &&& s.values_grow(s1)
            &&& s1.base.exprs == s.base.exprs
            &&& s1.base.times == s.base.times
            &&& s1.base.props == s.base.props
        }),
{
}

/// Copying a time of an external component adds one time and nothing
/// else; the copy names the concrete event of the event that the time
/// names and keeps the offset.
pub proof fn lemma_ext_time(s: SigView, ul: Component, t: usize)
    requires
        s.ext_time(ul, t) is Ok,
    ensures
        ({
            let (s1, i) = s.ext_time(ul, t)->Ok_0;
            &&& s.values_grow(s1)
            &&& s1.base.exprs == s.base.exprs
            &&& s1.base.props == s.base.props
            &&& s1.base.infos == s.base.infos
            &&& s1.base.fits() ==> {
                &&& s.base.times.len() <= i < s1.base.times.len()
                &&& Some(s1.base.times[i as int].event) == find_last(
                    s.event_map,
                    ul.times@[t as int].event,
                )
                &&& s1.base.times[i as int].offset == ul.times@[t as int].offset
            }
        }),
{
}

/// Copying a length of time of an external component adds times and
/// nothing else.
pub proof fn lemma_ext_timesub(s: SigView, ul: Component, ts: TimeSub)
    requires
        s.ext_timesub(ul, ts) is Ok,
    ensures
        ({
            let (s1, out) = s.ext_timesub(ul, ts)->Ok_0;
            &&& s.values_grow(s1)
            &&& s1.base.exprs == s.base.exprs
            &&& s1.base.props == s.base.props
            &&& s1.base.infos == s.base.infos
            &&& ts is Unit ==> out == ts
            &&& s1.base.fits() ==> (ts matches TimeSub::Sym { l, r } ==> {
                &&& out matches TimeSub::Sym { l: l1, r: r1 }
                &&& l1 < s1.base.times.len()
                &&& r1 < s1.base.times.len()
                &&& s.base.times.len() <= l1
                &&& s.base.times.len() <= r1
                &&& Some(s1.base.times[l1 as int].event) == find_last(
                    s.event_map,
                    ul.times@[l as int].event,
                )
                &&& Some(s1.base.times[r1 as int].event) == find_last(
                    s.event_map,
                    ul.times@[r as int].event,
                )
            })
        }),
{
    match ts {
        TimeSub::Unit(e) => {},
        TimeSub::Sym { l, r } => {
            lemma_ext_time(s, ul, l);
            let (s1, l1) = s.ext_time(ul, l)->Ok_0;
            lemma_ext_time(s1, ul, r);
            let (s2, r1) = s1.ext_time(ul, r)->Ok_0;
            if s2.base.fits() {
                assert(s2.base.times[l1 as int] == s1.base.times[l1 as int]);
            }
        },
    }
}

/// Translating a property adds expressions, times and properties, and
/// nothing else.
pub proof fn lemma_prop(s: SigView, ul: Component, p: usize)
    requires
        s.prop(ul, p) is Ok,
    ensures
        ({
            let (s1, i) = s.prop(ul, p)->Ok_0;
            &&& s.values_grow(s1)
            &&& s1.base.infos == s.base.infos
        }),
    decreases p,
{
    match at(ul.props@, p) {
        Some(Prop::Compare { op, lhs, rhs }) => {
            lemma_expr(s, ul, lhs);
            lemma_expr(s.expr(ul, lhs)->Ok_0.0, ul, rhs);
        },
        Some(Prop::TimeCompare { op, lhs, rhs }) => {
            lemma_time(s, ul, lhs);
            lemma_time(s.time(ul, lhs)->Ok_0.0, ul, rhs);
        },
        Some(Prop::TimeSubCompare { op, lhs, rhs }) => {
            lemma_timesub(s, ul, lhs);
            lemma_timesub(s.timesub(ul, lhs)->Ok_0.0, ul, rhs);
        },
        Some(Prop::Not(q)) => {
            lemma_prop(s, ul, q);
        },
        Some(Prop::And(l, r)) => {
            lemma_prop(s, ul, l);
            lemma_prop(s.prop(ul, l)->Ok_0.0, ul, r);
        },
        Some(Prop::Or(l, r)) => {
            lemma_prop(s, ul, l);
            lemma_prop(s.prop(ul, l)->Ok_0.0, ul, r);
        },
        Some(Prop::Implies(l, r)) => {
            lemma_prop(s, ul, l);
            lemma_prop(s.prop(ul, l)->Ok_0.0, ul, r);
        },
        _ => {},
    }
}

/// Forcing an expression to a literal adds expressions and nothing else,
/// and succeeds only where the expression has a value under the binding:
/// the literal is that value.
pub proof fn lemma_bound(s: SigView, ul: Component, e: usize)
    requires
        s.bound(ul, e) is Ok,
    ensures
        ({
            let (s1, j) = s.bound(ul, e)->Ok_0;
            &&& s.values_grow(s1)
            &&& s1.base.times == s.base.times
            &&& s1.base.props == s.base.props
            &&& s1.base.infos == s.base.infos
            &&& s1.base.fits() ==> {
                &&& s.base.exprs.len() <= j < s1.base.exprs.len()
                &&& value(ul, s.binding, e) is Some
                &&& s1.base.exprs[j as int] == Expr::Concrete(value(ul, s.binding, e)->Some_0)
            }
        }),
{
    lemma_expr(s, ul, e);
    let (s0, i) = s.expr(ul, e)->Ok_0;
    let x = at(s0.base.exprs, i)->Some_0;
    let (s1, j) = s0.push_bin(x);
    if s1.base.fits() {
        assert(s0.base.fits());
        // A literal is stored as it is; an operation that was not applied
        // before cannot be applied now.
        match x {
            Expr::Bin { op, lhs, rhs } => {
                assert(s0.base.concrete(i) is None);
                lemma_stuck(s, ul, e);
            },
            _ => {},
        }
    }
}

/// An operation that the translation of an expression left standing has
/// an operand that is no literal, or is undefined on its operands.
proof fn lemma_stuck(s: SigView, ul: Component, e: usize)
    requires
        s.expr(ul, e) is Ok,
        s.expr(ul, e)->Ok_0.0.base.fits(),
    ensures
        ({
            let (t, i) = s.expr(ul, e)->Ok_0;
            t.base.exprs[i as int] is Bin ==> t.base.reduce(t.base.exprs[i as int])
                == t.base.exprs[i as int]
        }),
{
    lemma_expr(s, ul, e);
    match at(ul.exprs@, e) {
        Some(Expr::Bin { op, lhs, rhs }) => {
            lemma_expr(s, ul, lhs);
            let (s1, l) = s.expr(ul, lhs)->Ok_0;
            lemma_expr(s1, ul, rhs);
            let (s2, r) = s1.expr(ul, rhs)->Ok_0;
            let (t, i) = s2.push_bin(Expr::Bin { op, lhs: l, rhs: r });
            assert(t.base.exprs[l as int] == s2.base.exprs[l as int]);
            assert(t.base.exprs[r as int] == s2.base.exprs[r as int]);
            assert(t.base.concrete(l) == s2.base.concrete(l));
            assert(t.base.concrete(r) == s2.base.concrete(r));
        },
        _ => {},
    }
}

/// Translating an access adds expressions and nothing else. The range of
/// the translated access is the value of the range under the binding.
pub proof fn lemma_access(s: SigView, ul: Component, acc: Access)
    requires
        s.access(ul, acc) is Ok,
    ensures
        ({
            let (s1, out) = s.access(ul, acc)->Ok_0;
            &&& s.values_grow(s1)
            &&& s1.base.times == s.base.times
            &&& s1.base.props == s.base.props
            &&& s1.base.infos == s.base.infos
            &&& Some(out.port) == find_last(s.port_map, acc.port)
            &&& s1.base.fits() ==> {
                &&& s1.base.concrete(out.start) == value(ul, s.binding, acc.start)
                &&& s1.base.concrete(out.end) == value(ul, s.binding, acc.end)
                &&& s1.base.concrete(out.start) is Some
                &&& s1.base.concrete(out.end) is Some
            }
        }),
{
    lemma_bound(s, ul, acc.end);
    let (s1, end) = s.bound(ul, acc.end)->Ok_0;
    lemma_bound(s1, ul, acc.start);
    let (s2, start) = s1.bound(ul, acc.start)->Ok_0;
    if s2.base.fits() {
        assert(s2.base.exprs[end as int] == s1.base.exprs[end as int]);
    }
}

/// Translating a connection adds expressions and one source position, and
/// nothing else. The ranges of the translated connection are the values
/// of the ranges under the binding.
pub proof fn lemma_connect(s: SigView, ul: Component, con: Connect)
    requires
        s.connect(ul, con) is Ok,
    ensures
        ({
            let (s1, out) = s.connect(ul, con)->Ok_0;
            &&& s.values_grow(s1)
            &&& s1.base.times == s.base.times
            &&& s1.base.props == s.base.props
            &&& Some(out.src.port) == find_last(s.port_map, con.src.port)
            &&& Some(out.dst.port) == find_last(s.port_map, con.dst.port)
            &&& s1.base.fits() ==> {
                &&& s1.base.concrete(out.src.start) == value(ul, s.binding, con.src.start)
                &&& s1.base.concrete(out.src.end) == value(ul, s.binding, con.src.end)
                &&& s1.base.concrete(out.dst.start) == value(ul, s.binding, con.dst.start)
                &&& s1.base.concrete(out.dst.end) == value(ul, s.binding, con.dst.end)
                &&& s1.base.concrete(out.src.start) is Some
                &&& s1.base.concrete(out.src.end) is Some
                &&& s1.base.concrete(out.dst.start) is Some
                &&& s1.base.concrete(out.dst.end) is Some
            }
        }),
{
    lemma_access(s, ul, con.src);
    let (s1, src) = s.access(ul, con.src)->Ok_0;
    lemma_access(s1, ul, con.dst);
    let (s2, dst) = s1.access(ul, con.dst)->Ok_0;
    lemma_info(s2, ul, con.info);
    let (s3, info) = s2.info(ul, con.info)->Ok_0;
    if s3.base.fits() {
        assert(s2.base.fits());
        assert(s1.base.fits());
        assert(src.start < s1.base.exprs.len());
        assert(src.end < s1.base.exprs.len());
        assert(s2.base.exprs[src.start as int] == s1.base.exprs[src.start as int]);
        assert(s2.base.exprs[src.end as int] == s1.base.exprs[src.end as int]);
    }
}

impl SigView {
    /// `t` differs from `self` at most in the value stores, in the ports
    /// and the parameters and in the tables of these two, and each store
    /// begins with what it held in `self`. Events, binding and commands
    /// are those of `self`.
    pub open spec fn signature_grows(self, t: SigView) -> bool {
        &&& t == SigView {
            base: BaseView {
                exprs: t.base.exprs,
                times: t.base.times,
                props: t.base.props,
                infos: t.base.infos,
                ports: t.base.ports,
                params: t.base.params,
                ..self.base
            },
            port_map: t.port_map,
            param_map: t.param_map,
            ..self
        }
        &&& prefix(self.base.exprs, t.base.exprs)
        &&& prefix(self.base.times, t.base.times)
        &&& prefix(self.base.ports, t.base.ports)
        &&& prefix(self.base.params, t.base.params)
    }
}

/// The signature ports among `ports[k..]`, in order.
pub open spec fn signature_ports(ports: Seq<Port>, k: int) -> Seq<Port>
    decreases ports.len() - k,
{
    if 0 <= k < ports.len() {
        if ports[k].sig() {
            seq![ports[k]] + signature_ports(ports, k + 1)
        } else {
            signature_ports(ports, k + 1)
        }
    } else {
        Seq::empty()
    }
}

/// Translating a port adds to the value stores and one port, and nothing
/// else.
pub proof fn lemma_port_def(s: SigView, ul: Component, pass: PassView, p: usize)
    requires
        s.port_def(ul, pass, p) is Ok,
    ensures
        s.signature_grows(s.port_def(ul, pass, p)->Ok_0.0),
        s.port_def(ul, pass, p)->Ok_0.0.param_map == s.param_map,
        s.port_def(ul, pass, p)->Ok_0.0.base.params == s.base.params,
{
    let port = at(ul.ports@, p)->Some_0;
    lemma_expr(s, ul, port.width);
    let (s1, width) = s.expr(ul, port.width)->Ok_0;
    lemma_time(s1, ul, port.live.start);
    let (s2, start) = s1.time(ul, port.live.start)->Ok_0;
    lemma_time(s2, ul, port.live.end);
    let (s3, end) = s2.time(ul, port.live.end)->Ok_0;
    lemma_info(s3, ul, port.info);
}

/// Copying a port of an external component adds times, one source
/// position and one port, and nothing else. The copy has the owner and the
/// width of the port.
pub proof fn lemma_ext_port(s: SigView, ul: Component, p: usize)
    requires
        s.ext_port_local(ul, p) is Ok,
    ensures
        ({
            let (t, n) = s.ext_port_local(ul, p)->Ok_0;
            &&& s.signature_grows(t)
            &&& t.base.exprs == s.base.exprs
            &&& t.base.params == s.base.params
            &&& t.param_map == s.param_map
            &&& t.base.ports.len() == s.base.ports.len() + 1
            &&& t.base.ports.last().owner == ul.ports@[p as int].owner
            &&& t.base.ports.last().width == ul.ports@[p as int].width
        }),
{
    let port = at(ul.ports@, p)->Some_0;
    lemma_ext_time(s, ul, port.live.start);
    let (s1, start) = s.ext_time(ul, port.live.start)->Ok_0;
    lemma_ext_time(s1, ul, port.live.end);
    let (s2, end) = s1.ext_time(ul, port.live.end)->Ok_0;
    lemma_info(s2, ul, port.info);
}

/// Translating the signature ports leaves events, binding and commands
/// alone.
pub proof fn lemma_sig_ports(ul: Component, key: KeyView, st: State, k: int)
    requires
        sig_ports(ul, key, st, k) is Ok,
    ensures
        st.sig.signature_grows(sig_ports(ul, key, st, k)->Ok_0.sig),
    decreases ul.ports@.len() - k,
{
    if 0 <= k < ul.ports@.len() {
        if ul.ports@[k].sig() {
            lemma_port_def(st.sig, ul, st.pass, k as usize);
            let (s1, n) = st.sig.port_def(ul, st.pass, k as usize)->Ok_0;
            lemma_sig_ports(
                ul,
                key,
                State { sig: s1, pass: st.pass.add_port(key, k as usize, n) },
                k + 1,
            );
        } else {
            lemma_sig_ports(ul, key, st, k + 1);
        }
    }
}

/// Copying the parameters of an external component adds source positions
/// and one parameter for each, with the owner of the one it was copied
/// from, and nothing else.
pub proof fn lemma_ext_params(ul: Component, s: SigView, k: int)
    requires
        0 <= k,
        ext_params(ul, s, k) is Ok,
    ensures
        ({
            let t = ext_params(ul, s, k)->Ok_0;
            &&& s.signature_grows(t)
            &&& t.base.exprs == s.base.exprs
            &&& t.base.ports == s.base.ports
            &&& t.port_map == s.port_map
            &&& k <= ul.params@.len() ==> t.base.params.len() == s.base.params.len()
                + ul.params@.len() - k
            &&& forall|j: int|
                k <= j < ul.params@.len() ==> (#[trigger] t.base.params[
                    s.base.params.len() + j - k
                ]).owner == ul.params@[j].owner
        }),
    decreases ul.params@.len() - k,
{
    if k < ul.params@.len() {
        lemma_info(s, ul, ul.params@[k].info);
        let (s1, info) = s.info(ul, ul.params@[k].info)->Ok_0;
        let s2 = push_param(
            s1,
            k as usize,
            Param { owner: ul.params@[k].owner, info },
        );
        lemma_ext_params(ul, s2, k + 1);
        let t = ext_params(ul, s2, k + 1)->Ok_0;
        assert forall|j: int| k <= j < ul.params@.len() implies (#[trigger] t.base.params[
            s.base.params.len() + j - k
        ]).owner == ul.params@[j].owner by {
            if j == k {
                assert(t.base.params[s.base.params.len() as int] == s2.base.params[
                    s.base.params.len() as int
                ]);
            } else {
                assert(t.base.params[s2.base.params.len() + j - (k + 1)].owner
                    == ul.params@[j].owner);
            }
        }
    }
}

/// Copying the signature ports of an external component adds times,
/// source positions and one port for each signature port, with the owner
/// and the width of the one it was copied from, and nothing else.
pub proof fn lemma_ext_ports(ul: Component, c: usize, st: State, k: int)
    requires
        ext_ports(ul, c, st, k) is Ok,
    ensures
        ({
            let t = ext_ports(ul, c, st, k)->Ok_0.sig;
            let sp = signature_ports(ul.ports@, k);
            &&& st.sig.signature_grows(t)
            &&& t.base.exprs == st.sig.base.exprs
            &&& t.base.params == st.sig.base.params
            &&& t.base.ports.len() == st.sig.base.ports.len() + sp.len()
            &&& forall|j: int|
                0 <= j < sp.len() ==> {
                    &&& (#[trigger] t.base.ports[st.sig.base.ports.len() + j]).owner
                        == sp[j].owner
                    &&& t.base.ports[st.sig.base.ports.len() + j].width == sp[j].width
                }
        }),
    decreases ul.ports@.len() - k,
{
    if 0 <= k < ul.ports@.len() {
        if ul.ports@[k].sig() {
            lemma_ext_port(st.sig, ul, k as usize);
            let (s1, n) = st.sig.ext_port_local(ul, k as usize)->Ok_0;
            let next = State {
                sig: s1,
                pass: st.pass.add_port(KeyView { comp: c, params: Seq::empty() }, k as usize, n),
            };
            lemma_ext_ports(ul, c, next, k + 1);
            let t = ext_ports(ul, c, next, k + 1)->Ok_0.sig;
            let sp = signature_ports(ul.ports@, k);
            let rest = signature_ports(ul.ports@, k + 1);
            let base = st.sig.base.ports.len();
            assert(ul.ports.len() == ul.ports@.len());
            assert((k as usize) as int == k);
            assert(sp == seq![ul.ports@[k]] + rest);
            assert(sp.len() == rest.len() + 1);
            assert(sp[0] == ul.ports@[k]);
            assert(s1.base.ports.len() == base + 1);
            assert(s1.base.ports.last() == s1.base.ports[base as int]);
            assert forall|j: int| 0 <= j < sp.len() implies {
                &&& (#[trigger] t.base.ports[base + j]).owner == sp[j].owner
                &&& t.base.ports[base + j].width == sp[j].width
            } by {
                if j == 0 {
                    assert(t.base.ports[base as int] == s1.base.ports[base as int]);
                    assert(s1.base.ports[base as int].owner == ul.ports@[k].owner);
                    assert(t.base.ports[base + j].owner == sp[j].owner);
                    assert(t.base.ports[base + j].width == sp[j].width);
                } else {
                    assert(sp[j] == rest[j - 1]);
                    assert(s1.base.ports.len() + (j - 1) == base + j);
                    assert(t.base.ports[s1.base.ports.len() + (j - 1)].owner == rest[j
                        - 1].owner);
                    assert(t.base.ports[s1.base.ports.len() + (j - 1)].width == rest[j
                        - 1].width);
                }
            }
        } else {
            lemma_ext_ports(ul, c, st, k + 1);
        }
    }
}

/// Filling in an event adds to the value stores and replaces that event,
/// and nothing else. Where the delay of the event is a distance between
/// two times, the delay of the concrete event is the distance between two
/// concrete times, which name the concrete events of the events that the
/// two times name.
pub proof fn lemma_event_second(s: SigView, ul: Component, old_idx: usize, new_idx: usize)
    requires
        s.event_second(ul, old_idx, new_idx) is Ok,
    ensures
        ({
            let t = s.event_second(ul, old_idx, new_idx)->Ok_0.0;
            let v = SigView { base: BaseView { events: s.base.events, ..t.base }, ..t };
            &&& s.values_grow(v)
            &&& ul.is_ext ==> t.base.exprs == s.base.exprs
            &&& t.base.events.len() == s.base.events.len()
            &&& forall|j: int|
                0 <= j < s.base.events.len() && j != new_idx ==> t.base.events[j]
                    == s.base.events[j]
            &&& t.base.fits() && new_idx < s.base.events.len() ==> mentions(
                ul,
                t,
                old_idx as int,
                new_idx as int,
            )
        }),
{
    let ev = at(ul.events@, old_idx)->Some_0;
    if ul.is_ext {
        lemma_ext_timesub(s, ul, ev.delay);
        lemma_info(s.ext_timesub(ul, ev.delay)->Ok_0.0, ul, ev.info);
    } else {
        lemma_timesub(s, ul, ev.delay);
        lemma_info(s.timesub(ul, ev.delay)->Ok_0.0, ul, ev.info);
    }
}

/// Whether the concrete event at `new_idx` of `t` mentions the concrete
/// events of the events that the event at `old_idx` of `ul` mentions:
/// where the delay of that event is the distance between two times, the
/// delay of the concrete event is the distance between two concrete times
/// whose events are what the event table holds for the events of the two
/// times.
pub open spec fn mentions(ul: Component, t: SigView, old_idx: int, new_idx: int) -> bool {
    ul.events@[old_idx].delay matches TimeSub::Sym { l, r } ==> {
        &&& t.base.events[new_idx].delay matches TimeSub::Sym { l: l1, r: r1 }
        &&& l1 < t.base.times.len()
        &&& r1 < t.base.times.len()
        &&& Some(t.base.times[l1 as int].event) == find_last(
            t.event_map,
            ul.times@[l as int].event,
        )
        &&& Some(t.base.times[r1 as int].event) == find_last(
            t.event_map,
            ul.times@[r as int].event,
        )
    }
}

/// Filling in the events of the entries `k..` leaves the event table, the
/// number of events and every event that no entry from `k` on names as
/// they are, and the value stores begin with what they held. Where the
/// entry at `j` sends `j` to `j`, for each `j`, every event from `k` on
/// mentions afterwards the concrete events of the events that the
/// generic event at its place mentions.
pub proof fn lemma_events_second(ul: Component, s: SigView, entries: Seq<(usize, usize)>, k: int)
    requires
        0 <= k,
        events_second(ul, s, entries, k) is Ok,
        events_second(ul, s, entries, k)->Ok_0.base.fits(),
        entries.len() == s.base.events.len(),
        forall|j: int| 0 <= j < entries.len() ==> entries[j] == (j as usize, j as usize),
    ensures
        ({
            let t = events_second(ul, s, entries, k)->Ok_0;
            let v = SigView { base: BaseView { events: s.base.events, ..t.base }, ..t };
            &&& s.values_grow(v)
            &&& ul.is_ext ==> t.base.exprs == s.base.exprs
            &&& t.base.events.len() == s.base.events.len()
            &&& forall|j: int| 0 <= j < k && j < entries.len() ==> t.base.events[j] == s.base.events[j]
            &&& forall|j: int| k <= j < entries.len() ==> mentions(ul, t, j, j)
        }),
    decreases entries.len() - k,
{
    if k < entries.len() {
        lemma_event_second(s, ul, entries[k].0, entries[k].1);
        let s1 = s.event_second(ul, entries[k].0, entries[k].1)->Ok_0.0;
        let t = events_second(ul, s1, entries, k + 1)->Ok_0;
        lemma_events_second_sizes(ul, s1, entries, k + 1);
        lemma_events_second(ul, s1, entries, k + 1);
        assert(mentions(ul, s1, k, k));
        assert(t.base.events[k] == s1.base.events[k]);
        assert(mentions(ul, t, k, k)) by {
            match ul.events@[k].delay {
                TimeSub::Sym { l, r } => {
                    let l1 = s1.base.events[k].delay->l;
                    let r1 = s1.base.events[k].delay->r;
                    assert(t.base.times[l1 as int] == s1.base.times[l1 as int]);
                    assert(t.base.times[r1 as int] == s1.base.times[r1 as int]);
                },
                _ => {},
            }
        }
    }
}

/// Filling in events appends no command.
pub proof fn lemma_events_second_cmds(ul: Component, s: SigView, entries: Seq<(usize, usize)>, k: int)
    requires
        0 <= k,
        events_second(ul, s, entries, k) is Ok,
    ensures
        events_second(ul, s, entries, k)->Ok_0.base.cmds == s.base.cmds,
    decreases entries.len() - k,
{
    if k < entries.len() {
        lemma_event_second(s, ul, entries[k].0, entries[k].1);
        let s1 = s.event_second(ul, entries[k].0, entries[k].1)->Ok_0.0;
        lemma_events_second_cmds(ul, s1, entries, k + 1);
    }
}

/// Filling in events leaves the event table as it is.
pub proof fn lemma_events_second_frame(ul: Component, s: SigView, entries: Seq<(usize, usize)>, k: int)
    requires
        0 <= k,
        events_second(ul, s, entries, k) is Ok,
    ensures
        events_second(ul, s, entries, k)->Ok_0.event_map == s.event_map,
    decreases entries.len() - k,
{
    if k < entries.len() {
        lemma_event_second(s, ul, entries[k].0, entries[k].1);
        let s1 = s.event_second(ul, entries[k].0, entries[k].1)->Ok_0.0;
        lemma_events_second_frame(ul, s1, entries, k + 1);
    }
}

/// Filling in events makes no store shorter.
pub proof fn lemma_events_second_sizes(ul: Component, s: SigView, entries: Seq<(usize, usize)>, k: int)
    requires
        0 <= k,
        events_second(ul, s, entries, k) is Ok,
    ensures
        ({
            let t = events_second(ul, s, entries, k)->Ok_0;
            &&& t.base.fits() ==> s.base.fits()
        }),
    decreases entries.len() - k,
{
    if k < entries.len() {
        lemma_event_second(s, ul, entries[k].0, entries[k].1);
        let s1 = s.event_second(ul, entries[k].0, entries[k].1)->Ok_0.0;
        lemma_events_second_sizes(ul, s1, entries, k + 1);
    }
}

/// Whether the property at `p` of `ul` holds under `binding`, where that
/// can be decided: a comparison of numbers needs both to have a value, a
/// connective needs each operand to be decided, and a comparison of times
/// is never decided.
pub open spec fn prop_value(ul: Component, binding: Seq<(usize, u64)>, p: usize) -> Option<bool>
    decreases p,
{
    match at(ul.props@, p) {
        None => None,
        Some(Prop::True) => Some(true),
        Some(Prop::False) => Some(false),
        Some(Prop::Compare { op, lhs, rhs }) => match (
            value(ul, binding, lhs),
            value(ul, binding, rhs),
        ) {
            (Some(a), Some(b)) => Some(holds(op, a, b)),
            _ => None,
        },
        Some(Prop::TimeCompare { .. }) => None,
        Some(Prop::TimeSubCompare { .. }) => None,
        Some(Prop::Not(q)) => if q < p {
            match prop_value(ul, binding, q) {
                Some(b) => Some(!b),
                None => None,
            }
        } else {
            None
        },
        Some(Prop::And(l, r)) => if l < p && r < p {
            match (prop_value(ul, binding, l), prop_value(ul, binding, r)) {
                (Some(a), Some(b)) => Some(a && b),
                _ => None,
            }
        } else {
            None
        },
        Some(Prop::Or(l, r)) => if l < p && r < p {
            match (prop_value(ul, binding, l), prop_value(ul, binding, r)) {
                (Some(a), Some(b)) => Some(a || b),
                _ => None,
            }
        } else {
            None
        },
        Some(Prop::Implies(l, r)) => if l < p && r < p {
            match (prop_value(ul, binding, l), prop_value(ul, binding, r)) {
                (Some(a), Some(b)) => Some(a ==> b),
                _ => None,
            }
        } else {
            None
        },
    }
}

/// [`lemma_prop_truth`] for a property without operands that are
/// properties.
proof fn lemma_leaf_truth(s: SigView, ul: Component, p: usize, b: BaseView, bound: usize)
    requires
        s.prop(ul, p) is Ok,
        s.prop(ul, p)->Ok_0.0.base.fits(),
        prefix(s.prop(ul, p)->Ok_0.0.base.exprs, b.exprs),
        prefix(s.prop(ul, p)->Ok_0.0.base.props, b.props),
        s.prop(ul, p)->Ok_0.1 <= bound,
        !(ul.props@[p as int] is Not),
        !(ul.props@[p as int] is And),
        !(ul.props@[p as int] is Or),
        !(ul.props@[p as int] is Implies),
    ensures
        ({
            let (t, i) = s.prop(ul, p)->Ok_0;
            &&& s.base.props.len() <= i < t.base.props.len()
            &&& b.truth(b.props[i as int], bound) == prop_value(ul, s.binding, p)
        }),
{
    lemma_prop(s, ul, p);
    let (t, i) = s.prop(ul, p)->Ok_0;
    assert(b.props[i as int] == t.base.props[i as int]);
    match at(ul.props@, p) {
        Some(Prop::Compare { op, lhs, rhs }) => {
            lemma_expr(s, ul, lhs);
            let (s1, l) = s.expr(ul, lhs)->Ok_0;
            lemma_expr(s1, ul, rhs);
            let (s2, r) = s1.expr(ul, rhs)->Ok_0;
            assert(s2.base.exprs[l as int] == s1.base.exprs[l as int]);
            assert(b.exprs[l as int] == t.base.exprs[l as int]);
            assert(b.exprs[r as int] == t.base.exprs[r as int]);
        },
        Some(Prop::TimeCompare { op, lhs, rhs }) => {
            lemma_time(s, ul, lhs);
            lemma_time(s.time(ul, lhs)->Ok_0.0, ul, rhs);
        },
        Some(Prop::TimeSubCompare { op, lhs, rhs }) => {
            lemma_timesub(s, ul, lhs);
            lemma_timesub(s.timesub(ul, lhs)->Ok_0.0, ul, rhs);
        },
        _ => {},
    }
}

/// [`lemma_prop_truth`] for a negation, from the same of its operand.
proof fn lemma_not_truth(s: SigView, ul: Component, p: usize, q: usize, b: BaseView, bound: usize)
    requires
        s.prop(ul, p) is Ok,
        at(ul.props@, p) == Some(Prop::Not(q)),
        s.prop(ul, p)->Ok_0.0.base.fits(),
        prefix(s.prop(ul, p)->Ok_0.0.base.props, b.props),
        s.prop(ul, p)->Ok_0.1 <= bound,
        s.base.props.len() <= s.prop(ul, q)->Ok_0.1 < s.prop(ul, q)->Ok_0.0.base.props.len(),
        b.truth(b.props[s.prop(ul, q)->Ok_0.1 as int], s.prop(ul, q)->Ok_0.1) == prop_value(
            ul,
            s.binding,
            q,
        ),
    ensures
        ({
            let (t, i) = s.prop(ul, p)->Ok_0;
            &&& s.base.props.len() <= i < t.base.props.len()
            &&& b.truth(b.props[i as int], bound) == prop_value(ul, s.binding, p)
        }),
{
    let (t, i) = s.prop(ul, p)->Ok_0;
    let (s1, n) = s.prop(ul, q)->Ok_0;
    assert(t == s1.push_prop(Prop::Not(n)).0);
    assert(b.props[i as int] == t.base.props[i as int]);
    assert(b.props[i as int] == Prop::Not(n));
    assert(b.truth_at(n, bound) == b.truth(b.props[n as int], n));
}

/// [`lemma_prop_truth`] for a connective of two operands, from the same of
/// its operands.
proof fn lemma_binary_truth(
    s: SigView,
    ul: Component,
    p: usize,
    l: usize,
    r: usize,
    b: BaseView,
    bound: usize,
)
    requires
        s.prop(ul, p) is Ok,
        at(ul.props@, p) == Some(Prop::And(l, r)) || at(ul.props@, p) == Some(Prop::Or(l, r))
            || at(ul.props@, p) == Some(Prop::Implies(l, r)),
        s.prop(ul, p)->Ok_0.0.base.fits(),
        prefix(s.prop(ul, p)->Ok_0.0.base.props, b.props),
        s.prop(ul, p)->Ok_0.1 <= bound,
        ({
            let (s1, x) = s.prop(ul, l)->Ok_0;
            let (s2, y) = s1.prop(ul, r)->Ok_0;
            &&& s.base.props.len() <= x
            &&& x < y < s2.base.props.len()
            &&& b.truth(b.props[x as int], x) == prop_value(ul, s.binding, l)
            &&& b.truth(b.props[y as int], y) == prop_value(ul, s.binding, r)
        }),
    ensures
        ({
            let (t, i) = s.prop(ul, p)->Ok_0;
            &&& s.base.props.len() <= i < t.base.props.len()
            &&& b.truth(b.props[i as int], bound) == prop_value(ul, s.binding, p)
        }),
{
    let (t, i) = s.prop(ul, p)->Ok_0;
    let (s1, x) = s.prop(ul, l)->Ok_0;
    let (s2, y) = s1.prop(ul, r)->Ok_0;
    assert(t.base.props == s2.base.props.push(t.base.props[i as int]));
    assert(b.props[i as int] == t.base.props[i as int]);
    assert(b.truth_at(x, bound) == b.truth(b.props[x as int], x));
    assert(b.truth_at(y, bound) == b.truth(b.props[y as int], y));
}

/// The translation of a property is decided exactly where the property
/// is decided under the binding, and then in the same way; and so it
/// stays in every store `b` that begins with what was stored, read up to
/// any place `bound` from the translation on.
pub proof fn lemma_prop_truth(s: SigView, ul: Component, p: usize, b: BaseView, bound: usize)
    requires
        s.prop(ul, p) is Ok,
        s.prop(ul, p)->Ok_0.0.base.fits(),
        prefix(s.prop(ul, p)->Ok_0.0.base.exprs, b.exprs),
        prefix(s.prop(ul, p)->Ok_0.0.base.props, b.props),
        s.prop(ul, p)->Ok_0.1 <= bound,
    ensures
        ({
            let (t, i) = s.prop(ul, p)->Ok_0;
            &&& s.base.props.len() <= i < t.base.props.len()
            &&& b.truth(b.props[i as int], bound) == prop_value(ul, s.binding, p)
        }),
    decreases p, 1nat,
{
    match at(ul.props@, p) {
        Some(Prop::Not(q)) => {
            let (s1, n) = s.prop(ul, q)->Ok_0;
            lemma_prop_truth(s, ul, q, b, n);
            lemma_not_truth(s, ul, p, q, b, bound);
        },
        Some(Prop::And(l, r)) => {
            lemma_pair_truth(s, ul, l, r, b);
            lemma_binary_truth(s, ul, p, l, r, b, bound);
        },
        Some(Prop::Or(l, r)) => {
            lemma_pair_truth(s, ul, l, r, b);
            lemma_binary_truth(s, ul, p, l, r, b, bound);
        },
        Some(Prop::Implies(l, r)) => {
            lemma_pair_truth(s, ul, l, r, b);
            lemma_binary_truth(s, ul, p, l, r, b, bound);
        },
        _ => {
            lemma_leaf_truth(s, ul, p, b, bound);
        },
    }
}

/// [`lemma_prop_truth`] for the two operands of a connective, translated
/// one after the other.
proof fn lemma_pair_truth(s: SigView, ul: Component, l: usize, r: usize, b: BaseView)
    requires
        s.prop(ul, l) is Ok,
        s.prop(ul, l)->Ok_0.0.prop(ul, r) is Ok,
        s.prop(ul, l)->Ok_0.0.prop(ul, r)->Ok_0.0.base.fits(),
        prefix(s.prop(ul, l)->Ok_0.0.prop(ul, r)->Ok_0.0.base.exprs, b.exprs),
        prefix(s.prop(ul, l)->Ok_0.0.prop(ul, r)->Ok_0.0.base.props, b.props),
    ensures
        ({
            let (s1, x) = s.prop(ul, l)->Ok_0;
            let (s2, y) = s1.prop(ul, r)->Ok_0;
            &&& s.base.props.len() <= x < s2.base.props.len()
            &&& x < y < s2.base.props.len()
            &&& b.truth(b.props[x as int], x) == prop_value(ul, s.binding, l)
            &&& b.truth(b.props[y as int], y) == prop_value(ul, s.binding, r)
        }),
    decreases
            (if l > r {
                l
            } else {
                r
            }),
            2nat,
{
    let (s1, x) = s.prop(ul, l)->Ok_0;
    let (s2, y) = s1.prop(ul, r)->Ok_0;
    lemma_prop(s, ul, l);
    lemma_prop(s1, ul, r);
    assert(s1.base.fits());
    lemma_prop_truth(s, ul, l, b, x);
    lemma_prop_truth(s1, ul, r, b, y);
}

} // verus!
