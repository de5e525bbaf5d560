//! The state of one translation: the concrete component under
//! construction, the binding of the parameters, and for each kind of
//! entity the table from its position in the generic component to its
//! position in the concrete one.

use vstd::prelude::*;
use crate::base::{BaseComp, BaseView};
use crate::fault::Fault;
use crate::ir::{
    at, Access, Component, Connect, Event, EventBind, Expr, InterfaceSrc, Invoke, InvokeView,
    Port, PortOwner, Prop, Range, Time, TimeSub, UnderlyingComp,
};
use crate::maps::{find_first, find_last, key_of, CompKey, KeyView, Table};
use crate::pass::{Monomorphize, PassView};

verus! {

/// The binding of parameters to values. Entering a scope pushes an entry,
/// leaving it pops the entry.
pub type Binding = Table<u64>;

/// A table from positions in the generic component to positions in the
/// concrete one.
pub type IndexMap = Table<usize>;

/// The substitution state of one translation.
pub struct MonoSig {
    /// The concrete component under construction.
    pub base: BaseComp,
    /// Where the generic component is stored.
    pub underlying_idx: usize,
    pub binding: Binding,
    pub event_map: IndexMap,
    pub port_map: IndexMap,
    pub param_map: IndexMap,
    pub inst_map: IndexMap,
    pub inv_map: IndexMap,
}

/// The mathematical value of the part of a [`MonoSig`] that changes.
pub struct SigView {
    pub base: BaseView,
    pub binding: Seq<(usize, u64)>,
    pub event_map: Seq<(usize, usize)>,
    pub port_map: Seq<(usize, usize)>,
    pub param_map: Seq<(usize, usize)>,
    pub inst_map: Seq<(usize, usize)>,
    pub inv_map: Seq<(usize, usize)>,
}

impl View for MonoSig {
    type V = SigView;

    open spec fn view(&self) -> SigView {
        SigView {
            base: self.base@,
            binding: self.binding@,
            event_map: self.event_map@,
            port_map: self.port_map@,
            param_map: self.param_map@,
            inst_map: self.inst_map@,
            inv_map: self.inv_map@,
        }
    }
}

/// Whether a call that returned `r` and left the state `s` did what the
/// model `m` says: on success the value and the state of the model, on a
/// fault the fault of the model. After a fault the state is not described:
/// the request is abandoned with it.
pub open spec fn agrees<T>(r: Result<T, Fault>, s: SigView, m: Result<(SigView, T), Fault>) -> bool {
    match m {
        Ok((t, v)) => r == Ok::<T, Fault>(v) && s == t,
        Err(f) => r == Err::<T, Fault>(f),
    }
}

impl SigView {
    /// The state of a translation that has done nothing yet.
    pub open spec fn start(binding: Seq<(usize, u64)>) -> SigView {
        SigView {
            base: BaseView::empty(),
            binding,
            event_map: Seq::empty(),
            port_map: Seq::empty(),
            param_map: Seq::empty(),
            inst_map: Seq::empty(),
            inv_map: Seq::empty(),
        }
    }

    /// The state with `base` as the component under construction.
    pub open spec fn with_base(self, base: BaseView) -> SigView {
        SigView { base, ..self }
    }

    /// The state after `e` was stored, and where it was stored.
    pub open spec fn push_expr(self, e: Expr) -> (SigView, usize) {
        (self.with_base(self.base.add_expr(e)), self.base.exprs.len() as usize)
    }

    /// The state after `e` was stored in reduced form, and where.
    pub open spec fn push_bin(self, e: Expr) -> (SigView, usize) {
        (self.with_base(self.base.bin(e)), self.base.exprs.len() as usize)
    }

    /// The state after `t` was stored, and where it was stored.
    pub open spec fn push_time(self, t: Time) -> (SigView, usize) {
        (self.with_base(self.base.add_time(t)), self.base.times.len() as usize)
    }

    /// The state inside a scope that binds `p` to `v`.
    pub open spec fn bind(self, p: usize, v: u64) -> SigView {
        SigView { binding: self.binding.push((p, v)), ..self }
    }

    /// The state after the innermost scope was left.
    pub open spec fn unbind(self) -> SigView {
        if self.binding.len() > 0 {
            SigView { binding: self.binding.drop_last(), ..self }
        } else {
            self
        }
    }

    /// Translates the expression at `e` of `ul`: a parameter becomes the
    /// value it is bound to, a literal stays, and an operator is applied
    /// where both translated operands are literals and the result is
    /// defined. Operands are stored before the expression that uses them.
    pub open spec fn expr(self, ul: Component, e: usize) -> Result<(SigView, usize), Fault>
        decreases e,
    {
        match at(ul.exprs@, e) {
            None => Err(Fault::Missing),
            Some(Expr::Param(p)) => match find_last(self.binding, p) {
                Some(v) => Ok(self.push_expr(Expr::Concrete(v))),
                None => Err(Fault::Missing),
            },
            Some(Expr::Concrete(n)) => Ok(self.push_expr(Expr::Concrete(n))),
            Some(Expr::Bin { op, lhs, rhs }) => if lhs < e && rhs < e {
                match self.expr(ul, lhs) {
                    Err(f) => Err(f),
                    Ok((s1, l)) => match s1.expr(ul, rhs) {
                        Err(f) => Err(f),
                        Ok((s2, r)) => Ok(s2.push_bin(Expr::Bin { op, lhs: l, rhs: r })),
                    },
                }
            } else {
                Err(Fault::Missing)
            },
        }
    }

    /// Translates the time at `t` of `ul`: its event through the event
    /// table, its offset as an expression.
    pub open spec fn time(self, ul: Component, t: usize) -> Result<(SigView, usize), Fault> {
        match at(ul.times@, t) {
            None => Err(Fault::Missing),
            Some(tm) => match find_last(self.event_map, tm.event) {
                None => Err(Fault::Missing),
                Some(ev) => match self.expr(ul, tm.offset) {
                    Err(f) => Err(f),
                    Ok((s1, off)) => Ok(s1.push_time(Time { event: ev, offset: off })),
                },
            },
        }
    }

    /// Translates a length of time.
    pub open spec fn timesub(self, ul: Component, ts: TimeSub) -> Result<(SigView, TimeSub), Fault> {
        match ts {
            TimeSub::Unit(e) => match self.expr(ul, e) {
                Err(f) => Err(f),
                Ok((s1, i)) => Ok((s1, TimeSub::Unit(i))),
            },
            TimeSub::Sym { l, r } => match self.time(ul, l) {
                Err(f) => Err(f),
                Ok((s1, l1)) => match s1.time(ul, r) {
                    Err(f) => Err(f),
                    Ok((s2, r1)) => Ok((s2, TimeSub::Sym { l: l1, r: r1 })),
                },
            },
        }
    }

    /// Copies the source position at `i` of `ul`.
    pub open spec fn info(self, ul: Component, i: usize) -> Result<(SigView, usize), Fault> {
        match at(ul.infos@, i) {
            None => Err(Fault::Missing),
            Some(x) => Ok(
                (self.with_base(self.base.add_info(x)), self.base.infos.len() as usize),
            ),
        }
    }

    /// Where the port at `p` of the generic component is in the concrete
    /// one.
    pub open spec fn port_use(self, p: usize) -> Result<usize, Fault> {
        match find_last(self.port_map, p) {
            Some(n) => Ok(n),
            None => Err(Fault::Missing),
        }
    }

    /// Copies the time at `t` of an external component: the event goes
    /// through the event table, the offset stays as it is.
    pub open spec fn ext_time(self, ul: Component, t: usize) -> Result<(SigView, usize), Fault> {
        match at(ul.times@, t) {
            None => Err(Fault::Missing),
            Some(tm) => match find_last(self.event_map, tm.event) {
                None => Err(Fault::Missing),
                Some(ev) => Ok(self.push_time(Time { event: ev, offset: tm.offset })),
            },
        }
    }

    /// Copies a length of time of an external component.
    pub open spec fn ext_timesub(self, ul: Component, ts: TimeSub) -> Result<
        (SigView, TimeSub),
        Fault,
    > {
        match ts {
            TimeSub::Unit(e) => Ok((self, TimeSub::Unit(e))),
            TimeSub::Sym { l, r } => match self.ext_time(ul, l) {
                Err(f) => Err(f),
                Ok((s1, l1)) => match s1.ext_time(ul, r) {
                    Err(f) => Err(f),
                    Ok((s2, r1)) => Ok((s2, TimeSub::Sym { l: l1, r: r1 })),
                },
            },
        }
    }

    /// The state after the port `port` was stored for the port at `p` of
    /// the generic component, and where it was stored.
    pub open spec fn push_port(self, p: usize, port: Port) -> (SigView, usize) {
        let n = self.base.ports.len() as usize;
        (
            SigView {
                base: self.base.add_port(port),
                port_map: self.port_map.push((p, n)),
                ..self
            },
            n,
        )
    }

    /// The key of the component that the stored invocation at `inv`
    /// activates.
    pub open spec fn callee_key(self, pass: PassView, inv: usize) -> Option<KeyView> {
        match at(self.base.invokes, inv) {
            None => None,
            Some(iv) => match at(self.base.instances, iv.inst) {
                None => None,
                Some(inst) => key_of(pass.processed, inst.comp),
            },
        }
    }

    /// The owner of the translated port: an invocation and the port that it
    /// stands for are looked up, the rest stays.
    pub open spec fn owner(self, pass: PassView, o: PortOwner) -> Result<PortOwner, Fault> {
        match o {
            PortOwner::Sig { dir } => Ok(PortOwner::Sig { dir }),
            PortOwner::Local => Ok(PortOwner::Local),
            PortOwner::Inv { inv, dir, base } => match find_last(self.inv_map, inv) {
                None => Err(Fault::Missing),
                Some(n) => match self.callee_key(pass, n) {
                    None => Err(Fault::Missing),
                    Some(key) => match find_first(pass.port_map, (key, base)) {
                        None => Err(Fault::Missing),
                        Some(b) => Ok(PortOwner::Inv { inv: n, dir, base: b }),
                    },
                },
            },
        }
    }

    /// Translates the port at `p` of `ul` and enters it in the port table:
    /// its width and the two ends of its live range are translated under
    /// the binding, in that order, then its source position is copied.
    pub open spec fn port_def(self, ul: Component, pass: PassView, p: usize) -> Result<
        (SigView, usize),
        Fault,
    > {
        match at(ul.ports@, p) {
            None => Err(Fault::Missing),
            Some(port) => match self.owner(pass, port.owner) {
                Err(f) => Err(f),
                Ok(owner) => match self.expr(ul, port.width) {
                    Err(f) => Err(f),
                    Ok((s1, width)) => match s1.time(ul, port.live.start) {
                        Err(f) => Err(f),
                        Ok((s2, start)) => match s2.time(ul, port.live.end) {
                            Err(f) => Err(f),
                            Ok((s3, end)) => match s3.info(ul, port.info) {
                                Err(f) => Err(f),
                                Ok((s4, info)) => Ok(
                                    s4.push_port(
                                        p,
                                        Port { owner, width, live: Range { start, end }, info },
                                    ),
                                ),
                            },
                        },
                    },
                },
            },
        }
    }

    /// Copies the port at `p` of an external component and enters it in
    /// the port table: owner and width stay as they are, the two ends of
    /// the live range are copied, then the source position.
    pub open spec fn ext_port_local(self, ul: Component, p: usize) -> Result<
        (SigView, usize),
        Fault,
    > {
        match at(ul.ports@, p) {
            None => Err(Fault::Missing),
            Some(port) => match self.ext_time(ul, port.live.start) {
                Err(f) => Err(f),
                Ok((s1, start)) => match s1.ext_time(ul, port.live.end) {
                    Err(f) => Err(f),
                    Ok((s2, end)) => match s2.info(ul, port.info) {
                        Err(f) => Err(f),
                        Ok((s3, info)) => Ok(
                            s3.push_port(
                                p,
                                Port {
                                    owner: port.owner,
                                    width: port.width,
                                    live: Range { start, end },
                                    info,
                                },
                            ),
                        ),
                    },
                },
            },
        }
    }

    /// Fills in the concrete event at `new_idx` from the event at `old_idx`
    /// of `ul`: its delay is translated (copied, for an external
    /// component), then its source position is copied.
    pub open spec fn event_second(self, ul: Component, old_idx: usize, new_idx: usize) -> Result<
        (SigView, ()),
        Fault,
    > {
        match at(ul.events@, old_idx) {
            None => Err(Fault::Missing),
            Some(ev) => match (if ul.is_ext {
                self.ext_timesub(ul, ev.delay)
            } else {
                self.timesub(ul, ev.delay)
            }) {
                Err(f) => Err(f),
                Ok((s1, delay)) => match s1.info(ul, ev.info) {
                    Err(f) => Err(f),
                    Ok((s2, info)) => Ok(
                        (s2.with_base(s2.base.set_event(new_idx, Event { delay, info })), ()),
                    ),
                },
            },
        }
    }

    /// The state after the interface name was recorded.
    pub open spec fn interface(self, src: Option<InterfaceSrc>) -> SigView {
        self.with_base(self.base.set_src_info(src))
    }

    /// The state after `p` was stored, and where it was stored.
    pub open spec fn push_prop(self, p: Prop) -> (SigView, usize) {
        (self.with_base(self.base.add_prop(p)), self.base.props.len() as usize)
    }

    /// Translates the property at `p` of `ul`: literals stay, the operands
    /// of a comparison are translated, left before right, and the operands
    /// of a connective likewise. Operands are stored before the property
    /// that uses them. Nothing is decided here.
    pub open spec fn prop(self, ul: Component, p: usize) -> Result<(SigView, usize), Fault>
        decreases p,
    {
        match at(ul.props@, p) {
            None => Err(Fault::Missing),
            Some(Prop::True) => Ok(self.push_prop(Prop::True)),
            Some(Prop::False) => Ok(self.push_prop(Prop::False)),
            Some(Prop::Compare { op, lhs, rhs }) => match self.expr(ul, lhs) {
                Err(f) => Err(f),
                Ok((s1, l)) => match s1.expr(ul, rhs) {
                    Err(f) => Err(f),
                    Ok((s2, r)) => Ok(s2.push_prop(Prop::Compare { op, lhs: l, rhs: r })),
                },
            },
            Some(Prop::TimeCompare { op, lhs, rhs }) => match self.time(ul, lhs) {
                Err(f) => Err(f),
                Ok((s1, l)) => match s1.time(ul, rhs) {
                    Err(f) => Err(f),
                    Ok((s2, r)) => Ok(s2.push_prop(Prop::TimeCompare { op, lhs: l, rhs: r })),
                },
            },
            Some(Prop::TimeSubCompare { op, lhs, rhs }) => match self.timesub(ul, lhs) {
                Err(f) => Err(f),
                Ok((s1, l)) => match s1.timesub(ul, rhs) {
                    Err(f) => Err(f),
                    Ok((s2, r)) => Ok(s2.push_prop(Prop::TimeSubCompare { op, lhs: l, rhs: r })),
                },
            },
            Some(Prop::Not(q)) => if q < p {
                match self.prop(ul, q) {
                    Err(f) => Err(f),
                    Ok((s1, n)) => Ok(s1.push_prop(Prop::Not(n))),
                }
            } else {
                Err(Fault::Missing)
            },
            Some(Prop::And(l, r)) => if l < p && r < p {
                match self.prop(ul, l) {
                    Err(f) => Err(f),
                    Ok((s1, a)) => match s1.prop(ul, r) {
                        Err(f) => Err(f),
                        Ok((s2, b)) => Ok(s2.push_prop(Prop::And(a, b))),
                    },
                }
            } else {
                Err(Fault::Missing)
            },
            Some(Prop::Or(l, r)) => if l < p && r < p {
                match self.prop(ul, l) {
                    Err(f) => Err(f),
                    Ok((s1, a)) => match s1.prop(ul, r) {
                        Err(f) => Err(f),
                        Ok((s2, b)) => Ok(s2.push_prop(Prop::Or(a, b))),
                    },
                }
            } else {
                Err(Fault::Missing)
            },
            Some(Prop::Implies(l, r)) => if l < p && r < p {
                match self.prop(ul, l) {
                    Err(f) => Err(f),
                    Ok((s1, a)) => match s1.prop(ul, r) {
                        Err(f) => Err(f),
                        Ok((s2, b)) => Ok(s2.push_prop(Prop::Implies(a, b))),
                    },
                }
            } else {
                Err(Fault::Missing)
            },
        }
    }

    /// Translates the expression at `e` of `ul` and forces it to a literal:
    /// the translation is stored once more in reduced form, and what is
    /// stored then must be a literal. Returns where that literal is.
    pub open spec fn bound(self, ul: Component, e: usize) -> Result<(SigView, usize), Fault> {
        match self.expr(ul, e) {
            Err(f) => Err(f),
            Ok((s1, i)) => match at(s1.base.exprs, i) {
                None => Err(Fault::Missing),
                Some(x) => {
                    let (s2, j) = s1.push_bin(x);
                    if s2.base.concrete(j) is Some {
                        Ok((s2, j))
                    } else {
                        Err(Fault::NonConcrete)
                    }
                },
            },
        }
    }

    /// Translates an access: the port through the port table, then the end
    /// of the range and then its start, each forced to a literal.
    pub open spec fn access(self, ul: Component, acc: Access) -> Result<(SigView, Access), Fault> {
        match self.port_use(acc.port) {
            Err(f) => Err(f),
            Ok(port) => match self.bound(ul, acc.end) {
                Err(f) => Err(f),
                Ok((s1, end)) => match s1.bound(ul, acc.start) {
                    Err(f) => Err(f),
                    Ok((s2, start)) => Ok((s2, Access { port, start, end })),
                },
            },
        }
    }

    /// Translates a connection: source, destination, source position.
    pub open spec fn connect(self, ul: Component, con: Connect) -> Result<(SigView, Connect), Fault> {
        match self.access(ul, con.src) {
            Err(f) => Err(f),
            Ok((s1, src)) => match s1.access(ul, con.dst) {
                Err(f) => Err(f),
                Ok((s2, dst)) => match s2.info(ul, con.info) {
                    Err(f) => Err(f),
                    Ok((s3, info)) => Ok((s3, Connect { src, dst, info })),
                },
            },
        }
    }

    /// Translates the expressions `es[k..]` of `ul` in order; `acc` holds
    /// where the translations of `es[..k]` are stored.
    pub open spec fn exprs(self, ul: Component, es: Seq<usize>, k: int, acc: Seq<usize>) -> Result<
        (SigView, Seq<usize>),
        Fault,
    >
        decreases es.len() - k,
    {
        if 0 <= k < es.len() {
            match self.expr(ul, es[k]) {
                Err(f) => Err(f),
                Ok((s1, i)) => s1.exprs(ul, es, k + 1, acc.push(i)),
            }
        } else {
            Ok((self, acc))
        }
    }

    /// Translates the event bindings `binds[k..]` of an invocation of the
    /// component for `key`: the event of that component through the table
    /// of the pass, the time under the binding.
    pub open spec fn event_binds(
        self,
        ul: Component,
        pass: PassView,
        key: KeyView,
        binds: Seq<EventBind>,
        k: int,
        acc: Seq<EventBind>,
    ) -> Result<(SigView, Seq<EventBind>), Fault>
        decreases binds.len() - k,
    {
        if 0 <= k < binds.len() {
            match find_first(pass.event_map, (key, binds[k].base)) {
                None => Err(Fault::Missing),
                Some(base) => match self.time(ul, binds[k].arg) {
                    Err(f) => Err(f),
                    Ok((s1, arg)) => s1.event_binds(
                        ul,
                        pass,
                        key,
                        binds,
                        k + 1,
                        acc.push(EventBind { base, arg }),
                    ),
                },
            }
        } else {
            Ok((self, acc))
        }
    }

    /// The key of the component that the stored instance at `inst` names.
    pub open spec fn instance_key(self, pass: PassView, inst: usize) -> Option<KeyView> {
        match at(self.base.instances, inst) {
            None => None,
            Some(x) => key_of(pass.processed, x.comp),
        }
    }

    /// Translates the invocation at `i` of `ul` and enters it in the
    /// invocation table: its instance through the instance table, its event
    /// bindings in order, then its source position.
    pub open spec fn inv_def(self, ul: Component, pass: PassView, i: usize) -> Result<
        (SigView, usize),
        Fault,
    > {
        match at(ul.invokes@, i) {
            None => Err(Fault::Missing),
            Some(inv) => match find_last(self.inst_map, inv.inst) {
                None => Err(Fault::Missing),
                Some(inst) => match self.instance_key(pass, inst) {
                    None => Err(Fault::Missing),
                    Some(key) => match self.event_binds(
                        ul,
                        pass,
                        key,
                        inv.events@,
                        0,
                        Seq::empty(),
                    ) {
                        Err(f) => Err(f),
                        Ok((s1, events)) => match s1.info(ul, inv.info) {
                            Err(f) => Err(f),
                            Ok((s2, info)) => {
                                let n = s2.base.invokes.len() as usize;
                                Ok(
                                    (
                                        SigView {
                                            base: s2.base.add_invoke(
                                                InvokeView { inst, events, info },
                                            ),
                                            inv_map: s2.inv_map.push((i, n)),
                                            ..s2
                                        },
                                        n,
                                    ),
                                )
                            },
                        },
                    },
                },
            },
        }
    }
}

impl MonoSig {
    /// The state of a translation of the component stored at
    /// `underlying_idx` that has done nothing yet.
    pub fn new(underlying_idx: usize, binding: Binding) -> (r: MonoSig)
        ensures
            r@ == SigView::start(binding@),
            r.underlying_idx == underlying_idx,
    {
        MonoSig {
            base: BaseComp::new(),
            underlying_idx,
            binding,
            event_map: Table::new(),
            port_map: Table::new(),
            param_map: Table::new(),
            inst_map: Table::new(),
            inv_map: Table::new(),
        }
    }

    /// Translates the expression at `e` of the generic component and
    /// returns where the translation is stored.
    pub fn expr(&mut self, ul: &UnderlyingComp, e: usize) -> (r: Result<usize, Fault>)
        ensures
            agrees(r, final(self)@, old(self)@.expr(*ul.comp, e)),
            final(self).underlying_idx == old(self).underlying_idx,
        decreases e,
    {
        match ul.expr(e) {
            None => Err(Fault::Missing),
            Some(Expr::Param(p)) => match self.binding.get(p) {
                Some(v) => Ok(self.base.add_expr(Expr::Concrete(v))),
                None => Err(Fault::Missing),
            },
            Some(Expr::Concrete(n)) => Ok(self.base.add_expr(Expr::Concrete(n))),
            Some(Expr::Bin { op, lhs, rhs }) => {
                if lhs < e && rhs < e {
                    let l = self.expr(ul, lhs)?;
                    let r = self.expr(ul, rhs)?;
                    Ok(self.base.bin(Expr::Bin { op, lhs: l, rhs: r }))
                } else {
                    Err(Fault::Missing)
                }
            },
        }
    }

    /// Translates the time at `t` of the generic component and returns
    /// where the translation is stored.
    pub fn time(&mut self, ul: &UnderlyingComp, t: usize) -> (r: Result<usize, Fault>)
        ensures
            agrees(r, final(self)@, old(self)@.time(*ul.comp, t)),
            final(self).underlying_idx == old(self).underlying_idx,
    {
        match ul.time(t) {
            None => Err(Fault::Missing),
            Some(tm) => match self.event_map.get(tm.event) {
                None => Err(Fault::Missing),
                Some(ev) => {
                    let off = self.expr(ul, tm.offset)?;
                    Ok(self.base.add_time(Time { event: ev, offset: off }))
                },
            },
        }
    }

    /// Translates a length of time of the generic component.
    pub fn timesub(&mut self, ul: &UnderlyingComp, ts: TimeSub) -> (r: Result<TimeSub, Fault>)
        ensures
            agrees(r, final(self)@, old(self)@.timesub(*ul.comp, ts)),
            final(self).underlying_idx == old(self).underlying_idx,
    {
        match ts {
            TimeSub::Unit(e) => {
                let i = self.expr(ul, e)?;
                Ok(TimeSub::Unit(i))
            },
            TimeSub::Sym { l, r } => {
                let l1 = self.time(ul, l)?;
                let r1 = self.time(ul, r)?;
                Ok(TimeSub::Sym { l: l1, r: r1 })
            },
        }
    }

    /// Copies the source position at `i` of the generic component and
    /// returns where the copy is stored.
    pub fn info(&mut self, ul: &UnderlyingComp, i: usize) -> (r: Result<usize, Fault>)
        ensures
            agrees(r, final(self)@, old(self)@.info(*ul.comp, i)),
            final(self).underlying_idx == old(self).underlying_idx,
    {
        match ul.info(i) {
            None => Err(Fault::Missing),
            Some(x) => Ok(self.base.add_info(x)),
        }
    }

    /// Where the port at `p` of the generic component is in the concrete
    /// one.
    pub fn port_use(&self, p: usize) -> (r: Result<usize, Fault>)
        ensures
            r == self@.port_use(p),
    {
        match self.port_map.get(p) {
            Some(n) => Ok(n),
            None => Err(Fault::Missing),
        }
    }

    /// Copies the time at `t` of an external component and returns where
    /// the copy is stored.
    fn ext_time(&mut self, ul: &UnderlyingComp, t: usize) -> (r: Result<usize, Fault>)
        ensures
            agrees(r, final(self)@, old(self)@.ext_time(*ul.comp, t)),
            final(self).underlying_idx == old(self).underlying_idx,
    {
        match ul.time(t) {
            None => Err(Fault::Missing),
            Some(tm) => match self.event_map.get(tm.event) {
                None => Err(Fault::Missing),
                Some(ev) => Ok(self.base.add_time(Time { event: ev, offset: tm.offset })),
            },
        }
    }

    /// Copies a length of time of an external component.
    fn ext_timesub(&mut self, ul: &UnderlyingComp, ts: TimeSub) -> (r: Result<TimeSub, Fault>)
        ensures
            agrees(r, final(self)@, old(self)@.ext_timesub(*ul.comp, ts)),
            final(self).underlying_idx == old(self).underlying_idx,
    {
        match ts {
            TimeSub::Unit(e) => Ok(TimeSub::Unit(e)),
            TimeSub::Sym { l, r } => {
                let l1 = self.ext_time(ul, l)?;
                let r1 = self.ext_time(ul, r)?;
                Ok(TimeSub::Sym { l: l1, r: r1 })
            },
        }
    }

    /// Stores `port` for the port at `p` of the generic component and
    /// returns where it is stored.
    fn push_port(&mut self, p: usize, port: Port) -> (n: usize)
        ensures
            (final(self)@, n) == old(self)@.push_port(p, port),
            final(self).underlying_idx == old(self).underlying_idx,
    {
        let n = self.base.add_port(port);
        self.port_map.insert(p, n);
        n
    }

    /// The key of the component that the stored invocation at `inv`
    /// activates.
    fn callee_key<'b>(&self, pass: &'b Monomorphize, inv: usize) -> (r: Option<&'b CompKey>)
        ensures
            match r {
                Some(k) => self@.callee_key(pass@, inv) == Some(k@),
                None => self@.callee_key(pass@, inv) is None,
            },
    {
        if inv < self.base.invokes.len() {
            let inst = self.base.invokes[inv].inst;
            if inst < self.base.instances.len() {
                pass.processed.key_of(self.base.instances[inst].comp)
            } else {
                None
            }
        } else {
            None
        }
    }

    /// The owner of the translated port.
    fn owner(&self, pass: &Monomorphize, o: PortOwner) -> (r: Result<PortOwner, Fault>)
        ensures
            r == self@.owner(pass@, o),
    {
        match o {
            PortOwner::Sig { dir } => Ok(PortOwner::Sig { dir }),
            PortOwner::Local => Ok(PortOwner::Local),
            PortOwner::Inv { inv, dir, base } => match self.inv_map.get(inv) {
                None => Err(Fault::Missing),
                Some(n) => match self.callee_key(pass, n) {
                    None => Err(Fault::Missing),
                    Some(key) => match pass.port_map.get(key, base) {
                        None => Err(Fault::Missing),
                        Some(b) => Ok(PortOwner::Inv { inv: n, dir, base: b }),
                    },
                },
            },
        }
    }

    /// Translates the port at `p` of the generic component, enters it in
    /// the port table and returns where it is stored.
    pub fn port_def(&mut self, ul: &UnderlyingComp, pass: &Monomorphize, p: usize) -> (r: Result<
        usize,
        Fault,
    >)
        ensures
            agrees(r, final(self)@, old(self)@.port_def(*ul.comp, pass@, p)),
            final(self).underlying_idx == old(self).underlying_idx,
    {
        match ul.port(p) {
            None => Err(Fault::Missing),
            Some(port) => {
                let owner = self.owner(pass, port.owner)?;
                let width = self.expr(ul, port.width)?;
                let start = self.time(ul, port.live.start)?;
                let end = self.time(ul, port.live.end)?;
                let info = self.info(ul, port.info)?;
                Ok(self.push_port(p, Port { owner, width, live: Range { start, end }, info }))
            },
        }
    }

    /// Copies the port at `p` of an external component, enters it in the
    /// port table of the translation and in that of the pass, under the key
    /// of the external component, and returns where it is stored.
    pub fn ext_port(&mut self, ul: &UnderlyingComp, pass: &mut Monomorphize, p: usize) -> (r:
        Result<usize, Fault>)
        ensures
            agrees(r, final(self)@, old(self)@.ext_port_local(*ul.comp, p)),
            final(self).underlying_idx == old(self).underlying_idx,
            final(pass).old == old(pass).old,
            r matches Ok(n) ==> final(pass)@ == old(pass)@.add_port(
                KeyView { comp: old(self).underlying_idx, params: Seq::empty() },
                p,
                n,
            ),
    {
        match ul.port(p) {
            None => Err(Fault::Missing),
            Some(port) => {
                let start = self.ext_time(ul, port.live.start)?;
                let end = self.ext_time(ul, port.live.end)?;
                let info = self.info(ul, port.info)?;
                let n = self.push_port(
                    p,
                    Port { owner: port.owner, width: port.width, live: Range { start, end }, info },
                );
                pass.port_map.insert(CompKey::new(self.underlying_idx, Vec::new()), p, n);
                Ok(n)
            },
        }
    }

    /// Fills in the concrete event at `new_idx` from the event at `old_idx`
    /// of the generic component.
    pub fn event_second(&mut self, ul: &UnderlyingComp, old_idx: usize, new_idx: usize) -> (r:
        Result<(), Fault>)
        ensures
            agrees(r, final(self)@, old(self)@.event_second(*ul.comp, old_idx, new_idx)),
            final(self).underlying_idx == old(self).underlying_idx,
    {
        match ul.event(old_idx) {
            None => Err(Fault::Missing),
            Some(ev) => {
                let delay = if ul.is_ext() {
                    self.ext_timesub(ul, ev.delay)?
                } else {
                    self.timesub(ul, ev.delay)?
                };
                let info = self.info(ul, ev.info)?;
                self.base.set_event(new_idx, Event { delay, info });
                Ok(())
            },
        }
    }

    /// Records what the interface was called in the source text.
    pub fn interface(&mut self, src: Option<InterfaceSrc>)
        ensures
            final(self)@ == old(self)@.interface(src),
            final(self).underlying_idx == old(self).underlying_idx,
    {
        self.base.set_src_info(src);
    }

    /// Translates the expression at `e` of the generic component and
    /// forces it to a literal; returns where the literal is stored.
    pub fn bound(&mut self, ul: &UnderlyingComp, e: usize) -> (r: Result<usize, Fault>)
        ensures
            agrees(r, final(self)@, old(self)@.bound(*ul.comp, e)),
            final(self).underlying_idx == old(self).underlying_idx,
    {
        let i = self.expr(ul, e)?;
        match self.base.get_expr(i) {
            None => Err(Fault::Missing),
            Some(x) => {
                let j = self.base.bin(x);
                match self.base.as_concrete(j) {
                    Some(_) => Ok(j),
                    None => Err(Fault::NonConcrete),
                }
            },
        }
    }

    /// Translates the expressions `es` of the generic component in order
    /// and returns where the translations are stored.
    pub fn exprs(&mut self, ul: &UnderlyingComp, es: &Vec<usize>) -> (r: Result<Vec<usize>, Fault>)
        ensures
            match old(self)@.exprs(*ul.comp, es@, 0, Seq::empty()) {
                Ok((s, v)) => r is Ok && r->Ok_0@ == v && final(self)@ == s,
                Err(f) => r == Err::<Vec<usize>, Fault>(f),
            },
            final(self).underlying_idx == old(self).underlying_idx,
    {
        let mut acc: Vec<usize> = Vec::new();
        let mut k: usize = 0;
        while k < es.len()
            invariant
                k <= es.len(),
                self.underlying_idx == old(self).underlying_idx,
                self@.exprs(*ul.comp, es@, k as int, acc@) == old(self)@.exprs(
                    *ul.comp,
                    es@,
                    0,
                    Seq::empty(),
                ),
            decreases es.len() - k,
        {
            let i = self.expr(ul, es[k])?;
            acc.push(i);
            k += 1;
        }
        Ok(acc)
    }

    /// The key of the component that the stored instance at `inst` names.
    fn instance_key<'b>(&self, pass: &'b Monomorphize, inst: usize) -> (r: Option<&'b CompKey>)
        ensures
            match r {
                Some(k) => self@.instance_key(pass@, inst) == Some(k@),
                None => self@.instance_key(pass@, inst) is None,
            },
    {
        if inst < self.base.instances.len() {
            pass.processed.key_of(self.base.instances[inst].comp)
        } else {
            None
        }
    }

    /// Translates the invocation at `i` of the generic component, enters
    /// it in the invocation table and returns where it is stored.
    #[verifier::loop_isolation(false)]
    pub fn inv_def(&mut self, ul: &UnderlyingComp, pass: &Monomorphize, i: usize) -> (r: Result<
        usize,
        Fault,
    >)
        ensures
            agrees(r, final(self)@, old(self)@.inv_def(*ul.comp, pass@, i)),
            final(self).underlying_idx == old(self).underlying_idx,
    {
        match ul.invoke(i) {
            None => Err(Fault::Missing),
            Some(inv) => match self.inst_map.get(inv.inst) {
                None => Err(Fault::Missing),
                Some(inst) => match self.instance_key(pass, inst) {
                    None => Err(Fault::Missing),
                    Some(key) => {
                        let mut events: Vec<EventBind> = Vec::new();
                        let mut k: usize = 0;
                        while k < inv.events.len()
                            invariant
                                k <= inv.events.len(),
                                self.underlying_idx == old(self).underlying_idx,
                                self@.event_binds(
                                    *ul.comp,
                                    pass@,
                                    key@,
                                    inv.events@,
                                    k as int,
                                    events@,
                                ) == old(self)@.event_binds(
                                    *ul.comp,
                                    pass@,
                                    key@,
                                    inv.events@,
                                    0,
                                    Seq::empty(),
                                ),
                            decreases inv.events.len() - k,
                        {
                            let bind = inv.events[k];
                            match pass.event_map.get(key, bind.base) {
                                None => {
                                    return Err(Fault::Missing);
                                },
                                Some(base) => {
                                    let arg = self.time(ul, bind.arg)?;
                                    events.push(EventBind { base, arg });
                                },
                            }
                            k += 1;
                        }
                        let info = self.info(ul, inv.info)?;
                        let n = self.base.add_invoke(Invoke { inst, events, info });
                        self.inv_map.insert(i, n);
                        Ok(n)
                    },
                },
            },
        }
    }
}

} // verus!
