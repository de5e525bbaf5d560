//! The concrete component under construction: a store per entity kind that
//! hands out fresh positions, and the two evaluators that the translation
//! needs, one for numeric expressions and one for properties.

use vstd::prelude::*;
use crate::ir::{
    at, BaseCmd, BinOp, Event, Expr, Info, Instance, InstanceView, InterfaceSrc, Invoke,
    InvokeView, Param, Port, Prop, Relation, Time,
};

verus! {

/// A concrete component. Unlike a generic one its commands hold no control
/// construct.
#[derive(Debug, PartialEq, Eq)]
pub struct BaseComp {
    pub exprs: Vec<Expr>,
    pub times: Vec<Time>,
    pub props: Vec<Prop>,
    pub events: Vec<Event>,
    pub ports: Vec<Port>,
    pub params: Vec<Param>,
    pub instances: Vec<Instance>,
    pub invokes: Vec<Invoke>,
    pub infos: Vec<Info>,
    pub cmds: Vec<BaseCmd>,
    pub src_info: Option<InterfaceSrc>,
    pub unannotated_ports: Vec<(u64, u64)>,
}

/// The mathematical value of a [`BaseComp`].
pub struct BaseView {
    pub exprs: Seq<Expr>,
    pub times: Seq<Time>,
    pub props: Seq<Prop>,
    pub events: Seq<Event>,
    pub ports: Seq<Port>,
    pub params: Seq<Param>,
    pub instances: Seq<InstanceView>,
    pub invokes: Seq<InvokeView>,
    pub infos: Seq<Info>,
    pub cmds: Seq<BaseCmd>,
    pub src_info: Option<InterfaceSrc>,
    pub unannotated_ports: Seq<(u64, u64)>,
}

/// The value of `a op b`, where it is defined and fits in 64 bits.
pub open spec fn fold(op: BinOp, a: u64, b: u64) -> Option<u64> {
    match op {
        BinOp::Add => if a + b <= u64::MAX {
            Some((a + b) as u64)
        } else {
            None
        },
        BinOp::Sub => if a >= b {
            Some((a - b) as u64)
        } else {
            None
        },
        BinOp::Mul => if a * b <= u64::MAX {
            Some((a * b) as u64)
        } else {
            None
        },
        BinOp::Div => if b != 0 {
            Some(a / b)
        } else {
            None
        },
        BinOp::Mod => if b != 0 {
            Some(a % b)
        } else {
            None
        },
    }
}

/// Whether `a op b` holds.
pub open spec fn holds(op: Relation, a: u64, b: u64) -> bool {
    match op {
        Relation::Gt => a > b,
        Relation::Gte => a >= b,
        Relation::Eq => a == b,
    }
}

/// Computes [`fold`].
pub fn fold_exec(op: BinOp, a: u64, b: u64) -> (r: Option<u64>)
    ensures
        r == fold(op, a, b),
{
    match op {
        BinOp::Add => a.checked_add(b),
        BinOp::Sub => a.checked_sub(b),
        BinOp::Mul => a.checked_mul(b),
        BinOp::Div => a.checked_div(b),
        BinOp::Mod => a.checked_rem(b),
    }
}

/// Computes [`holds`].
pub fn holds_exec(op: Relation, a: u64, b: u64) -> (r: bool)
    ensures
        r == holds(op, a, b),
{
    match op {
        Relation::Gt => a > b,
        Relation::Gte => a >= b,
        Relation::Eq => a == b,
    }
}

impl BaseView {
    /// The component that holds nothing.
    pub open spec fn empty() -> BaseView {
        BaseView {
            exprs: Seq::empty(),
            times: Seq::empty(),
            props: Seq::empty(),
            events: Seq::empty(),
            ports: Seq::empty(),
            params: Seq::empty(),
            instances: Seq::empty(),
            invokes: Seq::empty(),
            infos: Seq::empty(),
            cmds: Seq::empty(),
            src_info: None,
            unannotated_ports: Seq::empty(),
        }
    }

    /// The component after `e` was stored behind its expressions.
    pub open spec fn add_expr(self, e: Expr) -> BaseView {
        BaseView { exprs: self.exprs.push(e), ..self }
    }

    /// The component after `t` was stored behind its times.
    pub open spec fn add_time(self, t: Time) -> BaseView {
        BaseView { times: self.times.push(t), ..self }
    }

    /// The component after `p` was stored behind its properties.
    pub open spec fn add_prop(self, p: Prop) -> BaseView {
        BaseView { props: self.props.push(p), ..self }
    }

    /// The component after `e` was stored behind its events.
    pub open spec fn add_event(self, e: Event) -> BaseView {
        BaseView { events: self.events.push(e), ..self }
    }

    /// The component after `p` was stored behind its ports.
    pub open spec fn add_port(self, p: Port) -> BaseView {
        BaseView { ports: self.ports.push(p), ..self }
    }

    /// The component after `p` was stored behind its parameters.
    pub open spec fn add_param(self, p: Param) -> BaseView {
        BaseView { params: self.params.push(p), ..self }
    }

    /// The component after `i` was stored behind its instances.
    pub open spec fn add_instance(self, i: InstanceView) -> BaseView {
        BaseView { instances: self.instances.push(i), ..self }
    }

    /// The component after `i` was stored behind its invocations.
    pub open spec fn add_invoke(self, i: InvokeView) -> BaseView {
        BaseView { invokes: self.invokes.push(i), ..self }
    }

    /// The component after `i` was stored behind its source positions.
    pub open spec fn add_info(self, i: Info) -> BaseView {
        BaseView { infos: self.infos.push(i), ..self }
    }

    /// The event at `i` replaced by `e`; nothing changes where there is no
    /// such event.
    pub open spec fn set_event(self, i: usize, e: Event) -> BaseView {
        if i < self.events.len() {
            BaseView { events: self.events.update(i as int, e), ..self }
        } else {
            self
        }
    }

    /// The command stream with `cmd` appended, if there is one.
    pub open spec fn extend_cmds(self, cmd: Option<BaseCmd>) -> BaseView {
        match cmd {
            Some(c) => BaseView { cmds: self.cmds.push(c), ..self },
            None => self,
        }
    }

    /// The component with the interface name `src`.
    pub open spec fn set_src_info(self, src: Option<InterfaceSrc>) -> BaseView {
        BaseView { src_info: src, ..self }
    }

    /// The component with the unannotated ports `ports`.
    pub open spec fn set_unannotated_ports(self, ports: Seq<(u64, u64)>) -> BaseView {
        BaseView { unannotated_ports: ports, ..self }
    }

    /// The number that the expression at `i` is, if it is a literal.
    pub open spec fn concrete(self, i: usize) -> Option<u64> {
        match at(self.exprs, i) {
            Some(Expr::Concrete(n)) => Some(n),
            _ => None,
        }
    }

    /// `e` with its operator applied, where both operands are literals and
    /// the result is defined; else `e` itself.
    pub open spec fn reduce(self, e: Expr) -> Expr {
        match e {
            Expr::Bin { op, lhs, rhs } => match (self.concrete(lhs), self.concrete(rhs)) {
                (Some(a), Some(b)) => match fold(op, a, b) {
                    Some(v) => Expr::Concrete(v),
                    None => e,
                },
                _ => e,
            },
            _ => e,
        }
    }

    /// The store after `e` was added in reduced form.
    pub open spec fn bin(self, e: Expr) -> BaseView {
        self.add_expr(self.reduce(e))
    }

    /// The truth value of the stored property at `i`, read through
    /// properties stored before it only.
    pub open spec fn truth_at(self, i: usize, bound: usize) -> Option<bool>
        decreases bound, 0nat,
    {
        if i < bound {
            match at(self.props, i) {
                Some(p) => self.truth(p, i),
                None => None,
            }
        } else {
            None
        }
    }

    /// The truth value of `p`, whose operands are stored before `bound`,
    /// where it can be decided: a comparison of two literals, or a
    /// connective whose operands are all decided.
    pub open spec fn truth(self, p: Prop, bound: usize) -> Option<bool>
        decreases bound, 1nat,
    {
        match p {
            Prop::True => Some(true),
            Prop::False => Some(false),
            Prop::Compare { op, lhs, rhs } => match (self.concrete(lhs), self.concrete(rhs)) {
                (Some(a), Some(b)) => Some(holds(op, a, b)),
                _ => None,
            },
            Prop::TimeCompare { .. } => None,
            Prop::TimeSubCompare { .. } => None,
            Prop::Not(q) => match self.truth_at(q, bound) {
                Some(b) => Some(!b),
                None => None,
            },
            Prop::And(l, r) => match (self.truth_at(l, bound), self.truth_at(r, bound)) {
                (Some(a), Some(b)) => Some(a && b),
                _ => None,
            },
            Prop::Or(l, r) => match (self.truth_at(l, bound), self.truth_at(r, bound)) {
                (Some(a), Some(b)) => Some(a || b),
                _ => None,
            },
            Prop::Implies(l, r) => match (self.truth_at(l, bound), self.truth_at(r, bound)) {
                (Some(a), Some(b)) => Some(a ==> b),
                _ => None,
            },
        }
    }

    /// The literal that `p` comes to, or `p` itself where it is undecided.
    pub open spec fn resolve(self, p: Prop) -> Prop {
        match self.truth(p, self.props.len() as usize) {
            Some(true) => Prop::True,
            Some(false) => Prop::False,
            None => p,
        }
    }

    /// The store after `p` was added in resolved form.
    pub open spec fn resolve_prop(self, p: Prop) -> BaseView {
        self.add_prop(self.resolve(p))
    }
}

/// The numbers that the expressions at `idxs[k..]` are, after those of
/// `acc`, if each of them is a literal.
pub open spec fn concretes(base: BaseView, idxs: Seq<usize>, k: int, acc: Seq<u64>) -> Option<
    Seq<u64>,
>
    decreases idxs.len() - k,
{
    if 0 <= k < idxs.len() {
        match base.concrete(idxs[k]) {
            Some(n) => concretes(base, idxs, k + 1, acc.push(n)),
            None => None,
        }
    } else {
        Some(acc)
    }
}

impl View for BaseComp {
    type V = BaseView;

    open spec fn view(&self) -> BaseView {
        BaseView {
            exprs: self.exprs@,
            times: self.times@,
            props: self.props@,
            events: self.events@,
            ports: self.ports@,
            params: self.params@,
            instances: self.instances@.map_values(|i: Instance| i@),
            invokes: self.invokes@.map_values(|i: Invoke| i@),
            infos: self.infos@,
            cmds: self.cmds@,
            src_info: self.src_info,
            unannotated_ports: self.unannotated_ports@,
        }
    }
}

impl BaseComp {
    /// A component that holds nothing yet.
    pub fn new() -> (r: BaseComp)
        ensures
            r@ == BaseView::empty(),
    {
        let r = BaseComp {
            exprs: Vec::new(),
            times: Vec::new(),
            props: Vec::new(),
            events: Vec::new(),
            ports: Vec::new(),
            params: Vec::new(),
            instances: Vec::new(),
            invokes: Vec::new(),
            infos: Vec::new(),
            cmds: Vec::new(),
            src_info: None,
            unannotated_ports: Vec::new(),
        };
        assert(r@.instances =~= Seq::empty());
        assert(r@.invokes =~= Seq::empty());
        r
    }

    /// Stores `e` and returns its position.
    pub fn add_expr(&mut self, e: Expr) -> (idx: usize)
        ensures
            final(self)@ == old(self)@.add_expr(e),
            idx == old(self)@.exprs.len(),
    {
        let idx = self.exprs.len();
        self.exprs.push(e);
        idx
    }

    /// Stores `t` and returns its position.
    pub fn add_time(&mut self, t: Time) -> (idx: usize)
        ensures
            final(self)@ == old(self)@.add_time(t),
            idx == old(self)@.times.len(),
    {
        let idx = self.times.len();
        self.times.push(t);
        idx
    }

    /// Stores `p` and returns its position.
    pub fn add_prop(&mut self, p: Prop) -> (idx: usize)
        ensures
            final(self)@ == old(self)@.add_prop(p),
            idx == old(self)@.props.len(),
    {
        let idx = self.props.len();
        self.props.push(p);
        idx
    }

    /// Stores `e` and returns its position.
    pub fn add_event(&mut self, e: Event) -> (idx: usize)
        ensures
            final(self)@ == old(self)@.add_event(e),
            idx == old(self)@.events.len(),
    {
        let idx = self.events.len();
        self.events.push(e);
        idx
    }

    /// Stores `p` and returns its position.
    pub fn add_port(&mut self, p: Port) -> (idx: usize)
        ensures
            final(self)@ == old(self)@.add_port(p),
            idx == old(self)@.ports.len(),
    {
        let idx = self.ports.len();
        self.ports.push(p);
        idx
    }

    /// Stores `p` and returns its position.
    pub fn add_param(&mut self, p: Param) -> (idx: usize)
        ensures
            final(self)@ == old(self)@.add_param(p),
            idx == old(self)@.params.len(),
    {
        let idx = self.params.len();
        self.params.push(p);
        idx
    }

    /// Stores `i` and returns its position.
    pub fn add_instance(&mut self, i: Instance) -> (idx: usize)
        ensures
            final(self)@ == old(self)@.add_instance(i@),
            idx == old(self)@.instances.len(),
    {
        let idx = self.instances.len();
        self.instances.push(i);
        assert(self@.instances =~= old(self)@.instances.push(i@));
        idx
    }

    /// Stores `i` and returns its position.
    pub fn add_invoke(&mut self, i: Invoke) -> (idx: usize)
        ensures
            final(self)@ == old(self)@.add_invoke(i@),
            idx == old(self)@.invokes.len(),
    {
        let idx = self.invokes.len();
        self.invokes.push(i);
        assert(self@.invokes =~= old(self)@.invokes.push(i@));
        idx
    }

    /// Stores `i` and returns its position.
    pub fn add_info(&mut self, i: Info) -> (idx: usize)
        ensures
            final(self)@ == old(self)@.add_info(i),
            idx == old(self)@.infos.len(),
    {
        let idx = self.infos.len();
        self.infos.push(i);
        idx
    }

    /// Replaces the event at `i`, if there is one.
    pub fn set_event(&mut self, i: usize, e: Event)
        ensures
            final(self)@ == old(self)@.set_event(i, e),
    {
        if i < self.events.len() {
            self.events[i] = e;
        }
    }

    /// Appends `cmd` to the command stream, if there is one.
    pub fn extend_cmds(&mut self, cmd: Option<BaseCmd>)
        ensures
            final(self)@ == old(self)@.extend_cmds(cmd),
    {
        match cmd {
            Some(c) => {
                self.cmds.push(c);
            },
            None => {},
        }
    }

    /// Records what the interface was called in the source text.
    pub fn set_src_info(&mut self, src: Option<InterfaceSrc>)
        ensures
            final(self)@ == old(self)@.set_src_info(src),
    {
        self.src_info = src;
    }

    /// Records the ports that carry no timing annotation.
    pub fn set_unannotated_ports(&mut self, ports: Vec<(u64, u64)>)
        ensures
            final(self)@ == old(self)@.set_unannotated_ports(ports@),
    {
        self.unannotated_ports = ports;
    }

    /// The expression at `i`, if there is one.
    pub fn get_expr(&self, i: usize) -> (r: Option<Expr>)
        ensures
            r == at(self@.exprs, i),
    {
        if i < self.exprs.len() {
            Some(self.exprs[i])
        } else {
            None
        }
    }

    /// The property at `i`, if there is one.
    pub fn get_prop(&self, i: usize) -> (r: Option<Prop>)
        ensures
            r == at(self@.props, i),
    {
        if i < self.props.len() {
            Some(self.props[i])
        } else {
            None
        }
    }

    /// The number that the expression at `i` is, if it is a literal.
    pub fn as_concrete(&self, i: usize) -> (r: Option<u64>)
        ensures
            r == self@.concrete(i),
    {
        match self.get_expr(i) {
            Some(Expr::Concrete(n)) => Some(n),
            _ => None,
        }
    }

    /// The numbers that the expressions at `idxs` are, if each of them is a
    /// literal.
    pub fn concretes(&self, idxs: &Vec<usize>) -> (r: Option<Vec<u64>>)
        ensures
            match concretes(self@, idxs@, 0, Seq::empty()) {
                Some(v) => r is Some && r->Some_0@ == v,
                None => r is None,
            },
    {
        let mut acc: Vec<u64> = Vec::new();
        let mut k: usize = 0;
        while k < idxs.len()
            invariant
                k <= idxs.len(),
                concretes(self@, idxs@, k as int, acc@) == concretes(self@, idxs@, 0, Seq::empty()),
            decreases idxs.len() - k,
        {
            match self.as_concrete(idxs[k]) {
                Some(n) => {
                    acc.push(n);
                },
                None => {
                    return None;
                },
            }
            k += 1;
        }
        Some(acc)
    }

    /// Stores `e` with its operator applied where both operands are
    /// literals and the result is defined, else as it is, and returns the
    /// position.
    pub fn bin(&mut self, e: Expr) -> (idx: usize)
        ensures
            final(self)@ == old(self)@.bin(e),
            idx == old(self)@.exprs.len(),
    {
        let reduced = match e {
            Expr::Bin { op, lhs, rhs } => match (self.as_concrete(lhs), self.as_concrete(rhs)) {
                (Some(a), Some(b)) => match fold_exec(op, a, b) {
                    Some(v) => Expr::Concrete(v),
                    None => e,
                },
                _ => e,
            },
            _ => e,
        };
        self.add_expr(reduced)
    }

    /// Decides the stored property at `i`, if it is stored before `bound`.
    fn truth_at(&self, i: usize, bound: usize) -> (r: Option<bool>)
        ensures
            r == self@.truth_at(i, bound),
        decreases bound, 0nat,
    {
        if i < bound {
            match self.get_prop(i) {
                Some(p) => self.truth(p, i),
                None => None,
            }
        } else {
            None
        }
    }

    /// Decides `p`, whose operands are stored before `bound`, where it can
    /// be decided.
    pub fn truth(&self, p: Prop, bound: usize) -> (r: Option<bool>)
        ensures
            r == self@.truth(p, bound),
        decreases bound, 1nat,
    {
        match p {
            Prop::True => Some(true),
            Prop::False => Some(false),
            Prop::Compare { op, lhs, rhs } => match (
                self.as_concrete(lhs),
                self.as_concrete(rhs),
            ) {
                (Some(a), Some(b)) => Some(holds_exec(op, a, b)),
                _ => None,
            },
            Prop::TimeCompare { .. } => None,
            Prop::TimeSubCompare { .. } => None,
            Prop::Not(q) => match self.truth_at(q, bound) {
                Some(b) => Some(!b),
                None => None,
            },
            Prop::And(l, r) => match (self.truth_at(l, bound), self.truth_at(r, bound)) {
                (Some(a), Some(b)) => Some(a && b),
                _ => None,
            },
            Prop::Or(l, r) => match (self.truth_at(l, bound), self.truth_at(r, bound)) {
                (Some(a), Some(b)) => Some(a || b),
                _ => None,
            },
            Prop::Implies(l, r) => match (self.truth_at(l, bound), self.truth_at(r, bound)) {
                (Some(a), Some(b)) => Some(!a || b),
                _ => None,
            },
        }
    }

    /// Stores the literal that `p` comes to, or `p` itself where it is
    /// undecided, and returns the position.
    pub fn resolve_prop(&mut self, p: Prop) -> (idx: usize)
        ensures
            final(self)@ == old(self)@.resolve_prop(p),
            idx == old(self)@.props.len(),
    {
        let resolved = match self.truth(p, self.props.len()) {
            Some(true) => Prop::True,
            Some(false) => Prop::False,
            None => p,
        };
        self.add_prop(resolved)
    }
}

} // verus!
