//! The intermediate representation shared by generic and concrete
//! components: entities live in per-kind stores and name each other by
//! position in those stores.

use vstd::prelude::*;

verus! {

/// Arithmetic operators of parameter expressions.
#[derive(Clone, Copy, Debug, PartialEq, Eq)]
pub enum BinOp {
    Add,
    Sub,
    Mul,
    Div,
    Mod,
}

/// A numeric expression. Operands are positions in the expression store of
/// the same component.
#[derive(Clone, Copy, Debug, PartialEq, Eq)]
pub enum Expr {
    Param(usize),
    Concrete(u64),
    Bin { op: BinOp, lhs: usize, rhs: usize },
}

/// The relations that a property may state between two operands.
#[derive(Clone, Copy, Debug, PartialEq, Eq)]
pub enum Relation {
    Gt,
    Gte,
    Eq,
}

/// A point in time: an event and an offset expression.
#[derive(Clone, Copy, Debug, PartialEq, Eq)]
pub struct Time {
    pub event: usize,
    pub offset: usize,
}

/// A length of time: an expression, or the distance between two times.
#[derive(Clone, Copy, Debug, PartialEq, Eq)]
pub enum TimeSub {
    Unit(usize),
    Sym { l: usize, r: usize },
}

/// A boolean property. Operands of comparisons are expressions, times or
/// lengths of time; operands of connectives are properties.
#[allow(inconsistent_fields)]
#[derive(Clone, Copy, Debug, PartialEq, Eq)]
pub enum Prop {
    True,
    False,
    Compare { op: Relation, lhs: usize, rhs: usize },
    TimeCompare { op: Relation, lhs: usize, rhs: usize },
    TimeSubCompare { op: Relation, lhs: TimeSub, rhs: TimeSub },
    Not(usize),
    And(usize, usize),
    Or(usize, usize),
    Implies(usize, usize),
}

/// Where an entity came from in the source text.
#[derive(Clone, Copy, Debug, PartialEq, Eq)]
pub struct Info {
    pub line: u64,
    pub col: u64,
}

/// A timing event. Its delay may mention other events, itself included.
#[derive(Clone, Copy, Debug, PartialEq, Eq)]
pub struct Event {
    pub delay: TimeSub,
    pub info: usize,
}

/// Who introduced a parameter.
#[derive(Clone, Copy, Debug, PartialEq, Eq)]
pub enum ParamOwner {
    Sig,
    Loop,
    Bundle,
}

/// A compile-time integer unknown.
#[derive(Clone, Copy, Debug, PartialEq, Eq)]
pub struct Param {
    pub owner: ParamOwner,
    pub info: usize,
}

/// Which way a signature port carries its value.
#[derive(Clone, Copy, Debug, PartialEq, Eq)]
pub enum Direction {
    In,
    Out,
}

/// Who owns a port: the component's signature, an invocation (then `base`
/// is the port of the invoked component that it stands for) or the body.
#[derive(Clone, Copy, Debug, PartialEq, Eq)]
pub enum PortOwner {
    Sig { dir: Direction },
    Inv { inv: usize, dir: Direction, base: usize },
    Local,
}

/// The interval of time, from `start` to `end`, in which a port is live.
#[derive(Clone, Copy, Debug, PartialEq, Eq)]
pub struct Range {
    pub start: usize,
    pub end: usize,
}

/// A bundle of wires.
#[derive(Clone, Copy, Debug, PartialEq, Eq)]
pub struct Port {
    pub owner: PortOwner,
    pub width: usize,
    pub live: Range,
    pub info: usize,
}

/// A use of another component with the given parameter expressions.
#[derive(Clone, Debug, PartialEq, Eq)]
pub struct Instance {
    pub comp: usize,
    pub params: Vec<usize>,
    pub info: usize,
}

/// The mathematical value of an [`Instance`].
pub struct InstanceView {
    pub comp: usize,
    pub params: Seq<usize>,
    pub info: usize,
}

impl View for Instance {
    type V = InstanceView;

    open spec fn view(&self) -> InstanceView {
        InstanceView { comp: self.comp, params: self.params@, info: self.info }
    }
}

/// Binds the event `base` of the invoked component to the time `arg`.
#[derive(Clone, Copy, Debug, PartialEq, Eq)]
pub struct EventBind {
    pub base: usize,
    pub arg: usize,
}

/// One activation of an instance.
#[derive(Clone, Debug, PartialEq, Eq)]
pub struct Invoke {
    pub inst: usize,
    pub events: Vec<EventBind>,
    pub info: usize,
}

/// The mathematical value of an [`Invoke`].
pub struct InvokeView {
    pub inst: usize,
    pub events: Seq<EventBind>,
    pub info: usize,
}

impl View for Invoke {
    type V = InvokeView;

    open spec fn view(&self) -> InvokeView {
        InvokeView { inst: self.inst, events: self.events@, info: self.info }
    }
}

/// The wires `start..end` of a port.
#[derive(Clone, Copy, Debug, PartialEq, Eq)]
pub struct Access {
    pub port: usize,
    pub start: usize,
    pub end: usize,
}

/// Drives `dst` from `src`.
#[derive(Clone, Copy, Debug, PartialEq, Eq)]
pub struct Connect {
    pub src: Access,
    pub dst: Access,
    pub info: usize,
}

/// Repeats `body` with the parameter `index` running over `start..end`.
#[derive(Debug, PartialEq, Eq)]
pub struct Loop {
    pub index: usize,
    pub start: usize,
    pub end: usize,
    pub body: Vec<Command>,
}

/// Chooses between two command lists by a property.
#[derive(Debug, PartialEq, Eq)]
pub struct If {
    pub cond: usize,
    pub then_cmds: Vec<Command>,
    pub alt: Vec<Command>,
}

/// An assertion of the source program.
#[derive(Clone, Copy, Debug, PartialEq, Eq)]
pub struct Fact {
    pub prop: usize,
}

/// An existential binding of a parameter.
#[derive(Clone, Copy, Debug, PartialEq, Eq)]
pub struct Exists {
    pub param: usize,
    pub expr: usize,
}

/// A command of a generic component's body.
#[derive(Debug, PartialEq, Eq)]
pub enum Command {
    Instance(usize),
    Invoke(usize),
    BundleDef(usize),
    Connect(Connect),
    ForLoop(Loop),
    If(If),
    Fact(Fact),
    Exists(Exists),
}

/// A command of a concrete component: no control construct is left.
#[derive(Clone, Copy, Debug, PartialEq, Eq)]
pub enum BaseCmd {
    Instance(usize),
    Invoke(usize),
    BundleDef(usize),
    Connect(Connect),
}

/// What the interface of a component was called in the source text.
#[derive(Clone, Copy, Debug, PartialEq, Eq)]
pub struct InterfaceSrc {
    pub name: u64,
}

/// A generic component as the earlier stages left it.
#[derive(Debug, PartialEq, Eq)]
pub struct Component {
    /// An external component has a signature and no body to specialize.
    pub is_ext: bool,
    pub exprs: Vec<Expr>,
    pub times: Vec<Time>,
    pub props: Vec<Prop>,
    pub events: Vec<Event>,
    pub ports: Vec<Port>,
    pub params: Vec<Param>,
    pub instances: Vec<Instance>,
    pub invokes: Vec<Invoke>,
    pub infos: Vec<Info>,
    pub cmds: Vec<Command>,
    pub src_info: Option<InterfaceSrc>,
    /// Name and width of each port that carries no timing annotation.
    pub unannotated_ports: Vec<(u64, u64)>,
}

/// The entry of `s` at `i`, if there is one.
pub open spec fn at<T>(s: Seq<T>, i: usize) -> Option<T> {
    if i < s.len() {
        Some(s[i as int])
    } else {
        None
    }
}

/// The generic components of a program. A component is stored after every
/// component that it instantiates.
#[derive(Debug, PartialEq, Eq)]
pub struct Context {
    pub comps: Vec<Component>,
}

impl Context {
    /// Whether every component is stored after the components that it
    /// instantiates. A request for a component that is not fails at the
    /// instance that names a component stored at or after its user.
    pub open spec fn leaves_first(self) -> bool {
        forall|c: int, i: int|
            0 <= c < self.comps@.len() && 0 <= i < self.comps@[c].instances@.len() ==> (
            #[trigger] self.comps@[c].instances@[i]).comp < c
    }

    /// Decides [`Context::leaves_first`].
    #[verifier::loop_isolation(false)]
    pub fn is_leaves_first(&self) -> (r: bool)
        ensures
            r == self.leaves_first(),
    {
        let mut c: usize = 0;
        while c < self.comps.len()
            invariant
                c <= self.comps.len(),
                forall|d: int, i: int|
                    0 <= d < c && 0 <= i < self.comps@[d].instances@.len() ==> (
                    #[trigger] self.comps@[d].instances@[i]).comp < d,
            decreases self.comps.len() - c,
        {
            let instances = &self.comps[c].instances;
            let mut i: usize = 0;
            while i < instances.len()
                invariant
                    i <= instances.len(),
                    instances == self.comps@[c as int].instances,
                    forall|j: int| 0 <= j < i ==> (#[trigger] instances@[j]).comp < c,
                decreases instances.len() - i,
            {
                if instances[i].comp >= c {
                    return false;
                }
                i += 1;
            }
            c += 1;
        }
        true
    }
}

/// Read-only access to one generic component.
#[derive(Clone, Copy)]
pub struct UnderlyingComp<'a> {
    pub comp: &'a Component,
}

impl<'a> UnderlyingComp<'a> {
    /// Access to `comp`.
    pub fn new(comp: &'a Component) -> (r: Self)
        ensures
            r.comp == comp,
    {
        UnderlyingComp { comp }
    }

    /// Whether the component is external.
    pub fn is_ext(&self) -> (r: bool)
        ensures
            r == self.comp.is_ext,
    {
        self.comp.is_ext
    }

    /// The expression at `i`, if there is one.
    pub fn expr(&self, i: usize) -> (r: Option<Expr>)
        ensures
            r == at(self.comp.exprs@, i),
    {
        if i < self.comp.exprs.len() {
            Some(self.comp.exprs[i])
        } else {
            None
        }
    }

    /// The time at `i`, if there is one.
    pub fn time(&self, i: usize) -> (r: Option<Time>)
        ensures
            r == at(self.comp.times@, i),
    {
        if i < self.comp.times.len() {
            Some(self.comp.times[i])
        } else {
            None
        }
    }

    /// The property at `i`, if there is one.
    pub fn prop(&self, i: usize) -> (r: Option<Prop>)
        ensures
            r == at(self.comp.props@, i),
    {
        if i < self.comp.props.len() {
            Some(self.comp.props[i])
        } else {
            None
        }
    }

    /// The event at `i`, if there is one.
    pub fn event(&self, i: usize) -> (r: Option<Event>)
        ensures
            r == at(self.comp.events@, i),
    {
        if i < self.comp.events.len() {
            Some(self.comp.events[i])
        } else {
            None
        }
    }

    /// The port at `i`, if there is one.
    pub fn port(&self, i: usize) -> (r: Option<Port>)
        ensures
            r == at(self.comp.ports@, i),
    {
        if i < self.comp.ports.len() {
            Some(self.comp.ports[i])
        } else {
            None
        }
    }

    /// The parameter at `i`, if there is one.
    pub fn param(&self, i: usize) -> (r: Option<Param>)
        ensures
            r == at(self.comp.params@, i),
    {
        if i < self.comp.params.len() {
            Some(self.comp.params[i])
        } else {
            None
        }
    }

    /// The source position at `i`, if there is one.
    pub fn info(&self, i: usize) -> (r: Option<Info>)
        ensures
            r == at(self.comp.infos@, i),
    {
        if i < self.comp.infos.len() {
            Some(self.comp.infos[i])
        } else {
            None
        }
    }

    /// The instance at `i`, if there is one.
    pub fn instance(&self, i: usize) -> (r: Option<&'a Instance>)
        ensures
            match r {
                Some(x) => at(self.comp.instances@, i) == Some(*x),
                None => at(self.comp.instances@, i) is None,
            },
    {
        if i < self.comp.instances.len() {
            Some(&self.comp.instances[i])
        } else {
            None
        }
    }

    /// The invocation at `i`, if there is one.
    pub fn invoke(&self, i: usize) -> (r: Option<&'a Invoke>)
        ensures
            match r {
                Some(x) => at(self.comp.invokes@, i) == Some(*x),
                None => at(self.comp.invokes@, i) is None,
            },
    {
        if i < self.comp.invokes.len() {
            Some(&self.comp.invokes[i])
        } else {
            None
        }
    }

    /// The expressions, in the order of their positions.
    pub fn exprs(&self) -> (r: &'a Vec<Expr>)
        ensures
            r == self.comp.exprs,
    {
        &self.comp.exprs
    }

    /// The events, in the order of their positions.
    pub fn events(&self) -> (r: &'a Vec<Event>)
        ensures
            r == self.comp.events,
    {
        &self.comp.events
    }

    /// The parameters, in the order of their positions.
    pub fn params(&self) -> (r: &'a Vec<Param>)
        ensures
            r == self.comp.params,
    {
        &self.comp.params
    }

    /// The ports, in the order of their positions.
    pub fn ports(&self) -> (r: &'a Vec<Port>)
        ensures
            r == self.comp.ports,
    {
        &self.comp.ports
    }

    /// The commands of the body.
    pub fn cmds(&self) -> (r: &'a Vec<Command>)
        ensures
            r == self.comp.cmds,
    {
        &self.comp.cmds
    }

    /// What the interface was called in the source text.
    pub fn src_info(&self) -> (r: Option<InterfaceSrc>)
        ensures
            r == self.comp.src_info,
    {
        self.comp.src_info
    }

    /// The ports that carry no timing annotation.
    pub fn unannotated_ports(&self) -> (r: &'a Vec<(u64, u64)>)
        ensures
            r == self.comp.unannotated_ports,
    {
        &self.comp.unannotated_ports
    }
}

impl Param {
    /// Whether the signature of the component introduced the parameter.
    pub open spec fn sig_owned(self) -> bool {
        self.owner is Sig
    }

    /// Whether the signature of the component introduced the parameter.
    pub fn is_sig_owned(&self) -> (r: bool)
        ensures
            r == self.sig_owned(),
    {
        match self.owner {
            ParamOwner::Sig => true,
            _ => false,
        }
    }
}

impl Port {
    /// Whether the port belongs to the signature of the component.
    pub open spec fn sig(self) -> bool {
        self.owner is Sig
    }

    /// Whether the port belongs to the signature of the component.
    pub fn is_sig(&self) -> (r: bool)
        ensures
            r == self.sig(),
    {
        match self.owner {
            PortOwner::Sig { .. } => true,
            _ => false,
        }
    }
}

} // verus!
