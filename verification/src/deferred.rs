//! The translation of one generic component: first its signature, then its
//! body, command by command. Loops are unrolled and conditionals decided
//! while the body is walked; a use of another component asks the pass for
//! the concrete component of that use.

use vstd::prelude::*;
use itertools::Itertools;
use crate::base::{concretes, BaseView};
use crate::fault::Fault;
use crate::ir::{
    at, Access, BaseCmd, Command, Component, Connect, If, Instance, InstanceView, Loop, Param,
    Prop, UnderlyingComp,
};
use crate::maps::{copied, find_first, CompKey, KeyView};
use crate::monosig::{agrees, MonoSig, SigView};
use crate::pass::{Monomorphize, PassView};

verus! {

/// The state that a translation works on: its own and that of the pass.
pub struct State {
    pub sig: SigView,
    pub pass: PassView,
}

/// Whether a call that returned `r` and left the states `s` and `p` did
/// what the model `m` says: on success the value and the states of the
/// model, on a fault the fault of the model.
pub open spec fn follows<T>(
    r: Result<T, Fault>,
    s: SigView,
    p: PassView,
    m: Result<(State, T), Fault>,
) -> bool {
    match m {
        Ok((st, v)) => r == Ok::<T, Fault>(v) && s == st.sig && p == st.pass,
        Err(f) => r == Err::<T, Fault>(f),
    }
}

/// [`follows`] for a call without a value.
pub open spec fn done(r: Result<(), Fault>, s: SigView, p: PassView, m: Result<State, Fault>) -> bool {
    match m {
        Ok(st) => r is Ok && s == st.sig && p == st.pass,
        Err(f) => r == Err::<(), Fault>(f),
    }
}

impl State {
    /// The state inside a scope that binds `p` to `v`.
    pub open spec fn bind(self, p: usize, v: u64) -> State {
        State { sig: self.sig.bind(p, v), ..self }
    }

    /// The state after the innermost scope was left.
    pub open spec fn unbind(self) -> State {
        State { sig: self.sig.unbind(), ..self }
    }

    /// The state after `cmd`, if there is one, was appended to the command
    /// stream.
    pub open spec fn emit(self, cmd: Option<BaseCmd>) -> State {
        State { sig: self.sig.with_base(self.sig.base.extend_cmds(cmd)), ..self }
    }

    /// The state with `sig` as the state of the translation.
    pub open spec fn with_sig(self, sig: SigView) -> State {
        State { sig, ..self }
    }
}

/// The binding that a request for `ul` with the values `vals` starts from:
/// `acc`, then the signature parameters among `ps[k..]`, each bound to the
/// next value. A request that gives too few or too many values is faulty.
pub open spec fn bind_from(ps: Seq<Param>, vals: Seq<u64>, k: int, acc: Seq<(usize, u64)>) -> Result<
    Seq<(usize, u64)>,
    Fault,
>
    decreases ps.len() - k,
{
    if 0 <= k < ps.len() {
        if ps[k].sig_owned() {
            if acc.len() < vals.len() {
                bind_from(ps, vals, k + 1, acc.push((k as usize, vals[acc.len() as int])))
            } else {
                Err(Fault::Missing)
            }
        } else {
            bind_from(ps, vals, k + 1, acc)
        }
    } else if acc.len() == vals.len() {
        Ok(acc)
    } else {
        Err(Fault::Missing)
    }
}

/// The binding that a request for `ul` with the values `vals` starts from.
/// The parameters of an external component are not bound, and a request
/// for one gives no values.
pub open spec fn initial_binding(ul: Component, vals: Seq<u64>) -> Result<Seq<(usize, u64)>, Fault> {
    if ul.is_ext {
        if vals.len() == 0 {
            Ok(Seq::empty())
        } else {
            Err(Fault::Missing)
        }
    } else {
        bind_from(ul.params@, vals, 0, Seq::empty())
    }
}

/// The entries of `binding[k..]` whose parameter the signature of `ul`
/// introduced, after those of `acc`.
pub open spec fn owned(ul: Component, binding: Seq<(usize, u64)>, k: int, acc: Seq<(usize, u64)>) -> Result<
    Seq<(usize, u64)>,
    Fault,
>
    decreases binding.len() - k,
{
    if 0 <= k < binding.len() {
        match at(ul.params@, binding[k].0) {
            None => Err(Fault::Missing),
            Some(p) => owned(
                ul,
                binding,
                k + 1,
                if p.sig_owned() {
                    acc.push(binding[k])
                } else {
                    acc
                },
            ),
        }
    } else {
        Ok(acc)
    }
}

/// The values that `binding` gives to the signature parameters of `ul`, in
/// the order of the binding; none for an external component.
pub open spec fn conc_params(ul: Component, binding: Seq<(usize, u64)>) -> Result<Seq<u64>, Fault> {
    if ul.is_ext {
        Ok(Seq::empty())
    } else {
        match owned(ul, binding, 0, Seq::empty()) {
            Err(f) => Err(f),
            Ok(o) => Ok(o.map_values(|e: (usize, u64)| e.1)),
        }
    }
}

/// The state after a concrete event was allocated for each of the first
/// `m` events of `ul`: the event at `k` is copied as it is to the position
/// `n + k`, where `n` events were stored before, and entered under `k` in
/// the event table and under `(key, k)` in that of the pass.
pub open spec fn events_first(ul: Component, key: KeyView, st: State, m: int) -> State {
    let n = st.sig.base.events.len();
    State {
        sig: SigView {
            base: BaseView { events: st.sig.base.events + ul.events@.take(m), ..st.sig.base },
            event_map: st.sig.event_map + Seq::new(
                m as nat,
                |k: int| (k as usize, (n + k) as usize),
            ),
            ..st.sig
        },
        pass: PassView {
            event_map: st.pass.event_map + Seq::new(
                m as nat,
                |k: int| ((key, k as usize), (n + k) as usize),
            ),
            ..st.pass
        },
    }
}

/// The state after the first `m` expressions of `ul` were copied as they
/// are.
pub open spec fn copy_exprs(ul: Component, s: SigView, m: int) -> SigView {
    s.with_base(BaseView { exprs: s.base.exprs + ul.exprs@.take(m), ..s.base })
}

/// The state after `p` was stored for the parameter at `k` of the generic
/// component.
pub open spec fn push_param(s: SigView, k: usize, p: Param) -> SigView {
    SigView {
        base: s.base.add_param(p),
        param_map: s.param_map.push((k, s.base.params.len() as usize)),
        ..s
    }
}

/// Copies the parameters `k..` of an external component: the owner stays,
/// the source position is copied.
pub open spec fn ext_params(ul: Component, s: SigView, k: int) -> Result<SigView, Fault>
    decreases ul.params@.len() - k,
{
    if 0 <= k < ul.params@.len() {
        match s.info(ul, ul.params@[k].info) {
            Err(f) => Err(f),
            Ok((s1, info)) => ext_params(
                ul,
                push_param(s1, k as usize, Param { owner: ul.params@[k].owner, info }),
                k + 1,
            ),
        }
    } else {
        Ok(s)
    }
}

/// Copies the signature ports among the ports `k..` of the external
/// component stored at `c` and registers each with the pass.
pub open spec fn ext_ports(ul: Component, c: usize, st: State, k: int) -> Result<State, Fault>
    decreases ul.ports@.len() - k,
{
    if 0 <= k < ul.ports@.len() {
        if ul.ports@[k].sig() {
            match st.sig.ext_port_local(ul, k as usize) {
                Err(f) => Err(f),
                Ok((s1, n)) => ext_ports(
                    ul,
                    c,
                    State {
                        sig: s1,
                        pass: st.pass.add_port(
                            KeyView { comp: c, params: Seq::empty() },
                            k as usize,
                            n,
                        ),
                    },
                    k + 1,
                ),
            }
        } else {
            ext_ports(ul, c, st, k + 1)
        }
    } else {
        Ok(st)
    }
}

/// Translates the signature ports among the ports `k..` of `ul` and
/// registers each with the pass under `key`.
pub open spec fn sig_ports(ul: Component, key: KeyView, st: State, k: int) -> Result<State, Fault>
    decreases ul.ports@.len() - k,
{
    if 0 <= k < ul.ports@.len() {
        if ul.ports@[k].sig() {
            match st.sig.port_def(ul, st.pass, k as usize) {
                Err(f) => Err(f),
                Ok((s1, n)) => sig_ports(
                    ul,
                    key,
                    State { sig: s1, pass: st.pass.add_port(key, k as usize, n) },
                    k + 1,
                ),
            }
        } else {
            sig_ports(ul, key, st, k + 1)
        }
    } else {
        Ok(st)
    }
}

/// Fills in the concrete events of the entries `k..` of `entries`.
pub open spec fn events_second(ul: Component, s: SigView, entries: Seq<(usize, usize)>, k: int) -> Result<
    SigView,
    Fault,
>
    decreases entries.len() - k,
{
    if 0 <= k < entries.len() {
        match s.event_second(ul, entries[k].0, entries[k].1) {
            Err(f) => Err(f),
            Ok((s1, _)) => events_second(ul, s1, entries, k + 1),
        }
    } else {
        Ok(s)
    }
}

/// Builds the signature of the concrete component for the generic
/// component `ul`, stored at `c`.
///
/// Every event gets its concrete event first and its content afterwards,
/// so that events may mention each other. An external component is
/// copied: its expressions and parameters as they are, its signature
/// ports without substitution. For any other component the signature
/// ports are translated under the binding. Events and signature ports are
/// registered with the pass under the key of the request. At last the
/// interface name and the unannotated ports are copied.
pub open spec fn sig(ul: Component, c: usize, st: State) -> Result<State, Fault> {
    match conc_params(ul, st.sig.binding) {
        Err(f) => Err(f),
        Ok(conc) => {
            let key = KeyView { comp: c, params: conc };
            let st1 = events_first(ul, key, st, ul.events@.len() as int);
            match (if ul.is_ext {
                match ext_params(ul, copy_exprs(ul, st1.sig, ul.exprs@.len() as int), 0) {
                    Err(f) => Err(f),
                    Ok(s2) => ext_ports(ul, c, State { sig: s2, pass: st1.pass }, 0),
                }
            } else {
                sig_ports(ul, key, st1, 0)
            }) {
                Err(f) => Err(f),
                Ok(st2) => match events_second(ul, st2.sig, st2.sig.event_map, 0) {
                    Err(f) => Err(f),
                    Ok(s3) => Ok(
                        State {
                            sig: s3.interface(ul.src_info).with_base(
                                s3.interface(ul.src_info).base.set_unannotated_ports(
                                    ul.unannotated_ports@,
                                ),
                            ),
                            pass: st2.pass,
                        },
                    ),
                },
            }
        },
    }
}

/// The state after the instance `inst` was stored for the instance at `i`
/// of the generic component, and where it was stored.
pub open spec fn push_instance(s: SigView, i: usize, inst: InstanceView) -> (SigView, usize) {
    let n = s.base.instances.len() as usize;
    (SigView { base: s.base.add_instance(inst), inst_map: s.inst_map.push((i, n)), ..s }, n)
}

/// Builds the concrete component of the generic component stored at `c`
/// under the parameter values `params`, whatever was built before: room is
/// made for it in the pass, its signature is built and its body is
/// translated. Gives the state of the pass afterwards and the component.
pub open spec fn build(prog: Seq<Component>, pass: PassView, c: usize, params: Seq<u64>) -> Result<
    (PassView, BaseView),
    Fault,
>
    decreases c, 3nat, prog, 0nat, 0nat,
{
    match at(prog, c) {
        None => Err(Fault::Missing),
        Some(ul) => match initial_binding(ul, params) {
            Err(f) => Err(f),
            Ok(binding) => match sig(
                ul,
                c,
                State { sig: SigView::start(binding), pass: pass.reserve() },
            ) {
                Err(f) => Err(f),
                Ok(st1) => match commands(prog, c, ul, st1, ul.cmds@, 0) {
                    Err(f) => Err(f),
                    Ok(st2) => Ok((st2.pass, st2.sig.base)),
                },
            },
        },
    }
}

/// Answers a request for the concrete component of the generic component
/// stored at `c` under the parameter values `params`.
///
/// A request that was answered before is answered as before, and nothing
/// changes. Otherwise the component is built, put in the room made for it
/// and recorded under the key of the request.
pub open spec fn request(prog: Seq<Component>, pass: PassView, c: usize, params: Seq<u64>) -> Result<
    (PassView, usize),
    Fault,
>
    decreases c, 4nat, prog, 0nat, 0nat,
{
    let key = KeyView { comp: c, params };
    match find_first(pass.processed, key) {
        Some(b) => Ok((pass, b)),
        None => match build(prog, pass, c, params) {
            Err(f) => Err(f),
            Ok((p, base)) => {
                let b = pass.ctx.len() as usize;
                Ok((p.finish(b, base, key), b))
            },
        },
    }
}

/// Translates the instance at `i` of `ul`, the component stored at `c`.
///
/// The instantiated component must be stored before `c`. The parameter
/// expressions are translated in order. A request goes to the pass: for an
/// external component without values, for any other with the values of the
/// translated expressions, which must all be literals. The concrete
/// instance names the component that the pass answered with; it keeps the
/// translated parameters only where that component is external.
pub open spec fn inst_def(prog: Seq<Component>, c: usize, ul: Component, st: State, i: usize) -> Result<
    (State, usize),
    Fault,
>
    decreases c, 0nat, prog, 0nat, 0nat,
{
    match at(ul.instances@, i) {
        None => Err(Fault::Missing),
        Some(inst) => if inst.comp < c {
            match at(prog, inst.comp) {
                None => Err(Fault::Missing),
                Some(callee) => match st.sig.exprs(ul, inst.params@, 0, Seq::empty()) {
                    Err(f) => Err(f),
                    Ok((s1, args)) => match (if callee.is_ext {
                        Some(Seq::<u64>::empty())
                    } else {
                        concretes(s1.base, args, 0, Seq::empty())
                    }) {
                        None => Err(Fault::NonConcrete),
                        Some(vals) => match request(prog, st.pass, inst.comp, vals) {
                            Err(f) => Err(f),
                            Ok((p1, b)) => match s1.info(ul, inst.info) {
                                Err(f) => Err(f),
                                Ok((s2, info)) => {
                                    let (s3, n) = push_instance(
                                        s2,
                                        i,
                                        InstanceView {
                                            comp: b,
                                            params: if callee.is_ext {
                                                args
                                            } else {
                                                Seq::empty()
                                            },
                                            info,
                                        },
                                    );
                                    Ok((State { sig: s3, pass: p1 }, n))
                                },
                            },
                        },
                    },
                }
            }
        } else {
            Err(Fault::Missing)
        },
    }
}

/// Translates one command of the body of `ul`, the component stored at
/// `c`: the state afterwards and the command to append, if any.
///
/// An instance, an invocation, a bundle and a connection each give one
/// command. A loop and a conditional append their own commands and give
/// none. A fact is dropped. An existential binding is a fault.
pub open spec fn command(prog: Seq<Component>, c: usize, ul: Component, st: State, cmd: Command) -> Result<
    (State, Option<BaseCmd>),
    Fault,
>
    decreases c, 1nat, cmd, 0nat, 0nat,
{
    match cmd {
        Command::Instance(i) => match inst_def(prog, c, ul, st, i) {
            Err(f) => Err(f),
            Ok((st1, n)) => Ok((st1, Some(BaseCmd::Instance(n)))),
        },
        Command::Invoke(i) => match st.sig.inv_def(ul, st.pass, i) {
            Err(f) => Err(f),
            Ok((s1, n)) => Ok((st.with_sig(s1), Some(BaseCmd::Invoke(n)))),
        },
        Command::BundleDef(p) => match st.sig.port_def(ul, st.pass, p) {
            Err(f) => Err(f),
            Ok((s1, n)) => Ok((st.with_sig(s1), Some(BaseCmd::BundleDef(n)))),
        },
        Command::Connect(con) => match st.sig.connect(ul, con) {
            Err(f) => Err(f),
            Ok((s1, con1)) => Ok((st.with_sig(s1), Some(BaseCmd::Connect(con1)))),
        },
        Command::ForLoop(lp) => match forloop(prog, c, ul, st, lp) {
            Err(f) => Err(f),
            Ok(st1) => Ok((st1, None)),
        },
        Command::If(ifs) => match if_stmt(prog, c, ul, st, ifs) {
            Err(f) => Err(f),
            Ok(st1) => Ok((st1, None)),
        },
        Command::Fact(_) => Ok((st, None)),
        Command::Exists(_) => Err(Fault::NotImplemented),
    }
}

/// Translates the commands `cmds[k..]` in order and appends what each
/// gives to the command stream.
pub open spec fn commands(
    prog: Seq<Component>,
    c: usize,
    ul: Component,
    st: State,
    cmds: Seq<Command>,
    k: int,
) -> Result<State, Fault>
    decreases c, 1nat, cmds, 0nat, cmds.len() - k,
{
    if 0 <= k < cmds.len() {
        match command(prog, c, ul, st, cmds[k]) {
            Err(f) => Err(f),
            Ok((st1, out)) => commands(prog, c, ul, st1.emit(out), cmds, k + 1),
        }
    } else {
        Ok(st)
    }
}

/// Unrolls the iterations `i..bound` of a loop: for each value of the index
/// in ascending order, the body is translated with the index bound to that
/// value, and the binding is dropped again.
pub open spec fn unroll(
    prog: Seq<Component>,
    c: usize,
    ul: Component,
    st: State,
    lp: Loop,
    i: u64,
    bound: u64,
) -> Result<State, Fault>
    decreases c, 1nat, lp, 0nat, bound - i,
{
    if i < bound {
        match commands(prog, c, ul, st.bind(lp.index, i), lp.body@, 0) {
            Err(f) => Err(f),
            Ok(st1) => unroll(prog, c, ul, st1.unbind(), lp, (i + 1) as u64, bound),
        }
    } else {
        Ok(st)
    }
}

/// Translates a loop: its start and its end are translated, in that order,
/// and must be literals; then the iterations from start to end, end not
/// included, are unrolled.
pub open spec fn forloop(prog: Seq<Component>, c: usize, ul: Component, st: State, lp: Loop) -> Result<
    State,
    Fault,
>
    decreases c, 1nat, lp, 1nat, 0nat,
{
    match st.sig.expr(ul, lp.start) {
        Err(f) => Err(f),
        Ok((s1, start)) => match s1.expr(ul, lp.end) {
            Err(f) => Err(f),
            Ok((s2, end)) => match (s2.base.concrete(start), s2.base.concrete(end)) {
                (Some(i), Some(bound)) => unroll(prog, c, ul, st.with_sig(s2), lp, i, bound),
                _ => Err(Fault::NonConcrete),
            },
        },
    }
}

/// Translates a conditional: the condition is translated and resolved;
/// where it resolves to true the first branch is translated, where it
/// resolves to false the second, and anything else is a fault.
pub open spec fn if_stmt(prog: Seq<Component>, c: usize, ul: Component, st: State, ifs: If) -> Result<
    State,
    Fault,
>
    decreases c, 1nat, ifs, 0nat, 0nat,
{
    match st.sig.prop(ul, ifs.cond) {
        Err(f) => Err(f),
        Ok((s1, cond)) => match at(s1.base.props, cond) {
            None => Err(Fault::Missing),
            Some(p) => {
                let s2 = s1.with_base(s1.base.resolve_prop(p));
                match s1.base.resolve(p) {
                    Prop::True => commands(prog, c, ul, st.with_sig(s2), ifs.then_cmds@, 0),
                    Prop::False => commands(prog, c, ul, st.with_sig(s2), ifs.alt@, 0),
                    _ => Err(Fault::NonBoolCondition),
                }
            },
        }
    }
}

/// `Itertools::collect_vec` on the values of `picked`: the vector of what
/// the iterator yields, in the order in which it yields it. The iterator
/// walks `picked` from front to back and yields the value of each entry.
#[verifier::external_body]
fn values_of(picked: &Vec<(usize, u64)>) -> (r: Vec<u64>)
    ensures
        r@ == picked@.map_values(|e: (usize, u64)| e.1),
{
    picked.iter().map(|e| e.1).collect_vec()
}

/// The translation of one generic component.
pub struct MonoDeferred<'a> {
    /// The generic component.
    pub underlying: UnderlyingComp<'a>,
    /// What was translated so far, and the tables that say where.
    pub monosig: MonoSig,
}

/// The values that the binding gives to the signature parameters.
#[verifier::loop_isolation(false)]
fn conc_values(monosig: &MonoSig, underlying: &UnderlyingComp) -> (r: Result<Vec<u64>, Fault>)
    ensures
        match conc_params(*underlying.comp, monosig@.binding) {
            Ok(v) => r is Ok && r->Ok_0@ == v,
            Err(f) => r == Err::<Vec<u64>, Fault>(f),
        },
{
    if underlying.is_ext() {
        return Ok(Vec::new());
    }
    let binding = monosig.binding.inner();
    let mut picked: Vec<(usize, u64)> = Vec::new();
    let mut k: usize = 0;
    while k < binding.len()
        invariant
            k <= binding.len(),
            binding@ == monosig@.binding,
            owned(*underlying.comp, binding@, k as int, picked@) == owned(
                *underlying.comp,
                monosig@.binding,
                0,
                Seq::empty(),
            ),
        decreases binding.len() - k,
    {
        let entry = binding[k];
        match underlying.param(entry.0) {
            None => {
                return Err(Fault::Missing);
            },
            Some(p) => {
                if p.is_sig_owned() {
                    picked.push(entry);
                }
            },
        }
        k += 1;
    }
    Ok(values_of(&picked))
}

/// Allocates a concrete event for every event of the generic component.
fn allocate_events(
    monosig: &mut MonoSig,
    underlying: &UnderlyingComp,
    pass: &mut Monomorphize,
    key: &CompKey,
)
    ensures
        (State { sig: final(monosig)@, pass: final(pass)@ }) == events_first(
            *underlying.comp,
            key@,
            State { sig: old(monosig)@, pass: old(pass)@ },
            underlying.comp.events@.len() as int,
        ),
        final(monosig).underlying_idx == old(monosig).underlying_idx,
        final(pass).old == old(pass).old,
{
    let ghost st0 = State { sig: monosig@, pass: pass@ };
    let events = underlying.events();
    let mut k: usize = 0;
    proof {
        let st = events_first(*underlying.comp, key@, st0, 0);
        assert(st.sig.base.events =~= st0.sig.base.events);
        assert(st.sig.event_map =~= st0.sig.event_map);
        assert(st.pass.event_map =~= st0.pass.event_map);
    }
    while k < events.len()
        invariant
            k <= events.len(),
            events@ == underlying.comp.events@,
            monosig.underlying_idx == old(monosig).underlying_idx,
            pass.old == old(pass).old,
            (State { sig: monosig@, pass: pass@ }) == events_first(
                *underlying.comp,
                key@,
                st0,
                k as int,
            ),
        decreases events.len() - k,
    {
        let ghost before = events_first(*underlying.comp, key@, st0, k as int);
        let new_idx = monosig.base.add_event(events[k]);
        monosig.event_map.insert(k, new_idx);
        pass.event_map.insert(key.copy(), k, new_idx);
        k += 1;
        proof {
            let after = events_first(*underlying.comp, key@, st0, k as int);
            assert(after.sig.base.events =~= before.sig.base.events.push(events@[k - 1]));
            assert(after.sig.event_map =~= before.sig.event_map.push(((k - 1) as usize, new_idx)));
            assert(after.pass.event_map =~= before.pass.event_map.push(
                ((key@, (k - 1) as usize), new_idx),
            ));
        }
    }
}

/// Copies the expressions and the parameters of an external component.
#[verifier::loop_isolation(false)]
fn copy_external(monosig: &mut MonoSig, underlying: &UnderlyingComp) -> (r: Result<(), Fault>)
    ensures
        match ext_params(
            *underlying.comp,
            copy_exprs(*underlying.comp, old(monosig)@, underlying.comp.exprs@.len() as int),
            0,
        ) {
            Ok(s) => r is Ok && final(monosig)@ == s,
            Err(f) => r == Err::<(), Fault>(f),
        },
        final(monosig).underlying_idx == old(monosig).underlying_idx,
{
    let ghost s0 = monosig@;
    let exprs = underlying.exprs();
    let mut k: usize = 0;
    assert(copy_exprs(*underlying.comp, s0, 0).base.exprs =~= s0.base.exprs);
    while k < exprs.len()
        invariant
            k <= exprs.len(),
            exprs@ == underlying.comp.exprs@,
            monosig.underlying_idx == old(monosig).underlying_idx,
            monosig@ == copy_exprs(*underlying.comp, s0, k as int),
        decreases exprs.len() - k,
    {
        let ghost before = copy_exprs(*underlying.comp, s0, k as int);
        monosig.base.add_expr(exprs[k]);
        k += 1;
        assert(copy_exprs(*underlying.comp, s0, k as int).base.exprs =~= before.base.exprs.push(
            exprs@[k - 1],
        ));
    }
    let ghost s1 = monosig@;
    let params = underlying.params();
    let mut j: usize = 0;
    while j < params.len()
        invariant
            j <= params.len(),
            params@ == underlying.comp.params@,
            monosig.underlying_idx == old(monosig).underlying_idx,
            ext_params(*underlying.comp, monosig@, j as int) == ext_params(
                *underlying.comp,
                s1,
                0,
            ),
        decreases params.len() - j,
    {
        let param = params[j];
        let info = monosig.info(underlying, param.info)?;
        let new_idx = monosig.base.add_param(Param { owner: param.owner, info });
        monosig.param_map.insert(j, new_idx);
        j += 1;
    }
    Ok(())
}

/// Copies the signature ports of an external component.
#[verifier::loop_isolation(false)]
fn copy_ports(monosig: &mut MonoSig, underlying: &UnderlyingComp, pass: &mut Monomorphize) -> (r:
    Result<(), Fault>)
    ensures
        done(
            r,
            final(monosig)@,
            final(pass)@,
            ext_ports(
                *underlying.comp,
                old(monosig).underlying_idx,
                State { sig: old(monosig)@, pass: old(pass)@ },
                0,
            ),
        ),
        final(monosig).underlying_idx == old(monosig).underlying_idx,
        final(pass).old == old(pass).old,
{
    let ghost st0 = State { sig: monosig@, pass: pass@ };
    let ports = underlying.ports();
    let mut k: usize = 0;
    while k < ports.len()
        invariant
            k <= ports.len(),
            ports@ == underlying.comp.ports@,
            monosig.underlying_idx == old(monosig).underlying_idx,
            pass.old == old(pass).old,
            ext_ports(
                *underlying.comp,
                monosig.underlying_idx,
                State { sig: monosig@, pass: pass@ },
                k as int,
            ) == ext_ports(*underlying.comp, monosig.underlying_idx, st0, 0),
        decreases ports.len() - k,
    {
        if ports[k].is_sig() {
            monosig.ext_port(underlying, pass, k)?;
        }
        k += 1;
    }
    Ok(())
}

/// Translates the signature ports of a component that is not external.
#[verifier::loop_isolation(false)]
fn translate_ports(
    monosig: &mut MonoSig,
    underlying: &UnderlyingComp,
    pass: &mut Monomorphize,
    key: &CompKey,
) -> (r: Result<(), Fault>)
    ensures
        done(
            r,
            final(monosig)@,
            final(pass)@,
            sig_ports(*underlying.comp, key@, State { sig: old(monosig)@, pass: old(pass)@ }, 0),
        ),
        final(monosig).underlying_idx == old(monosig).underlying_idx,
        final(pass).old == old(pass).old,
{
    let ghost st0 = State { sig: monosig@, pass: pass@ };
    let ports = underlying.ports();
    let mut k: usize = 0;
    while k < ports.len()
        invariant
            k <= ports.len(),
            ports@ == underlying.comp.ports@,
            monosig.underlying_idx == old(monosig).underlying_idx,
            pass.old == old(pass).old,
            sig_ports(*underlying.comp, key@, State { sig: monosig@, pass: pass@ }, k as int)
                == sig_ports(*underlying.comp, key@, st0, 0),
        decreases ports.len() - k,
    {
        if ports[k].is_sig() {
            let port = monosig.port_def(underlying, pass, k)?;
            pass.port_map.insert(key.copy(), k, port);
        }
        k += 1;
    }
    Ok(())
}

/// Fills in every concrete event that was allocated.
#[verifier::loop_isolation(false)]
fn fill_events(monosig: &mut MonoSig, underlying: &UnderlyingComp) -> (r: Result<(), Fault>)
    ensures
        match events_second(*underlying.comp, old(monosig)@, old(monosig)@.event_map, 0) {
            Ok(s) => r is Ok && final(monosig)@ == s,
            Err(f) => r == Err::<(), Fault>(f),
        },
        final(monosig).underlying_idx == old(monosig).underlying_idx,
{
    let entries = monosig.event_map.snapshot();
    let ghost s0 = monosig@;
    let mut k: usize = 0;
    while k < entries.len()
        invariant
            k <= entries.len(),
            entries@ == s0.event_map,
            monosig.underlying_idx == old(monosig).underlying_idx,
            events_second(*underlying.comp, monosig@, entries@, k as int) == events_second(
                *underlying.comp,
                s0,
                entries@,
                0,
            ),
        decreases entries.len() - k,
    {
        let entry = entries[k];
        monosig.event_second(underlying, entry.0, entry.1)?;
        k += 1;
    }
    Ok(())
}

impl MonoSig {
    /// Translates the instance at `i` of the generic component, enters it
    /// in the instance table and returns where it is stored. The pass is
    /// asked for the concrete component that the instance names.
    pub fn inst_def(&mut self, ul: &UnderlyingComp, pass: &mut Monomorphize, i: usize) -> (r:
        Result<usize, Fault>)
        ensures
            follows(
                r,
                final(self)@,
                final(pass)@,
                inst_def(
                    old(pass).old.comps@,
                    old(self).underlying_idx,
                    *ul.comp,
                    State { sig: old(self)@, pass: old(pass)@ },
                    i,
                ),
            ),
            final(self).underlying_idx == old(self).underlying_idx,
            final(pass).old == old(pass).old,
        decreases old(self).underlying_idx, 0nat, old(pass).old.comps@, 0nat, 0nat,
    {
        match ul.instance(i) {
            None => Err(Fault::Missing),
            Some(inst) => {
                if inst.comp < self.underlying_idx {
                    let old_ctx = pass.old;
                    if inst.comp >= old_ctx.comps.len() {
                        return Err(Fault::Missing);
                    }
                    let ext = old_ctx.comps[inst.comp].is_ext;
                    let args = self.exprs(ul, &inst.params)?;
                    let vals = if ext {
                        Vec::new()
                    } else {
                        match self.base.concretes(&args) {
                            Some(v) => v,
                            None => {
                                return Err(Fault::NonConcrete);
                            },
                        }
                    };
                    let b = pass.get_or_create(inst.comp, vals)?;
                    let info = self.info(ul, inst.info)?;
                    let params = if ext {
                        args
                    } else {
                        Vec::new()
                    };
                    let n = self.base.add_instance(Instance { comp: b, params, info });
                    self.inst_map.insert(i, n);
                    Ok(n)
                } else {
                    Err(Fault::Missing)
                }
            },
        }
    }
}

impl<'a> MonoDeferred<'a> {
    /// Builds the signature of the concrete component: events, ports and,
    /// for an external component, expressions and parameters; registers
    /// events and signature ports with the pass; copies the interface name
    /// and the unannotated ports.
    pub fn sig(monosig: &mut MonoSig, underlying: UnderlyingComp, pass: &mut Monomorphize) -> (r:
        Result<(), Fault>)
        ensures
            done(
                r,
                final(monosig)@,
                final(pass)@,
                sig(
                    *underlying.comp,
                    old(monosig).underlying_idx,
                    State { sig: old(monosig)@, pass: old(pass)@ },
                ),
            ),
            final(monosig).underlying_idx == old(monosig).underlying_idx,
            final(pass).old == old(pass).old,
    {
        let conc = conc_values(monosig, &underlying)?;
        let key = CompKey::new(monosig.underlying_idx, conc);
        // Events may mention each other: each gets its place now and its
        // content once all have a place.
        allocate_events(monosig, &underlying, pass, &key);
        if underlying.is_ext() {
            copy_external(monosig, &underlying)?;
            copy_ports(monosig, &underlying, pass)?;
        } else {
            translate_ports(monosig, &underlying, pass, &key)?;
        }
        fill_events(monosig, &underlying)?;
        monosig.interface(underlying.src_info());
        monosig.base.set_unannotated_ports(copied(underlying.unannotated_ports()));
        Ok(())
    }

    /// Translates the body of the generic component, command by command,
    /// in order.
    pub fn gen_comp(&mut self, pass: &mut Monomorphize) -> (r: Result<(), Fault>)
        ensures
            done(
                r,
                final(self).monosig@,
                final(pass)@,
                commands(
                    old(pass).old.comps@,
                    old(self).monosig.underlying_idx,
                    *old(self).underlying.comp,
                    State { sig: old(self).monosig@, pass: old(pass)@ },
                    old(self).underlying.comp.cmds@,
                    0,
                ),
            ),
            final(self).monosig.underlying_idx == old(self).monosig.underlying_idx,
            final(self).underlying == old(self).underlying,
            final(pass).old == old(pass).old,
        decreases old(self).monosig.underlying_idx, 2nat, old(pass).old.comps@, 0nat, 0nat,
    {
        let cmds = self.underlying.cmds();
        self.body(pass, cmds)
    }

    /// Translates `cmds` in order and appends what each gives to the
    /// command stream.
    #[verifier::loop_isolation(false)]
    pub fn body(&mut self, pass: &mut Monomorphize, cmds: &Vec<Command>) -> (r: Result<(), Fault>)
        ensures
            done(
                r,
                final(self).monosig@,
                final(pass)@,
                commands(
                    old(pass).old.comps@,
                    old(self).monosig.underlying_idx,
                    *old(self).underlying.comp,
                    State { sig: old(self).monosig@, pass: old(pass)@ },
                    cmds@,
                    0,
                ),
            ),
            final(self).monosig.underlying_idx == old(self).monosig.underlying_idx,
            final(self).underlying == old(self).underlying,
            final(pass).old == old(pass).old,
        decreases old(self).monosig.underlying_idx, 1nat, cmds@, 0nat, cmds@.len(),
    {
        let ghost prog = pass.old.comps@;
        let ghost c = self.monosig.underlying_idx;
        let ghost ul = *self.underlying.comp;
        let ghost st0 = State { sig: self.monosig@, pass: pass@ };
        let mut k: usize = 0;
        while k < cmds.len()
            invariant
                k <= cmds.len(),
                self.monosig.underlying_idx == c,
                *self.underlying.comp == ul,
                self.underlying == old(self).underlying,
                pass.old == old(pass).old,
                pass.old.comps@ == prog,
                commands(prog, c, ul, State { sig: self.monosig@, pass: pass@ }, cmds@, k as int)
                    == commands(prog, c, ul, st0, cmds@, 0),
            decreases cmds.len() - k,
        {
            let out = self.command(pass, &cmds[k])?;
            self.monosig.base.extend_cmds(out);
            k += 1;
        }
        Ok(())
    }

    /// Translates the property at `pidx` of the generic component and
    /// returns where the translation is stored. Nothing is decided here.
    pub fn prop(&mut self, pidx: usize) -> (r: Result<usize, Fault>)
        ensures
            agrees(r, final(self).monosig@, old(self).monosig@.prop(*old(self).underlying.comp, pidx)),
            final(self).monosig.underlying_idx == old(self).monosig.underlying_idx,
            final(self).underlying == old(self).underlying,
        decreases pidx,
    {
        let ul = self.underlying;
        match ul.prop(pidx) {
            None => Err(Fault::Missing),
            Some(Prop::True) => Ok(self.monosig.base.add_prop(Prop::True)),
            Some(Prop::False) => Ok(self.monosig.base.add_prop(Prop::False)),
            Some(Prop::Compare { op, lhs, rhs }) => {
                let lhs = self.monosig.expr(&ul, lhs)?;
                let rhs = self.monosig.expr(&ul, rhs)?;
                Ok(self.monosig.base.add_prop(Prop::Compare { op, lhs, rhs }))
            },
            Some(Prop::TimeCompare { op, lhs, rhs }) => {
                let lhs = self.monosig.time(&ul, lhs)?;
                let rhs = self.monosig.time(&ul, rhs)?;
                Ok(self.monosig.base.add_prop(Prop::TimeCompare { op, lhs, rhs }))
            },
            Some(Prop::TimeSubCompare { op, lhs, rhs }) => {
                let lhs = self.monosig.timesub(&ul, lhs)?;
                let rhs = self.monosig.timesub(&ul, rhs)?;
                Ok(self.monosig.base.add_prop(Prop::TimeSubCompare { op, lhs, rhs }))
            },
            Some(Prop::Not(p)) => {
                if p < pidx {
                    let new_p = self.prop(p)?;
                    Ok(self.monosig.base.add_prop(Prop::Not(new_p)))
                } else {
                    Err(Fault::Missing)
                }
            },
            Some(Prop::And(l, r)) => {
                if l < pidx && r < pidx {
                    let l = self.prop(l)?;
                    let r = self.prop(r)?;
                    Ok(self.monosig.base.add_prop(Prop::And(l, r)))
                } else {
                    Err(Fault::Missing)
                }
            },
            Some(Prop::Or(l, r)) => {
                if l < pidx && r < pidx {
                    let l = self.prop(l)?;
                    let r = self.prop(r)?;
                    Ok(self.monosig.base.add_prop(Prop::Or(l, r)))
                } else {
                    Err(Fault::Missing)
                }
            },
            Some(Prop::Implies(l, r)) => {
                if l < pidx && r < pidx {
                    let l = self.prop(l)?;
                    let r = self.prop(r)?;
                    Ok(self.monosig.base.add_prop(Prop::Implies(l, r)))
                } else {
                    Err(Fault::Missing)
                }
            },
        }
    }

    /// Translates an access; both ends of its range are literals
    /// afterwards.
    pub fn access(&mut self, acc: &Access) -> (r: Result<Access, Fault>)
        ensures
            agrees(r, final(self).monosig@, old(self).monosig@.access(*old(self).underlying.comp, *acc)),
            final(self).monosig.underlying_idx == old(self).monosig.underlying_idx,
            final(self).underlying == old(self).underlying,
    {
        let ul = self.underlying;
        let port = self.monosig.port_use(acc.port)?;
        let end = self.monosig.bound(&ul, acc.end)?;
        let start = self.monosig.bound(&ul, acc.start)?;
        Ok(Access { port, start, end })
    }

    /// Translates a connection.
    pub fn connect(&mut self, con: &Connect) -> (r: Result<Connect, Fault>)
        ensures
            agrees(r, final(self).monosig@, old(self).monosig@.connect(*old(self).underlying.comp, *con)),
            final(self).monosig.underlying_idx == old(self).monosig.underlying_idx,
            final(self).underlying == old(self).underlying,
    {
        let ul = self.underlying;
        let mono_src = self.access(&con.src)?;
        let mono_dst = self.access(&con.dst)?;
        let info = self.monosig.info(&ul, con.info)?;
        Ok(Connect { src: mono_src, dst: mono_dst, info })
    }

    /// Unrolls a loop into the command stream.
    #[verifier::loop_isolation(false)]
    pub fn forloop(&mut self, pass: &mut Monomorphize, lp: &Loop) -> (r: Result<(), Fault>)
        ensures
            done(
                r,
                final(self).monosig@,
                final(pass)@,
                forloop(
                    old(pass).old.comps@,
                    old(self).monosig.underlying_idx,
                    *old(self).underlying.comp,
                    State { sig: old(self).monosig@, pass: old(pass)@ },
                    *lp,
                ),
            ),
            final(self).monosig.underlying_idx == old(self).monosig.underlying_idx,
            final(self).underlying == old(self).underlying,
            final(pass).old == old(pass).old,
        decreases old(self).monosig.underlying_idx, 1nat, lp, 1nat, 0nat,
    {
        let ghost prog = pass.old.comps@;
        let ghost c = self.monosig.underlying_idx;
        let ghost ul = *self.underlying.comp;
        let und = self.underlying;
        let mono_start = self.monosig.expr(&und, lp.start)?;
        let mono_end = self.monosig.expr(&und, lp.end)?;
        let (start, bound) = match (
            self.monosig.base.as_concrete(mono_start),
            self.monosig.base.as_concrete(mono_end),
        ) {
            (Some(i), Some(b)) => (i, b),
            _ => {
                return Err(Fault::NonConcrete);
            },
        };
        let ghost st1 = State { sig: self.monosig@, pass: pass@ };
        let mut i: u64 = start;
        while i < bound
            invariant
                self.monosig.underlying_idx == c,
                *self.underlying.comp == ul,
                self.underlying == old(self).underlying,
                pass.old == old(pass).old,
                pass.old.comps@ == prog,
                unroll(prog, c, ul, State { sig: self.monosig@, pass: pass@ }, *lp, i, bound)
                    == unroll(prog, c, ul, st1, *lp, start, bound),
            decreases bound - i,
        {
            self.monosig.binding.insert(lp.index, i);
            self.body(pass, &lp.body)?;
            // The index leaves scope with the iteration.
            self.monosig.binding.pop();
            i += 1;
        }
        Ok(())
    }

    /// Decides a conditional and translates the branch that it selects.
    pub fn if_stmt(&mut self, pass: &mut Monomorphize, if_stmt: &If) -> (r: Result<(), Fault>)
        ensures
            done(
                r,
                final(self).monosig@,
                final(pass)@,
                self::if_stmt(
                    old(pass).old.comps@,
                    old(self).monosig.underlying_idx,
                    *old(self).underlying.comp,
                    State { sig: old(self).monosig@, pass: old(pass)@ },
                    *if_stmt,
                ),
            ),
            final(self).monosig.underlying_idx == old(self).monosig.underlying_idx,
            final(self).underlying == old(self).underlying,
            final(pass).old == old(pass).old,
        decreases old(self).monosig.underlying_idx, 1nat, if_stmt, 0nat, 0nat,
    {
        let cond = self.prop(if_stmt.cond)?;
        let cond = match self.monosig.base.get_prop(cond) {
            None => {
                return Err(Fault::Missing);
            },
            Some(p) => self.monosig.base.resolve_prop(p),
        };
        match self.monosig.base.get_prop(cond) {
            Some(Prop::True) => self.body(pass, &if_stmt.then_cmds),
            Some(Prop::False) => self.body(pass, &if_stmt.alt),
            _ => Err(Fault::NonBoolCondition),
        }
    }

    /// Translates one command and returns the command to append, if any.
    pub fn command(&mut self, pass: &mut Monomorphize, cmd: &Command) -> (r: Result<
        Option<BaseCmd>,
        Fault,
    >)
        ensures
            follows(
                r,
                final(self).monosig@,
                final(pass)@,
                command(
                    old(pass).old.comps@,
                    old(self).monosig.underlying_idx,
                    *old(self).underlying.comp,
                    State { sig: old(self).monosig@, pass: old(pass)@ },
                    *cmd,
                ),
            ),
            final(self).monosig.underlying_idx == old(self).monosig.underlying_idx,
            final(self).underlying == old(self).underlying,
            final(pass).old == old(pass).old,
        decreases old(self).monosig.underlying_idx, 1nat, cmd, 0nat, 0nat,
    {
        let ul = self.underlying;
        match cmd {
            Command::Instance(idx) => {
                let n = self.monosig.inst_def(&ul, pass, *idx)?;
                Ok(Some(BaseCmd::Instance(n)))
            },
            Command::Invoke(idx) => {
                let n = self.monosig.inv_def(&ul, pass, *idx)?;
                Ok(Some(BaseCmd::Invoke(n)))
            },
            Command::BundleDef(p) => {
                let n = self.monosig.port_def(&ul, pass, *p)?;
                Ok(Some(BaseCmd::BundleDef(n)))
            },
            Command::Connect(con) => {
                let con = self.connect(con)?;
                Ok(Some(BaseCmd::Connect(con)))
            },
            Command::ForLoop(lp) => {
                self.forloop(pass, lp)?;
                Ok(None)
            },
            Command::If(if_stmt) => {
                self.if_stmt(pass, if_stmt)?;
                Ok(None)
            },
            // Facts are dropped.
            Command::Fact(_) => Ok(None),
            Command::Exists(_) => Err(Fault::NotImplemented),
        }
    }
}

} // verus!
