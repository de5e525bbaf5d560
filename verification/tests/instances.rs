use monomorph::deferred::MonoDeferred;
use monomorph::fault::Fault;
use monomorph::ir::{
    Access, BaseCmd, BinOp, Command, Component, Connect, Context, Direction, Event, EventBind,
    Expr, Info, Instance, Invoke, Loop, Param, ParamOwner, Port, PortOwner, Range, Time, TimeSub,
    UnderlyingComp,
};
use monomorph::maps::{CompKey, Table};
use monomorph::monosig::MonoSig;
use monomorph::pass::Monomorphize;

fn port(owner: PortOwner, width: usize) -> Port {
    Port { owner, width, live: Range { start: 0, end: 1 }, info: 0 }
}

/// `comp Reg[n](in, out) { for i in 0..n { out{i..i+1} = in{i..i+1} } }`
fn reg() -> Component {
    Component {
        is_ext: false,
        exprs: vec![
            Expr::Concrete(0),
            Expr::Param(0),
            Expr::Param(1),
            Expr::Concrete(1),
            Expr::Bin { op: BinOp::Add, lhs: 2, rhs: 3 },
        ],
        times: vec![Time { event: 0, offset: 0 }, Time { event: 0, offset: 3 }],
        props: vec![],
        events: vec![Event { delay: TimeSub::Unit(3), info: 0 }],
        ports: vec![
            port(PortOwner::Sig { dir: Direction::In }, 1),
            port(PortOwner::Sig { dir: Direction::Out }, 1),
        ],
        params: vec![
            Param { owner: ParamOwner::Sig, info: 0 },
            Param { owner: ParamOwner::Loop, info: 0 },
        ],
        instances: vec![],
        invokes: vec![],
        infos: vec![Info { line: 1, col: 1 }],
        cmds: vec![Command::ForLoop(Loop {
            index: 1,
            start: 0,
            end: 1,
            body: vec![Command::Connect(Connect {
                src: Access { port: 0, start: 2, end: 4 },
                dst: Access { port: 1, start: 2, end: 4 },
                info: 0,
            })],
        })],
        src_info: None,
        unannotated_ports: vec![],
    }
}

/// An external adder with one parameter, two events that do not mention
/// each other, a body-local port between its two signature ports.
fn adder() -> Component {
    Component {
        is_ext: true,
        exprs: vec![Expr::Param(0), Expr::Concrete(1), Expr::Bin { op: BinOp::Add, lhs: 0, rhs: 1 }],
        times: vec![Time { event: 0, offset: 1 }, Time { event: 1, offset: 2 }],
        props: vec![],
        events: vec![
            Event { delay: TimeSub::Unit(1), info: 0 },
            Event { delay: TimeSub::Sym { l: 1, r: 0 }, info: 1 },
        ],
        ports: vec![
            port(PortOwner::Sig { dir: Direction::In }, 0),
            port(PortOwner::Local, 0),
            port(PortOwner::Sig { dir: Direction::Out }, 2),
        ],
        params: vec![Param { owner: ParamOwner::Sig, info: 1 }],
        instances: vec![],
        invokes: vec![],
        infos: vec![Info { line: 1, col: 1 }, Info { line: 2, col: 5 }],
        cmds: vec![],
        src_info: None,
        unannotated_ports: vec![(9, 8)],
    }
}

/// `comp Top[w](x) { r0 := new Reg[w + 1]; r1 := new Reg[w + 1];
///  a := new Add[w]; i := r0<G>(..); bundle p for i.in; p{0..1} = x{0..1} }`
///
/// Generic components are stored `[Reg, Add, Top]`.
fn top() -> Component {
    Component {
        is_ext: false,
        exprs: vec![
            Expr::Param(0),
            Expr::Concrete(1),
            Expr::Bin { op: BinOp::Add, lhs: 0, rhs: 1 },
            Expr::Concrete(0),
        ],
        times: vec![Time { event: 0, offset: 3 }, Time { event: 0, offset: 1 }],
        props: vec![],
        events: vec![Event { delay: TimeSub::Unit(1), info: 0 }],
        ports: vec![
            port(PortOwner::Sig { dir: Direction::In }, 0),
            port(PortOwner::Inv { inv: 0, dir: Direction::In, base: 1 }, 0),
        ],
        params: vec![Param { owner: ParamOwner::Sig, info: 0 }],
        instances: vec![
            Instance { comp: 0, params: vec![2], info: 0 },
            Instance { comp: 0, params: vec![2], info: 0 },
            Instance { comp: 1, params: vec![0], info: 0 },
        ],
        invokes: vec![Invoke { inst: 0, events: vec![EventBind { base: 0, arg: 1 }], info: 0 }],
        infos: vec![Info { line: 3, col: 1 }],
        cmds: vec![
            Command::Instance(0),
            Command::Instance(1),
            Command::Instance(2),
            Command::Invoke(0),
            Command::BundleDef(1),
            Command::Connect(Connect {
                src: Access { port: 0, start: 3, end: 1 },
                dst: Access { port: 1, start: 3, end: 1 },
                info: 0,
            }),
        ],
        src_info: None,
        unannotated_ports: vec![],
    }
}

fn program() -> Context {
    Context { comps: vec![reg(), adder(), top()] }
}

#[test]
fn same_request_is_answered_once() {
    let ctx = program();
    let mut pass = Monomorphize::new(&ctx);
    let a = pass.get_or_create(0, vec![4]).unwrap();
    let built = pass.ctx.len();
    let records = pass.processed.entries.len();
    let b = pass.get_or_create(0, vec![4]).unwrap();
    assert_eq!(a, b);
    assert_eq!(pass.ctx.len(), built);
    assert_eq!(pass.processed.entries.len(), records);
}

#[test]
fn different_values_give_different_components() {
    let ctx = program();
    let mut pass = Monomorphize::new(&ctx);
    let a = pass.get_or_create(0, vec![4]).unwrap();
    let b = pass.get_or_create(0, vec![5]).unwrap();
    let c = pass.get_or_create(0, vec![4]).unwrap();
    assert_ne!(a, b);
    assert_eq!(a, c);
    assert_eq!(pass.ctx[a].cmds.len(), 4);
    assert_eq!(pass.ctx[b].cmds.len(), 5);
}

#[test]
fn building_twice_gives_the_same_component() {
    let ctx = program();
    let mut first = Monomorphize::new(&ctx);
    let a = first.get_or_create(2, vec![3]).unwrap();
    let mut second = Monomorphize::new(&ctx);
    let b = second.get_or_create(2, vec![3]).unwrap();
    assert_eq!(a, b);
    assert_eq!(first.ctx, second.ctx);
    // A component does not depend on what was built before it.
    let mut third = Monomorphize::new(&ctx);
    third.get_or_create(0, vec![9]).unwrap();
    let c = third.get_or_create(0, vec![4]).unwrap();
    let reg4 = first.processed.get(&CompKey::new(0, vec![4])).unwrap();
    assert_eq!(third.ctx[c], first.ctx[reg4]);
}

#[test]
fn instances_ask_the_pass_for_their_component() {
    let ctx = program();
    let mut pass = Monomorphize::new(&ctx);
    let t = pass.get_or_create(2, vec![3]).unwrap();
    // Room is made for Top first; Reg[4] and the adder follow, once each.
    assert_eq!(t, 0);
    assert_eq!(pass.ctx.len(), 3);
    let r = pass.processed.get(&CompKey::new(0, vec![4])).unwrap();
    let a = pass.processed.get(&CompKey::new(1, vec![])).unwrap();
    assert_eq!((r, a), (1, 2));
    assert_eq!(pass.processed.get(&CompKey::new(2, vec![3])), Some(0));
    assert_eq!(pass.processed.entries.len(), 3);

    let base = &pass.ctx[t];
    assert_eq!(base.instances.len(), 3);
    assert_eq!(base.instances[0].comp, r);
    assert_eq!(base.instances[1].comp, r);
    assert_eq!(base.instances[2].comp, a);
    // Only an instance of an external component keeps its parameters.
    assert!(base.instances[0].params.is_empty());
    assert_eq!(base.instances[2].params.len(), 1);
    assert_eq!(base.exprs[base.instances[2].params[0]], Expr::Concrete(3));
    assert_eq!(
        &base.cmds[..5],
        &[
            BaseCmd::Instance(0),
            BaseCmd::Instance(1),
            BaseCmd::Instance(2),
            BaseCmd::Invoke(0),
            BaseCmd::BundleDef(1)
        ]
    );
    assert_eq!(pass.ctx[r].cmds.len(), 4);
}

#[test]
fn invocation_reaches_into_the_invoked_component() {
    let ctx = program();
    let mut pass = Monomorphize::new(&ctx);
    let t = pass.get_or_create(2, vec![3]).unwrap();
    let base = &pass.ctx[t];
    assert_eq!(base.invokes.len(), 1);
    let inv = &base.invokes[0];
    assert_eq!(inv.inst, 0);
    assert_eq!(inv.events.len(), 1);
    // Event 0 of Reg is event 0 of Reg[4]; the time is G + 1.
    assert_eq!(inv.events[0].base, 0);
    let arg = base.times[inv.events[0].arg];
    assert_eq!(arg.event, 0);
    assert_eq!(base.exprs[arg.offset], Expr::Concrete(1));
    // The bundle stands for port 1 of Reg, which is port 1 of Reg[4].
    assert_eq!(base.ports[1].owner, PortOwner::Inv { inv: 0, dir: Direction::In, base: 1 });
    assert_eq!(base.exprs[base.ports[1].width], Expr::Concrete(3));
}

#[test]
fn signature_is_registered_under_the_key_of_the_request() {
    let ctx = program();
    let mut pass = Monomorphize::new(&ctx);
    pass.get_or_create(0, vec![4]).unwrap();
    let key = CompKey::new(0, vec![4]);
    assert_eq!(pass.event_map.get(&key, 0), Some(0));
    assert_eq!(pass.port_map.get(&key, 0), Some(0));
    assert_eq!(pass.port_map.get(&key, 1), Some(1));
    assert_eq!(pass.port_map.get(&CompKey::new(0, vec![]), 0), None);
    assert_eq!(pass.port_map.get(&CompKey::new(0, vec![0]), 0), None);
    assert_eq!(pass.event_map.entries[0].0.params, vec![4]);
}

#[test]
fn only_signature_parameters_make_the_key() {
    let comp = reg();
    let ul = UnderlyingComp::new(&comp);
    let ctx = Context { comps: vec![] };
    let mut pass = Monomorphize::new(&ctx);
    let mut binding: Table<u64> = Table::new();
    binding.insert(0, 6);
    binding.insert(1, 2);
    let mut sig = MonoSig::new(0, binding);
    assert_eq!(MonoDeferred::sig(&mut sig, ul, &mut pass), Ok(()));
    assert_eq!(pass.event_map.entries.len(), 1);
    assert_eq!(pass.event_map.entries[0].0, CompKey::new(0, vec![6]));
    assert_eq!(pass.port_map.entries.len(), 2);
    assert_eq!(pass.port_map.entries[1], (CompKey::new(0, vec![6]), 1, 1));
    assert_eq!(sig.base.exprs[sig.base.ports[0].width], Expr::Concrete(6));
}

#[test]
fn component_must_be_stored_before_its_user() {
    assert!(program().is_leaves_first());
    assert!(Context { comps: vec![] }.is_leaves_first());
    assert!(!Context { comps: vec![top(), reg(), adder()] }.is_leaves_first());
    let mut later = top();
    later.instances[0].comp = 2;
    let ctx = Context { comps: vec![reg(), adder(), later] };
    assert!(!ctx.is_leaves_first());
    let mut pass = Monomorphize::new(&ctx);
    assert_eq!(pass.get_or_create(2, vec![3]), Err(Fault::Missing));
}

#[test]
fn instance_parameter_must_be_a_number() {
    let mut odd = top();
    // w - 1, with w = 0
    odd.exprs[2] = Expr::Bin { op: BinOp::Sub, lhs: 0, rhs: 1 };
    let ctx = Context { comps: vec![reg(), adder(), odd] };
    let mut pass = Monomorphize::new(&ctx);
    assert_eq!(pass.get_or_create(2, vec![0]), Err(Fault::NonConcrete));
}

#[test]
fn invocation_needs_its_instance_first() {
    let mut early = top();
    early.cmds.swap(0, 3);
    let ctx = Context { comps: vec![reg(), adder(), early] };
    let mut pass = Monomorphize::new(&ctx);
    assert_eq!(pass.get_or_create(2, vec![3]), Err(Fault::Missing));
}

#[test]
fn fault_in_an_instantiated_component_ends_the_request() {
    let mut bad = reg();
    bad.cmds.push(Command::Exists(monomorph::ir::Exists { param: 1, expr: 0 }));
    let ctx = Context { comps: vec![bad, adder(), top()] };
    let mut pass = Monomorphize::new(&ctx);
    assert_eq!(pass.get_or_create(2, vec![3]), Err(Fault::NotImplemented));
}

#[test]
fn external_component_is_copied() {
    let ctx = program();
    let mut pass = Monomorphize::new(&ctx);
    let a = pass.get_or_create(1, vec![]).unwrap();
    let base = &pass.ctx[a];
    let ul = &ctx.comps[1];
    assert_eq!(base.exprs, ul.exprs);
    assert_eq!(base.params, vec![Param { owner: ParamOwner::Sig, info: 0 }]);
    assert_eq!(base.events.len(), 2);
    // The two signature ports, in order, with direction and width.
    assert_eq!(base.ports.len(), 2);
    assert_eq!(base.ports[0].owner, PortOwner::Sig { dir: Direction::In });
    assert_eq!(base.ports[0].width, 0);
    assert_eq!(base.ports[1].owner, PortOwner::Sig { dir: Direction::Out });
    assert_eq!(base.ports[1].width, 2);
    for p in &base.ports {
        assert_eq!(base.times[p.live.start], Time { event: 0, offset: 1 });
        assert_eq!(base.times[p.live.end], Time { event: 1, offset: 2 });
    }
    assert_eq!(base.events[0].delay, TimeSub::Unit(1));
    assert_eq!(base.infos[base.params[0].info], Info { line: 2, col: 5 });
    assert_eq!(base.unannotated_ports, vec![(9, 8)]);
    assert!(base.cmds.is_empty());
    // Its ports are registered under the key without values.
    let key = CompKey::new(1, vec![]);
    assert_eq!(pass.port_map.get(&key, 0), Some(0));
    assert_eq!(pass.port_map.get(&key, 1), None);
    assert_eq!(pass.port_map.get(&key, 2), Some(1));
    assert_eq!(pass.event_map.get(&key, 1), Some(1));
}

#[test]
fn external_component_takes_no_values() {
    let ctx = program();
    let mut pass = Monomorphize::new(&ctx);
    assert_eq!(pass.get_or_create(1, vec![8]), Err(Fault::Missing));
}

#[test]
fn events_that_mention_each_other_are_translated() {
    // A lasts from B + 1 to B + n, B lasts from A to A + 1.
    let mut comp = reg();
    comp.cmds.clear();
    comp.times = vec![
        Time { event: 1, offset: 3 },
        Time { event: 1, offset: 1 },
        Time { event: 0, offset: 0 },
        Time { event: 0, offset: 3 },
    ];
    comp.events = vec![
        Event { delay: TimeSub::Sym { l: 1, r: 0 }, info: 0 },
        Event { delay: TimeSub::Sym { l: 3, r: 2 }, info: 0 },
    ];
    comp.ports.clear();
    let ctx = Context { comps: vec![comp] };
    let mut pass = Monomorphize::new(&ctx);
    let b = pass.get_or_create(0, vec![5]).unwrap();
    let base = &pass.ctx[b];
    assert_eq!(base.events.len(), 2);
    match (base.events[0].delay, base.events[1].delay) {
        (TimeSub::Sym { l: al, r: ar }, TimeSub::Sym { l: bl, r: br }) => {
            assert_eq!(base.times[al].event, 1);
            assert_eq!(base.times[ar].event, 1);
            assert_eq!(base.exprs[base.times[al].offset], Expr::Concrete(5));
            assert_eq!(base.exprs[base.times[ar].offset], Expr::Concrete(1));
            assert_eq!(base.times[bl].event, 0);
            assert_eq!(base.times[br].event, 0);
            assert_eq!(base.exprs[base.times[bl].offset], Expr::Concrete(1));
            assert_eq!(base.exprs[base.times[br].offset], Expr::Concrete(0));
        }
        other => panic!("unexpected delays {:?}", other),
    }
    let key = CompKey::new(0, vec![5]);
    assert_eq!(pass.event_map.get(&key, 0), Some(0));
    assert_eq!(pass.event_map.get(&key, 1), Some(1));
}

#[test]
fn event_that_mentions_itself_is_translated() {
    let mut comp = reg();
    comp.cmds.clear();
    comp.events = vec![Event { delay: TimeSub::Sym { l: 1, r: 0 }, info: 0 }];
    let ctx = Context { comps: vec![comp] };
    let mut pass = Monomorphize::new(&ctx);
    let b = pass.get_or_create(0, vec![5]).unwrap();
    let base = &pass.ctx[b];
    match base.events[0].delay {
        TimeSub::Sym { l, r } => {
            assert_eq!(base.times[l].event, 0);
            assert_eq!(base.times[r].event, 0);
        }
        other => panic!("unexpected delay {:?}", other),
    }
}
