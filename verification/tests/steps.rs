use monomorph::deferred::MonoDeferred;
use monomorph::fault::Fault;
use monomorph::ir::{
    Access, BaseCmd, BinOp, Command, Component, Connect, Context, Direction, Event, Expr, Fact, If,
    Info, Loop, Param, ParamOwner, Port, PortOwner, Prop, Range, Relation, Time, TimeSub,
    UnderlyingComp,
};
use monomorph::maps::Table;
use monomorph::monosig::MonoSig;
use monomorph::pass::Monomorphize;

/// One signature parameter `n` (parameter 0), a loop parameter `i`
/// (parameter 1), one event, two signature ports.
///
/// Expressions: 0 is `0`, 1 is `n`, 2 is `i`, 3 is `1`, 4 is `i + 1`.
fn comp() -> Component {
    Component {
        is_ext: false,
        exprs: vec![
            Expr::Concrete(0),
            Expr::Param(0),
            Expr::Param(1),
            Expr::Concrete(1),
            Expr::Bin { op: BinOp::Add, lhs: 2, rhs: 3 },
        ],
        times: vec![Time { event: 0, offset: 0 }, Time { event: 0, offset: 1 }],
        props: vec![
            Prop::Compare { op: Relation::Gt, lhs: 1, rhs: 0 },
            Prop::Not(0),
            Prop::And(0, 1),
            Prop::TimeCompare { op: Relation::Gte, lhs: 1, rhs: 0 },
            Prop::TimeSubCompare {
                op: Relation::Eq,
                lhs: TimeSub::Unit(1),
                rhs: TimeSub::Sym { l: 1, r: 0 },
            },
            Prop::Or(3, 4),
            Prop::Implies(5, 2),
            Prop::True,
            Prop::False,
            Prop::Not(9),
            Prop::And(0, 12),
        ],
        events: vec![Event { delay: TimeSub::Unit(3), info: 0 }],
        ports: vec![
            Port {
                owner: PortOwner::Sig { dir: Direction::In },
                width: 1,
                live: Range { start: 0, end: 1 },
                info: 0,
            },
            Port {
                owner: PortOwner::Sig { dir: Direction::Out },
                width: 1,
                live: Range { start: 0, end: 1 },
                info: 0,
            },
        ],
        params: vec![
            Param { owner: ParamOwner::Sig, info: 0 },
            Param { owner: ParamOwner::Loop, info: 0 },
        ],
        instances: vec![],
        invokes: vec![],
        infos: vec![Info { line: 4, col: 2 }],
        cmds: vec![],
        src_info: None,
        unannotated_ports: vec![],
    }
}

/// A translation of `comp` with `n` bound to `n` and the signature built.
fn started<'a>(comp: &'a Component, pass: &mut Monomorphize, n: u64) -> MonoDeferred<'a> {
    let underlying = UnderlyingComp::new(comp);
    let mut binding: Table<u64> = Table::new();
    binding.insert(0, n);
    let mut monosig = MonoSig::new(0, binding);
    assert_eq!(MonoDeferred::sig(&mut monosig, underlying, pass), Ok(()));
    MonoDeferred { underlying, monosig }
}

fn number(mono: &MonoDeferred, e: usize) -> u64 {
    match mono.monosig.base.exprs[e] {
        Expr::Concrete(n) => n,
        other => panic!("not a literal: {:?}", other),
    }
}

#[test]
fn signature_of_a_component() {
    let c = comp();
    let ctx = Context { comps: vec![] };
    let mut pass = Monomorphize::new(&ctx);
    let mono = started(&c, &mut pass, 7);
    let base = &mono.monosig.base;
    assert_eq!(base.events.len(), 1);
    assert_eq!(base.ports.len(), 2);
    assert_eq!(base.ports[0].owner, PortOwner::Sig { dir: Direction::In });
    assert_eq!(base.ports[1].owner, PortOwner::Sig { dir: Direction::Out });
    assert_eq!(number(&mono, base.ports[0].width), 7);
    assert_eq!(base.times[base.ports[1].live.end].event, 0);
    assert_eq!(number(&mono, base.times[base.ports[1].live.end].offset), 7);
    assert_eq!(base.infos[base.ports[0].info], Info { line: 4, col: 2 });
    match base.events[0].delay {
        TimeSub::Unit(e) => assert_eq!(number(&mono, e), 1),
        other => panic!("unexpected delay {:?}", other),
    }
    assert_eq!(mono.monosig.event_map.get(0), Some(0));
    assert_eq!(mono.monosig.port_use(1), Ok(1));
    assert_eq!(mono.monosig.port_use(2), Err(Fault::Missing));
    assert!(base.params.is_empty());
    assert!(base.cmds.is_empty());
}

#[test]
fn property_is_translated_operand_by_operand() {
    let c = comp();
    let ctx = Context { comps: vec![] };
    let mut pass = Monomorphize::new(&ctx);
    let mut mono = started(&c, &mut pass, 7);
    let before = mono.monosig.base.props.len();

    // (n > 0) and not (n > 0): nothing is decided by the translation.
    let and = mono.prop(2).unwrap();
    let props = mono.monosig.base.props.clone();
    assert_eq!(props.len(), before + 4);
    assert_eq!(and, props.len() - 1);
    let (l, r) = match props[and] {
        Prop::And(l, r) => (l, r),
        other => panic!("unexpected property {:?}", other),
    };
    assert!(l < r && r < and);
    let not = match props[r] {
        Prop::Not(q) => q,
        other => panic!("unexpected property {:?}", other),
    };
    for p in [l, not] {
        match props[p] {
            Prop::Compare { op: Relation::Gt, lhs, rhs } => {
                assert_eq!(number(&mono, lhs), 7);
                assert_eq!(number(&mono, rhs), 0);
            }
            other => panic!("unexpected property {:?}", other),
        }
    }
    assert_eq!(mono.monosig.base.truth(props[and], and), Some(false));
}

#[test]
fn comparisons_of_times_are_translated() {
    let c = comp();
    let ctx = Context { comps: vec![] };
    let mut pass = Monomorphize::new(&ctx);
    let mut mono = started(&c, &mut pass, 7);
    let or = mono.prop(5).unwrap();
    let base = &mono.monosig.base;
    let (l, r) = match base.props[or] {
        Prop::Or(l, r) => (l, r),
        other => panic!("unexpected property {:?}", other),
    };
    match base.props[l] {
        Prop::TimeCompare { op: Relation::Gte, lhs, rhs } => {
            assert_eq!(base.times[lhs].event, 0);
            assert_eq!(number(&mono, base.times[lhs].offset), 7);
            assert_eq!(number(&mono, base.times[rhs].offset), 0);
        }
        other => panic!("unexpected property {:?}", other),
    }
    match base.props[r] {
        Prop::TimeSubCompare {
            op: Relation::Eq,
            lhs: TimeSub::Unit(e),
            rhs: TimeSub::Sym { l, r },
        } => {
            assert_eq!(number(&mono, e), 7);
            assert_eq!(number(&mono, base.times[l].offset), 7);
            assert_eq!(number(&mono, base.times[r].offset), 0);
        }
        other => panic!("unexpected property {:?}", other),
    }
    assert_eq!(base.truth(base.props[or], or), None);
    let implies = mono.prop(6).unwrap();
    assert!(matches!(mono.monosig.base.props[implies], Prop::Implies(_, _)));
}

#[test]
fn literal_properties_stay() {
    let c = comp();
    let ctx = Context { comps: vec![] };
    let mut pass = Monomorphize::new(&ctx);
    let mut mono = started(&c, &mut pass, 7);
    let t = mono.prop(7).unwrap();
    let f = mono.prop(8).unwrap();
    assert_eq!(mono.monosig.base.props[t], Prop::True);
    assert_eq!(mono.monosig.base.props[f], Prop::False);
}

#[test]
fn malformed_property_is_a_fault() {
    let c = comp();
    let ctx = Context { comps: vec![] };
    let mut pass = Monomorphize::new(&ctx);
    let mut mono = started(&c, &mut pass, 7);
    // An operand that is not stored before its user.
    assert_eq!(mono.prop(9), Err(Fault::Missing));
    assert_eq!(mono.prop(10), Err(Fault::Missing));
    // A property that is not stored.
    assert_eq!(mono.prop(11), Err(Fault::Missing));
}

#[test]
fn access_has_literal_bounds() {
    let c = comp();
    let ctx = Context { comps: vec![] };
    let mut pass = Monomorphize::new(&ctx);
    let mut mono = started(&c, &mut pass, 7);
    let acc = mono.access(&Access { port: 1, start: 3, end: 1 }).unwrap();
    assert_eq!(acc.port, 1);
    assert_eq!(number(&mono, acc.start), 1);
    assert_eq!(number(&mono, acc.end), 7);
    // The loop parameter is not bound here.
    assert_eq!(mono.access(&Access { port: 1, start: 2, end: 1 }), Err(Fault::Missing));
    assert_eq!(mono.access(&Access { port: 9, start: 0, end: 1 }), Err(Fault::Missing));
}

#[test]
fn connect_translates_both_ends() {
    let c = comp();
    let ctx = Context { comps: vec![] };
    let mut pass = Monomorphize::new(&ctx);
    let mut mono = started(&c, &mut pass, 7);
    let con = mono
        .connect(&Connect {
            src: Access { port: 0, start: 0, end: 3 },
            dst: Access { port: 1, start: 3, end: 1 },
            info: 0,
        })
        .unwrap();
    assert_eq!((con.src.port, con.dst.port), (0, 1));
    assert_eq!((number(&mono, con.src.start), number(&mono, con.src.end)), (0, 1));
    assert_eq!((number(&mono, con.dst.start), number(&mono, con.dst.end)), (1, 7));
    assert_eq!(mono.monosig.base.infos[con.info], Info { line: 4, col: 2 });
    // A connection is returned, not appended.
    assert!(mono.monosig.base.cmds.is_empty());
}

#[test]
fn command_gives_what_is_to_be_appended() {
    let c = comp();
    let ctx = Context { comps: vec![] };
    let mut pass = Monomorphize::new(&ctx);
    let mut mono = started(&c, &mut pass, 2);
    let wire = Command::Connect(Connect {
        src: Access { port: 0, start: 2, end: 4 },
        dst: Access { port: 1, start: 2, end: 4 },
        info: 0,
    });
    assert_eq!(mono.command(&mut pass, &Command::Fact(Fact { prop: 0 })), Ok(None));
    let lp = Loop { index: 1, start: 0, end: 1, body: vec![wire] };
    // A loop appends its own commands and gives none.
    assert_eq!(mono.forloop(&mut pass, &lp), Ok(()));
    assert_eq!(mono.monosig.base.cmds.len(), 2);
    assert_eq!(mono.command(&mut pass, &Command::ForLoop(lp)), Ok(None));
    assert_eq!(mono.monosig.base.cmds.len(), 4);
    assert!(mono.monosig.base.cmds.iter().all(|c| matches!(c, BaseCmd::Connect(_))));
    // The binding is as it was before the loops.
    assert_eq!(mono.monosig.binding.snapshot(), vec![(0, 2)]);

    let cond = If { cond: 1, then_cmds: vec![Command::BundleDef(0)], alt: vec![] };
    assert_eq!(mono.if_stmt(&mut pass, &cond), Ok(()));
    assert_eq!(mono.monosig.base.cmds.len(), 4);
    let cond = If { cond: 0, then_cmds: vec![Command::BundleDef(0)], alt: vec![] };
    assert_eq!(mono.command(&mut pass, &Command::If(cond)), Ok(None));
    assert_eq!(mono.monosig.base.cmds.len(), 5);
    assert_eq!(mono.monosig.base.cmds[4], BaseCmd::BundleDef(2));
    assert_eq!(mono.monosig.port_use(0), Ok(2));
}

#[test]
fn body_is_translated_in_order() {
    let mut c = comp();
    c.cmds = vec![
        Command::BundleDef(1),
        Command::Fact(Fact { prop: 0 }),
        Command::Connect(Connect {
            src: Access { port: 0, start: 0, end: 3 },
            dst: Access { port: 1, start: 0, end: 3 },
            info: 0,
        }),
    ];
    let ctx = Context { comps: vec![] };
    let mut pass = Monomorphize::new(&ctx);
    let mut mono = started(&c, &mut pass, 2);
    assert_eq!(mono.gen_comp(&mut pass), Ok(()));
    let cmds = &mono.monosig.base.cmds;
    assert_eq!(cmds.len(), 2);
    assert_eq!(cmds[0], BaseCmd::BundleDef(2));
    match cmds[1] {
        BaseCmd::Connect(con) => assert_eq!((con.src.port, con.dst.port), (0, 2)),
        other => panic!("unexpected command {:?}", other),
    }
}
