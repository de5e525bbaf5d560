use monomorph::base::BaseComp;
use monomorph::fault::Fault;
use monomorph::ir::{
    Access, BaseCmd, BinOp, Command, Component, Connect, Context, Direction, Event, Exists, Expr,
    Fact, If, Info, InterfaceSrc, Loop, Param, ParamOwner, Port, PortOwner, Prop, Range, Relation,
    Time, TimeSub,
};
use monomorph::pass::Monomorphize;

fn sig_port(dir: Direction, width: usize) -> Port {
    Port { owner: PortOwner::Sig { dir }, width, live: Range { start: 0, end: 1 }, info: 0 }
}

fn wire(start: usize, end: usize) -> Command {
    Command::Connect(Connect {
        src: Access { port: 0, start, end },
        dst: Access { port: 1, start, end },
        info: 0,
    })
}

/// A component with one signature parameter `n` (parameter 0), a loop
/// parameter `i` (parameter 1), one event and two signature ports.
///
/// Expressions: 0 is `0`, 1 is `n`, 2 is `i`, 3 is `1`, 4 is `i + 1`,
/// 5 is `2`, 6 is `0 - 1`, 7 is `n - 1`.
fn shell(cmds: Vec<Command>, props: Vec<Prop>) -> Component {
    Component {
        is_ext: false,
        exprs: vec![
            Expr::Concrete(0),
            Expr::Param(0),
            Expr::Param(1),
            Expr::Concrete(1),
            Expr::Bin { op: BinOp::Add, lhs: 2, rhs: 3 },
            Expr::Concrete(2),
            Expr::Bin { op: BinOp::Sub, lhs: 0, rhs: 3 },
            Expr::Bin { op: BinOp::Sub, lhs: 1, rhs: 3 },
        ],
        times: vec![Time { event: 0, offset: 0 }, Time { event: 0, offset: 3 }],
        props,
        events: vec![Event { delay: TimeSub::Unit(3), info: 0 }],
        ports: vec![sig_port(Direction::In, 1), sig_port(Direction::Out, 1)],
        params: vec![
            Param { owner: ParamOwner::Sig, info: 0 },
            Param { owner: ParamOwner::Loop, info: 0 },
        ],
        instances: vec![],
        invokes: vec![],
        infos: vec![Info { line: 1, col: 1 }],
        cmds,
        src_info: Some(InterfaceSrc { name: 7 }),
        unannotated_ports: vec![(3, 1)],
    }
}

/// `for i in 0..n { out{i..i+1} = in{i..i+1} }`
fn reg() -> Component {
    shell(
        vec![Command::ForLoop(Loop { index: 1, start: 0, end: 1, body: vec![wire(2, 4)] })],
        vec![],
    )
}

/// `if n > 0 { out{0..1} = in{0..1} } else { out{1..2} = in{1..2} }`
fn branch() -> Component {
    shell(
        vec![Command::If(If { cond: 0, then_cmds: vec![wire(0, 3)], alt: vec![wire(3, 5)] })],
        vec![Prop::Compare { op: Relation::Gt, lhs: 1, rhs: 0 }],
    )
}

fn run(comp: Component, n: u64) -> Result<BaseComp, Fault> {
    let ctx = Context { comps: vec![comp] };
    let mut pass = Monomorphize::new(&ctx);
    let b = pass.get_or_create(0, vec![n])?;
    Ok(pass.ctx.swap_remove(b))
}

/// The literal ranges of the connections of `base`, in order.
fn ranges(base: &BaseComp) -> Vec<(u64, u64)> {
    base.cmds
        .iter()
        .map(|cmd| match cmd {
            BaseCmd::Connect(con) => {
                assert_eq!(base.exprs[con.src.start], base.exprs[con.dst.start]);
                assert_eq!(base.exprs[con.src.end], base.exprs[con.dst.end]);
                match (base.exprs[con.src.start], base.exprs[con.src.end]) {
                    (Expr::Concrete(a), Expr::Concrete(b)) => (a, b),
                    other => panic!("range is not literal: {:?}", other),
                }
            }
            other => panic!("unexpected command {:?}", other),
        })
        .collect()
}

#[test]
fn reg_of_four_unrolls_to_four_connects() {
    let base = run(reg(), 4).unwrap();
    assert_eq!(ranges(&base), vec![(0, 1), (1, 2), (2, 3), (3, 4)]);
    for cmd in &base.cmds {
        match cmd {
            BaseCmd::Connect(con) => {
                assert_eq!(con.src.port, 0);
                assert_eq!(con.dst.port, 1);
            }
            other => panic!("unexpected command {:?}", other),
        }
    }
    // Nothing of the parameter is left.
    assert!(base.exprs.iter().all(|e| matches!(e, Expr::Concrete(_))));
    assert!(base.params.is_empty());
    assert_eq!(base.src_info, Some(InterfaceSrc { name: 7 }));
    assert_eq!(base.unannotated_ports, vec![(3, 1)]);
}

#[test]
fn reg_of_zero_has_no_connect() {
    let base = run(reg(), 0).unwrap();
    assert!(base.cmds.is_empty());
}

#[test]
fn loop_with_end_before_start_has_no_copy() {
    // for i in 2..n, with n = 1
    let comp = shell(
        vec![Command::ForLoop(Loop { index: 1, start: 5, end: 1, body: vec![wire(2, 4)] })],
        vec![],
    );
    let base = run(comp, 1).unwrap();
    assert!(base.cmds.is_empty());
}

#[test]
fn loop_starts_at_its_start() {
    // for i in 2..n, with n = 5
    let comp = shell(
        vec![Command::ForLoop(Loop { index: 1, start: 5, end: 1, body: vec![wire(2, 4)] })],
        vec![],
    );
    let base = run(comp, 5).unwrap();
    assert_eq!(ranges(&base), vec![(2, 3), (3, 4), (4, 5)]);
}

#[test]
fn body_order_is_kept_in_each_iteration() {
    // for i in 0..n { out{i..i+1} = ..; out{0..1} = .. }
    let comp = shell(
        vec![Command::ForLoop(Loop {
            index: 1,
            start: 0,
            end: 1,
            body: vec![wire(2, 4), wire(0, 3)],
        })],
        vec![],
    );
    let base = run(comp, 3).unwrap();
    assert_eq!(ranges(&base), vec![(0, 1), (0, 1), (1, 2), (0, 1), (2, 3), (0, 1)]);
}

#[test]
fn loop_index_leaves_scope_with_the_loop() {
    let comp = shell(
        vec![
            Command::ForLoop(Loop { index: 1, start: 0, end: 1, body: vec![wire(2, 4)] }),
            wire(2, 4),
        ],
        vec![],
    );
    assert_eq!(run(comp, 2), Err(Fault::Missing));
}

#[test]
fn condition_false_takes_the_second_branch() {
    let base = run(branch(), 0).unwrap();
    assert_eq!(ranges(&base), vec![(1, 2)]);
}

#[test]
fn condition_true_takes_the_first_branch() {
    let base = run(branch(), 3).unwrap();
    assert_eq!(ranges(&base), vec![(0, 1)]);
}

#[test]
fn branch_commands_keep_their_order() {
    let comp = shell(
        vec![Command::If(If {
            cond: 0,
            then_cmds: vec![
                wire(0, 3),
                Command::ForLoop(Loop { index: 1, start: 0, end: 1, body: vec![wire(2, 4)] }),
                wire(3, 5),
            ],
            alt: vec![],
        })],
        vec![Prop::Compare { op: Relation::Gt, lhs: 1, rhs: 0 }],
    );
    let base = run(comp, 2).unwrap();
    assert_eq!(ranges(&base), vec![(0, 1), (0, 1), (1, 2), (1, 2)]);
}

#[test]
fn undecided_condition_is_a_fault() {
    // A comparison of times is never decided.
    let comp = shell(
        vec![Command::If(If { cond: 0, then_cmds: vec![wire(0, 3)], alt: vec![wire(3, 5)] })],
        vec![Prop::TimeCompare { op: Relation::Gt, lhs: 1, rhs: 0 }],
    );
    assert_eq!(run(comp, 1), Err(Fault::NonBoolCondition));
}

#[test]
fn condition_over_an_undefined_number_is_a_fault() {
    // (0 - 1) > 0
    let comp = shell(
        vec![Command::If(If { cond: 0, then_cmds: vec![], alt: vec![] })],
        vec![Prop::Compare { op: Relation::Gt, lhs: 6, rhs: 0 }],
    );
    assert_eq!(run(comp, 1), Err(Fault::NonBoolCondition));
}

#[test]
fn connectives_are_decided_from_their_operands() {
    // not (n > 0) or (n >= 2 and n == 2), then (n > 0 implies n == 2)
    let props = vec![
        Prop::Compare { op: Relation::Gt, lhs: 1, rhs: 0 },
        Prop::Not(0),
        Prop::Compare { op: Relation::Gte, lhs: 1, rhs: 5 },
        Prop::Compare { op: Relation::Eq, lhs: 1, rhs: 5 },
        Prop::And(2, 3),
        Prop::Or(1, 4),
        Prop::Implies(0, 3),
        Prop::True,
        Prop::False,
    ];
    let with = |cond: usize, n: u64| {
        let comp = shell(
            vec![Command::If(If { cond, then_cmds: vec![wire(0, 3)], alt: vec![wire(3, 5)] })],
            props.clone(),
        );
        ranges(&run(comp, n).unwrap())
    };
    let yes = vec![(0, 1)];
    let no = vec![(1, 2)];
    assert_eq!(with(5, 0), yes);
    assert_eq!(with(5, 1), no);
    assert_eq!(with(5, 2), yes);
    assert_eq!(with(5, 3), no);
    assert_eq!(with(6, 0), yes);
    assert_eq!(with(6, 2), yes);
    assert_eq!(with(6, 3), no);
    assert_eq!(with(2, 1), no);
    assert_eq!(with(2, 2), yes);
    assert_eq!(with(7, 0), yes);
    assert_eq!(with(8, 0), no);
}

#[test]
fn undefined_loop_bound_is_a_fault() {
    // for i in 0..(n - 1), with n = 0
    let comp = shell(
        vec![Command::ForLoop(Loop { index: 1, start: 0, end: 7, body: vec![] })],
        vec![],
    );
    assert_eq!(run(comp, 0), Err(Fault::NonConcrete));
    let comp = shell(
        vec![Command::ForLoop(Loop { index: 1, start: 7, end: 1, body: vec![] })],
        vec![],
    );
    assert_eq!(run(comp, 0), Err(Fault::NonConcrete));
}

#[test]
fn undefined_access_bound_is_a_fault() {
    let comp = shell(vec![wire(0, 6)], vec![]);
    assert_eq!(run(comp, 1), Err(Fault::NonConcrete));
    let comp = shell(vec![wire(6, 3)], vec![]);
    assert_eq!(run(comp, 1), Err(Fault::NonConcrete));
}

#[test]
fn existential_binding_is_a_fault() {
    let comp = shell(vec![Command::Exists(Exists { param: 1, expr: 0 })], vec![]);
    assert_eq!(run(comp, 1), Err(Fault::NotImplemented));
}

#[test]
fn facts_are_dropped() {
    let comp = shell(
        vec![Command::Fact(Fact { prop: 0 }), wire(0, 3), Command::Fact(Fact { prop: 0 })],
        vec![Prop::False],
    );
    let base = run(comp, 1).unwrap();
    assert_eq!(ranges(&base), vec![(0, 1)]);
    assert!(base.props.is_empty());
}

#[test]
fn unbound_parameter_is_a_fault() {
    // The loop parameter is used outside of any loop.
    let comp = shell(vec![wire(2, 3)], vec![]);
    assert_eq!(run(comp, 1), Err(Fault::Missing));
}

#[test]
fn unknown_port_is_a_fault() {
    let comp = shell(
        vec![Command::Connect(Connect {
            src: Access { port: 5, start: 0, end: 3 },
            dst: Access { port: 1, start: 0, end: 3 },
            info: 0,
        })],
        vec![],
    );
    assert_eq!(run(comp, 1), Err(Fault::Missing));
}

#[test]
fn dangling_expression_is_a_fault() {
    let comp = shell(vec![wire(0, 40)], vec![]);
    assert_eq!(run(comp, 1), Err(Fault::Missing));
}

#[test]
fn wrong_number_of_values_is_a_fault() {
    let ctx = Context { comps: vec![reg()] };
    let mut pass = Monomorphize::new(&ctx);
    assert_eq!(pass.get_or_create(0, vec![]), Err(Fault::Missing));
    assert_eq!(pass.get_or_create(0, vec![1, 2]), Err(Fault::Missing));
    assert_eq!(pass.get_or_create(1, vec![1]), Err(Fault::Missing));
}

#[test]
fn local_bundle_is_defined_before_it_is_used() {
    let mut comp = shell(
        vec![
            Command::BundleDef(2),
            Command::Connect(Connect {
                src: Access { port: 0, start: 0, end: 3 },
                dst: Access { port: 2, start: 0, end: 3 },
                info: 0,
            }),
        ],
        vec![],
    );
    comp.ports.push(Port {
        owner: PortOwner::Local,
        width: 1,
        live: Range { start: 0, end: 1 },
        info: 0,
    });
    let base = run(comp, 6).unwrap();
    assert_eq!(base.ports.len(), 3);
    assert_eq!(base.ports[2].owner, PortOwner::Local);
    assert_eq!(base.exprs[base.ports[2].width], Expr::Concrete(6));
    assert_eq!(base.cmds.len(), 2);
    assert_eq!(base.cmds[0], BaseCmd::BundleDef(2));
    match base.cmds[1] {
        BaseCmd::Connect(con) => assert_eq!(con.dst.port, 2),
        other => panic!("unexpected command {:?}", other),
    }
}
