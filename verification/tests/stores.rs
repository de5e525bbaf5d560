use monomorph::base::{fold_exec, holds_exec, BaseComp};
use monomorph::fault::Fault;
use monomorph::ir::{BaseCmd, BinOp, Component, Event, Expr, Info, Prop, Relation, TimeSub, UnderlyingComp};
use monomorph::maps::{copied, Cache, CompKey, ForeignMap, Table};
use monomorph::monosig::MonoSig;

#[test]
fn operators_are_applied_where_defined() {
    assert_eq!(fold_exec(BinOp::Add, 3, 4), Some(7));
    assert_eq!(fold_exec(BinOp::Add, u64::MAX, 1), None);
    assert_eq!(fold_exec(BinOp::Sub, 7, 4), Some(3));
    assert_eq!(fold_exec(BinOp::Sub, 4, 7), None);
    assert_eq!(fold_exec(BinOp::Mul, 6, 7), Some(42));
    assert_eq!(fold_exec(BinOp::Mul, u64::MAX, 2), None);
    assert_eq!(fold_exec(BinOp::Div, 17, 5), Some(3));
    assert_eq!(fold_exec(BinOp::Div, 17, 0), None);
    assert_eq!(fold_exec(BinOp::Mod, 17, 5), Some(2));
    assert_eq!(fold_exec(BinOp::Mod, 17, 0), None);
}

#[test]
fn relations_hold_as_they_read() {
    assert!(holds_exec(Relation::Gt, 2, 1));
    assert!(!holds_exec(Relation::Gt, 2, 2));
    assert!(holds_exec(Relation::Gte, 2, 2));
    assert!(!holds_exec(Relation::Gte, 1, 2));
    assert!(holds_exec(Relation::Eq, 5, 5));
    assert!(!holds_exec(Relation::Eq, 5, 6));
}

#[test]
fn stores_hand_out_fresh_positions() {
    let mut base = BaseComp::new();
    assert_eq!(base.add_expr(Expr::Concrete(5)), 0);
    assert_eq!(base.add_expr(Expr::Param(0)), 1);
    assert_eq!(base.add_prop(Prop::True), 0);
    assert_eq!(base.add_info(Info { line: 2, col: 3 }), 0);
    assert_eq!(base.add_event(Event { delay: TimeSub::Unit(0), info: 0 }), 0);
    assert_eq!(base.as_concrete(0), Some(5));
    assert_eq!(base.as_concrete(1), None);
    assert_eq!(base.as_concrete(2), None);
    assert_eq!(base.get_expr(1), Some(Expr::Param(0)));
    assert_eq!(base.get_expr(2), None);
    assert_eq!(base.concretes(&vec![0, 0]), Some(vec![5, 5]));
    assert_eq!(base.concretes(&vec![0, 1]), None);
    base.set_event(0, Event { delay: TimeSub::Unit(1), info: 0 });
    base.set_event(3, Event { delay: TimeSub::Unit(1), info: 0 });
    assert_eq!(base.events, vec![Event { delay: TimeSub::Unit(1), info: 0 }]);
    base.extend_cmds(None);
    base.extend_cmds(Some(BaseCmd::Instance(0)));
    assert_eq!(base.cmds, vec![BaseCmd::Instance(0)]);
}

#[test]
fn bin_reduces_operations_on_literals_only() {
    let mut base = BaseComp::new();
    base.add_expr(Expr::Concrete(6));
    base.add_expr(Expr::Concrete(0));
    base.add_expr(Expr::Param(0));
    let i = base.bin(Expr::Bin { op: BinOp::Mul, lhs: 0, rhs: 0 });
    assert_eq!(base.get_expr(i), Some(Expr::Concrete(36)));
    let i = base.bin(Expr::Bin { op: BinOp::Div, lhs: 0, rhs: 1 });
    assert_eq!(base.get_expr(i), Some(Expr::Bin { op: BinOp::Div, lhs: 0, rhs: 1 }));
    let i = base.bin(Expr::Bin { op: BinOp::Add, lhs: 0, rhs: 2 });
    assert_eq!(base.get_expr(i), Some(Expr::Bin { op: BinOp::Add, lhs: 0, rhs: 2 }));
    let i = base.bin(Expr::Bin { op: BinOp::Add, lhs: 0, rhs: 9 });
    assert_eq!(base.get_expr(i), Some(Expr::Bin { op: BinOp::Add, lhs: 0, rhs: 9 }));
    let i = base.bin(Expr::Concrete(3));
    assert_eq!(base.get_expr(i), Some(Expr::Concrete(3)));
}

#[test]
fn resolve_prop_decides_what_it_can() {
    let mut base = BaseComp::new();
    base.add_expr(Expr::Concrete(2));
    base.add_expr(Expr::Concrete(3));
    base.add_expr(Expr::Param(0));
    let lt = base.add_prop(Prop::Compare { op: Relation::Gt, lhs: 1, rhs: 0 });
    let open = base.add_prop(Prop::Compare { op: Relation::Gt, lhs: 2, rhs: 0 });
    let i = base.resolve_prop(Prop::Not(lt));
    assert_eq!(base.get_prop(i), Some(Prop::False));
    let i = base.resolve_prop(Prop::And(lt, open));
    assert_eq!(base.get_prop(i), Some(Prop::And(lt, open)));
    let i = base.resolve_prop(Prop::Compare { op: Relation::Eq, lhs: 0, rhs: 0 });
    assert_eq!(base.get_prop(i), Some(Prop::True));
    // A property stored later is not read through.
    let i = base.resolve_prop(Prop::Not(40));
    assert_eq!(base.get_prop(i), Some(Prop::Not(40)));
    assert_eq!(base.truth(Prop::Implies(lt, lt), 1), Some(true));
    assert_eq!(base.truth(Prop::Implies(lt, lt), 0), None);
}

#[test]
fn later_entry_shadows_and_pop_uncovers() {
    let mut t: Table<u64> = Table::new();
    assert_eq!(t.get(1), None);
    t.insert(1, 10);
    t.insert(2, 20);
    t.insert(1, 11);
    assert_eq!(t.get(1), Some(11));
    assert_eq!(t.get(2), Some(20));
    assert_eq!(t.snapshot(), vec![(1, 10), (2, 20), (1, 11)]);
    t.pop();
    assert_eq!(t.get(1), Some(10));
    t.pop();
    t.pop();
    t.pop();
    assert_eq!(t.get(1), None);
    assert_eq!(t.inner().len(), 0);
}

#[test]
fn first_record_under_a_key_stands() {
    let mut cache = Cache::new();
    let k1 = CompKey::new(0, vec![1, 2]);
    let k2 = CompKey::new(0, vec![1, 3]);
    let k3 = CompKey::new(1, vec![1, 2]);
    assert!(k1.same(&k1.copy()));
    assert!(!k1.same(&k2));
    assert!(!k1.same(&k3));
    assert!(!k1.same(&CompKey::new(0, vec![1])));
    cache.insert(k1.copy(), 4);
    cache.insert(k2.copy(), 5);
    cache.insert(k1.copy(), 6);
    assert_eq!(cache.get(&k1), Some(4));
    assert_eq!(cache.get(&k2), Some(5));
    assert_eq!(cache.get(&k3), None);
    assert_eq!(cache.key_of(5), Some(&k2));
    assert_eq!(cache.key_of(6), Some(&k1));
    assert_eq!(cache.key_of(7), None);

    let mut map = ForeignMap::new();
    map.insert(k1.copy(), 0, 9);
    map.insert(k1.copy(), 1, 8);
    map.insert(k1.copy(), 0, 7);
    assert_eq!(map.get(&k1, 0), Some(9));
    assert_eq!(map.get(&k1, 1), Some(8));
    assert_eq!(map.get(&k2, 0), None);
    assert_eq!(copied(&vec![3u64, 1, 2]), vec![3, 1, 2]);
}

fn exprs_only(exprs: Vec<Expr>) -> Component {
    Component {
        is_ext: false,
        exprs,
        times: vec![],
        props: vec![],
        events: vec![],
        ports: vec![],
        params: vec![],
        instances: vec![],
        invokes: vec![],
        infos: vec![],
        cmds: vec![],
        src_info: None,
        unannotated_ports: vec![],
    }
}

#[test]
fn expression_is_evaluated_under_the_binding() {
    // (p0 * 3 + p1) % 4
    let comp = exprs_only(vec![
        Expr::Param(0),
        Expr::Concrete(3),
        Expr::Bin { op: BinOp::Mul, lhs: 0, rhs: 1 },
        Expr::Param(1),
        Expr::Bin { op: BinOp::Add, lhs: 2, rhs: 3 },
        Expr::Concrete(4),
        Expr::Bin { op: BinOp::Mod, lhs: 4, rhs: 5 },
        // an operand that is not stored before its user
        Expr::Bin { op: BinOp::Add, lhs: 7, rhs: 0 },
    ]);
    let ul = UnderlyingComp::new(&comp);
    let mut binding: Table<u64> = Table::new();
    binding.insert(0, 5);
    binding.insert(1, 2);
    let mut sig = MonoSig::new(0, binding);
    let i = sig.expr(&ul, 6).unwrap();
    assert_eq!(sig.base.as_concrete(i), Some(1));
    let j = sig.bound(&ul, 4).unwrap();
    assert_eq!(sig.base.as_concrete(j), Some(17));
    assert_eq!(sig.expr(&ul, 7), Err(Fault::Missing));
    assert_eq!(sig.expr(&ul, 8), Err(Fault::Missing));
    assert_eq!(sig.exprs(&ul, &vec![1, 0]).map(|v| v.len()), Ok(2));

    // Shadowing: the innermost binding of a parameter counts.
    sig.binding.insert(1, 3);
    let i = sig.expr(&ul, 6).unwrap();
    assert_eq!(sig.base.as_concrete(i), Some(2));
    sig.binding.pop();
    let i = sig.expr(&ul, 6).unwrap();
    assert_eq!(sig.base.as_concrete(i), Some(1));
}
