//! Tests of `constfold`.
use leaf_codegen::constfold::{
    emit, fold, fold_and_emit, plan_order, AutoConfigEntry, AutoConfigPlan, CondTree,
};


fn flat(text: &str) -> String {
    let tokens = text.parse::<proc_macro2::TokenStream>().expect("tokens");
    tokens.to_string().split_whitespace().collect::<String>()
}

fn leaf(n: u32) -> CondTree {
    CondTree::Leaf {
        id: format!("::leaf_core::ConditionId({n}u32)"),
        attrs: "&[]".to_string(),
    }
}

#[test]
fn fold_not_of_a_const_inverts() {
    assert!(matches!(
        fold(&CondTree::Not(Box::new(CondTree::Const(true)))),
        CondTree::Const(false)
    ));
    assert!(matches!(
        fold(&CondTree::Not(Box::new(CondTree::Const(false)))),
        CondTree::Const(true)
    ));
}

#[test]
fn fold_all_with_a_false_child_collapses_to_false() {
    let tree = CondTree::All(vec![leaf(1), CondTree::Const(false)]);
    assert_eq!(fold(&tree).as_const(), Some(false));
}

#[test]
fn fold_all_drops_true_children_and_unwraps_a_single_survivor() {
    let tree = CondTree::All(vec![CondTree::Const(true), leaf(7)]);
    let folded = fold(&tree);
    match folded {
        CondTree::Leaf { id, .. } => assert!(flat(&id).contains("ConditionId(7")),
        other => panic!("expected the lone leaf to unwrap, got {other:?}"),
    }
}

#[test]
fn fold_empty_all_is_vacuously_true() {
    assert_eq!(fold(&CondTree::All(vec![])).as_const(), Some(true));
}

#[test]
fn fold_any_with_a_true_child_collapses_to_true() {
    let tree = CondTree::Any(vec![leaf(1), CondTree::Const(true)]);
    assert_eq!(fold(&tree).as_const(), Some(true));
}

#[test]
fn fold_any_drops_false_children_and_unwraps_a_single_survivor() {
    let tree = CondTree::Any(vec![CondTree::Const(false), leaf(3)]);
    match fold(&tree) {
        CondTree::Leaf { id, .. } => assert!(flat(&id).contains("ConditionId(3")),
        other => panic!("expected the lone leaf to unwrap, got {other:?}"),
    }
}

#[test]
fn fold_empty_any_is_vacuously_false() {
    assert_eq!(fold(&CondTree::Any(vec![])).as_const(), Some(false));
}

#[test]
fn fold_is_recursive_and_propagates_through_nesting() {
    let tree = CondTree::Not(Box::new(CondTree::Any(vec![
        CondTree::Const(false),
        CondTree::All(vec![CondTree::Const(true), CondTree::Const(true)]),
    ])));
    assert_eq!(fold(&tree).as_const(), Some(false));
}

#[test]
fn fold_leaves_a_genuine_leaf_unfolded() {
    assert!(matches!(fold(&leaf(1)), CondTree::Leaf { .. }));
}

#[test]
fn emit_lowers_const_through_absolute_paths() {
    let s = flat(&emit(&CondTree::Const(true)));
    assert_eq!(s, "::leaf_core::CondExpr::Const(true)");
}

#[test]
fn emit_lowers_all_to_a_static_slice_and_parses() {
    let tree = CondTree::All(vec![leaf(1), leaf(2)]);
    let ts = emit(&tree);
    syn::parse_str::<syn::Expr>(&ts).expect("emitted CondExpr is a valid expression");
    let s = flat(&ts);
    assert!(s.contains("::leaf_core::CondExpr::All(&["), "got: {s}");
    assert!(s.contains("::leaf_core::CondExpr::Leaf(::leaf_core::ConditionId(1"), "got: {s}");
}

#[test]
fn emit_lowers_not_to_a_reference() {
    let tree = CondTree::Not(Box::new(leaf(5)));
    let s = flat(&emit(&tree));
    assert!(s.contains("::leaf_core::CondExpr::Not(&::leaf_core::CondExpr::Leaf"), "got: {s}");
}

#[test]
fn fold_and_emit_collapses_then_lowers_a_constant_tree() {
    let tree = CondTree::All(vec![
        CondTree::Const(true),
        CondTree::Not(Box::new(CondTree::Const(false))),
    ]);
    let s = flat(&fold_and_emit(&tree));
    assert_eq!(s, "::leaf_core::CondExpr::Const(true)");
}

#[test]
fn plan_order_resolves_before_after_edges() {
    let entries = vec![
        AutoConfigEntry::new("crate::A").before("crate::B"),
        AutoConfigEntry::new("crate::B"),
        AutoConfigEntry::new("crate::C").after("crate::B"),
    ];
    let plan = plan_order(&entries).expect("acyclic edges resolve");
    let a = plan.order.iter().position(|p| p == "crate::A").unwrap();
    let b = plan.order.iter().position(|p| p == "crate::B").unwrap();
    let c = plan.order.iter().position(|p| p == "crate::C").unwrap();
    assert!(a < b && b < c, "order: {:?}", plan.order);
}

#[test]
fn plan_order_is_deterministic_tie_broken_on_identity() {
    let entries = vec![
        AutoConfigEntry::new("crate::Zeta"),
        AutoConfigEntry::new("crate::Alpha"),
        AutoConfigEntry::new("crate::Mu"),
    ];
    let plan = plan_order(&entries).expect("resolves");
    assert_eq!(plan.order, vec!["crate::Alpha", "crate::Mu", "crate::Zeta"]);
}

#[test]
fn plan_order_detects_a_cycle_loudly() {
    let entries = vec![
        AutoConfigEntry::new("crate::A").before("crate::B"),
        AutoConfigEntry::new("crate::B").before("crate::A"),
    ];
    let err = plan_order(&entries).expect_err("a cycle must be loud");
    assert_eq!(err.members, vec!["crate::A", "crate::B"]);
    assert!(err.message().contains("cycle"), "{}", err.message());
}

#[test]
fn plan_order_ignores_edges_to_absent_identities() {
    let entries = vec![AutoConfigEntry::new("crate::A").after("crate::NotHere")];
    let plan = plan_order(&entries).expect("absent edge is ignored");
    assert_eq!(plan.order, vec!["crate::A"]);
}

#[test]
fn auto_config_plan_emits_a_const_contract_id_checkpoint() {
    let plan = AutoConfigPlan {
        order: vec!["crate::A".into(), "crate::B".into()],
    };
    let ts = plan.emit();
    syn::parse_str::<syn::File>(&ts).expect("the plan checkpoint is valid Rust items");
    let s = flat(&ts);
    assert!(s.contains("const__LEAF_AUTOCONFIG_PLAN:&[::leaf_core::ContractId]"), "got: {s}");
    assert!(s.contains(r#"::leaf_core::ContractId::of("crate::A")"#), "got: {s}");
    assert!(s.contains(r#"::leaf_core::ContractId::of("crate::B")"#), "got: {s}");
}
