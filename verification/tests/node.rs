use cas_graph::expr::{BinOp, Expr};
use cas_graph::node::{same_names, DemoNode, ExprNode};
use cas_graph::reconcile::{NewSlot, OldSlot};

fn names(list: &[&str]) -> Vec<String> {
    list.iter().map(|name| name.to_string()).collect()
}

fn bits(values: &[f64]) -> Vec<u64> {
    values.iter().map(|value| value.to_bits()).collect()
}

#[test]
fn new_node_holds_zero() {
    let node = ExprNode::new();
    assert_eq!(node.text, "0");
    assert_eq!(node.bindings, names(&[]));
    assert_eq!(node.values, bits(&[]));
    assert_eq!(node.expr, Expr::Val("0".to_string()));
    assert!(node.can_eval());
}

#[test]
fn same_text_is_no_change() {
    let mut node = ExprNode::new();
    assert!(!node.on_text_changed("0"));
    assert_eq!(node, ExprNode::new());
}

#[test]
fn new_variables_get_slots_with_zero() {
    let mut node = ExprNode::new();
    assert!(node.on_text_changed("a + b"));
    assert_eq!(node.text, "a + b");
    assert_eq!(node.bindings, names(&["a", "b"]));
    assert_eq!(node.values, bits(&[0.0, 0.0]));
    assert_eq!(
        node.expr,
        Expr::BinOp {
            lhs: Box::new(Expr::Var("a".to_string())),
            op: BinOp::Add,
            rhs: Box::new(Expr::Var("b".to_string())),
        }
    );
    assert!(node.can_eval());
}

#[test]
fn invalid_text_leaves_the_state_untouched() {
    let mut node = ExprNode::new();
    node.on_text_changed("a + b");
    node.values = bits(&[1.0, 2.0]);
    let tree_before = cas_graph::parser::parse("a + b").unwrap();
    for text in ["a + ", "a + b +", "(a", "a $ b", ""] {
        assert!(!node.on_text_changed(text));
        assert_eq!(node.text, text);
        assert_eq!(node.bindings, names(&["a", "b"]));
        assert_eq!(node.values, bits(&[1.0, 2.0]));
        assert_eq!(node.expr, tree_before);
        assert!(node.can_eval());
    }
}

#[test]
fn same_variables_replace_only_the_tree() {
    let mut node = ExprNode::new();
    node.on_text_changed("a + b");
    node.values = bits(&[1.0, 2.0]);
    assert!(!node.on_text_changed("a * b + a"));
    assert_eq!(node.text, "a * b + a");
    assert_eq!(node.bindings, names(&["a", "b"]));
    assert_eq!(node.values, bits(&[1.0, 2.0]));
    assert_eq!(node.expr, cas_graph::parser::parse("a * b + a").unwrap());
}

#[test]
fn renamed_variable_keeps_the_others_value() {
    let mut node = ExprNode::new();
    node.on_text_changed("a + b");
    node.values = bits(&[1.0, 2.0]);
    assert!(node.on_text_changed("a + c"));
    assert_eq!(node.bindings, names(&["a", "c"]));
    assert_eq!(node.values, bits(&[1.0, 0.0]));
}

#[test]
fn reordered_variables_keep_their_values() {
    let mut node = ExprNode::new();
    node.on_text_changed("a + b");
    node.values = bits(&[1.0, 2.0]);
    assert!(node.on_text_changed("b + a"));
    assert_eq!(node.bindings, names(&["b", "a"]));
    assert_eq!(node.values, bits(&[2.0, 1.0]));
}

#[test]
fn text_without_variables_drops_every_slot() {
    let mut node = ExprNode::new();
    node.on_text_changed("a + b");
    assert!(node.on_text_changed("1 + 2"));
    assert_eq!(node.bindings, names(&[]));
    assert_eq!(node.values, bits(&[]));
    assert!(node.can_eval());
}

#[test]
fn value_survives_an_invalid_edit_in_between() {
    let mut node = ExprNode::new();
    node.on_text_changed("x");
    node.values = bits(&[4.5]);
    assert!(!node.on_text_changed("x +"));
    assert!(node.on_text_changed("x + y"));
    assert_eq!(node.bindings, names(&["x", "y"]));
    assert_eq!(node.values, bits(&[4.5, 0.0]));
}

#[test]
fn update_text_returns_the_patch_it_applied() {
    let mut node = ExprNode::new();
    assert!(node.update_text("0").is_none());
    assert!(node.update_text("1 +").is_none());
    let patch = node.update_text("a + b").unwrap();
    assert_eq!(patch.old_slots, vec![]);
    assert_eq!(
        patch.new_slots,
        vec![NewSlot::Insert { value: 0 }, NewSlot::Insert { value: 0 }]
    );
    node.values = bits(&[1.0, 2.0]);
    assert!(node.update_text("a - b").is_none());
    let patch = node.update_text("b").unwrap();
    assert_eq!(
        patch.old_slots,
        vec![OldSlot::Drop, OldSlot::Keep { new_index: 0, value: 2.0f64.to_bits() }]
    );
    assert_eq!(patch.apply(), node.values);
    assert_eq!(node.values, bits(&[2.0]));
}

#[test]
fn node_with_a_missing_value_cannot_be_evaluated() {
    let mut node = ExprNode::new();
    node.on_text_changed("a");
    node.values = bits(&[]);
    assert!(!node.can_eval());
    node.values = bits(&[1.0]);
    assert!(node.can_eval());
    node.bindings = names(&["b"]);
    assert!(!node.can_eval());
}

#[test]
fn lists_of_names_compare_in_order() {
    assert!(same_names(&names(&["a", "b"]), &names(&["a", "b"])));
    assert!(!same_names(&names(&["a", "b"]), &names(&["b", "a"])));
    assert!(!same_names(&names(&["a"]), &names(&["a", "b"])));
    assert!(same_names(&names(&[]), &names(&[])));
}

#[test]
fn names_of_the_kinds_of_node() {
    assert_eq!(DemoNode::Sink.name(), "Sink");
    assert_eq!(DemoNode::Number(0).name(), "Number");
    assert_eq!(DemoNode::String(String::new()).name(), "String");
    assert_eq!(DemoNode::ShowImage(String::new()).name(), "ShowImage");
    assert_eq!(DemoNode::ExprNode(ExprNode::new()).name(), "ExprNode");
}

#[test]
fn pins_of_an_expression_node() {
    let mut inner = ExprNode::new();
    inner.on_text_changed("a * b");
    inner.values = bits(&[3.0, 4.0]);
    let mut node = DemoNode::ExprNode(inner);
    assert_eq!(node.label_in(1), "a");
    assert_eq!(node.label_in(2), "b");
    assert_eq!(*node.number_in(1), 3.0f64.to_bits());
    *node.number_in(2) = 8.0f64.to_bits();
    assert_eq!(node.expr_node().values, bits(&[3.0, 8.0]));
    assert_eq!(node.expr_node().bindings, names(&["a", "b"]));
    assert_eq!(node.string_in().as_str(), "a * b");
    assert!(node.expr_node().on_text_changed("b"));
    assert_eq!(node.expr_node().values, bits(&[8.0]));
    assert_eq!(node.label_in(1), "b");
}

#[test]
fn texts_of_text_and_image_nodes() {
    let node = DemoNode::String("hello".to_string());
    assert_eq!(node.string_out(), "hello");
    let mut image = DemoNode::ShowImage("file://a.png".to_string());
    assert_eq!(image.label_in(0), "URL");
    image.string_in().push_str("?x");
    assert_eq!(image, DemoNode::ShowImage("file://a.png?x".to_string()));
}
