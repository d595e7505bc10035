use cas_graph::node::{DemoNode, ExprNode};
use cas_graph::node_graph::{
    pin_in_compat, pin_out_compat, pins_fit, DemoViewer, PIN_IMG, PIN_NUM, PIN_SINK, PIN_STR,
};

fn expr(text: &str) -> DemoNode {
    let mut node = ExprNode::new();
    node.on_text_changed(text);
    DemoNode::ExprNode(node)
}

fn number() -> DemoNode {
    DemoNode::Number(1.0f64.to_bits())
}

fn text() -> DemoNode {
    DemoNode::String("t".to_string())
}

fn image() -> DemoNode {
    DemoNode::ShowImage("u".to_string())
}

#[test]
fn titles() {
    let mut viewer = DemoViewer;
    assert_eq!(viewer.title(&DemoNode::Sink), "Sink");
    assert_eq!(viewer.title(&number()), "Number");
    assert_eq!(viewer.title(&text()), "String");
    assert_eq!(viewer.title(&image()), "Show image");
    assert_eq!(viewer.title(&expr("a")), "Expr");
}

#[test]
fn pin_counts() {
    let mut viewer = DemoViewer;
    assert_eq!(viewer.inputs(&DemoNode::Sink), 1);
    assert_eq!(viewer.inputs(&image()), 1);
    assert_eq!(viewer.inputs(&number()), 0);
    assert_eq!(viewer.inputs(&text()), 0);
    assert_eq!(viewer.inputs(&DemoNode::ExprNode(ExprNode::new())), 1);
    assert_eq!(viewer.inputs(&expr("a + b * a")), 3);
    assert_eq!(viewer.outputs(&DemoNode::Sink), 0);
    assert_eq!(viewer.outputs(&number()), 1);
    assert_eq!(viewer.outputs(&text()), 1);
    assert_eq!(viewer.outputs(&image()), 1);
    assert_eq!(viewer.outputs(&expr("a")), 1);
}

#[test]
fn what_pins_carry() {
    assert_eq!(PIN_SINK, PIN_NUM | PIN_STR | PIN_IMG);
    assert_eq!(pin_out_compat(&DemoNode::Sink), 0);
    assert_eq!(pin_out_compat(&number()), PIN_NUM);
    assert_eq!(pin_out_compat(&expr("a")), PIN_NUM);
    assert_eq!(pin_out_compat(&text()), PIN_STR);
    assert_eq!(pin_out_compat(&image()), PIN_IMG);
    assert_eq!(pin_in_compat(&DemoNode::Sink, 0), PIN_SINK);
    assert_eq!(pin_in_compat(&number(), 0), 0);
    assert_eq!(pin_in_compat(&text(), 0), 0);
    assert_eq!(pin_in_compat(&image(), 0), PIN_STR);
    assert_eq!(pin_in_compat(&expr("a"), 0), PIN_STR);
    assert_eq!(pin_in_compat(&expr("a"), 1), PIN_NUM);
    assert!(pins_fit(PIN_IMG, PIN_SINK));
    assert!(!pins_fit(PIN_IMG, PIN_STR));
    assert!(!pins_fit(0, PIN_SINK));
}

#[test]
fn accepted_and_refused_wires() {
    let mut viewer = DemoViewer;
    for from in [number(), text(), image(), expr("a")] {
        assert!(viewer.connect(&from, &DemoNode::Sink, 0));
    }
    assert!(viewer.connect(&text(), &image(), 0));
    assert!(!viewer.connect(&number(), &image(), 0));
    assert!(!viewer.connect(&image(), &image(), 0));
    assert!(!viewer.connect(&expr("a"), &image(), 0));
    assert!(viewer.connect(&text(), &expr("a"), 0));
    assert!(!viewer.connect(&text(), &expr("a"), 1));
    assert!(!viewer.connect(&number(), &expr("a"), 0));
    assert!(viewer.connect(&number(), &expr("a"), 1));
    assert!(!viewer.connect(&expr("b"), &expr("a"), 0));
    assert!(viewer.connect(&expr("b"), &expr("a"), 1));
    assert!(!viewer.connect(&image(), &expr("a"), 0));
    assert!(!viewer.connect(&image(), &expr("a"), 1));
}

#[test]
fn a_wire_is_accepted_exactly_if_the_pins_fit() {
    let mut viewer = DemoViewer;
    for from in [number(), text(), image(), expr("a")] {
        for to in [DemoNode::Sink, image(), expr("a + b")] {
            for input in 0..3 {
                assert_eq!(
                    viewer.connect(&from, &to, input),
                    pins_fit(pin_out_compat(&from), pin_in_compat(&to, input))
                );
            }
        }
    }
}
