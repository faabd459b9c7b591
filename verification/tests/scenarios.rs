use compgraph::node::{create_input, pow_f32, sin, Graph, Node};
use compgraph::operator::Operator;

fn arithmetic(operator: Operator, args: &Vec<u32>) -> u32 {
    let a = f32::from_bits(args[0]);
    let value = match operator {
        Operator::Add => a + f32::from_bits(args[1]),
        Operator::Sub => a - f32::from_bits(args[1]),
        Operator::Mul => a * f32::from_bits(args[1]),
        Operator::Div => a / f32::from_bits(args[1]),
        Operator::Sin => a.sin(),
        Operator::Pow => a.powf(f32::from_bits(args[1])),
    };
    value.to_bits()
}

fn round(x: f32, precision: u32) -> f32 {
    let m = 10i32.pow(precision) as f32;
    (x * m).round() / m
}

fn input(graph: &mut Graph, value: f32) -> Node {
    create_input(graph, value.to_bits())
}

fn eval(graph: &mut Graph, node: Node) -> f32 {
    f32::from_bits(node.compute(graph, &arithmetic))
}

fn assign(graph: &mut Graph, node: Node, value: f32) {
    assert_eq!(node.set(graph, value.to_bits()), Ok(()));
}

struct Wave {
    graph: Graph,
    x1: Node,
    x2: Node,
    x3: Node,
    x4: Node,
    output: Node,
}

/// x1 + x2 * sin(x2 + pow(x3, x4)), with x1 = 1, x2 = 2, x3 = 3, x4 = 3.
fn wave() -> Wave {
    let mut graph = Graph::new();
    let x1 = input(&mut graph, 1.0);
    let x2 = input(&mut graph, 2.0);
    let x3 = input(&mut graph, 3.0);
    let x4 = input(&mut graph, 3.0);
    let power = pow_f32(&mut graph, x3, x4);
    let inner = compgraph::node::add(&mut graph, x2, power);
    let sine = sin(&mut graph, inner);
    let product = compgraph::node::mul(&mut graph, x2, sine);
    let output = compgraph::node::add(&mut graph, x1, product);
    Wave { graph, x1, x2, x3, x4, output }
}

#[test]
fn wave_first_pass() {
    let mut w = wave();
    let result = eval(&mut w.graph, w.output);
    assert_eq!(round(result, 5), -0.32727);
}

#[test]
fn wave_second_pass_with_the_same_variables() {
    let mut w = wave();
    let first = eval(&mut w.graph, w.output);
    let second = eval(&mut w.graph, w.output);
    assert_eq!(round(second, 5), -0.32727);
    assert_eq!(first.to_bits(), second.to_bits());
}

#[test]
fn wave_with_x1_changed() {
    let mut w = wave();
    eval(&mut w.graph, w.output);
    assign(&mut w.graph, w.x1, 2.0);
    let result = eval(&mut w.graph, w.output);
    assert_eq!(round(result, 5), 0.67273);
}

#[test]
fn wave_with_three_variables_changed() {
    let mut w = wave();
    eval(&mut w.graph, w.output);
    assign(&mut w.graph, w.x1, 2.0);
    eval(&mut w.graph, w.output);
    assign(&mut w.graph, w.x1, 2.0);
    assign(&mut w.graph, w.x2, 3.0);
    assign(&mut w.graph, w.x3, 4.0);
    let result = eval(&mut w.graph, w.output);
    assert_eq!(round(result, 5), -0.56656);
    assert_eq!(f32::from_bits(w.x4.compute(&mut w.graph, &arithmetic)), 3.0);
}

#[test]
fn wave_without_an_earlier_pass() {
    let mut w = wave();
    assign(&mut w.graph, w.x1, 2.0);
    assign(&mut w.graph, w.x2, 3.0);
    assign(&mut w.graph, w.x3, 4.0);
    let result = eval(&mut w.graph, w.output);
    assert_eq!(round(result, 5), -0.56656);
}

#[test]
fn quotient_of_a_difference() {
    let mut graph = Graph::new();
    let y1 = input(&mut graph, 3.0);
    let y2 = input(&mut graph, 2.0);
    let y3 = input(&mut graph, 1.0);
    let difference = compgraph::node::sub(&mut graph, y1, y2);
    let output = compgraph::node::div(&mut graph, difference, y3);

    assert_eq!(eval(&mut graph, output), 1.0);

    assign(&mut graph, y3, 0.0);
    let result = eval(&mut graph, output);
    assert_eq!(result, f32::INFINITY);

    assign(&mut graph, y2, 3.0);
    let result = eval(&mut graph, output);
    assert!(result.is_nan());
}

#[test]
fn division_of_three_by_zero_is_positive_infinity() {
    let mut graph = Graph::new();
    let a = input(&mut graph, 3.0);
    let b = input(&mut graph, 0.0);
    let q = compgraph::node::div(&mut graph, a, b);
    let result = eval(&mut graph, q);
    assert!(result.is_infinite() && result.is_sign_positive());
}

#[test]
fn division_of_zero_by_zero_is_nan() {
    let mut graph = Graph::new();
    let a = input(&mut graph, 0.0);
    let b = input(&mut graph, 0.0);
    let q = compgraph::node::div(&mut graph, a, b);
    assert!(eval(&mut graph, q).is_nan());
}

#[test]
fn power_of_negative_base_with_fractional_exponent_is_nan() {
    let mut graph = Graph::new();
    let base = input(&mut graph, -1.0);
    let exponent = input(&mut graph, 0.5);
    let p = pow_f32(&mut graph, base, exponent);
    assert!(eval(&mut graph, p).is_nan());
}

#[test]
fn nan_flows_through_later_operators() {
    let mut graph = Graph::new();
    let a = input(&mut graph, 0.0);
    let b = input(&mut graph, 0.0);
    let one = input(&mut graph, 1.0);
    let q = compgraph::node::div(&mut graph, a, b);
    let s = compgraph::node::add(&mut graph, q, one);
    let t = sin(&mut graph, s);
    assert!(eval(&mut graph, t).is_nan());
}

#[test]
fn each_operator_gives_its_formula() {
    let mut graph = Graph::new();
    let a = input(&mut graph, 7.5);
    let b = input(&mut graph, 2.0);
    let sum = compgraph::node::add(&mut graph, a, b);
    let difference = compgraph::node::sub(&mut graph, a, b);
    let product = compgraph::node::mul(&mut graph, a, b);
    let quotient = compgraph::node::div(&mut graph, a, b);
    let power = pow_f32(&mut graph, a, b);
    let zero = input(&mut graph, 0.0);
    let sine = sin(&mut graph, zero);
    assert_eq!(eval(&mut graph, sum), 9.5);
    assert_eq!(eval(&mut graph, difference), 5.5);
    assert_eq!(eval(&mut graph, product), 15.0);
    assert_eq!(eval(&mut graph, quotient), 3.75);
    assert_eq!(eval(&mut graph, power), 56.25);
    assert_eq!(eval(&mut graph, sine), 0.0);
    assert_eq!(eval(&mut graph, a), 7.5);
}

#[test]
fn operands_keep_their_order() {
    let mut graph = Graph::new();
    let a = input(&mut graph, 8.0);
    let b = input(&mut graph, 2.0);
    let ab = compgraph::node::sub(&mut graph, a, b);
    let ba = compgraph::node::sub(&mut graph, b, a);
    let a_over_b = compgraph::node::div(&mut graph, a, b);
    let b_to_a = pow_f32(&mut graph, b, a);
    assert_eq!(eval(&mut graph, ab), 6.0);
    assert_eq!(eval(&mut graph, ba), -6.0);
    assert_eq!(eval(&mut graph, a_over_b), 4.0);
    assert_eq!(eval(&mut graph, b_to_a), 256.0);
}
