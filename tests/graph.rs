use autograd::graph::Graph;
use autograd::tensor::{Function, Lookup, Loss, Optimizer, TensorError, TensorOps};
use std::collections::HashSet;

#[derive(Clone, Debug, PartialEq)]
struct Vt {
    shape: Vec<usize>,
    data: Vec<f32>,
}

fn vt(shape: &[usize], data: &[f32]) -> Vt {
    assert_eq!(shape.iter().product::<usize>(), data.len());
    Vt { shape: shape.to_vec(), data: data.to_vec() }
}

impl Vt {
    fn map(&self, f: impl Fn(f32) -> f32) -> Vt {
        Vt { shape: self.shape.clone(), data: self.data.iter().map(|x| f(*x)).collect() }
    }
}

impl TensorOps for Vt {
    type Scalar = f32;

    fn shape(&self) -> Vec<usize> {
        self.shape.clone()
    }

    fn dim(&self) -> usize {
        self.shape.len()
    }

    fn add(&self, other: &Vt) -> Result<Vt, TensorError> {
        if !self.shape.ends_with(&other.shape) {
            return Err(TensorError::ShapeMismatch);
        }
        let m = other.data.len();
        let data = self
            .data
            .iter()
            .enumerate()
            .map(|(i, x)| x + other.data[i % m])
            .collect();
        Ok(Vt { shape: self.shape.clone(), data })
    }

    fn inners_right(&self, keep: usize) -> Result<Vec<Vt>, TensorError> {
        if keep > self.shape.len() {
            return Err(TensorError::ShapeMismatch);
        }
        let inner: Vec<usize> = self.shape[self.shape.len() - keep..].to_vec();
        let size: usize = inner.iter().product();
        Ok(self
            .data
            .chunks(size)
            .map(|c| Vt { shape: inner.clone(), data: c.to_vec() })
            .collect())
    }

    fn zeros_like(&self) -> Vt {
        self.map(|_| 0.)
    }

    fn fill_zero(&mut self) {
        self.data.iter_mut().for_each(|x| *x = 0.);
    }

    fn div_count(&self, count: usize) -> Result<Vt, TensorError> {
        Ok(self.map(|x| x / count as f32))
    }

    fn size(&self) -> usize {
        self.data.len()
    }

    fn mean(&self) -> f32 {
        self.data.iter().sum::<f32>() / self.data.len() as f32
    }
}

#[derive(Clone)]
enum Op {
    Scale(f32),
    Add,
    Fail,
}

impl Function<Vt> for Op {
    fn run(&self, inps: &Vec<&Vt>, _training: bool) -> Result<Vt, TensorError> {
        match self {
            Op::Scale(c) => Ok(inps[0].map(|x| x * c)),
            Op::Add => inps[0].add(inps[1]),
            Op::Fail => Err(TensorError::InvalidInput),
        }
    }

    fn grad(&self, _inps: &Vec<&Vt>, out_grad: &Vt) -> Result<Vec<Vt>, TensorError> {
        match self {
            Op::Scale(c) => Ok(vec![out_grad.map(|x| x * c)]),
            Op::Add => Ok(vec![out_grad.clone(), out_grad.clone()]),
            Op::Fail => Err(TensorError::InvalidInput),
        }
    }
}

struct Identity;

struct Broken;

impl Loss<Vt> for Broken {
    fn run(&self, _output: &Vt) -> Result<(Vt, Vt), TensorError> {
        Err(TensorError::InvalidInput)
    }
}

impl Loss<Vt> for Identity {
    fn run(&self, output: &Vt) -> Result<(Vt, Vt), TensorError> {
        Ok((output.clone(), output.map(|_| 1.)))
    }
}

struct Rows(Vec<usize>);

impl Lookup<Vt> for Rows {
    fn lookup(&self, table: &Vt) -> Result<Vt, TensorError> {
        let d = table.shape[1];
        let mut data = Vec::new();
        for r in &self.0 {
            if *r >= table.shape[0] {
                return Err(TensorError::IndexOutOfRange);
            }
            data.extend_from_slice(&table.data[r * d..(r + 1) * d]);
        }
        Ok(Vt { shape: vec![self.0.len(), d], data })
    }
}

struct Sgd {
    steps: usize,
    seen: usize,
    fail: bool,
}

impl Optimizer<Vt> for Sgd {
    type Rate = f32;

    fn step(&mut self, params: &mut Vec<Vt>, grads: &Vec<&Vt>, learning_rate: f32) -> Result<(), TensorError> {
        self.steps += 1;
        self.seen = params.len();
        if self.fail {
            return Err(TensorError::InvalidInput);
        }
        for (p, g) in params.iter_mut().zip(grads.iter()) {
            for (x, d) in p.data.iter_mut().zip(g.data.iter()) {
                *x -= learning_rate * d;
            }
        }
        Ok(())
    }
}

fn chain() -> (Graph<Vt, Op>, usize, usize, usize) {
    let mut g = Graph::new();
    let x = g.allocate(vt(&[2], &[1., 2.]), "x".to_string());
    let y = g.call(Op::Scale(3.), &[x]).unwrap();
    let z = g.call(Op::Scale(2.), &[y]).unwrap();
    (g, x, y, z)
}

#[test]
fn handles_follow_allocation_order() {
    let mut g: Graph<Vt, Op> = Graph::new();
    let a = g.allocate(vt(&[2], &[1., 2.]), "a".to_string());
    let b = g.allocate(vt(&[2], &[3., 4.]), "b".to_string());
    let c = g.call(Op::Add, &[a, b]).unwrap();
    let d = g.call(Op::Scale(2.), &[c]).unwrap();
    assert_eq!((a, b, c, d), (0, 1, 2, 3));
    assert!(a < c && b < c && c < d);
    assert_eq!(g.get(c), &vt(&[2], &[4., 6.]));
    assert_eq!(g.get(d), &vt(&[2], &[8., 12.]));
    assert_eq!(g.get_grad(d), &vt(&[2], &[0., 0.]));
    assert_eq!(g.name_of(a), "a");
    assert_eq!(g.name_of(d), "");
    assert_eq!(g.tensor_count(), 4);
}

#[test]
fn failed_call_records_nothing() {
    let mut g: Graph<Vt, Op> = Graph::new();
    let a = g.allocate(vt(&[1], &[1.]), "a".to_string());
    assert_eq!(g.call(Op::Fail, &[a]), Err(TensorError::InvalidInput));
    let b = g.call(Op::Scale(1.), &[a]).unwrap();
    assert_eq!(b, 1);
    let e = g.allocate(vt(&[2], &[1., 1.]), "e".to_string());
    assert_eq!(g.call(Op::Add, &[a, e]), Err(TensorError::ShapeMismatch));
    assert_eq!(g.allocate(vt(&[1], &[0.]), String::new()), 3);
}

#[test]
fn forward_replays_after_load() {
    let (mut g, x, y, z) = chain();
    g.load(x, vt(&[2], &[-1., 5.])).unwrap();
    assert_eq!(g.get(z), &vt(&[2], &[6., 12.]));
    g.forward(true).unwrap();
    assert_eq!(g.get(y), &vt(&[2], &[-3., 15.]));
    assert_eq!(g.get(z), &vt(&[2], &[-6., 30.]));
}

#[test]
fn forward_twice_gives_identical_values() {
    let (mut g, x, y, z) = chain();
    g.load(x, vt(&[2], &[0.1, 0.7])).unwrap();
    g.forward(false).unwrap();
    let first = (g.get(y).clone(), g.get(z).clone());
    g.forward(false).unwrap();
    assert_eq!(g.get(y).data, first.0.data);
    assert_eq!(g.get(z).data, first.1.data);
    assert_eq!(g.get(x), &vt(&[2], &[0.1, 0.7]));
}

#[test]
fn backward_accumulates_chain_gradients() {
    let (mut g, x, y, z) = chain();
    let loss = g.backward_all(z, Identity, None).unwrap();
    assert_eq!(loss, 9.);
    assert_eq!(g.get_grad(z), &vt(&[2], &[0.5, 0.5]));
    assert_eq!(g.get_grad(y), &vt(&[2], &[1., 1.]));
    assert_eq!(g.get_grad(x), &vt(&[2], &[3., 3.]));
    // Without zero_grad the accumulated gradients flow again: z 1, y 3, x 12.
    g.backward_all(z, Identity, None).unwrap();
    assert_eq!(g.get_grad(z), &vt(&[2], &[1., 1.]));
    assert_eq!(g.get_grad(y), &vt(&[2], &[3., 3.]));
    assert_eq!(g.get_grad(x), &vt(&[2], &[12., 12.]));
    g.zero_grad();
    assert_eq!(g.get_grad(x), &vt(&[2], &[0., 0.]));
    assert_eq!(g.get_grad(z), &vt(&[2], &[0., 0.]));
}

#[test]
fn backward_limit_stops_at_newest() {
    let (mut g, x, y, z) = chain();
    g.backward_all(z, Identity, Some(1)).unwrap();
    assert_eq!(g.get_grad(z), &vt(&[2], &[0.5, 0.5]));
    assert_eq!(g.get_grad(y), &vt(&[2], &[1., 1.]));
    assert_eq!(g.get_grad(x), &vt(&[2], &[0., 0.]));
}

#[test]
fn backward_limit_zero_only_seeds() {
    let (mut g, x, y, z) = chain();
    g.backward_all(z, Identity, Some(0)).unwrap();
    assert_eq!(g.get_grad(z), &vt(&[2], &[0.5, 0.5]));
    assert_eq!(g.get_grad(y), &vt(&[2], &[0., 0.]));
    assert_eq!(g.get_grad(x), &vt(&[2], &[0., 0.]));
}

#[test]
fn backward_fans_out_to_both_inputs() {
    let mut g: Graph<Vt, Op> = Graph::new();
    let a = g.allocate(vt(&[2], &[1., 2.]), "a".to_string());
    let s = g.call(Op::Add, &[a, a]).unwrap();
    let loss = g.backward_all(s, Identity, Some(10)).unwrap();
    assert_eq!(loss, 3.);
    assert_eq!(g.get_grad(a), &vt(&[2], &[1., 1.]));
}

#[test]
fn stacked_grad_equals_sequential_adds() {
    let mut g: Graph<Vt, Op> = Graph::new();
    let a = g.allocate(vt(&[2], &[0., 0.]), "a".to_string());
    let b = g.allocate(vt(&[2], &[0., 0.]), "b".to_string());
    g.add_grad(a, vt(&[3, 2], &[1., 2., 3., 4., 5., 6.])).unwrap();
    g.add_grad(b, vt(&[2], &[1., 2.])).unwrap();
    g.add_grad(b, vt(&[2], &[3., 4.])).unwrap();
    g.add_grad(b, vt(&[2], &[5., 6.])).unwrap();
    assert_eq!(g.get_grad(a), &vt(&[2], &[9., 12.]));
    assert_eq!(g.get_grad(a), g.get_grad(b));
}

#[test]
fn shorter_grad_is_broadcast() {
    let mut g: Graph<Vt, Op> = Graph::new();
    let a = g.allocate(vt(&[2, 2], &[0., 0., 0., 0.]), "a".to_string());
    g.add_grad(a, vt(&[2], &[1., 2.])).unwrap();
    assert_eq!(g.get_grad(a), &vt(&[2, 2], &[1., 2., 1., 2.]));
    assert_eq!(g.add_grad(a, vt(&[3], &[1., 2., 3.])), Err(TensorError::ShapeMismatch));
    assert_eq!(g.add_grad(a, vt(&[2, 3], &[0.; 6])), Err(TensorError::ShapeMismatch));
}

#[test]
fn load_grad_replaces_gradient() {
    let (mut g, x, _y, _z) = chain();
    g.load_grad(x, vt(&[2], &[4., 4.]));
    assert_eq!(g.get_grad(x), &vt(&[2], &[4., 4.]));
    g.add_grad(x, vt(&[2], &[1., 0.])).unwrap();
    assert_eq!(g.get_grad(x), &vt(&[2], &[5., 4.]));
}

#[test]
fn embed_gathers_rows() {
    let mut g: Graph<Vt, Op> = Graph::new();
    let table = g.allocate(vt(&[3, 2], &[0., 1., 10., 11., 20., 21.]), "table".to_string());
    let out = g.allocate(vt(&[2, 2], &[0.; 4]), "out".to_string());
    g.embed(out, table, &Rows(vec![2, 0])).unwrap();
    assert_eq!(g.get(out), &vt(&[2, 2], &[20., 21., 0., 1.]));
    assert_eq!(g.embed(out, table, &Rows(vec![3])), Err(TensorError::IndexOutOfRange));
    assert_eq!(g.get(out), &vt(&[2, 2], &[20., 21., 0., 1.]));
}

#[test]
fn optimize_updates_selected_only() {
    let (mut g, x, y, z) = chain();
    g.backward_all(z, Identity, None).unwrap();
    let mut opt = Sgd { steps: 0, seen: 0, fail: false };
    let mut params = HashSet::new();
    params.insert(x);
    g.optimize(&mut opt, &params, 0.5).unwrap();
    assert_eq!(opt.steps, 1);
    assert_eq!(opt.seen, 1);
    assert_eq!(g.get(x), &vt(&[2], &[-0.5, 0.5]));
    assert_eq!(g.get(y), &vt(&[2], &[3., 6.]));
    assert_eq!(g.get_grad(x), &vt(&[2], &[3., 3.]));
}

#[test]
fn cloned_graph_is_independent() {
    let (mut g, x, _y, z) = chain();
    let mut h = g.clone();
    h.load(x, vt(&[2], &[10., 10.])).unwrap();
    h.forward(false).unwrap();
    assert_eq!(h.get(z), &vt(&[2], &[60., 60.]));
    g.forward(false).unwrap();
    assert_eq!(g.get(z), &vt(&[2], &[6., 12.]));
}

#[test]
fn load_refuses_other_shape() {
    let (mut g, x, _y, _z) = chain();
    assert_eq!(g.load(x, vt(&[3], &[1., 2., 3.])), Err(TensorError::ShapeMismatch));
    assert_eq!(g.get(x), &vt(&[2], &[1., 2.]));
    assert_eq!(g.load(x, vt(&[2], &[7., 8.])), Ok(()));
    assert_eq!(g.get(x), &vt(&[2], &[7., 8.]));
}

#[test]
fn embed_refuses_other_shape() {
    let mut g: Graph<Vt, Op> = Graph::new();
    let table = g.allocate(vt(&[3, 2], &[0., 1., 10., 11., 20., 21.]), "table".to_string());
    let out = g.allocate(vt(&[2, 2], &[0.; 4]), "out".to_string());
    assert_eq!(g.embed(out, table, &Rows(vec![1])), Err(TensorError::ShapeMismatch));
    assert_eq!(g.get(out), &vt(&[2, 2], &[0.; 4]));
}

#[test]
fn loss_error_touches_nothing() {
    let (mut g, x, y, z) = chain();
    assert_eq!(g.backward_all(z, Broken, None), Err(TensorError::InvalidInput));
    for h in [x, y, z] {
        assert_eq!(g.get_grad(h), &vt(&[2], &[0., 0.]));
    }
}

#[test]
fn failing_step_keeps_earlier_gradients() {
    let mut g: Graph<Vt, Op> = Graph::new();
    let a = g.allocate(vt(&[2], &[1., 2.]), "a".to_string());
    let b = g.call(Op::Scale(2.), &[a]).unwrap();
    let c = g.call(Op::Fail, &[b]);
    assert_eq!(c, Err(TensorError::InvalidInput));
    g.load_grad(b, vt(&[3], &[0.; 3]));
    assert_eq!(g.backward_all(b, Identity, None), Err(TensorError::ShapeMismatch));
    assert_eq!(g.get_grad(a), &vt(&[2], &[0., 0.]));
}

#[test]
fn forward_failure_is_returned() {
    let mut g: Graph<Vt, Op> = Graph::new();
    let a = g.allocate(vt(&[2], &[1., 2.]), "a".to_string());
    let b = g.allocate(vt(&[2], &[3., 4.]), "b".to_string());
    let c = g.call(Op::Scale(2.), &[a]).unwrap();
    let d = g.call(Op::Add, &[c, b]).unwrap();
    let e = g.call(Op::Scale(10.), &[d]).unwrap();
    g.load(a, vt(&[2], &[5., 5.])).unwrap();
    g.load(b, vt(&[2], &[1., 1.])).unwrap();
    g.forward(false).unwrap();
    assert_eq!(g.get(e), &vt(&[2], &[110., 110.]));
}

#[test]
fn optimize_passes_step_error() {
    let (mut g, x, _y, z) = chain();
    g.backward_all(z, Identity, None).unwrap();
    let mut opt = Sgd { steps: 0, seen: 0, fail: true };
    let mut params = HashSet::new();
    params.insert(x);
    params.insert(99);
    assert_eq!(g.optimize(&mut opt, &params, 0.5), Err(TensorError::InvalidInput));
    assert_eq!(opt.seen, 1);
    assert_eq!(g.get(x), &vt(&[2], &[1., 2.]));
    assert_eq!(g.tensor_count(), 3);
}
