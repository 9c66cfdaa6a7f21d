//! Transforms on an engine that differentiates by dual numbers.

use std::cell::{Cell, RefCell};
use std::marker::PhantomData;
use std::ops::Add;
use std::rc::Rc;

use mlx_transforms::checkpoint::CheckpointStep;
use mlx_transforms::closure::{settle, Callback, FallibleClosure};
use mlx_transforms::engine::{Engine, Event, Request, VectorEvent, VectorRequest};
use mlx_transforms::error::{ClosureError, Exception};
use mlx_transforms::eval::EvalStep;
use mlx_transforms::guard::{is_success, Reply, FAILURE, SUCCESS};
use mlx_transforms::params::{ModuleParamRef, NestedValue};
use mlx_transforms::product::{PairStep, ProductCall};
use mlx_transforms::step::Step;
use mlx_transforms::vector::references;
use mlx_transforms::{
    async_eval, async_eval_params, checkpoint, eval, eval_params, fallible_jvp, fallible_vjp, jvp,
    value_and_gradient, vjp, Checkpoint, ClosureValueAndGrad,
};

type Result<T> = std::result::Result<T, Exception>;

/// An array of dual numbers: values, and their derivatives in the direction of the moment.
#[derive(Clone, Debug)]
struct Array {
    shape: Vec<usize>,
    data: Vec<f32>,
    tangent: Vec<f32>,
}

impl Array {
    fn new(shape: &[usize], data: Vec<f32>) -> Array {
        assert_eq!(shape.iter().product::<usize>(), data.len());
        let tangent = vec![0.0; data.len()];
        Array { shape: shape.to_vec(), data, tangent }
    }

    fn scalar(value: f32) -> Array {
        Array::new(&[], vec![value])
    }

    fn item(&self) -> f32 {
        assert_eq!(self.data.len(), 1);
        self.data[0]
    }

    /// Adds arrays of equal shapes, or with the trailing dimensions of one shape.
    fn add(&self, other: &Array) -> Result<Array> {
        let (long, short) = if self.shape.len() >= other.shape.len() {
            (self, other)
        } else {
            (other, self)
        };
        if !long.shape.ends_with(&short.shape) {
            let what = format!("Shapes {:?} and {:?} cannot be broadcast.", self.shape, other.shape);
            return Err(Exception::new(what));
        }
        let n = short.data.len();
        let mut sum = long.clone();
        for i in 0..sum.data.len() {
            sum.data[i] += short.data[i % n];
            sum.tangent[i] += short.tangent[i % n];
        }
        Ok(sum)
    }

    fn matmul(&self, other: &Array) -> Result<Array> {
        let (n, k, m) = (self.shape[0], self.shape[1], other.shape[1]);
        if k != other.shape[0] {
            return Err(Exception::new(format!("matmul of {:?} and {:?}", self.shape, other.shape)));
        }
        let mut product = Array::new(&[n, m], vec![0.0; n * m]);
        for i in 0..n {
            for j in 0..m {
                for l in 0..k {
                    let (a, b) = (i * k + l, l * m + j);
                    product.data[i * m + j] += self.data[a] * other.data[b];
                    product.tangent[i * m + j] +=
                        self.tangent[a] * other.data[b] + self.data[a] * other.tangent[b];
                }
            }
        }
        Ok(product)
    }

    fn tanh(&self) -> Array {
        let mut result = self.clone();
        for i in 0..result.data.len() {
            let t = self.data[i].tanh();
            result.data[i] = t;
            result.tangent[i] = (1.0 - t * t) * self.tangent[i];
        }
        result
    }

    fn sum(&self) -> Array {
        let mut total = Array::scalar(self.data.iter().sum());
        total.tangent[0] = self.tangent.iter().sum();
        total
    }

    fn primal(&self) -> Array {
        Array::new(&self.shape, self.data.clone())
    }

    fn derivative(&self) -> Array {
        Array::new(&self.shape, self.tangent.clone())
    }
}

impl Add for &Array {
    type Output = Array;

    fn add(self, other: &Array) -> Array {
        Array::add(self, other).unwrap()
    }
}

type Function<'c> = Rc<RefCell<dyn FnMut(&[Array]) -> Option<Vec<Array>> + 'c>>;

struct Dual<'c>(PhantomData<&'c ()>);

impl<'c> Engine for Dual<'c> {
    type Array = Array;
    type VectorArray = Vec<Array>;
    type Closure = Function<'c>;
    type ValueAndGrad = usize;
}

struct Machine<'c> {
    slot: Rc<RefCell<ClosureError>>,
    value_and_grads: RefCell<Vec<(Function<'c>, Vec<usize>)>>,
    evaluated: RefCell<Vec<f32>>,
    evaluated_async: RefCell<Vec<f32>>,
    checkpoints: Cell<usize>,
}

fn succeed<T>(value: T) -> Reply<T> {
    Reply { status: SUCCESS, value, error: None }
}

fn fail<T>(value: T, what: &str) -> Reply<T> {
    Reply { status: FAILURE, value, error: Some(Exception::new(what.to_string())) }
}

const CLOSURE_FAILED: &str = "mlx_closure returned a non-zero value";

fn seeded(inputs: &[Array], at: usize, element: usize) -> Vec<Array> {
    let mut inputs: Vec<Array> = inputs.iter().map(|input| input.primal()).collect();
    inputs[at].tangent[element] = 1.0;
    inputs
}

impl<'c> Machine<'c> {
    fn new() -> Machine<'c> {
        Machine {
            slot: Rc::new(RefCell::new(ClosureError::new())),
            value_and_grads: RefCell::new(Vec::new()),
            evaluated: RefCell::new(Vec::new()),
            evaluated_async: RefCell::new(Vec::new()),
            checkpoints: Cell::new(0),
        }
    }

    fn closure<K: Callback<Array> + 'c>(&self, mut callback: K) -> Function<'c> {
        let slot = self.slot.clone();
        Rc::new(RefCell::new(move |inputs: &[Array]| {
            let result = callback.call(inputs);
            let returned = settle(result, &mut slot.borrow_mut());
            assert_eq!(is_success(returned.status), returned.outputs.is_some());
            returned.outputs
        }))
    }

    /// The products of the weights with the Jacobian, for the inputs at these positions.
    fn pull_back(
        closure: &Function<'c>,
        inputs: &[Array],
        positions: &[usize],
        weights: &[Array],
    ) -> Option<Vec<Array>> {
        let mut products = Vec::new();
        for &at in positions {
            let mut product = inputs[at].primal();
            for element in 0..product.data.len() {
                let outputs = (closure.borrow_mut())(&seeded(inputs, at, element))?;
                product.data[element] = 0.0;
                for (output, weight) in outputs.iter().zip(weights.iter()) {
                    for (t, w) in output.tangent.iter().zip(weight.data.iter()) {
                        product.data[element] += t * w;
                    }
                }
            }
            products.push(product);
        }
        Some(products)
    }

    fn perform_vector(&self, request: VectorRequest<'_, Dual<'c>>) -> VectorEvent<Dual<'c>> {
        match request {
            VectorRequest::New => VectorEvent::Created(Vec::new()),
            VectorRequest::Append(mut vector, array) => {
                vector.push(array.clone());
                VectorEvent::Appended(succeed(vector))
            }
            VectorRequest::Size(vector) => {
                let size = vector.len();
                VectorEvent::Counted(vector, size)
            }
            VectorRequest::Get(vector, index) => {
                let array = vector[index].clone();
                VectorEvent::Read(vector, succeed(array))
            }
        }
    }

    fn perform(&self, request: Request<'_, Dual<'c>>) -> Event<Dual<'c>> {
        match request {
            Request::Vector(request) => Event::Vector(self.perform_vector(request)),
            Request::Eval(vector) => {
                self.evaluated.borrow_mut().extend(vector.iter().map(|array| array.item()));
                Event::Evaluated(succeed(()))
            }
            Request::AsyncEval(vector) => {
                self.evaluated_async.borrow_mut().extend(vector.iter().map(|array| array.item()));
                Event::Evaluated(succeed(()))
            }
            Request::Checkpoint(closure) => {
                self.checkpoints.set(self.checkpoints.get() + 1);
                let closure = closure.clone();
                let wrapped: Function<'c> =
                    Rc::new(RefCell::new(move |inputs: &[Array]| (closure.borrow_mut())(inputs)));
                Event::Checkpointed(succeed(wrapped))
            }
            Request::Apply(closure, inputs) => {
                let outputs = (closure.borrow_mut())(&inputs);
                Event::Applied(match outputs {
                    Some(outputs) => succeed(outputs),
                    None => fail(Vec::new(), CLOSURE_FAILED),
                })
            }
            Request::Jvp { closure, primals, tangents } => {
                let mut inputs: Vec<Array> = primals.iter().map(|array| array.primal()).collect();
                for (input, tangent) in inputs.iter_mut().zip(tangents.iter()) {
                    if input.shape == tangent.shape {
                        input.tangent = tangent.data.clone();
                    }
                }
                let outputs = (closure.borrow_mut())(&inputs);
                Event::Pair(match outputs {
                    None => fail((Vec::new(), Vec::new()), CLOSURE_FAILED),
                    Some(_) if primals.len() != tangents.len() => fail(
                        (Vec::new(), Vec::new()),
                        "[jvp] Number of inputs does not match number of tangents.",
                    ),
                    Some(outputs) => succeed((
                        outputs.iter().map(|output| output.primal()).collect(),
                        outputs.iter().map(|output| output.derivative()).collect(),
                    )),
                })
            }
            Request::Vjp { closure, primals, cotangents } => {
                let outputs = (closure.borrow_mut())(&primals);
                let positions: Vec<usize> = (0..primals.len()).collect();
                let products = Self::pull_back(&closure, &primals, &positions, &cotangents);
                Event::Pair(match (outputs, products) {
                    (Some(outputs), Some(products)) => succeed((
                        outputs.iter().map(|output| output.primal()).collect(),
                        products,
                    )),
                    _ => fail((Vec::new(), Vec::new()), CLOSURE_FAILED),
                })
            }
            Request::ValueAndGrad(handle, inputs) => {
                let (closure, positions) = self.value_and_grads.borrow()[handle].clone();
                let outputs = (closure.borrow_mut())(&inputs);
                let ones = [Array::scalar(1.0)];
                let gradients = Self::pull_back(&closure, &inputs, &positions, &ones);
                Event::Pair(match (outputs, gradients) {
                    (Some(outputs), Some(gradients)) => succeed((
                        outputs.iter().map(|output| output.primal()).collect(),
                        gradients,
                    )),
                    _ => fail((Vec::new(), Vec::new()), CLOSURE_FAILED),
                })
            }
        }
    }

    fn drive_pair(&self, mut step: PairStep<'_, Dual<'c>>) -> Result<(Vec<Array>, Vec<Array>)> {
        loop {
            match step {
                Step::Done(result) => return result,
                Step::Perform(request, session) => {
                    let event = self.perform(request);
                    assert!(session.accepts(&event));
                    step = session.resume(event, &mut self.slot.borrow_mut());
                }
            }
        }
    }

    fn drive_checkpoint(&self, mut step: CheckpointStep<'_, Dual<'c>>) -> Result<Vec<Array>> {
        loop {
            match step {
                Step::Done(result) => return result,
                Step::Perform(request, session) => {
                    let event = self.perform(request);
                    assert!(session.accepts(&event));
                    step = session.resume(event, &mut self.slot.borrow_mut());
                }
            }
        }
    }

    fn drive_eval(&self, mut step: EvalStep<'_, Dual<'c>>) -> Result<()> {
        loop {
            match step {
                Step::Done(result) => return result,
                Step::Perform(request, session) => {
                    let event = self.perform(request);
                    assert!(session.accepts(&event));
                    step = session.resume(event);
                }
            }
        }
    }

    fn run<K: Callback<Array> + 'c>(
        &self,
        (callback, call): (K, ProductCall<'_, Dual<'c>>),
    ) -> Result<(Vec<Array>, Vec<Array>)> {
        self.drive_pair(call.start(self.closure(callback)))
    }

    fn value_and_grad_with_argnums<F: FnMut(&[Array]) -> Result<Vec<Array>> + 'c>(
        &self,
        f: F,
        argnums: &[usize],
        args: &[Array],
    ) -> Result<(Vec<Array>, Vec<Array>)> {
        let closure = self.closure(FallibleClosure::new_fallible(f));
        let handle = self.value_and_grads.borrow().len();
        self.value_and_grads.borrow_mut().push((closure, argnums.to_vec()));
        let closure = ClosureValueAndGrad { c_closure_value_and_grad: handle };
        self.drive_pair(value_and_gradient(closure.as_ptr(), references(args)))
    }
}

/// Normally distributed numbers, the same for the same key.
fn normal(key: u64, shape: &[usize]) -> Array {
    let mut state = key.wrapping_mul(0x9E37_79B9_7F4A_7C15).wrapping_add(0x1234_5678);
    let mut uniform = || {
        state = state.wrapping_mul(6364136223846793005).wrapping_add(1442695040888963407);
        ((state >> 40) as f32 + 0.5) / (1u64 << 24) as f32
    };
    let n = shape.iter().product::<usize>();
    let data = (0..n)
        .map(|_| (-2.0 * uniform().ln()).sqrt() * (std::f32::consts::TAU * uniform()).cos())
        .collect();
    Array::new(shape, data)
}

// The gradients with respect to the explicit inputs of a checkpointed segment must match those of
// the plain graph, also when the segment reads a captured constant that gets no gradient.
#[test]
fn test_checkpoint_grad_matches_non_checkpointed() {
    let key = 0;
    let wc = normal(key, &[8, 8]);
    let x = normal(key, &[4, 8]);
    let segments = Machine::new();
    let machine = Machine::new();

    // layer(h, p) = tanh(h @ wc + p), with `wc` and `x` captured; `p` is the trainable input.
    let plain = |args: &[Array]| -> Result<Vec<Array>> {
        let mut h = x.clone();
        for p in args {
            h = h.matmul(&wc)?.add(p)?.tanh();
        }
        Ok(vec![h.sum()])
    };
    let ckpt = |args: &[Array]| -> Result<Vec<Array>> {
        let mut h = x.clone();
        for p in args {
            let f = checkpoint(|inp: &[Array]| -> Result<Vec<Array>> {
                Ok(vec![inp[0].matmul(&wc)?.add(&inp[1])?.tanh()])
            });
            let seg = Checkpoint::<Dual<'_>>::new(segments.closure(f));
            let inputs = [h.clone(), p.clone()];
            h = segments.drive_checkpoint(seg.call(&inputs))?.into_iter().next().unwrap();
        }
        Ok(vec![h.sum()])
    };

    let p0 = normal(key, &[8]);
    let p1 = normal(key, &[8]);
    let args = &[p0, p1];
    let argnums = &[0, 1];

    let (v_plain, g_plain) = machine.value_and_grad_with_argnums(plain, argnums, args).unwrap();
    let (v_ckpt, g_ckpt) = machine.value_and_grad_with_argnums(ckpt, argnums, args).unwrap();

    // The forward value matches.
    assert!(
        (v_plain[0].item() - v_ckpt[0].item()).abs() < 1e-4,
        "forward value differs: {} vs {}",
        v_plain[0].item(),
        v_ckpt[0].item()
    );
    // The gradients with respect to each trainable input match.
    assert_eq!(g_plain.len(), 2);
    assert_eq!(g_ckpt.len(), 2);
    for (gp, gc) in g_plain.iter().zip(g_ckpt.iter()) {
        let d = gp.data.iter().zip(gc.data.iter()).map(|(a, b)| (a - b).abs()).fold(0.0, f32::max);
        assert!(d < 1e-4, "checkpoint grad diverged: max|d| = {}", d);
        assert!(gp.data.iter().any(|g| g.abs() > 1e-3));
    }
    // One value and sixteen partial derivatives, each through two segments.
    assert_eq!(segments.checkpoints.get(), 34);
    assert_eq!(machine.checkpoints.get(), 0);
}

#[test]
fn test_jvp() {
    let machine = Machine::new();
    let f = |inputs: &[Array]| -> Vec<Array> { vec![&inputs[0] + &inputs[1]] };
    let x = Array::scalar(1.0f32);
    let y = Array::scalar(1.0f32);
    let primals = [x, y];
    let tangents = [Array::scalar(1.0f32), Array::scalar(3.0f32)];
    let (out, dout) = machine.run(jvp(f, &primals, &tangents)).unwrap();
    assert_eq!(out[0].item(), 2.0f32);
    assert_eq!(dout[0].item(), 4.0f32);
}

#[test]
fn test_jvp_with_error() {
    let machine = Machine::new();
    let f = |inputs: &[Array]| -> Result<Vec<Array>> {
        inputs[0].add(&inputs[1]).map(|res| vec![res])
    };

    // Success case
    let x = Array::scalar(1.0f32);
    let y = Array::scalar(1.0f32);
    let primals = [x, y];
    let tangents = [Array::scalar(1.0f32), Array::scalar(3.0f32)];
    let (out, dout) = machine.run(fallible_jvp(f, &primals, &tangents)).unwrap();
    assert_eq!(out[0].item(), 2.0f32);
    assert_eq!(dout[0].item(), 4.0f32);

    // Error case
    // Use non-broadcastable shapes
    let a = Array::new(&[3], vec![1.0, 2.0, 3.0]);
    let b = Array::new(&[2], vec![4.0, 5.0]);
    let primals = [a, b];
    let result = machine.run(fallible_jvp(f, &primals, &tangents));
    assert!(result.is_err());

    // Check that the error is not just "mlx_closure returned a non-zero value"
    let err = result.unwrap_err();
    assert!(!err.what().contains("non-zero value"));
    assert_eq!(err.what(), "Shapes [3] and [2] cannot be broadcast.");
}

#[test]
fn test_vjp() {
    let machine = Machine::new();
    let f = |inputs: &[Array]| -> Vec<Array> { vec![&inputs[0] + &inputs[1]] };
    let x = Array::scalar(1.0f32);
    let y = Array::scalar(1.0f32);
    let primals = vec![x, y];
    let cotangents = vec![Array::scalar(1.0f32)];
    let (out, dout) = machine.run(vjp(f, &primals, &cotangents)).unwrap();
    assert_eq!(out[0].item(), 2.0f32);
    assert_eq!(dout[0].item(), 1.0f32);
}

#[test]
fn test_vjp_with_error() {
    let machine = Machine::new();
    let f = |inputs: &[Array]| -> Result<Vec<Array>> {
        inputs[0].add(&inputs[1]).map(|res| vec![res])
    };

    // Success case
    let x = Array::scalar(1.0f32);
    let y = Array::scalar(1.0f32);
    let primals = vec![x, y];
    let cotangents = vec![Array::scalar(1.0f32)];
    let (out, dout) = machine.run(fallible_vjp(f, &primals, &cotangents)).unwrap();
    assert_eq!(out[0].item(), 2.0f32);
    assert_eq!(dout[0].item(), 1.0f32);

    // Error case
    // Use non-broadcastable shapes
    let a = Array::new(&[3], vec![1.0, 2.0, 3.0]);
    let b = Array::new(&[2], vec![4.0, 5.0]);
    let primals = [a, b];
    let result = machine.run(fallible_vjp(f, &primals, &cotangents));
    assert!(result.is_err());

    // Check that the error is not just "mlx_closure returned a non-zero value"
    let err = result.unwrap_err();
    assert!(!err.what().contains("non-zero value"));
    assert_eq!(err.what(), "Shapes [3] and [2] cannot be broadcast.");
}

#[test]
fn engine_error_is_reported_when_no_closure_failed() {
    let machine = Machine::new();
    let f = |inputs: &[Array]| -> Vec<Array> { vec![&inputs[0] + &inputs[1]] };
    let primals = [Array::scalar(1.0), Array::scalar(1.0)];
    let tangents = [Array::scalar(1.0)];
    let err = machine.run(jvp(f, &primals, &tangents)).unwrap_err();
    assert_eq!(err.what(), "[jvp] Number of inputs does not match number of tangents.");
}

#[test]
fn closure_error_does_not_outlive_its_transform() {
    let machine = Machine::new();
    let failing = |_: &[Array]| -> Result<Vec<Array>> { Err(Exception::new("own".to_string())) };
    let primals = [Array::scalar(1.0)];
    let err = machine.run(fallible_vjp(failing, &primals, &primals)).unwrap_err();
    assert_eq!(err.what(), "own");

    let f = |inputs: &[Array]| -> Vec<Array> { inputs.to_vec() };
    let err = machine.run(jvp(f, &primals, &[])).unwrap_err();
    assert_eq!(err.what(), "[jvp] Number of inputs does not match number of tangents.");
}

#[test]
fn checkpoint_reports_the_closures_error() {
    let machine = Machine::new();
    let f = checkpoint(|_: &[Array]| -> Result<Vec<Array>> {
        Err(Exception::new("segment".to_string()))
    });
    let seg = Checkpoint::<Dual<'_>>::new(machine.closure(f));
    let err = machine.drive_checkpoint(seg.call(&[])).unwrap_err();
    assert_eq!(err.what(), "segment");
}

#[test]
fn checkpoint_can_be_called_again() {
    let machine = Machine::new();
    let mut calls = 0.0;
    let f = checkpoint(move |inputs: &[Array]| -> Result<Vec<Array>> {
        calls += 1.0;
        Ok(vec![inputs[0].add(&Array::scalar(calls))?, inputs[1].clone()])
    });
    let seg = Checkpoint::<Dual<'_>>::new(machine.closure(f));
    let inputs = [Array::scalar(10.0), Array::scalar(7.0)];
    for call in 1..4 {
        let outputs = machine.drive_checkpoint(seg.call(&inputs)).unwrap();
        assert_eq!(outputs.len(), 2);
        assert_eq!(outputs[0].item(), 10.0 + call as f32);
        assert_eq!(outputs[1].item(), 7.0);
    }
    assert_eq!(machine.checkpoints.get(), 3);
}

#[test]
fn checkpoint_calls_stand_alone() {
    let machine = Machine::new();
    let mut calls = 0;
    let f = checkpoint(move |inputs: &[Array]| -> Result<Vec<Array>> {
        calls += 1;
        if calls % 2 == 0 {
            return Err(Exception::new(format!("call {} of {}", calls, inputs[0].item())));
        }
        Ok(vec![inputs[0].add(&Array::scalar(calls as f32))?])
    });
    let seg = Checkpoint::<Dual<'_>>::new(machine.closure(f));
    for n in 1..6 {
        let inputs = [Array::scalar(10.0 * n as f32)];
        let result = machine.drive_checkpoint(seg.call(&inputs));
        if n % 2 == 0 {
            assert_eq!(result.unwrap_err().what(), format!("call {} of {}", n, 10 * n));
        } else {
            assert_eq!(result.unwrap()[0].item(), 11.0 * n as f32);
        }
        assert!(machine.slot.borrow_mut().get_and_clear_closure_error().is_none());
    }
}

#[test]
fn arrays_are_evaluated_in_order() {
    let machine = Machine::new();
    let arrays = [Array::scalar(3.0), Array::scalar(1.0), Array::scalar(2.0)];
    machine.drive_eval(eval(references(&arrays))).unwrap();
    assert_eq!(*machine.evaluated.borrow(), vec![3.0, 1.0, 2.0]);
    assert!(machine.evaluated_async.borrow().is_empty());

    machine.drive_eval(async_eval(references(&arrays[1..]))).unwrap();
    assert_eq!(*machine.evaluated_async.borrow(), vec![1.0, 2.0]);
    assert_eq!(machine.evaluated.borrow().len(), 3);
}

#[test]
fn nothing_is_evaluated_of_no_arrays() {
    let machine = Machine::new();
    machine.drive_eval(eval(Vec::new())).unwrap();
    assert!(machine.evaluated.borrow().is_empty());
}

fn nested<'a>(a: &'a Array, b: &'a Array, c: &'a Array) -> ModuleParamRef<'a, Array> {
    let mut inner = ModuleParamRef::new();
    inner.insert("weight".to_string(), NestedValue::Value(b));
    inner.insert("bias".to_string(), NestedValue::Value(c));
    let mut params = ModuleParamRef::new();
    params.insert("scale".to_string(), NestedValue::Value(a));
    params.insert("linear".to_string(), NestedValue::Nested(inner));
    params
}

#[test]
fn every_parameter_is_evaluated_once() {
    let machine = Machine::new();
    let (a, b, c) = (Array::scalar(1.0), Array::scalar(2.0), Array::scalar(3.0));
    machine.drive_eval(eval_params(nested(&a, &b, &c))).unwrap();
    assert_eq!(*machine.evaluated.borrow(), vec![1.0, 2.0, 3.0]);

    machine.drive_eval(async_eval_params(nested(&c, &b, &a))).unwrap();
    assert_eq!(*machine.evaluated_async.borrow(), vec![3.0, 2.0, 1.0]);
}

#[test]
fn parameters_are_flattened_to_their_paths() {
    let (a, b, c) = (Array::scalar(1.0), Array::scalar(2.0), Array::scalar(3.0));
    let flat = nested(&a, &b, &c).flatten();
    let paths: Vec<&str> = flat.iter().map(|(path, _)| path.as_str()).collect();
    assert_eq!(paths, vec!["scale", "linear.weight", "linear.bias"]);
}

#[test]
fn one_path_leads_to_one_parameter() {
    let (a, b, c) = (Array::scalar(1.0), Array::scalar(2.0), Array::scalar(3.0));
    let mut inner = ModuleParamRef::new();
    inner.insert("b".to_string(), NestedValue::Value(&b));
    let mut params = ModuleParamRef::new();
    params.insert("a.b".to_string(), NestedValue::Value(&a));
    params.insert("a".to_string(), NestedValue::Nested(inner));
    params.insert("c".to_string(), NestedValue::Value(&a));
    params.insert("c".to_string(), NestedValue::Value(&c));
    let flat = params.flatten();
    let values: Vec<(&str, f32)> =
        flat.iter().map(|(path, array)| (path.as_str(), array.item())).collect();
    assert_eq!(values, vec![("a.b", 2.0), ("c", 3.0)]);
}
