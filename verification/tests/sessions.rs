//! Sessions on a scripted engine, which logs its calls and can be told which of them fails.

use mlx_transforms::checkpoint::CheckpointStep;
use mlx_transforms::closure::{settle, Callback, Closure, FallibleClosure};
use mlx_transforms::engine::{Engine, Event, Request, VectorEvent, VectorRequest};
use mlx_transforms::error::{report, ClosureError, Exception};
use mlx_transforms::eval::EvalStep;
use mlx_transforms::guard::{is_success, try_from_op, Reply, FAILURE, SUCCESS};
use mlx_transforms::params::{values, ModuleParamRef, NestedValue};
use mlx_transforms::product::{jvp_inner, vjp_inner, PairStep, Product};
use mlx_transforms::step::Step;
use mlx_transforms::vector::references;
use mlx_transforms::{
    async_eval, checkpoint, eval, fallible_jvp, fallible_vjp, jvp, value_and_gradient, vjp,
    Checkpoint, ClosureValueAndGrad,
};

struct Script;

impl Engine for Script {
    type Array = u32;
    type VectorArray = Vec<u32>;
    type Closure = &'static str;
    type ValueAndGrad = &'static str;
}

struct Player {
    fails_at: Option<usize>,
    calls: usize,
    log: Vec<String>,
    slot: ClosureError,
}

fn exception(what: &str) -> Exception {
    Exception::new(what.to_string())
}

impl Player {
    fn new(fails_at: Option<usize>, left: Option<&str>) -> Player {
        let mut slot = ClosureError::new();
        if let Some(what) = left {
            slot.set_closure_error(exception(what));
        }
        Player { fails_at, calls: 0, log: Vec::new(), slot }
    }

    fn reply<T>(&mut self, value: T) -> Reply<T> {
        let call = self.calls;
        self.calls += 1;
        if self.fails_at == Some(call) {
            let error = Some(Exception::new(format!("call {} failed", call)));
            Reply { status: 7, value, error }
        } else {
            Reply { status: SUCCESS, value, error: None }
        }
    }

    fn pair(&mut self, first: &[u32], second: &[u32]) -> Event<Script> {
        let first = first.iter().map(|a| a + 10).collect();
        let second = second.iter().map(|a| a + 20).collect();
        Event::Pair(self.reply((first, second)))
    }

    fn perform(&mut self, request: Request<'_, Script>) -> Event<Script> {
        match request {
            Request::Vector(VectorRequest::New) => {
                self.log.push("new".to_string());
                Event::Vector(VectorEvent::Created(Vec::new()))
            }
            Request::Vector(VectorRequest::Append(mut vector, array)) => {
                self.log.push(format!("append {}", array));
                vector.push(*array);
                Event::Vector(VectorEvent::Appended(self.reply(vector)))
            }
            Request::Vector(VectorRequest::Size(vector)) => {
                self.log.push(format!("size {:?}", vector));
                let size = vector.len();
                Event::Vector(VectorEvent::Counted(vector, size))
            }
            Request::Vector(VectorRequest::Get(vector, index)) => {
                self.log.push(format!("get {}", index));
                let array = vector[index];
                Event::Vector(VectorEvent::Read(vector, self.reply(array)))
            }
            Request::Eval(vector) => {
                self.log.push(format!("eval {:?}", vector));
                Event::Evaluated(self.reply(()))
            }
            Request::AsyncEval(vector) => {
                self.log.push(format!("async_eval {:?}", vector));
                Event::Evaluated(self.reply(()))
            }
            Request::Checkpoint(closure) => {
                self.log.push(format!("checkpoint {}", closure));
                Event::Checkpointed(self.reply("wrapped"))
            }
            Request::Apply(closure, inputs) => {
                self.log.push(format!("apply {} {:?}", closure, inputs));
                let outputs = inputs.iter().map(|a| a + 30).collect();
                Event::Applied(self.reply(outputs))
            }
            Request::Jvp { closure, primals, tangents } => {
                self.log.push(format!("jvp {} {:?} {:?}", closure, primals, tangents));
                self.pair(&primals, &tangents)
            }
            Request::Vjp { closure, primals, cotangents } => {
                self.log.push(format!("vjp {} {:?} {:?}", closure, primals, cotangents));
                self.pair(&primals, &cotangents)
            }
            Request::ValueAndGrad(closure, inputs) => {
                self.log.push(format!("value_and_grad {} {:?}", closure, inputs));
                self.pair(&inputs, &inputs)
            }
        }
    }

    fn play_pair(
        &mut self,
        mut step: PairStep<'_, Script>,
    ) -> Result<(Vec<u32>, Vec<u32>), Exception> {
        loop {
            match step {
                Step::Done(result) => return result,
                Step::Perform(request, session) => {
                    let event = self.perform(request);
                    assert!(session.accepts(&event));
                    step = session.resume(event, &mut self.slot);
                }
            }
        }
    }

    fn play_checkpoint(
        &mut self,
        mut step: CheckpointStep<'_, Script>,
    ) -> Result<Vec<u32>, Exception> {
        loop {
            match step {
                Step::Done(result) => return result,
                Step::Perform(request, session) => {
                    let event = self.perform(request);
                    assert!(session.accepts(&event));
                    step = session.resume(event, &mut self.slot);
                }
            }
        }
    }

    fn play_eval(&mut self, mut step: EvalStep<'_, Script>) -> Result<(), Exception> {
        loop {
            match step {
                Step::Done(result) => return result,
                Step::Perform(request, session) => {
                    let event = self.perform(request);
                    assert!(session.accepts(&event));
                    step = session.resume(event);
                }
            }
        }
    }

    fn left(&mut self) -> Option<String> {
        self.slot.get_and_clear_closure_error().map(|error| error.what().to_string())
    }
}

#[test]
fn jvp_packs_runs_and_reads_in_order() {
    let mut player = Player::new(None, None);
    let result = player.play_pair(jvp_inner("f", &[1, 2], &[3])).unwrap();
    assert_eq!(result, (vec![11, 12], vec![23]));
    assert_eq!(
        player.log,
        vec![
            "new",
            "append 1",
            "append 2",
            "new",
            "append 3",
            "jvp f [1, 2] [3]",
            "size [11, 12]",
            "get 0",
            "get 1",
            "size [23]",
            "get 0",
        ]
    );
}

#[test]
fn vjp_packs_runs_and_reads_in_order() {
    let mut player = Player::new(None, None);
    let result = player.play_pair(vjp_inner("g", &[5], &[])).unwrap();
    assert_eq!(result, (vec![15], vec![]));
    assert_eq!(
        player.log,
        vec!["new", "append 5", "new", "vjp g [5] []", "size [15]", "get 0", "size []"]
    );
}

#[test]
fn value_and_gradient_packs_runs_and_reads_in_order() {
    let mut player = Player::new(None, None);
    let closure = ClosureValueAndGrad { c_closure_value_and_grad: "h" };
    let arrays = [4, 6];
    let step = value_and_gradient(closure.as_ptr(), references(&arrays));
    assert_eq!(player.play_pair(step).unwrap(), (vec![14, 16], vec![24, 26]));
    assert_eq!(
        player.log,
        vec![
            "new",
            "append 4",
            "append 6",
            "value_and_grad h [4, 6]",
            "size [14, 16]",
            "get 0",
            "get 1",
            "size [24, 26]",
            "get 0",
            "get 1",
        ]
    );
}

#[test]
fn product_fails_with_the_first_call_that_fails() {
    // Three appends, the product, and three reads.
    for k in 0..7 {
        let mut player = Player::new(Some(k), None);
        let error = player.play_pair(jvp_inner("f", &[1, 2], &[3])).unwrap_err();
        assert_eq!(error.what(), format!("call {} failed", k));
        assert_eq!(player.calls, k + 1);
        assert_eq!(player.left(), None);
    }
    let mut player = Player::new(Some(7), None);
    assert!(player.play_pair(jvp_inner("f", &[1, 2], &[3])).is_ok());
}

#[test]
fn product_prefers_the_closures_error_once_the_engine_is_at_work() {
    for k in 0..7 {
        let mut player = Player::new(Some(k), Some("left"));
        let error = player.play_pair(vjp_inner("f", &[1, 2], &[3])).unwrap_err();
        if k < 3 {
            assert_eq!(error.what(), format!("call {} failed", k));
            assert_eq!(player.left(), Some("left".to_string()));
        } else {
            assert_eq!(error.what(), "left");
            assert_eq!(player.left(), None);
        }
    }
    let mut player = Player::new(None, Some("left"));
    assert!(player.play_pair(vjp_inner("f", &[1, 2], &[3])).is_ok());
    assert_eq!(player.left(), Some("left".to_string()));
}

#[test]
fn value_and_gradient_prefers_the_closures_error_once_the_engine_is_at_work() {
    let arrays = [8];
    for k in 0..4 {
        let mut player = Player::new(Some(k), Some("left"));
        let error = player.play_pair(value_and_gradient("h", references(&arrays))).unwrap_err();
        if k < 1 {
            assert_eq!(error.what(), "call 0 failed");
            assert_eq!(player.left(), Some("left".to_string()));
        } else {
            assert_eq!(error.what(), "left");
            assert_eq!(player.left(), None);
        }
    }
}

#[test]
fn products_hold_their_closure_and_arrays() {
    let (primals, directions) = ([1u32, 2], [3u32]);
    let (mut closure, call) =
        jvp::<Script, _>(|inputs: &[u32]| inputs.to_vec(), &primals, &directions);
    assert_eq!(closure.call(&[9]).unwrap(), vec![9]);
    assert_eq!(call.product, Product::Jvp);
    assert_eq!((call.primals, call.directions), (&primals[..], &directions[..]));

    let (_, call) = vjp::<Script, _>(|inputs: &[u32]| inputs.to_vec(), &primals, &directions);
    assert_eq!(call.product, Product::Vjp);
    assert_eq!((call.primals, call.directions), (&primals[..], &directions[..]));

    let f = |_: &[u32]| -> Result<Vec<u32>, Exception> { Err(exception("no")) };
    let (mut closure, call) = fallible_jvp::<Script, _>(f, &primals, &directions);
    assert_eq!(closure.call(&[]).unwrap_err().what(), "no");
    assert_eq!(call.product, Product::Jvp);
    let mut player = Player::new(None, None);
    player.play_pair(call.start("c")).unwrap();
    assert_eq!(player.log[5], "jvp c [1, 2] [3]");

    let (mut closure, call) = fallible_vjp::<Script, _>(f, &primals, &directions);
    assert_eq!(closure.call(&[]).unwrap_err().what(), "no");
    assert_eq!(call.product, Product::Vjp);
    let mut player = Player::new(None, None);
    player.play_pair(call.start("d")).unwrap();
    assert_eq!(player.log[5], "vjp d [1, 2] [3]");
}

#[test]
fn checkpoint_wraps_packs_applies_and_reads_in_order() {
    let mut player = Player::new(None, None);
    let segment = Checkpoint::<Script>::new("inner");
    assert_eq!(player.play_checkpoint(segment.call(&[1, 2])).unwrap(), vec![31, 32]);
    assert_eq!(
        player.log,
        vec![
            "checkpoint inner",
            "new",
            "append 1",
            "append 2",
            "apply wrapped [1, 2]",
            "size [31, 32]",
            "get 0",
            "get 1",
        ]
    );
}

#[test]
fn checkpoint_prefers_the_closures_error_only_where_it_applies_the_closure() {
    // The wrapping, two appends, the application, and two reads.
    for k in 0..6 {
        let mut player = Player::new(Some(k), Some("left"));
        let segment = Checkpoint::<Script>::new("inner");
        let error = player.play_checkpoint(segment.call(&[1, 2])).unwrap_err();
        assert_eq!(player.calls, k + 1);
        if k == 3 {
            assert_eq!(error.what(), "left");
            assert_eq!(player.left(), None);
        } else {
            assert_eq!(error.what(), format!("call {} failed", k));
            assert_eq!(player.left(), Some("left".to_string()));
        }
    }
    let mut player = Player::new(Some(3), None);
    let segment = Checkpoint::<Script>::new("inner");
    let error = player.play_checkpoint(segment.call(&[1, 2])).unwrap_err();
    assert_eq!(error.what(), "call 3 failed");
}

#[test]
fn checkpoint_keeps_the_function() {
    let mut closure = checkpoint(|inputs: &[u32]| -> Result<Vec<u32>, Exception> {
        Ok(inputs.iter().map(|a| a * 2).collect())
    });
    assert_eq!(closure.call(&[3, 4]).unwrap(), vec![6, 8]);
}

#[test]
fn evaluation_packs_and_runs_in_order() {
    let arrays = [5, 4];
    let mut player = Player::new(None, None);
    player.play_eval(eval(references(&arrays))).unwrap();
    assert_eq!(player.log, vec!["new", "append 5", "append 4", "eval [5, 4]"]);

    let mut player = Player::new(None, None);
    player.play_eval(async_eval(references(&arrays))).unwrap();
    assert_eq!(player.log, vec!["new", "append 5", "append 4", "async_eval [5, 4]"]);
}

#[test]
fn evaluation_fails_with_the_first_call_that_fails() {
    let arrays = [5, 4];
    for k in 0..3 {
        let mut player = Player::new(Some(k), Some("left"));
        let error = player.play_eval(eval(references(&arrays))).unwrap_err();
        assert_eq!(error.what(), format!("call {} failed", k));
        assert_eq!(player.calls, k + 1);
        assert_eq!(player.left(), Some("left".to_string()));
    }
}

#[test]
fn sessions_take_only_what_answers_them() {
    let failed = |error| Event::<Script>::Pair(Reply { status: 1, value: (vec![], vec![]), error });
    let Step::Perform(_, session) = jvp_inner::<Script>("f", &[], &[]) else { panic!() };
    assert!(!session.accepts(&failed(Some(exception("no")))));
    let created = Event::Vector(VectorEvent::Created(vec![]));
    assert!(session.accepts(&created));
    let mut slot = ClosureError::new();
    let Step::Perform(_, session) = session.resume(created, &mut slot) else { panic!() };
    let created = Event::Vector(VectorEvent::Created(vec![]));
    let Step::Perform(request, session) = session.resume(created, &mut slot) else { panic!() };
    assert!(matches!(request, Request::Jvp { closure: "f", .. }));
    assert!(session.accepts(&failed(Some(exception("no")))));
    assert!(!session.accepts(&failed(None)));
    assert!(!session.accepts(&Event::Vector(VectorEvent::Created(vec![]))));

    // While an append is pending, a new vector is no answer, nor the other way round.
    let arrays = [5];
    let appended = || {
        let reply = Reply { status: 0, value: vec![5], error: None };
        Event::<Script>::Vector(VectorEvent::Appended(reply))
    };
    let Step::Perform(_, session) = eval::<Script>(references(&arrays)) else { panic!() };
    assert!(!session.accepts(&appended()));
    let created = Event::Vector(VectorEvent::Created(vec![]));
    let Step::Perform(request, session) = session.resume(created) else { panic!() };
    assert!(matches!(request, Request::Vector(VectorRequest::Append(_, &5))));
    assert!(!session.accepts(&Event::Vector(VectorEvent::Created(vec![]))));
    assert!(session.accepts(&appended()));

    let Step::Perform(_, session) = eval::<Script>(Vec::new()) else { panic!() };
    assert!(!session.accepts(&Event::Evaluated(Reply { status: 0, value: (), error: None })));
    let segment = Checkpoint::<Script>::new("inner");
    let Step::Perform(request, session) = segment.call(&[]) else { panic!() };
    assert!(matches!(request, Request::Checkpoint(&"inner")));
    assert!(!session.accepts(&Event::Vector(VectorEvent::Created(vec![]))));
    assert!(!session.accepts(&Event::Checkpointed(Reply { status: 1, value: "w", error: None })));
}

#[test]
fn status_tells_success() {
    assert_eq!(SUCCESS, 0);
    assert_eq!(FAILURE, 1);
    assert!(is_success(0));
    assert!(!is_success(1));
    assert!(!is_success(-1));
    let reply = Reply { status: 0, value: 5, error: Some(exception("stale")) };
    assert_eq!(try_from_op(reply).unwrap(), 5);
    let reply = Reply { status: 2, value: 5, error: Some(exception("no")) };
    assert_eq!(try_from_op(reply).unwrap_err().what(), "no");
}

#[test]
fn settled_calls_leave_the_last_error() {
    let mut slot = ClosureError::new();
    let returned = settle(Ok(vec![1, 2]), &mut slot);
    assert_eq!((returned.status, returned.outputs), (SUCCESS, Some(vec![1, 2])));
    let returned = settle::<u32>(Err(exception("first")), &mut slot);
    assert_eq!((returned.status, returned.outputs), (FAILURE, None));
    settle::<u32>(Err(exception("second")), &mut slot);
    settle(Ok(vec![3]), &mut slot);
    assert_eq!(report(&mut slot, exception("engine")).what(), "second");
    assert_eq!(report(&mut slot, exception("engine")).what(), "engine");
}

#[test]
fn closures_are_called_with_their_state() {
    let mut sum = 0;
    let mut closure = Closure::new(|inputs: &[u32]| {
        sum += inputs.len() as u32;
        vec![sum]
    });
    assert_eq!(closure.call(&[1, 1]).unwrap(), vec![2]);
    assert_eq!(closure.call(&[1]).unwrap(), vec![3]);
    let mut closure = FallibleClosure::new_fallible(|inputs: &[u32]| match inputs.first() {
        Some(first) => Ok(vec![*first]),
        None => Err(exception("empty")),
    });
    assert_eq!(closure.call(&[8, 9]).unwrap(), vec![8]);
    assert_eq!(closure.call(&[]).unwrap_err().what(), "empty");
}

#[test]
fn values_of_parameters_come_in_order() {
    let (a, b) = (1u32, 2u32);
    let mut params = ModuleParamRef::new();
    params.insert("x".to_string(), NestedValue::Value(&a));
    params.insert("y".to_string(), NestedValue::Value(&a));
    params.insert("x".to_string(), NestedValue::Value(&b));
    let flat = params.flatten();
    assert_eq!(flat, vec![("x".to_string(), &2), ("y".to_string(), &1)]);
    assert_eq!(values(&flat), vec![&2, &1]);
}

#[test]
fn evaluation_is_asked_for_once_and_last() {
    let arrays = [5, 4, 3];
    let mut player = Player::new(None, None);
    player.play_eval(eval(references(&arrays))).unwrap();
    let asked: Vec<usize> = (0..player.log.len())
        .filter(|&i| player.log[i].starts_with("eval"))
        .collect();
    assert_eq!(asked, vec![player.log.len() - 1]);
}

#[test]
fn fallible_products_are_like_infallible_ones() {
    let (primals, directions) = ([1u32, 2], [3u32]);
    let infallible = |inputs: &[u32]| inputs.to_vec();
    let fallible = |inputs: &[u32]| -> Result<Vec<u32>, Exception> { Ok(inputs.to_vec()) };
    for fails_at in [None, Some(1), Some(3), Some(5)] {
        let outcome = |result: Result<(Vec<u32>, Vec<u32>), Exception>| {
            result.map_err(|error| error.what().to_string())
        };
        let mut player = Player::new(fails_at, None);
        let (_, call) = jvp::<Script, _>(infallible, &primals, &directions);
        let first = outcome(player.play_pair(call.start("c")));
        let mut other = Player::new(fails_at, None);
        let (_, call) = fallible_jvp::<Script, _>(fallible, &primals, &directions);
        assert_eq!(outcome(other.play_pair(call.start("c"))), first);
        assert_eq!(other.log, player.log);

        let mut player = Player::new(fails_at, None);
        let (_, call) = vjp::<Script, _>(infallible, &primals, &directions);
        let first = outcome(player.play_pair(call.start("c")));
        let mut other = Player::new(fails_at, None);
        let (_, call) = fallible_vjp::<Script, _>(fallible, &primals, &directions);
        assert_eq!(outcome(other.play_pair(call.start("c"))), first);
        assert_eq!(other.log, player.log);
    }
}

#[test]
fn names_with_the_delimiter_keep_their_parameters_where_paths_differ() {
    let (a, b) = (1u32, 2u32);
    let mut inner = ModuleParamRef::new();
    inner.insert("y.z".to_string(), NestedValue::Value(&b));
    let mut params = ModuleParamRef::new();
    params.insert("x.y".to_string(), NestedValue::Value(&a));
    params.insert("x".to_string(), NestedValue::Nested(inner));
    let flat = params.flatten();
    assert_eq!(flat, vec![("x.y".to_string(), &1), ("x.y.z".to_string(), &2)]);
}
