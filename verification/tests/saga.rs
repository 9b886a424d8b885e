use aud::Adventure;
use aud::Failure;
use aud::Saga;
use std::error::Error;
use std::fmt;

#[derive(Debug)]
pub struct StupidError {
    stupid: bool,
}

impl Error for StupidError {
    fn description(&self) -> &str {
        "stupid error"
    }
}

impl fmt::Display for StupidError {
    fn fmt(&self, f: &mut fmt::Formatter) -> fmt::Result {
        f.write_str(&format!("is stupid: {}", self.stupid))
    }
}

fn inc2(i: i32) -> Result<i32, Failure<i32, Box<dyn Error>>> {
    if i >= 2 {
        Err(Failure {
            error: Box::new(StupidError { stupid: true }),
            acc: i + 1,
        })
    } else {
        Ok(i + 1)
    }
}

fn dec(i: i32) -> i32 {
    i - 1
}

#[test]
fn good_sage() {
    let saga = Saga::new(vec![Adventure::new(inc2, dec), Adventure::new(inc2, dec)]);
    match saga.tell(0) {
        Ok(res) => assert!(res == 2),
        Err(_) => unreachable!(),
    }
}

#[test]
fn bad_sage() {
    let saga = Saga::new(vec![
        Adventure::new(inc2, dec),
        Adventure::new(inc2, dec),
        Adventure::new(inc2, dec),
    ]);
    match saga.tell(0) {
        Ok(_) => unreachable!(),
        Err(Failure { acc: res, .. }) => assert_eq!(res, 0),
    }
}

#[test]
fn empty_saga_returns_initial() {
    type Fwd = fn(i32) -> Result<i32, Failure<i32, String>>;
    type Bwd = fn(i32) -> i32;
    let saga: Saga<i32, String, Fwd, Bwd> = Saga::new(vec![]);
    match saga.tell(41) {
        Ok(res) => assert_eq!(res, 41),
        Err(_) => unreachable!(),
    }
}

fn add_two(i: i32) -> Result<i32, Failure<i32, String>> {
    Ok(i + 2)
}

fn sub_two(i: i32) -> i32 {
    i - 2
}

#[test]
fn success_applies_all_forward_operations() {
    let saga = Saga::new(vec![
        Adventure::new(add_two, sub_two),
        Adventure::new(add_two, sub_two),
        Adventure::new(add_two, sub_two),
        Adventure::new(add_two, sub_two),
    ]);
    match saga.tell(3) {
        Ok(res) => assert_eq!(res, 11),
        Err(_) => unreachable!(),
    }
}

fn fail_plus_ten(i: i32) -> Result<i32, Failure<i32, String>> {
    Err(Failure {
        error: String::from("boom"),
        acc: i + 10,
    })
}

fn minus_ten(i: i32) -> i32 {
    i - 10
}

#[test]
fn single_failing_step_compensates_itself() {
    let saga = Saga::new(vec![Adventure::new(fail_plus_ten, minus_ten)]);
    match saga.tell(5) {
        Ok(_) => unreachable!(),
        Err(Failure { error, acc }) => {
            assert_eq!(error, "boom");
            assert_eq!(acc, 5);
        }
    }
}

fn inc2_code(i: i32) -> Result<i32, Failure<i32, i32>> {
    if i >= 2 {
        Err(Failure {
            error: 42,
            acc: i + 1,
        })
    } else {
        Ok(i + 1)
    }
}

#[test]
fn error_is_returned_verbatim() {
    let saga = Saga::new(vec![
        Adventure::new(inc2_code, dec),
        Adventure::new(inc2_code, dec),
        Adventure::new(inc2_code, dec),
    ]);
    match saga.tell(0) {
        Ok(_) => unreachable!(),
        Err(Failure { error, acc }) => {
            assert_eq!(error, 42);
            assert_eq!(acc, 0);
        }
    }
}

#[test]
fn failure_after_partial_progress_nets_to_zero() {
    let saga = Saga::new(vec![
        Adventure::new(inc2, dec),
        Adventure::new(inc2, dec),
        Adventure::new(inc2, dec),
    ]);
    match saga.tell(1) {
        Ok(_) => unreachable!(),
        Err(Failure { acc, .. }) => assert_eq!(acc, 1),
    }
}

type TraceFwd = fn(i64) -> Result<i64, Failure<i64, String>>;
type TraceBwd = fn(i64) -> i64;

fn keep(i: i64) -> Result<i64, Failure<i64, String>> {
    Ok(i)
}

fn stop(i: i64) -> Result<i64, Failure<i64, String>> {
    Err(Failure {
        error: String::from("stop"),
        acc: i,
    })
}

fn undo0(i: i64) -> i64 {
    i * 10
}

fn undo1(i: i64) -> i64 {
    i * 10 + 1
}

fn undo2(i: i64) -> i64 {
    i * 10 + 2
}

fn undo3(i: i64) -> i64 {
    i * 10 + 3
}

#[test]
fn compensation_visits_exactly_the_reached_steps_in_reverse() {
    // The failing step is at index 2: compensation must apply undo2, then
    // undo1, then undo0, and must never touch undo3. Each backward operation
    // stamps its index into the accumulator, so the digits record the order.
    let saga = Saga::new(vec![
        Adventure::new(keep as TraceFwd, undo0 as TraceBwd),
        Adventure::new(keep as TraceFwd, undo1 as TraceBwd),
        Adventure::new(stop as TraceFwd, undo2 as TraceBwd),
        Adventure::new(keep as TraceFwd, undo3 as TraceBwd),
    ]);
    match saga.tell(0) {
        Ok(_) => unreachable!(),
        Err(Failure { error, acc }) => {
            assert_eq!(error, "stop");
            assert_eq!(acc, 210);
        }
    }
}
