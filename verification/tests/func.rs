use std::cell::Cell;
use std::marker::PhantomData;

use sidemount::func::{Func, Function};

fn inc(x: u32) -> u32 {
    x + 1
}

fn double(x: u32) -> u32 {
    x * 2
}

fn show(x: u32) -> String {
    format!("<{}>", x)
}

fn parse(s: &str) -> Result<u32, String> {
    s.parse::<u32>().map_err(|_| format!("not a number: {}", s))
}

fn half(x: u32) -> Result<u32, String> {
    if x % 2 == 0 {
        Ok(x / 2)
    } else {
        Err(format!("odd: {}", x))
    }
}

fn first(s: &str) -> Option<char> {
    s.chars().next()
}

fn unwrap_one(t: (u32,)) -> u32 {
    t.0 + 100
}

#[test]
fn pair_calls_first_then_second() {
    let f = (inc as fn(u32) -> u32, double as fn(u32) -> u32);
    assert_eq!(Func::<u32, (u32,)>::call(&f, 3), 8);
    let g = (double as fn(u32) -> u32, inc as fn(u32) -> u32);
    assert_eq!(Func::<u32, (u32,)>::call(&g, 3), 7);
}

#[test]
fn pair_of_function_and_pair_chains_three() {
    let f = (inc as fn(u32) -> u32, (double as fn(u32) -> u32, show as fn(u32) -> String));
    assert_eq!(Func::<u32, ((), (), (u32,))>::call(&f, 3), "<8>");
}

#[test]
fn pair_hands_a_tuple_of_one_to_a_composed_step() {
    let f = (inc as fn(u32) -> u32, (unwrap_one as fn((u32,)) -> u32, show as fn(u32) -> String));
    assert_eq!(Func::<u32, ((), (u32,), (u32,))>::call(&f, 3), "<104>");
}

#[test]
fn result_pair_runs_second_on_success_only() {
    let calls = Cell::new(0u32);
    let second = |x: u32| {
        calls.set(calls.get() + 1);
        half(x)
    };
    let f = (parse as fn(&str) -> Result<u32, String>, second);
    assert_eq!(Func::<&str, (Result<u32, String>, ((),), u32)>::call(&f, "10"), Ok(5));
    assert_eq!(calls.get(), 1);
    assert_eq!(
        Func::<&str, (Result<u32, String>, ((),), u32)>::call(&f, "7"),
        Err("odd: 7".to_string())
    );
    assert_eq!(calls.get(), 2);
    assert_eq!(
        Func::<&str, (Result<u32, String>, ((),), u32)>::call(&f, "x"),
        Err("not a number: x".to_string())
    );
    assert_eq!(calls.get(), 2);
}

#[test]
fn result_pair_with_a_composed_step() {
    let tail = (half as fn(u32) -> Result<u32, String>, half as fn(u32) -> Result<u32, String>);
    let f = (parse as fn(&str) -> Result<u32, String>, tail);
    type Inner = (Result<u32, String>, ((),), u32);
    assert_eq!(Func::<&str, (Result<u32, String>, (), Inner, u32)>::call(&f, "12"), Ok(3));
    assert_eq!(
        Func::<&str, (Result<u32, String>, (), Inner, u32)>::call(&f, "6"),
        Err("odd: 3".to_string())
    );
    assert_eq!(
        Func::<&str, (Result<u32, String>, (), Inner, u32)>::call(&f, "?"),
        Err("not a number: ?".to_string())
    );
}

#[test]
fn option_pair_runs_second_on_some_only() {
    let calls = Cell::new(0u32);
    let second = |c: char| {
        calls.set(calls.get() + 1);
        c.to_ascii_uppercase()
    };
    let f = (first as fn(&str) -> Option<char>, second);
    assert_eq!(Func::<&str, (Option<char>, ((),))>::call(&f, "abc"), Some('A'));
    assert_eq!(calls.get(), 1);
    assert_eq!(Func::<&str, (Option<char>, ((),))>::call(&f, ""), None);
    assert_eq!(calls.get(), 1);
}

#[test]
fn option_pair_with_a_composed_step() {
    let upper = |c: char| c.to_ascii_uppercase();
    let code = |c: char| c as u32;
    let f = (first as fn(&str) -> Option<char>, (upper, code));
    assert_eq!(Func::<&str, (Option<char>, (), (char,))>::call(&f, "abc"), Some(65));
    assert_eq!(Func::<&str, (Option<char>, (), (char,))>::call(&f, ""), None);
}

#[test]
fn function_fixes_the_way_of_composing() {
    let mut f: Function<_, (u32,)> =
        Function((inc as fn(u32) -> u32, double as fn(u32) -> u32), PhantomData);
    assert_eq!(f.call(1), 4);
    assert_eq!(f.call_mut(2), 6);
    assert_eq!(f.call_once(3), 8);
}
