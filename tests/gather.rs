use gatherr::{gatherr, Gatherr, IterExt};

#[test]
fn ok_gather() {
    let v: Vec<Result<String, String>> = vec![
        Ok("Hello".to_owned()),
        Ok("World".to_owned()),
        Ok("!".to_owned()),
    ];
    let result: Result<Vec<String>, Vec<String>> = v.gatherr();

    assert_eq!(&result.unwrap(), &["Hello", "World", "!"]);
}

#[test]
fn err_gather() {
    let v: Vec<Result<String, String>> = vec![
        Err("Goodbye".to_owned()),
        Err("cruel".to_owned()),
        Err("world".to_owned()),
    ];
    let result: Result<Vec<String>, Vec<String>> = v.gatherr();

    assert_eq!(&result.unwrap_err(), &["Goodbye", "cruel", "world"]);
}

#[test]
fn mixed_gather_initial_ok() {
    let v: Vec<Result<String, String>> = vec![
        Ok("Hello".to_owned()),
        Ok("World".to_owned()),
        Err("Goodbye".to_owned()),
        Ok("!".to_owned()),
        Err("cruel".to_owned()),
        Err("world".to_owned()),
    ];
    let result: Result<Vec<String>, Vec<String>> = v.gatherr();

    assert_eq!(&result.unwrap_err(), &["Goodbye", "cruel", "world"]);
}

#[test]
fn mixed_gather_initial_err() {
    let v: Vec<Result<String, String>> = vec![
        Err("Goodbye".to_owned()),
        Ok("Hello".to_owned()),
        Err("cruel".to_owned()),
        Err("world".to_owned()),
        Ok("World".to_owned()),
        Ok("!".to_owned()),
    ];
    let result: Result<Vec<String>, Vec<String>> = v.gatherr();

    assert_eq!(&result.unwrap_err(), &["Goodbye", "cruel", "world"]);
}

#[test]
fn empty_gather() {
    let v: Vec<Result<String, String>> = Vec::new();
    let result: Result<Vec<String>, Vec<String>> = v.gatherr();
    assert_eq!(result, Ok(Vec::new()));
}

#[test]
fn free_function_keeps_every_error() {
    let v = vec![Ok("a"), Err(1u32), Ok("b"), Err(2u32)];
    let result: Result<Vec<&str>, Vec<u32>> = gatherr(v);
    assert_eq!(result, Err(vec![1, 2]));
}

#[test]
fn wrapper_value_keeps_every_error() {
    let v = vec![Ok("a"), Err(1u32), Ok("b"), Err(2u32)];
    let Gatherr(result) = Gatherr::from_iter(v);
    assert_eq!(result, Err(vec![1, 2]));
}

#[test]
fn entry_points_agree() {
    let input = vec![Ok(5u8), Ok(6u8), Err('x'), Ok(7u8), Err('y')];
    let a = gatherr(input.clone());
    let b = input.clone().gatherr();
    let Gatherr(c) = Gatherr::from_iter(input);
    assert_eq!(a, Err(vec!['x', 'y']));
    assert_eq!(a, b);
    assert_eq!(a, c);
}

#[test]
fn all_successes_keep_length_and_order() {
    let input: Vec<Result<u32, u32>> = vec![Ok(3), Ok(1), Ok(2), Ok(1)];
    let result = gatherr(input);
    assert_eq!(result, Ok(vec![3, 1, 2, 1]));
}

#[test]
fn failures_counted_exactly_with_duplicates() {
    let input: Vec<Result<u32, u32>> = vec![Err(9), Ok(1), Err(9), Err(4), Ok(2)];
    let result = gatherr(input);
    assert_eq!(result, Err(vec![9, 9, 4]));
}

#[test]
fn single_failure_at_the_end_discards_successes() {
    let input: Vec<Result<u32, &str>> = vec![Ok(1), Ok(2), Ok(3), Err("late")];
    let result = gatherr(input);
    assert_eq!(result, Err(vec!["late"]));
}

#[test]
fn single_failure_alone() {
    let input: Vec<Result<(), i64>> = vec![Err(-1)];
    assert_eq!(gatherr(input), Err(vec![-1]));
}

#[test]
fn regathering_failures_gives_them_back() {
    let input: Vec<Result<&str, u32>> = vec![Ok("a"), Err(1), Ok("b"), Err(2), Err(3)];
    let errs = gatherr(input).unwrap_err();
    let rewrapped: Vec<Result<&str, u32>> = errs.iter().map(|e| Err(*e)).collect();
    let again = gatherr(rewrapped);
    assert_eq!(again, Err(errs));
}

#[test]
fn many_outcomes() {
    let input: Vec<Result<usize, usize>> = (0..1000).map(Ok).collect();
    let result = gatherr(input).unwrap();
    assert_eq!(result.len(), 1000);
    assert_eq!(result[999], 999);
}
