use rust_game::lessons::advanced::{fan_out_in, parallel_count};
use rust_game::lessons::intermediate::{
    ascii_lengths_first5, longest, parse_all, parse_id, shared_push, sum_first_five, MyError,
};
use rust_game::lessons::intro::{
    answer, greet_name, handle, most_frequent, parse_i32, subslice, sum_first,
    sum_squares_of_evens, sum_until, Describable, Msg, Person,
};

#[test]
fn collects_from_workers() {
    let out = fan_out_in(8);
    let mut expect: Vec<usize> = (0..8).collect();
    expect.sort();
    let mut got = out.clone();
    got.sort();
    assert_eq!(got, expect);
}

#[test]
fn fan_out_in_is_already_sorted() {
    assert_eq!(fan_out_in(4), vec![0, 1, 2, 3]);
    assert_eq!(fan_out_in(0), Vec::<usize>::new());
}

#[test]
fn parallel_count_adds_up() {
    assert_eq!(parallel_count(4, 250), 1000);
    assert_eq!(parallel_count(0, 9), 0);
    assert_eq!(parallel_count(1, 2147483647), i32::MAX);
}

#[test]
fn filters_ascii_and_limits_to_5() {
    let v = vec![
        "Ann".to_string(),
        "Bj√∂rk".to_string(), // non-ascii
        "Cal".to_string(),
        "Dee".to_string(),
        "Elle".to_string(),
        "Flo".to_string(),
        "Gia".to_string(),
    ];
    let got = ascii_lengths_first5(v);
    assert_eq!(got, vec![3, 3, 3, 4, 3]);
}

#[test]
fn ascii_lengths_of_few_names() {
    assert_eq!(ascii_lengths_first5(vec![]), Vec::<usize>::new());
    assert_eq!(ascii_lengths_first5(vec!["é".to_string(), "ab".to_string()]), vec![2]);
}

#[test]
fn picks_longer() {
    let a = "alpha";
    let b = "beta123";
    assert_eq!(longest(a, b), b);
}

#[test]
fn equal_len_prefers_first() {
    let a = "abcd";
    let b = "wxyz";
    assert_eq!(longest(a, b), a);
}

#[test]
fn longest_counts_bytes() {
    // two characters of two bytes each against three of one byte
    assert_eq!(longest("éé", "abc"), "éé");
}

#[test]
fn pushes_from_multiple_closures() {
    let v = shared_push(3);
    let mut expect = vec![1, 2, 3, 1, 2, 3];
    expect.sort();
    let mut got = v.clone();
    got.sort();
    assert_eq!(got, expect);
}

#[test]
fn shared_push_keeps_the_order_of_the_pushes() {
    assert_eq!(shared_push(2), vec![1, 2, 1, 2]);
    assert_eq!(shared_push(0), Vec::<i32>::new());
    assert_eq!(shared_push(-4), Vec::<i32>::new());
}

#[test]
fn parses_ok() {
    let out = parse_all(&["1", "2", "10"]).unwrap();
    assert_eq!(out, vec![1, 2, 10]);
}

#[test]
fn fails_on_bad() {
    let err = parse_all(&["1", "x", "3"]).unwrap_err();
    let _ = err; // just ensure it's an error
}

#[test]
fn parse_id_reads_numbers_only() {
    assert_eq!(parse_id("17").unwrap(), 17);
    assert_eq!(parse_id("-3").unwrap(), -3);
    assert!(matches!(parse_id("seventeen"), Err(MyError::Parse(_))));
    assert!(matches!(parse_id(""), Err(MyError::Parse(_))));
}

#[test]
fn my_error_in_words() {
    assert_eq!(MyError::NotFound("x1".to_string()).message(), "not found: x1");
    let parse = parse_id("4x").unwrap_err();
    assert_eq!(parse.message(), "invalid digit found in string");
}

#[test]
fn sum_first_five_skips_what_is_no_number() {
    assert_eq!(sum_first_five(&["1", "a", "2", "3", "", "4", "5", "6"]), 15);
    assert_eq!(sum_first_five(&["x", "7"]), 7);
    assert_eq!(sum_first_five(&[]), 0);
}

#[test]
fn sums_with_break_and_continue() {
    let xs = [1, -5, 3, 4, 10];
    // 1 + 3 + 4 = 8; next 10 would exceed 9 so stop
    assert_eq!(sum_until(&xs, 9), 8);
}

#[test]
fn sum_until_near_the_largest_number() {
    assert_eq!(sum_until(&[i32::MAX, 1], i32::MAX), i32::MAX);
    assert_eq!(sum_until(&[5, 6], -1), 0);
    assert_eq!(sum_until(&[2, 50, 3], 10), 2);
}

#[test]
fn sum_first_takes_what_is_there() {
    assert_eq!(sum_first(&[1, 2, 3, 4], 2), 3);
    assert_eq!(sum_first(&[1, 2, 3, 4], 9), 10);
    assert_eq!(sum_first(&[], 3), 0);
    assert_eq!(sum_first(&[5, -7], 2), -2);
}

#[test]
fn sum_squares_of_evens_passes_over_odd_numbers() {
    assert_eq!(sum_squares_of_evens(&[1, 2, 3, 4]), 20);
    assert_eq!(sum_squares_of_evens(&[-2, -3]), 4);
    assert_eq!(sum_squares_of_evens(&[]), 0);
}

#[test]
fn finds_mode() {
    let v = [3, 1, 2, 3, 2, 3, 2, 2];
    assert_eq!(most_frequent(&v), Some(2));
}

#[test]
fn empty_none() {
    let v: [i32; 0] = [];
    assert_eq!(most_frequent(&v), None);
}

#[test]
fn tie_returns_first_seen() {
    // 1 and 2 both appear 2 times; 1 appears first
    let v = [1, 2, 1, 2];
    assert_eq!(most_frequent(&v), Some(1));
}

#[test]
fn greet_does_not_move() {
    // The intended solution changes the signature to &str
    // This test checks behavior, not signature type directly.
    let name = String::from("Ferris");
    let out = greet_name(name.as_str());
    assert_eq!(out, "Hello, Ferris!");
    // name is still usable here because we only borrowed
    assert_eq!(name, "Ferris");
}

#[test]
fn returns_subslice() {
    let v = [10, 20, 30, 40, 50];
    assert_eq!(subslice(&v, 1, 4), &[20, 30, 40]);
}

#[test]
fn out_of_bounds_empty() {
    let v = [1, 2, 3];
    assert_eq!(subslice(&v, 2, 5), &[]);
}

#[test]
fn subslice_with_ends_crossed() {
    let v = [1, 2, 3];
    assert_eq!(subslice(&v, 2, 1), &[]);
    assert_eq!(subslice(&v, 3, 3), &[]);
    assert_eq!(subslice(&v, 0, 3), &[1, 2, 3]);
}

#[test]
fn handles_variants() {
    assert_eq!(handle(Msg::Ping).unwrap(), 0);
    assert_eq!(handle(Msg::Data(3)).unwrap(), 3);
    assert!(handle(Msg::Data(-1)).is_err());
    assert!(handle(Msg::Quit).is_err());
}

#[test]
fn handle_names_its_errors() {
    assert_eq!(handle(Msg::Data(0)), Err("neg"));
    assert_eq!(handle(Msg::Data(-1)), Err("neg"));
    assert_eq!(handle(Msg::Quit), Err("quit"));
}

#[test]
fn parse_ok_and_err() {
    assert_eq!(parse_i32("42"), Ok(42));
    assert_eq!(parse_i32("nope"), Err("nope".to_string()));
}

#[test]
fn parse_i32_follows_the_grammar() {
    assert_eq!(parse_i32("+7"), Ok(7));
    assert_eq!(parse_i32("-0"), Ok(0));
    assert_eq!(parse_i32("007"), Ok(7));
    assert_eq!(parse_i32("-2147483648"), Ok(i32::MIN));
    assert_eq!(parse_i32("2147483647"), Ok(i32::MAX));
    assert_eq!(parse_i32("2147483648"), Err("2147483648".to_string()));
    assert_eq!(parse_i32("-2147483649"), Err("-2147483649".to_string()));
    assert_eq!(parse_i32(""), Err(String::new()));
    assert_eq!(parse_i32("+"), Err("+".to_string()));
    assert_eq!(parse_i32("-"), Err("-".to_string()));
    assert_eq!(parse_i32(" 1"), Err(" 1".to_string()));
    assert_eq!(parse_i32("1_0"), Err("1_0".to_string()));
    assert_eq!(parse_i32("--1"), Err("--1".to_string()));
    assert_eq!(parse_i32("１"), Err("１".to_string()));
}

#[test]
fn person_describe() {
    let p = Person { name: "Ferris".into() };
    let got = p.describe();
    assert_eq!(got, "Person: Ferris");
}

#[test]
fn answer_is_forty_two() {
    assert_eq!(answer(), 42);
}
