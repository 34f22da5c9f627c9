//! The lessons of the intermediate tier.

use vstd::prelude::*;
use vstd::string::*;
use vstd::utf8::is_ascii_chars;
use core::num::ParseIntError;
use crate::lessons::numbers::{parse_decimal, parsed_i32, sum_of, sums_fit};

verus! {

/// The values that are present, in order.
pub open spec fn present<T>(items: Seq<Option<T>>) -> Seq<T>
    decreases items.len(),
{
    if items.len() == 0 {
        Seq::empty()
    } else {
        match items.last() {
            Some(value) => present(items.drop_last()).push(value),
            None => present(items.drop_last()),
        }
    }
}

/// The first five of the values, or all where there are fewer.
pub open spec fn first_five<T>(values: Seq<T>) -> Seq<T> {
    if values.len() <= 5 {
        values
    } else {
        values.take(5)
    }
}

/// What is present among the first `i` items stands at the start of what
/// is present among all.
pub proof fn lemma_present_prefix<T>(items: Seq<Option<T>>, i: int)
    requires
        0 <= i <= items.len(),
    ensures
        present(items.take(i)).len() <= present(items).len(),
        present(items).take(present(items.take(i)).len() as int) == present(items.take(i)),
    decreases items.len(),
{
    if i == items.len() {
        assert(items.take(i) =~= items);
        assert(present(items).take(present(items).len() as int) =~= present(items));
    } else {
        lemma_present_prefix(items.drop_last(), i);
        assert(items.drop_last().take(i) =~= items.take(i));
        let shorter = present(items.drop_last());
        let n = present(items.take(i)).len() as int;
        assert(present(items).take(n) =~= shorter.take(n));
    }
}

/// What each text holds as a number.
pub open spec fn numbers_in(nums: Seq<&str>) -> Seq<Option<i32>> {
    Seq::new(nums.len(), |i: int| parsed_i32(nums[i]@))
}

/// The sum of the first five numbers among the texts; texts that hold no
/// number are passed over.
pub fn sum_first_five(nums: &[&str]) -> (sum: i32)
    requires
        sums_fit(first_five(present(numbers_in(nums@)))),
    ensures
        sum == sum_of(first_five(present(numbers_in(nums@)))),
{
    let ghost all = numbers_in(nums@);
    let ghost wanted = first_five(present(all));
    let mut sum: i32 = 0;
    let mut taken: usize = 0;
    let mut i: usize = 0;
    proof {
        assert(all.take(0) =~= Seq::<Option<i32>>::empty());
    }
    while i < nums.len() && taken < 5
        invariant
            i <= nums@.len(),
            taken <= 5,
            all == numbers_in(nums@),
            wanted == first_five(present(all)),
            sums_fit(wanted),
            taken == present(all.take(i as int)).len(),
            sum == sum_of(present(all.take(i as int))),
        decreases nums@.len() - i,
    {
        proof {
            assert(all.take(i + 1).drop_last() =~= all.take(i as int));
            assert(all.take(i + 1).last() == parsed_i32(nums@[i as int]@));
            lemma_present_prefix(all, i + 1);
            let got = present(all.take(i + 1));
            assert(got.len() <= taken + 1);
            assert(wanted.take(got.len() as int) =~= got) by {
                if present(all).len() > 5 {
                    assert(present(all).take(5).take(got.len() as int) =~= present(all).take(
                        got.len() as int,
                    ));
                }
            }
            assert(i32::MIN <= sum_of(wanted.take(got.len() as int)) <= i32::MAX);
            if parsed_i32(nums@[i as int]@) is Some {
                assert(got.drop_last() =~= present(all.take(i as int)));
            }
        }
        match parse_decimal(nums[i]) {
            Ok(value) => {
                sum = sum + value;
                taken += 1;
            },
            Err(_) => {},
        }
        i += 1;
    }
    proof {
        lemma_present_prefix(all, i as int);
        let got = present(all.take(i as int));
        if taken < 5 {
            assert(all.take(i as int) =~= all);
        }
        assert(wanted =~= got);
    }
    sum
}

/// The length of each name that is ASCII only; `None` for the others.
pub open spec fn ascii_lengths(names: Seq<String>) -> Seq<Option<usize>> {
    Seq::new(
        names.len(),
        |i: int|
            if is_ascii_chars(names[i]@) {
                Some(names[i]@.len() as usize)
            } else {
                None
            },
    )
}

/// The lengths of the first five names that are ASCII only, in the order
/// of the names.
pub fn ascii_lengths_first5(names: Vec<String>) -> (lengths: Vec<usize>)
    ensures
        lengths@ == first_five(present(ascii_lengths(names@))),
{
    let ghost all = ascii_lengths(names@);
    let mut lengths: Vec<usize> = Vec::new();
    let mut i: usize = 0;
    proof {
        assert(all.take(0) =~= Seq::<Option<usize>>::empty());
    }
    while i < names.len() && lengths.len() < 5
        invariant
            i <= names@.len(),
            lengths@.len() <= 5,
            all == ascii_lengths(names@),
            lengths@ == present(all.take(i as int)),
        decreases names@.len() - i,
    {
        proof {
            assert(all.take(i + 1).drop_last() =~= all.take(i as int));
        }
        let name = names[i].as_str();
        if name.is_ascii() {
            proof {
                is_ascii_spec_bytes(name);
            }
            lengths.push(name.len());
        }
        i += 1;
    }
    proof {
        lemma_present_prefix(all, i as int);
        if lengths@.len() < 5 {
            assert(all.take(i as int) =~= all);
        }
        assert(lengths@ =~= first_five(present(all)));
    }
    lengths
}

/// The longer of two texts by the length of their UTF-8 encodings, the
/// first of two that are equally long.
pub fn longest<'a>(a: &'a str, b: &'a str) -> (longer: &'a str)
    ensures
        longer@ == if a.spec_bytes().len() >= b.spec_bytes().len() {
            a@
        } else {
            b@
        },
{
    if a.as_bytes().len() >= b.as_bytes().len() {
        a
    } else {
        b
    }
}

/// The numbers from one to `n`.
pub open spec fn one_to(n: int) -> Seq<i32> {
    Seq::new(
        if n > 0 {
            n as nat
        } else {
            0
        },
        |i: int| (i + 1) as i32,
    )
}

/// The numbers from one to `n` pushed by one holder of the list, then
/// again by another.
pub fn shared_push(n: i32) -> (data: Vec<i32>)
    ensures
        data@ == one_to(n as int) + one_to(n as int),
{
    let mut data: Vec<i32> = Vec::new();
    let mut round: usize = 0;
    while round < 2
        invariant
            round <= 2,
            data@ == if round == 0 {
                Seq::<i32>::empty()
            } else if round == 1 {
                one_to(n as int)
            } else {
                one_to(n as int) + one_to(n as int)
            },
        decreases 2 - round,
    {
        let ghost before = data@;
        let mut i: i32 = 0;
        while i < n
            invariant
                0 <= i,
                i <= n || i == 0,
                data@ == before + one_to(i as int),
            decreases n - i,
        {
            i = i + 1;
            data.push(i);
            assert(data@ =~= before + one_to(i as int));
        }
        proof {
            if n <= 0 {
                assert(one_to(n as int) =~= one_to(i as int));
            }
            assert(Seq::<i32>::empty() + one_to(n as int) =~= one_to(n as int));
        }
        round += 1;
    }
    data
}

/// The number of each text, or the error of the first text that holds
/// none.
pub fn parse_all(nums: &[&str]) -> (r: Result<Vec<i32>, ParseIntError>)
    ensures
        match r {
            Ok(values) => {
                &&& values@.len() == nums@.len()
                &&& forall|i: int|
                    0 <= i < nums@.len() ==> parsed_i32(nums@[i]@) == Some(#[trigger] values@[i])
            },
            Err(_) => exists|i: int| 0 <= i < nums@.len() && parsed_i32(nums@[i]@) is None,
        },
{
    let mut values: Vec<i32> = Vec::new();
    let mut i: usize = 0;
    while i < nums.len()
        invariant
            i <= nums@.len(),
            values@.len() == i,
            forall|k: int| 0 <= k < i ==> parsed_i32(nums@[k]@) == Some(#[trigger] values@[k]),
        decreases nums@.len() - i,
    {
        match parse_decimal(nums[i]) {
            Ok(value) => {
                values.push(value);
            },
            Err(e) => {
                assert(parsed_i32(nums@[i as int]@) is None);
                return Err(e);
            },
        }
        i += 1;
    }
    Ok(values)
}

/// What can go wrong with an id.
#[derive(Debug)]
pub enum MyError {
    /// Nothing goes by the id.
    NotFound(String),
    /// The text is no number.
    Parse(ParseIntError),
}

impl MyError {
    /// The error in words.
    pub fn message(&self) -> (text: String)
        ensures
            self matches MyError::NotFound(what) ==> text@ == "not found: "@ + what@,
    {
        match self {
            MyError::NotFound(what) => {
                let mut text = "not found: ".to_owned();
                text.append(what.as_str());
                text
            },
            MyError::Parse(e) => parse_error_text(e),
        }
    }
}

/// The words of a `ParseIntError`, through its `Display`. Nothing is
/// claimed of the text.
#[verifier::external_body]
fn parse_error_text(e: &ParseIntError) -> (text: String) {
    e.to_string()
}

/// Reads an id, a number, from text.
pub fn parse_id(s: &str) -> (r: Result<i32, MyError>)
    ensures
        match r {
            Ok(id) => parsed_i32(s@) == Some(id),
            Err(e) => parsed_i32(s@) is None && e is Parse,
        },
{
    match parse_decimal(s) {
        Ok(id) => Ok(id),
        Err(e) => Err(MyError::Parse(e)),
    }
}

} // verus!
