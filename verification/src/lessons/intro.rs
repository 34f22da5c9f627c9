//! The lessons of the beginner tier.

use vstd::prelude::*;
use vstd::string::*;
use vstd::slice::*;
use std::collections::HashMap;
use crate::lessons::numbers::{parse_decimal, parsed_i32, sum_of, sums_fit};

verus! {

/// The answer.
pub fn answer() -> (x: i32)
    ensures
        x == 42,
{
    let x: i32 = 42;
    x
}

/// Where adding the numbers from place `i` on ends, with `sum` reached so
/// far: a negative number is passed over, and the first number that would
/// take the sum above `limit` ends the adding.
pub open spec fn limited_sum(xs: Seq<i32>, limit: int, i: int, sum: int) -> int
    decreases xs.len() - i,
{
    if i < 0 || i >= xs.len() {
        sum
    } else if xs[i] < 0 {
        limited_sum(xs, limit, i + 1, sum)
    } else if sum + xs[i] > limit {
        sum
    } else {
        limited_sum(xs, limit, i + 1, sum + xs[i])
    }
}

/// Adds up the numbers that are not negative, in order, and stops before
/// the first that would take the sum above `limit`.
pub fn sum_until(xs: &[i32], limit: i32) -> (sum: i32)
    ensures
        sum == limited_sum(xs@, limit as int, 0, 0),
{
    let mut sum: i32 = 0;
    let mut i: usize = 0;
    while i < xs.len()
        invariant
            i <= xs@.len(),
            0 <= sum,
            sum == 0 || sum <= limit,
            limited_sum(xs@, limit as int, i as int, sum as int) == limited_sum(
                xs@,
                limit as int,
                0,
                0,
            ),
        decreases xs@.len() - i,
    {
        let x = xs[i];
        if x >= 0 {
            if sum as i64 + x as i64 > limit as i64 {
                return sum;
            }
            sum = sum + x;
        }
        i += 1;
    }
    sum
}

/// The sum of the first `n` numbers of the slice, or of all where it
/// holds fewer.
pub fn sum_first(slice: &[i32], n: usize) -> (sum: i32)
    requires
        sums_fit(
            slice@.take(
                if n <= slice@.len() {
                    n as int
                } else {
                    slice@.len() as int
                },
            ),
        ),
    ensures
        sum == sum_of(
            slice@.take(
                if n <= slice@.len() {
                    n as int
                } else {
                    slice@.len() as int
                },
            ),
        ),
{
    let k = if n <= slice.len() {
        n
    } else {
        slice.len()
    };
    let ghost firsts = slice@.take(k as int);
    let mut sum: i32 = 0;
    let mut i: usize = 0;
    proof {
        assert(firsts.take(0) =~= Seq::<i32>::empty());
    }
    while i < k
        invariant
            i <= k <= slice@.len(),
            firsts == slice@.take(k as int),
            sums_fit(firsts),
            sum == sum_of(firsts.take(i as int)),
        decreases k - i,
    {
        proof {
            assert(firsts.take(i + 1).drop_last() =~= firsts.take(i as int));
            assert(firsts.take(i + 1).last() == slice@[i as int]);
            assert(i32::MIN <= sum_of(firsts.take(i + 1)) <= i32::MAX);
        }
        sum = sum + slice[i];
        i += 1;
    }
    proof {
        assert(firsts.take(k as int) =~= firsts);
    }
    sum
}

/// The sum of the squares of the even numbers among the first `n`.
pub open spec fn even_squares_sum(nums: Seq<i32>, n: int) -> int
    decreases n,
{
    if n <= 0 || n > nums.len() {
        0
    } else {
        even_squares_sum(nums, n - 1) + if nums[n - 1] % 2 == 0 {
            nums[n - 1] * nums[n - 1]
        } else {
            0
        }
    }
}

/// The sum grows with every number taken in.
pub proof fn lemma_even_squares_grow(nums: Seq<i32>, i: int, n: int)
    requires
        0 <= i <= n <= nums.len(),
    ensures
        0 <= even_squares_sum(nums, i) <= even_squares_sum(nums, n),
    decreases n,
{
    if i < n {
        lemma_even_squares_grow(nums, i, n - 1);
        assert(nums[n - 1] * nums[n - 1] >= 0) by (nonlinear_arith);
    } else if n > 0 {
        lemma_even_squares_grow(nums, i - 1, n - 1);
        assert(nums[n - 1] * nums[n - 1] >= 0) by (nonlinear_arith);
    }
}

/// The sum of the squares of the even numbers.
pub fn sum_squares_of_evens(nums: &[i32]) -> (sum: i32)
    requires
        even_squares_sum(nums@, nums@.len() as int) <= i32::MAX,
    ensures
        sum == even_squares_sum(nums@, nums@.len() as int),
{
    let mut sum: i32 = 0;
    let mut i: usize = 0;
    while i < nums.len()
        invariant
            i <= nums@.len(),
            sum == even_squares_sum(nums@, i as int),
            even_squares_sum(nums@, nums@.len() as int) <= i32::MAX,
        decreases nums@.len() - i,
    {
        let n = nums[i];
        proof {
            lemma_even_squares_grow(nums@, i as int, i + 1);
            lemma_even_squares_grow(nums@, i + 1, nums@.len() as int);
        }
        if n % 2 == 0 {
            assert(0 <= n * n <= i32::MAX) by {
                assert(n * n >= 0) by (nonlinear_arith);
            }
            sum = sum + n * n;
        }
        i += 1;
    }
    sum
}

/// How often `x` occurs among the numbers.
pub open spec fn occurrences(nums: Seq<i32>, x: i32) -> nat
    decreases nums.len(),
{
    if nums.len() == 0 {
        0
    } else {
        occurrences(nums.drop_last(), x) + if nums.last() == x {
            1nat
        } else {
            0nat
        }
    }
}

/// Whether the number at place `b` is the most frequent one: no number
/// occurs more often, and every number before it occurs less often.
pub open spec fn is_mode_at(nums: Seq<i32>, b: int) -> bool {
    &&& 0 <= b < nums.len()
    &&& forall|k: int| 0 <= k < nums.len() ==> occurrences(nums, nums[k]) <= occurrences(nums, nums[b])
    &&& forall|k: int| 0 <= k < b ==> occurrences(nums, nums[k]) < occurrences(nums, nums[b])
}

/// Counting one number more: the count of that number goes up by one and
/// no other count changes.
proof fn lemma_occurrences_step(nums: Seq<i32>, i: int, x: i32)
    requires
        0 <= i < nums.len(),
    ensures
        occurrences(nums.take(i + 1), x) == occurrences(nums.take(i), x) + if nums[i] == x {
            1nat
        } else {
            0nat
        },
        occurrences(nums.take(i), x) <= i,
    decreases i,
{
    assert(nums.take(i + 1).drop_last() =~= nums.take(i));
    if i > 0 {
        lemma_occurrences_step(nums, i - 1, x);
    }
}

/// Whether the number at place `k` is listed in `order`, with a first
/// appearance that is not later than `k`.
spec fn is_listed(nums: Seq<i32>, order: Seq<i32>, first_at: Seq<int>, k: int) -> bool {
    exists|m: int| 0 <= m < order.len() && order[m] == nums[k] && first_at[m] <= k
}

/// Whether `counts` and `order` are the tally of the first `i` numbers:
/// `order` lists the numbers seen in the order of their first appearance,
/// which `first_at` gives, and `counts` holds for each how often it came.
spec fn is_tally(
    nums: Seq<i32>,
    i: int,
    counts: Map<i32, usize>,
    order: Seq<i32>,
    first_at: Seq<int>,
) -> bool {
    &&& 0 <= i <= nums.len()
    &&& first_at.len() == order.len()
    &&& forall|m: int|
        0 <= m < order.len() ==> 0 <= #[trigger] first_at[m] < i && nums[first_at[m]] == order[m]
    &&& forall|m: int, n: int| 0 <= m < n < order.len() ==> first_at[m] < first_at[n]
    &&& forall|k: int| 0 <= k < i ==> is_listed(nums, order, first_at, k)
    &&& forall|x: i32| #[trigger] counts.contains_key(x) <==> order.contains(x)
    &&& forall|x: i32|
        counts.contains_key(x) ==> #[trigger] counts[x] == occurrences(nums.take(i), x)
    &&& forall|x: i32| !counts.contains_key(x) ==> #[trigger] occurrences(nums.take(i), x) == 0
}

/// The tally after one more number that was seen before.
proof fn lemma_tally_known(
    nums: Seq<i32>,
    i: int,
    counts: Map<i32, usize>,
    order: Seq<i32>,
    first_at: Seq<int>,
)
    requires
        is_tally(nums, i, counts, order, first_at),
        i < nums.len() <= usize::MAX,
        counts.contains_key(nums[i]),
    ensures
        counts[nums[i]] <= i,
        is_tally(
            nums,
            i + 1,
            counts.insert(nums[i], (counts[nums[i]] + 1) as usize),
            order,
            first_at,
        ),
{
    let n = nums[i];
    let after = counts.insert(n, (counts[n] + 1) as usize);
    lemma_occurrences_step(nums, i, n);
    assert forall|x: i32| after.contains_key(x) implies #[trigger] after[x] == occurrences(
        nums.take(i + 1),
        x,
    ) by {
        lemma_occurrences_step(nums, i, x);
    }
    assert forall|x: i32| !after.contains_key(x) implies #[trigger] occurrences(
        nums.take(i + 1),
        x,
    ) == 0 by {
        lemma_occurrences_step(nums, i, x);
    }
    assert forall|k: int| 0 <= k < i + 1 implies is_listed(nums, order, first_at, k) by {
        if k == i {
            assert(order.contains(n));
            let m = choose|m: int| 0 <= m < order.len() && order[m] == n;
            assert(first_at[m] < i);
        } else {
            assert(is_listed(nums, order, first_at, k));
        }
    }
    assert forall|x: i32| #[trigger] after.contains_key(x) <==> order.contains(x) by {
        assert(counts.contains_key(x) <==> order.contains(x));
    }
}

/// The tally after one more number that was not seen before.
proof fn lemma_tally_new(
    nums: Seq<i32>,
    i: int,
    counts: Map<i32, usize>,
    order: Seq<i32>,
    first_at: Seq<int>,
)
    requires
        is_tally(nums, i, counts, order, first_at),
        i < nums.len(),
        !counts.contains_key(nums[i]),
    ensures
        is_tally(nums, i + 1, counts.insert(nums[i], 1), order.push(nums[i]), first_at.push(i)),
{
    let n = nums[i];
    let after = counts.insert(n, 1);
    let listed = order.push(n);
    let places = first_at.push(i);
    assert forall|x: i32| after.contains_key(x) implies #[trigger] after[x] == occurrences(
        nums.take(i + 1),
        x,
    ) by {
        lemma_occurrences_step(nums, i, x);
        if x == n {
            assert(occurrences(nums.take(i), n) == 0);
        }
    }
    assert forall|x: i32| !after.contains_key(x) implies #[trigger] occurrences(
        nums.take(i + 1),
        x,
    ) == 0 by {
        lemma_occurrences_step(nums, i, x);
    }
    assert forall|k: int| 0 <= k < i + 1 implies is_listed(nums, listed, places, k) by {
        if k == i {
            assert(listed[order.len() as int] == n && places[order.len() as int] <= k);
        } else {
            assert(is_listed(nums, order, first_at, k));
            let m = choose|m: int| 0 <= m < order.len() && order[m] == nums[k] && first_at[m] <= k;
            assert(listed[m] == nums[k] && places[m] <= k);
        }
    }
    assert forall|x: i32| #[trigger] after.contains_key(x) <==> listed.contains(x) by {
        assert(counts.contains_key(x) <==> order.contains(x));
        if order.contains(x) {
            let m = choose|m: int| 0 <= m < order.len() && order[m] == x;
            assert(listed[m] == x);
        }
        if x == n {
            assert(listed[order.len() as int] == x);
        }
        if listed.contains(x) && x != n {
            let m = choose|m: int| 0 <= m < listed.len() && listed[m] == x;
            assert(order[m] == x);
        }
    }
    assert forall|m: int| 0 <= m < listed.len() implies 0 <= #[trigger] places[m] < i + 1
        && nums[places[m]] == listed[m] by {
        if m < order.len() {
            assert(places[m] == first_at[m]);
        }
    }
    assert forall|a: int, b: int| 0 <= a < b < listed.len() implies places[a] < places[b] by {
        assert(places[a] == first_at[a]);
        if b < order.len() {
            assert(places[b] == first_at[b]);
        }
    }
}

/// In the tally of all numbers, the listed number that was counted most
/// often, and of several such the one listed first, is the mode.
proof fn lemma_tally_mode(
    nums: Seq<i32>,
    counts: Map<i32, usize>,
    order: Seq<i32>,
    first_at: Seq<int>,
    best: int,
)
    requires
        is_tally(nums, nums.len() as int, counts, order, first_at),
        0 <= best < order.len(),
        forall|m: int|
            0 <= m < order.len() ==> occurrences(nums, #[trigger] order[m]) <= occurrences(
                nums,
                order[best],
            ),
        forall|m: int|
            0 <= m < best ==> occurrences(nums, #[trigger] order[m]) < occurrences(
                nums,
                order[best],
            ),
    ensures
        is_mode_at(nums, first_at[best]),
        nums[first_at[best]] == order[best],
{
    let b = first_at[best];
    assert(nums[b] == order[best]);
    assert forall|j: int| 0 <= j < nums.len() implies occurrences(nums, nums[j]) <= occurrences(
        nums,
        nums[b],
    ) by {
        assert(is_listed(nums, order, first_at, j));
        let m = choose|m: int| 0 <= m < order.len() && order[m] == nums[j] && first_at[m] <= j;
        assert(occurrences(nums, order[m]) <= occurrences(nums, order[best]));
    }
    assert forall|j: int| 0 <= j < b implies occurrences(nums, nums[j]) < occurrences(
        nums,
        nums[b],
    ) by {
        assert(is_listed(nums, order, first_at, j));
        let m = choose|m: int| 0 <= m < order.len() && order[m] == nums[j] && first_at[m] <= j;
        if m > best {
            assert(first_at[best] < first_at[m]);
        }
        assert(occurrences(nums, order[m]) < occurrences(nums, order[best]));
    }
}

/// The number that occurs most often, and of several such the one that
/// appears first; `None` for no numbers.
///
/// The numbers are counted in a map, and the order in which they first
/// appear is kept beside it.
pub fn most_frequent(nums: &[i32]) -> (mode: Option<i32>)
    ensures
        nums@.len() == 0 <==> mode is None,
        mode matches Some(x) ==> exists|b: int| is_mode_at(nums@, b) && nums@[b] == x,
{
    broadcast use vstd::std_specs::hash::group_hash_axioms;

    if nums.len() == 0 {
        return None;
    }
    let mut counts: HashMap<i32, usize> = HashMap::new();
    let mut order: Vec<i32> = Vec::new();
    let ghost mut first_at: Seq<int> = Seq::empty();
    let mut i: usize = 0;
    proof {
        assert(nums@.take(0) =~= Seq::<i32>::empty());
    }
    while i < nums.len()
        invariant
            is_tally(nums@, i as int, counts@, order@, first_at),
        decreases nums@.len() - i,
    {
        let n = nums[i];
        let known = match counts.get(&n) {
            Some(c) => Some(*c),
            None => None,
        };
        match known {
            Some(c) => {
                proof {
                    lemma_tally_known(nums@, i as int, counts@, order@, first_at);
                }
                counts.insert(n, c + 1);
            },
            None => {
                proof {
                    lemma_tally_new(nums@, i as int, counts@, order@, first_at);
                    first_at = first_at.push(i as int);
                }
                order.push(n);
                counts.insert(n, 1);
            },
        }
        i += 1;
    }
    proof {
        assert(nums@.take(i as int) =~= nums@);
        assert(is_listed(nums@, order@, first_at, 0));
    }
    proof {
        assert forall|m: int| 0 <= m < order@.len() implies counts@.contains_key(
            #[trigger] order@[m],
        ) && counts@[order@[m]] == occurrences(nums@, order@[m]) by {
            assert(order@.contains(order@[m]));
        }
    }
    let mut best: usize = 0;
    let mut best_count: usize = count_in(&counts, order[0]);
    let mut k: usize = 1;
    while k < order.len()
        invariant
            1 <= k <= order@.len(),
            best < k,
            is_tally(nums@, nums@.len() as int, counts@, order@, first_at),
            forall|m: int|
                0 <= m < order@.len() ==> counts@.contains_key(#[trigger] order@[m])
                    && counts@[order@[m]] == occurrences(nums@, order@[m]),
            best_count == occurrences(nums@, order@[best as int]),
            forall|m: int| 0 <= m < k ==> occurrences(nums@, #[trigger] order@[m]) <= best_count,
            forall|m: int| 0 <= m < best ==> occurrences(nums@, #[trigger] order@[m]) < best_count,
        decreases order@.len() - k,
    {
        let c = count_in(&counts, order[k]);
        if c > best_count {
            best = k;
            best_count = c;
        }
        k += 1;
    }
    proof {
        lemma_tally_mode(nums@, counts@, order@, first_at, best as int);
    }
    Some(order[best])
}

/// The count that the map holds for `x`, zero where it holds none.
fn count_in(counts: &HashMap<i32, usize>, x: i32) -> (count: usize)
    ensures
        count == if counts@.contains_key(x) {
            counts@[x]
        } else {
            0
        },
{
    broadcast use vstd::std_specs::hash::group_hash_axioms;

    match counts.get(&x) {
        Some(c) => *c,
        None => 0,
    }
}

/// The greeting for `name`.
pub fn greet_name(name: &str) -> (greeting: String)
    ensures
        greeting@ == "Hello, "@ + name@ + "!"@,
{
    let mut greeting = "Hello, ".to_owned();
    greeting.append(name);
    greeting.append("!");
    greeting
}

/// The part of `arr` from `start` up to, not including, `end`; the empty
/// slice where these are no range within `arr`.
pub fn subslice<'a>(arr: &'a [i32], start: usize, end: usize) -> (part: &'a [i32])
    ensures
        part@ == if start <= end && end <= arr@.len() {
            arr@.subrange(start as int, end as int)
        } else {
            Seq::<i32>::empty()
        },
{
    if start <= end && end <= arr.len() {
        slice_subrange(arr, start, end)
    } else {
        let part = slice_subrange(arr, 0, 0);
        assert(part@ =~= Seq::<i32>::empty());
        part
    }
}

/// A message to handle.
pub enum Msg {
    Ping,
    Data(i32),
    Quit,
}

/// The answer to a message: zero for a ping, the value of positive data,
/// and an error that names the reason for other data and for the wish to
/// quit.
pub fn handle(msg: Msg) -> (r: Result<i32, &'static str>)
    ensures
        match msg {
            Msg::Ping => r == Ok::<i32, &'static str>(0),
            Msg::Data(x) => if x > 0 {
                r == Ok::<i32, &'static str>(x)
            } else {
                r matches Err(e) && e@ == "neg"@
            },
            Msg::Quit => r matches Err(e) && e@ == "quit"@,
        },
{
    match msg {
        Msg::Ping => Ok(0),
        Msg::Data(x) => if x > 0 {
            Ok(x)
        } else {
            Err("neg")
        },
        Msg::Quit => Err("quit"),
    }
}

/// Reads an `i32` from text, and hands the text back where it holds none.
pub fn parse_i32(s: &str) -> (r: Result<i32, String>)
    ensures
        match r {
            Ok(value) => parsed_i32(s@) == Some(value),
            Err(text) => parsed_i32(s@) is None && text@ == s@,
        },
{
    match parse_decimal(s) {
        Ok(value) => Ok(value),
        Err(_) => Err(s.to_owned()),
    }
}

/// Someone with a name.
pub struct Person {
    pub name: String,
}

/// What can describe itself in words.
pub trait Describable {
    /// The description.
    fn describe(&self) -> String;
}

impl Describable for Person {
    fn describe(&self) -> (text: String)
        ensures
            text@ == "Person: "@ + self.name@,
    {
        let mut text = "Person: ".to_owned();
        text.append(self.name.as_str());
        text
    }
}

} // verus!
