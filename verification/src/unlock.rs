//! The order of the exercises of a tier, and which exercise is open to the
//! learner.
//!
//! Within a tier the exercises are ordered by rank, then by id. The rank of
//! an exercise is the place of its short name (the last segment of its id)
//! in the tier's list of names; a name that is not listed ranks behind all
//! that are. An exercise is unlocked if no exercise of its tier comes
//! before it, or if the one directly before it is completed.

use vstd::prelude::*;
use vstd::string::*;
use crate::exercise::{models, Exercise, ExerciseModel};
use crate::persistence::{Progress, ProgressModel};
use crate::text::{
    last_segment, last_segment_of, lemma_lex_lt_asymmetric, lemma_lex_lt_connected,
    lemma_lex_lt_irreflexive, lemma_lex_lt_transitive, lex_lt, str_eq, str_lt,
};

verus! {

/// The rank of a short name that no list holds.
pub const UNRANKED: u32 = 999;

/// The short names of the exercises of each tier, in the order in which
/// they are meant to be taken.
#[derive(Debug, Clone)]
pub struct CatalogOrder {
    pub beginner: Vec<String>,
    pub intermediate: Vec<String>,
    pub advanced: Vec<String>,
}

/// The mathematical content of a [`CatalogOrder`].
pub struct CatalogOrderModel {
    pub beginner: Seq<Seq<char>>,
    pub intermediate: Seq<Seq<char>>,
    pub advanced: Seq<Seq<char>>,
}

impl View for CatalogOrder {
    type V = CatalogOrderModel;

    open spec fn view(&self) -> CatalogOrderModel {
        CatalogOrderModel {
            beginner: self.beginner.deep_view(),
            intermediate: self.intermediate.deep_view(),
            advanced: self.advanced.deep_view(),
        }
    }
}

/// The names of the beginner tier.
pub open spec fn beginner_names() -> Seq<Seq<char>> {
    seq![
        "variables"@,
        "control_flow_loops"@,
        "arrays_slices_basics"@,
        "functions"@,
        "ownership"@,
        "strings_utf8"@,
        "pattern_matching_ergonomics"@,
        "match_enums"@,
        "hashmap"@,
        "iterators"@,
        "result_error"@,
        "traits"@,
    ]
}

/// The names of the intermediate tier.
pub open spec fn intermediate_names() -> Seq<Seq<char>> {
    seq![
        "lifetimes_longest"@,
        "generics_asref_maxlen"@,
        "result_map_errors"@,
        "iterators_combinators"@,
        "iterators_ownership"@,
        "rc_refcell"@,
        "thiserror"@,
    ]
}

/// The names of the advanced tier.
pub open spec fn advanced_names() -> Seq<Seq<char>> {
    seq![
        "arc_mutex_counter"@,
        "arc_rwlock_counter"@,
        "channels_mpsc"@,
        "tokio_mpsc"@,
        "tokio_timeout_race"@,
        "traits_dyn_dispatch"@,
    ]
}

/// The list that ranks the exercises of a tier: the advanced list serves
/// every tier that is neither `beginner` nor `intermediate`.
pub open spec fn names_for(order: CatalogOrderModel, difficulty: Seq<char>) -> Seq<Seq<char>> {
    if difficulty == "beginner"@ {
        order.beginner
    } else if difficulty == "intermediate"@ {
        order.intermediate
    } else {
        order.advanced
    }
}

/// The first place of `name` in `names`, or the length of `names` where it
/// does not occur.
pub open spec fn first_index(names: Seq<Seq<char>>, name: Seq<char>) -> int
    decreases names.len(),
{
    if names.len() == 0 {
        0
    } else if names[0] == name {
        0
    } else {
        1 + first_index(names.drop_first(), name)
    }
}

/// The rank of the short name `slug` in the tier `difficulty`.
pub open spec fn rank_of(order: CatalogOrderModel, difficulty: Seq<char>, slug: Seq<char>) -> u32 {
    let names = names_for(order, difficulty);
    if first_index(names, slug) < names.len() {
        first_index(names, slug) as u32
    } else {
        UNRANKED
    }
}

/// The rank of an exercise: that of the last segment of its id in its tier.
pub open spec fn exercise_rank(order: CatalogOrderModel, e: ExerciseModel) -> u32 {
    rank_of(order, e.meta.difficulty, last_segment(e.meta.id, '/'))
}

/// Whether `a` comes before `b` in the order of a tier: by rank, and by id
/// between equal ranks.
pub open spec fn comes_before(order: CatalogOrderModel, a: ExerciseModel, b: ExerciseModel) -> bool {
    exercise_rank(order, a) < exercise_rank(order, b) || (exercise_rank(order, a)
        == exercise_rank(order, b) && lex_lt(a.meta.id, b.meta.id))
}

/// Whether the catalog entry at `j` belongs to the tier of the one at `t`
/// and comes before it.
pub open spec fn is_earlier(order: CatalogOrderModel, all: Seq<ExerciseModel>, j: int, t: int) -> bool {
    &&& 0 <= j < all.len()
    &&& all[j].meta.difficulty == all[t].meta.difficulty
    &&& comes_before(order, all[j], all[t])
}

/// Whether the entry at `j` is the last of those that come before the entry
/// at `t` in its tier.
pub open spec fn is_predecessor(order: CatalogOrderModel, all: Seq<ExerciseModel>, j: int, t: int) -> bool {
    &&& is_earlier(order, all, j, t)
    &&& forall|k: int| is_earlier(order, all, k, t) ==> !comes_before(order, all[j], #[trigger] all[k])
}

/// Whether `t` is the first place in the catalog that holds the id.
pub open spec fn is_first_with_id(all: Seq<ExerciseModel>, id: Seq<char>, t: int) -> bool {
    &&& 0 <= t < all.len()
    &&& all[t].meta.id == id
    &&& forall|i: int| 0 <= i < t ==> all[i].meta.id != id
}

/// Whether the catalog entry at `t` is open under the tier order: nothing
/// of its tier comes before it, or its predecessor is completed.
pub open spec fn open_at(
    order: CatalogOrderModel,
    all: Seq<ExerciseModel>,
    progress: ProgressModel,
    t: int,
) -> bool {
    ||| forall|j: int| !is_earlier(order, all, j, t)
    ||| exists|j: int| is_predecessor(order, all, j, t) && progress.is_completed(all[j].meta.id)
}

impl CatalogOrder {
    /// Every list is short enough for its places to rank before a name
    /// that is not listed.
    pub open spec fn wf(&self) -> bool {
        &&& self.beginner@.len() <= UNRANKED
        &&& self.intermediate@.len() <= UNRANKED
        &&& self.advanced@.len() <= UNRANKED
    }

    /// The order in which the lessons are meant to be taken.
    pub fn standard() -> (order: CatalogOrder)
        ensures
            order.wf(),
            order@.beginner == beginner_names(),
            order@.intermediate == intermediate_names(),
            order@.advanced == advanced_names(),
    {
        let mut beginner: Vec<String> = Vec::new();
        beginner.push("variables".to_owned());
        beginner.push("control_flow_loops".to_owned());
        beginner.push("arrays_slices_basics".to_owned());
        beginner.push("functions".to_owned());
        beginner.push("ownership".to_owned());
        beginner.push("strings_utf8".to_owned());
        beginner.push("pattern_matching_ergonomics".to_owned());
        beginner.push("match_enums".to_owned());
        beginner.push("hashmap".to_owned());
        beginner.push("iterators".to_owned());
        beginner.push("result_error".to_owned());
        beginner.push("traits".to_owned());
        assert(beginner.deep_view() =~= beginner_names());
        let mut intermediate: Vec<String> = Vec::new();
        intermediate.push("lifetimes_longest".to_owned());
        intermediate.push("generics_asref_maxlen".to_owned());
        intermediate.push("result_map_errors".to_owned());
        intermediate.push("iterators_combinators".to_owned());
        intermediate.push("iterators_ownership".to_owned());
        intermediate.push("rc_refcell".to_owned());
        intermediate.push("thiserror".to_owned());
        assert(intermediate.deep_view() =~= intermediate_names());
        let mut advanced: Vec<String> = Vec::new();
        advanced.push("arc_mutex_counter".to_owned());
        advanced.push("arc_rwlock_counter".to_owned());
        advanced.push("channels_mpsc".to_owned());
        advanced.push("tokio_mpsc".to_owned());
        advanced.push("tokio_timeout_race".to_owned());
        advanced.push("traits_dyn_dispatch".to_owned());
        assert(advanced.deep_view() =~= advanced_names());
        CatalogOrder { beginner, intermediate, advanced }
    }

    /// The rank of the short name `slug` in the tier `difficulty`.
    pub fn rank(&self, difficulty: &str, slug: &str) -> (rank: u32)
        requires
            self.wf(),
        ensures
            rank == rank_of(self@, difficulty@, slug@),
    {
        let names = if str_eq(difficulty, "beginner") {
            &self.beginner
        } else if str_eq(difficulty, "intermediate") {
            &self.intermediate
        } else {
            &self.advanced
        };
        let ghost listed = names.deep_view();
        let mut i: usize = 0;
        proof {
            assert(listed.skip(0) =~= listed);
        }
        while i < names.len()
            invariant
                i <= names@.len(),
                names@.len() <= UNRANKED,
                listed == names.deep_view(),
                listed == names_for(self@, difficulty@),
                first_index(listed, slug@) == i + first_index(listed.skip(i as int), slug@),
            decreases names@.len() - i,
        {
            proof {
                assert(listed.skip(i as int).drop_first() =~= listed.skip(i as int + 1));
                assert(listed.skip(i as int)[0] == names@[i as int]@);
            }
            if str_eq(names[i].as_str(), slug) {
                return i as u32;
            }
            i += 1;
        }
        UNRANKED
    }

    /// The rank of an exercise in its tier.
    pub fn rank_of_exercise(&self, ex: &Exercise) -> (rank: u32)
        requires
            self.wf(),
        ensures
            rank == exercise_rank(self@, ex@),
    {
        let slug = last_segment_of(ex.meta.id.as_str(), '/');
        self.rank(ex.meta.difficulty.as_str(), slug.as_str())
    }

    /// Whether `a` comes before `b` in the order of a tier.
    pub fn precedes(&self, a: &Exercise, b: &Exercise) -> (before: bool)
        requires
            self.wf(),
        ensures
            before == comes_before(self@, a@, b@),
    {
        let ra = self.rank_of_exercise(a);
        let rb = self.rank_of_exercise(b);
        if ra != rb {
            ra < rb
        } else {
            str_lt(a.meta.id.as_str(), b.meta.id.as_str())
        }
    }
}

/// The order of a tier is strict: nothing comes before itself, and of two
/// entries at most one comes before the other.
pub proof fn lemma_order_strict(order: CatalogOrderModel, a: ExerciseModel, b: ExerciseModel)
    ensures
        !comes_before(order, a, a),
        comes_before(order, a, b) ==> !comes_before(order, b, a),
{
    lemma_lex_lt_irreflexive(a.meta.id);
    if lex_lt(a.meta.id, b.meta.id) {
        lemma_lex_lt_asymmetric(a.meta.id, b.meta.id);
    }
}

/// The order of a tier is transitive.
pub proof fn lemma_order_transitive(
    order: CatalogOrderModel,
    a: ExerciseModel,
    b: ExerciseModel,
    c: ExerciseModel,
)
    requires
        comes_before(order, a, b),
        comes_before(order, b, c),
    ensures
        comes_before(order, a, c),
{
    if lex_lt(a.meta.id, b.meta.id) && lex_lt(b.meta.id, c.meta.id) {
        lemma_lex_lt_transitive(a.meta.id, b.meta.id, c.meta.id);
    }
}

/// Two entries of which neither comes before the other have the same id.
pub proof fn lemma_order_connected(order: CatalogOrderModel, a: ExerciseModel, b: ExerciseModel)
    requires
        !comes_before(order, a, b),
        !comes_before(order, b, a),
    ensures
        a.meta.id == b.meta.id,
{
    lemma_lex_lt_connected(a.meta.id, b.meta.id);
}

/// All predecessors of an entry carry one id.
pub proof fn lemma_predecessor_unique(
    order: CatalogOrderModel,
    all: Seq<ExerciseModel>,
    j: int,
    k: int,
    t: int,
)
    requires
        is_predecessor(order, all, j, t),
        is_predecessor(order, all, k, t),
    ensures
        all[j].meta.id == all[k].meta.id,
{
    assert(!comes_before(order, all[j], all[k]));
    assert(!comes_before(order, all[k], all[j]));
    lemma_order_connected(order, all[j], all[k]);
}

/// Decides which exercises are open to the learner.
#[derive(Debug, Clone)]
pub struct Resolver {
    /// The order of the exercises within each tier.
    pub order: CatalogOrder,
    /// Opens every exercise, whatever the progress.
    pub force: bool,
}

impl Resolver {
    /// The order of the tiers is usable.
    pub open spec fn wf(&self) -> bool {
        self.order.wf()
    }

    /// A resolver over the standard order.
    pub fn new(force: bool) -> (resolver: Resolver)
        ensures
            resolver.wf(),
            resolver.force == force,
            resolver.order@.beginner == beginner_names(),
            resolver.order@.intermediate == intermediate_names(),
            resolver.order@.advanced == advanced_names(),
    {
        Resolver { order: CatalogOrder::standard(), force }
    }

    /// Whether the exercise `id` is open: the override is set, or the
    /// catalog holds the id and the entry that holds it first is open
    /// under the tier order.
    pub open spec fn unlocks(
        &self,
        all: Seq<ExerciseModel>,
        progress: ProgressModel,
        id: Seq<char>,
    ) -> bool {
        self.force || exists|t: int|
            is_first_with_id(all, id, t) && open_at(self.order@, all, progress, t)
    }

    /// Whether the learner may start the exercise `id`.
    ///
    /// With the override set every id is open. Else an id that the catalog
    /// does not hold is closed, and one that it holds is open exactly if
    /// nothing of its tier comes before it or its predecessor in the tier
    /// is completed. A predecessor without a progress record is not
    /// completed.
    pub fn is_unlocked(&self, all: &Vec<Exercise>, progress: &Progress, id: &str) -> (open: bool)
        requires
            self.wf(),
            progress.wf(),
        ensures
            open == self.unlocks(models(all@), progress@, id@),
            self.force ==> open,
            !self.force && (forall|i: int| 0 <= i < all@.len() ==> all@[i].meta.id@ != id@)
                ==> !open,
            forall|t: int|
                !self.force && is_first_with_id(models(all@), id@, t) ==> (open <==> open_at(
                    self.order@,
                    models(all@),
                    progress@,
                    t,
                )),
    {
        if self.force {
            return true;
        }
        let found = find_by_id(all, id);
        let t = match found {
            Some(t) => t,
            None => {
                assert forall|t: int| !is_first_with_id(models(all@), id@, t) by {
                    if is_first_with_id(models(all@), id@, t) {
                        assert(all@[t].meta.id@ == id@);
                    }
                }
                return false;
            },
        };
        let ghost catalog = models(all@);
        assert forall|u: int| is_first_with_id(catalog, id@, u) implies u == t by {
            if is_first_with_id(catalog, id@, u) && u != t {
                if u < t {
                    assert(catalog[u].meta.id != id@);
                } else {
                    assert(catalog[t as int].meta.id != id@);
                }
            }
        }
        let ghost order = self.order@;
        let mut best: Option<usize> = None;
        let mut j: usize = 0;
        while j < all.len()
            invariant
                j <= all@.len(),
                t < all@.len(),
                self.wf(),
                catalog == models(all@),
                order == self.order@,
                match best {
                    Some(b) => {
                        &&& b < j
                        &&& is_earlier(order, catalog, b as int, t as int)
                        &&& forall|k: int|
                            0 <= k < j && is_earlier(order, catalog, k, t as int)
                                ==> !comes_before(order, catalog[b as int], #[trigger] catalog[k])
                    },
                    None => forall|k: int| 0 <= k < j ==> !is_earlier(order, catalog, k, t as int),
                },
            decreases all@.len() - j,
        {
            if str_eq(all[j].meta.difficulty.as_str(), all[t].meta.difficulty.as_str())
                && self.order.precedes(&all[j], &all[t]) {
                assert(is_earlier(order, catalog, j as int, t as int));
                match best {
                    Some(b) => {
                        if self.order.precedes(&all[b], &all[j]) {
                            proof {
                                assert forall|k: int|
                                    0 <= k < j + 1 && is_earlier(
                                        order,
                                        catalog,
                                        k,
                                        t as int,
                                    ) implies !comes_before(
                                    order,
                                    catalog[j as int],
                                    #[trigger] catalog[k],
                                ) by {
                                    lemma_order_strict(order, catalog[j as int], catalog[k]);
                                    if k < j && comes_before(order, catalog[j as int], catalog[k]) {
                                        lemma_order_transitive(
                                            order,
                                            catalog[b as int],
                                            catalog[j as int],
                                            catalog[k],
                                        );
                                    }
                                }
                            }
                            best = Some(j);
                        }
                    },
                    None => {
                        proof {
                            lemma_order_strict(order, catalog[j as int], catalog[j as int]);
                        }
                        best = Some(j);
                    },
                }
            }
            j += 1;
        }
        match best {
            None => true,
            Some(b) => {
                let done = progress.is_completed(all[b].meta.id.as_str());
                proof {
                    assert(is_predecessor(order, catalog, b as int, t as int));
                    assert forall|k: int| is_predecessor(order, catalog, k, t as int) implies catalog[k].meta.id
                        == catalog[b as int].meta.id by {
                        lemma_predecessor_unique(order, catalog, k, b as int, t as int);
                    }
                }
                done
            },
        }
    }
}

impl Resolver {
    /// The place of the first exercise behind the one of the id `current`,
    /// in the order of the catalog, that is open. There is none where the
    /// catalog does not hold `current` or nothing behind it is open.
    pub fn next_unlocked(&self, all: &Vec<Exercise>, progress: &Progress, current: &str) -> (next:
        Option<usize>)
        requires
            self.wf(),
            progress.wf(),
        ensures
            match next {
                Some(n) => exists|t: int|
                    {
                        &&& is_first_with_id(models(all@), current@, t)
                        &&& t < n < all@.len()
                        &&& self.unlocks(models(all@), progress@, all@[n as int].meta.id@)
                        &&& forall|m: int|
                            t < m < n ==> !self.unlocks(
                                models(all@),
                                progress@,
                                #[trigger] all@[m].meta.id@,
                            )
                    },
                None => forall|t: int|
                    is_first_with_id(models(all@), current@, t) ==> forall|m: int|
                        t < m < all@.len() ==> !self.unlocks(
                            models(all@),
                            progress@,
                            #[trigger] all@[m].meta.id@,
                        ),
            },
    {
        let t = match find_by_id(all, current) {
            Some(t) => t,
            None => {
                assert forall|t: int| !is_first_with_id(models(all@), current@, t) by {
                    if is_first_with_id(models(all@), current@, t) {
                        assert(all@[t].meta.id@ == current@);
                    }
                }
                return None;
            },
        };
        assert forall|u: int| is_first_with_id(models(all@), current@, u) implies u == t by {
            if is_first_with_id(models(all@), current@, u) && u != t {
                if u < t {
                    assert(models(all@)[u].meta.id != current@);
                } else {
                    assert(models(all@)[t as int].meta.id != current@);
                }
            }
        }
        let n = all.len();
        assert(t < n);
        let mut j: usize = t + 1;
        while j < n
            invariant
                t < j <= n,
                n == all@.len(),
                self.wf(),
                progress.wf(),
                is_first_with_id(models(all@), current@, t as int),
                forall|m: int|
                    t < m < j ==> !self.unlocks(
                        models(all@),
                        progress@,
                        #[trigger] all@[m].meta.id@,
                    ),
            decreases n - j,
        {
            if self.is_unlocked(all, progress, all[j].meta.id.as_str()) {
                return Some(j);
            }
            j += 1;
        }
        None
    }
}

/// The first place in the catalog that holds `id`, if there is one.
pub fn find_by_id(all: &Vec<Exercise>, id: &str) -> (found: Option<usize>)
    ensures
        match found {
            Some(t) => is_first_with_id(models(all@), id@, t as int),
            None => forall|i: int| 0 <= i < all@.len() ==> all@[i].meta.id@ != id@,
        },
{
    let mut i: usize = 0;
    while i < all.len()
        invariant
            i <= all@.len(),
            forall|k: int| 0 <= k < i ==> all@[k].meta.id@ != id@,
        decreases all@.len() - i,
    {
        if str_eq(all[i].meta.id.as_str(), id) {
            return Some(i);
        }
        i += 1;
    }
    None
}


/// Whether `tier` lists the places of the catalog entries that share the
/// tier of the entry at `t`, all of them, in the order of the tier.
pub open spec fn is_tier_listing(
    order: CatalogOrderModel,
    all: Seq<ExerciseModel>,
    tier: Seq<int>,
    t: int,
) -> bool {
    &&& 0 <= t < all.len()
    &&& forall|a: int|
        0 <= a < tier.len() ==> 0 <= #[trigger] tier[a] < all.len() && all[tier[a]].meta.difficulty
            == all[t].meta.difficulty
    &&& forall|j: int|
        0 <= j < all.len() && (#[trigger] all[j]).meta.difficulty == all[t].meta.difficulty
            ==> exists|a: int| 0 <= a < tier.len() && tier[a] == j
    &&& forall|a: int, b: int|
        0 <= a < b < tier.len() ==> comes_before(order, all[#[trigger] tier[a]], all[#[trigger] tier[b]])
}

/// The exercise at the head of its tier is open, whatever the progress.
pub proof fn lemma_first_of_tier_is_open(
    order: CatalogOrderModel,
    all: Seq<ExerciseModel>,
    progress: ProgressModel,
    tier: Seq<int>,
)
    requires
        tier.len() > 0,
        is_tier_listing(order, all, tier, tier[0]),
    ensures
        open_at(order, all, progress, tier[0]),
{
    let t = tier[0];
    assert forall|j: int| !is_earlier(order, all, j, t) by {
        if is_earlier(order, all, j, t) {
            let a = choose|a: int| 0 <= a < tier.len() && tier[a] == j;
            lemma_order_strict(order, all[j], all[t]);
            if a > 0 {
                assert(comes_before(order, all[tier[0]], all[tier[a]]));
            }
        }
    }
}

/// An exercise that is not at the head of its tier is open exactly if the
/// exercise directly before it in the tier is completed; one without a
/// progress record is not.
pub proof fn lemma_open_iff_predecessor_completed(
    order: CatalogOrderModel,
    all: Seq<ExerciseModel>,
    progress: ProgressModel,
    tier: Seq<int>,
    k: int,
)
    requires
        0 < k < tier.len(),
        is_tier_listing(order, all, tier, tier[k]),
    ensures
        open_at(order, all, progress, tier[k]) <==> progress.is_completed(
            all[tier[k - 1]].meta.id,
        ),
        !progress.records.contains_key(all[tier[k - 1]].meta.id) ==> !open_at(
            order,
            all,
            progress,
            tier[k],
        ),
{
    let t = tier[k];
    let p = tier[k - 1];
    assert(comes_before(order, all[tier[k - 1]], all[tier[k]]));
    assert(is_earlier(order, all, p, t));
    assert forall|j: int| is_earlier(order, all, j, t) implies !comes_before(
        order,
        all[p],
        #[trigger] all[j],
    ) by {
        let a = choose|a: int| 0 <= a < tier.len() && tier[a] == j;
        lemma_order_strict(order, all[j], all[t]);
        lemma_order_strict(order, all[j], all[p]);
        if a > k {
            assert(comes_before(order, all[tier[k]], all[tier[a]]));
        } else if a < k - 1 {
            assert(comes_before(order, all[tier[a]], all[tier[k - 1]]));
        }
    }
    assert(is_predecessor(order, all, p, t));
    assert forall|j: int| is_predecessor(order, all, j, t) implies all[j].meta.id
        == all[p].meta.id by {
        lemma_predecessor_unique(order, all, j, p, t);
    }
}


/// Whether `tier` lists the places of the catalog entries of the tier
/// `difficulty`, each once, none before an entry that comes before it, and
/// entries of which neither comes before the other in the order of the
/// catalog.
pub open spec fn lists_tier(
    order: CatalogOrderModel,
    all: Seq<ExerciseModel>,
    difficulty: Seq<char>,
    tier: Seq<usize>,
) -> bool {
    &&& forall|a: int|
        0 <= a < tier.len() ==> (#[trigger] tier[a]) < all.len() && all[tier[a] as int].meta.difficulty
            == difficulty
    &&& forall|j: int|
        0 <= j < all.len() && (#[trigger] all[j]).meta.difficulty == difficulty ==> exists|a: int|
            0 <= a < tier.len() && tier[a] == j
    &&& forall|a: int, b: int| 0 <= a < b < tier.len() ==> tier[a] != tier[b]
    &&& forall|a: int, b: int|
        0 <= a < b < tier.len() ==> !comes_before(
            order,
            all[#[trigger] tier[b] as int],
            all[#[trigger] tier[a] as int],
        )
    &&& forall|a: int, b: int|
        0 <= a < b < tier.len() && !comes_before(
            order,
            all[#[trigger] tier[a] as int],
            all[#[trigger] tier[b] as int],
        ) ==> tier[a] < tier[b]
}

/// No two entries of the catalog share an id.
pub open spec fn distinct_catalog_ids(all: Seq<ExerciseModel>) -> bool {
    forall|i: int, j: int| 0 <= i < j < all.len() ==> all[i].meta.id != all[j].meta.id
}

/// In a catalog without an id twice, a listing of a tier is in strict
/// order, so what holds of the head of a tier and of the neighbours in it
/// holds of the listing.
pub proof fn lemma_listing_in_strict_order(
    order: CatalogOrderModel,
    all: Seq<ExerciseModel>,
    tier: Seq<usize>,
    k: int,
)
    requires
        distinct_catalog_ids(all),
        0 <= k < tier.len(),
        tier[k] < all.len(),
        lists_tier(order, all, all[tier[k] as int].meta.difficulty, tier),
    ensures
        is_tier_listing(order, all, tier.map_values(|t: usize| t as int), tier[k] as int),
{
    let places = tier.map_values(|t: usize| t as int);
    let t = tier[k] as int;
    assert forall|a: int, b: int| 0 <= a < b < places.len() implies comes_before(
        order,
        all[#[trigger] places[a]],
        all[#[trigger] places[b]],
    ) by {
        assert(tier[a] != tier[b]);
        assert(!comes_before(order, all[tier[b] as int], all[tier[a] as int]));
        if !comes_before(order, all[tier[a] as int], all[tier[b] as int]) {
            lemma_order_connected(order, all[tier[a] as int], all[tier[b] as int]);
            if tier[a] < tier[b] {
                assert(all[tier[a] as int].meta.id != all[tier[b] as int].meta.id);
            } else {
                assert(all[tier[b] as int].meta.id != all[tier[a] as int].meta.id);
            }
        }
    }
    assert forall|j: int|
        0 <= j < all.len() && (#[trigger] all[j]).meta.difficulty
            == all[t].meta.difficulty implies exists|a: int|
        0 <= a < places.len() && places[a] == j by {
        let a = choose|a: int| 0 <= a < tier.len() && tier[a] == j;
        assert(places[a] == j);
    }
    assert forall|a: int| 0 <= a < places.len() implies 0 <= #[trigger] places[a] < all.len()
        && all[places[a]].meta.difficulty == all[t].meta.difficulty by {
        assert(tier[a] < all.len());
    }
}

impl CatalogOrder {
    /// The places of the catalog entries of the tier `difficulty`, in the
    /// order of the tier. Entries of which neither comes before the other
    /// stay in the order of the catalog.
    pub fn tier_listing(&self, all: &Vec<Exercise>, difficulty: &str) -> (tier: Vec<usize>)
        requires
            self.wf(),
        ensures
            lists_tier(self@, models(all@), difficulty@, tier@),
    {
        let ghost catalog = models(all@);
        let ghost order = self@;
        let mut tier: Vec<usize> = Vec::new();
        let mut j: usize = 0;
        while j < all.len()
            invariant
                j <= all@.len(),
                self.wf(),
                catalog == models(all@),
                order == self@,
                forall|a: int|
                    0 <= a < tier@.len() ==> (#[trigger] tier@[a]) < j && catalog[tier@[a] as int].meta.difficulty
                        == difficulty@,
                forall|i: int|
                    0 <= i < j && (#[trigger] catalog[i]).meta.difficulty == difficulty@
                        ==> exists|a: int| 0 <= a < tier@.len() && tier@[a] == i,
                forall|a: int, b: int| 0 <= a < b < tier@.len() ==> tier@[a] != tier@[b],
                forall|a: int, b: int|
                    0 <= a < b < tier@.len() ==> !comes_before(
                        order,
                        catalog[#[trigger] tier@[b] as int],
                        catalog[#[trigger] tier@[a] as int],
                    ),
                forall|a: int, b: int|
                    0 <= a < b < tier@.len() && !comes_before(
                        order,
                        catalog[#[trigger] tier@[a] as int],
                        catalog[#[trigger] tier@[b] as int],
                    ) ==> tier@[a] < tier@[b],
            decreases all@.len() - j,
        {
            if str_eq(all[j].meta.difficulty.as_str(), difficulty) {
                let ghost before = tier@;
                let mut at: usize = tier.len();
                while at > 0 && self.precedes(&all[j], &all[tier[at - 1]])
                    invariant
                        at <= tier@.len(),
                        j < all@.len(),
                        self.wf(),
                        before == tier@,
                        catalog == models(all@),
                        order == self@,
                        forall|a: int| 0 <= a < tier@.len() ==> (#[trigger] tier@[a]) < j,
                        forall|a: int|
                            at <= a < tier@.len() ==> comes_before(
                                order,
                                catalog[j as int],
                                catalog[#[trigger] tier@[a] as int],
                            ),
                    decreases at,
                {
                    at -= 1;
                }
                tier.insert(at, j);
                proof {
                    let after = tier@;
                    assert(after =~= before.insert(at as int, j));
                    assert forall|a: int, b: int| 0 <= a < b < after.len() implies !comes_before(
                        order,
                        catalog[#[trigger] after[b] as int],
                        catalog[#[trigger] after[a] as int],
                    ) by {
                        if b == at {
                            // the new entry does not come before what stands before it
                            lemma_not_before_lower(order, catalog, before, j as int, at as int, a);
                        } else if a == at {
                            assert(after[b] == before[b - 1]);
                            lemma_order_strict(order, catalog[j as int], catalog[after[b] as int]);
                        } else {
                            let a0 = if a < at { a } else { a - 1 };
                            let b0 = if b < at { b } else { b - 1 };
                            assert(after[a] == before[a0] && after[b] == before[b0]);
                        }
                    }
                    assert forall|a: int, b: int|
                        0 <= a < b < after.len() && !comes_before(
                            order,
                            catalog[#[trigger] after[a] as int],
                            catalog[#[trigger] after[b] as int],
                        ) implies after[a] < after[b] by {
                        let a0 = if a < at { a } else { a - 1 };
                        let b0 = if b < at { b } else { b - 1 };
                        if b == at {
                            assert(after[a] == before[a0]);
                        } else if a == at {
                            assert(after[b] == before[b0]);
                        } else {
                            assert(after[a] == before[a0] && after[b] == before[b0]);
                        }
                    }
                    assert forall|a: int, b: int| 0 <= a < b < after.len() implies after[a]
                        != after[b] by {
                        let a0 = if a < at { a } else { a - 1 };
                        let b0 = if b < at { b } else { b - 1 };
                        if a != at && b != at {
                            assert(after[a] == before[a0] && after[b] == before[b0]);
                        } else if a == at {
                            assert(after[b] == before[b0]);
                        } else {
                            assert(after[a] == before[a0]);
                        }
                    }
                    assert forall|i: int|
                        0 <= i < j + 1 && (#[trigger] catalog[i]).meta.difficulty
                            == difficulty@ implies exists|a: int|
                        0 <= a < after.len() && after[a] == i by {
                        if i == j {
                            assert(after[at as int] == i);
                        } else {
                            let a0 = choose|a: int| 0 <= a < before.len() && before[a] == i;
                            let a1 = if a0 < at { a0 } else { a0 + 1 };
                            assert(after[a1] == i);
                        }
                    }
                    assert forall|a: int| 0 <= a < after.len() implies (#[trigger] after[a]) < j + 1
                        && catalog[after[a] as int].meta.difficulty == difficulty@ by {
                        if a != at {
                            let a0 = if a < at { a } else { a - 1 };
                            assert(after[a] == before[a0]);
                        }
                    }
                }
            }
            j += 1;
        }
        tier
    }
}

/// An entry that does not come before the entry at place `at - 1` of an
/// ordered listing comes before none of the entries below that place.
proof fn lemma_not_before_lower(
    order: CatalogOrderModel,
    catalog: Seq<ExerciseModel>,
    tier: Seq<usize>,
    j: int,
    at: int,
    a: int,
)
    requires
        0 <= a < at <= tier.len(),
        0 <= j < catalog.len(),
        forall|i: int| 0 <= i < tier.len() ==> (#[trigger] tier[i]) < catalog.len(),
        forall|i: int| 0 <= i < tier.len() ==> catalog[#[trigger] tier[i] as int].meta.difficulty == catalog[j].meta.difficulty,
        !comes_before(order, catalog[j], catalog[tier[at - 1] as int]),
        forall|x: int, y: int|
            0 <= x < y < tier.len() ==> !comes_before(
                order,
                catalog[#[trigger] tier[y] as int],
                catalog[#[trigger] tier[x] as int],
            ),
    ensures
        !comes_before(order, catalog[j], catalog[tier[a] as int]),
{
    let new = catalog[j];
    let low = catalog[tier[a] as int];
    let top = catalog[tier[at - 1] as int];
    if a < at - 1 && comes_before(order, new, low) {
        assert(!comes_before(order, top, low));
        if comes_before(order, low, top) {
            lemma_order_transitive(order, new, low, top);
        } else {
            lemma_order_connected(order, low, top);
            assert(tier[a] < catalog.len() && tier[at - 1] < catalog.len());
            assert(low.meta.difficulty == top.meta.difficulty);
            assert(exercise_rank(order, low) == exercise_rank(order, top));
        }
    }
}

} // verus!
