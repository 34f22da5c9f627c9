//! The catalog of exercises: what a walk over the lessons tree found is
//! turned into descriptors, all of them or none, ordered by id.

use vstd::prelude::*;
use vstd::string::*;
use crate::definition::{meta_of_text, parse_meta, MetaProblem};
use crate::exercise::{models, Exercise, ExerciseModel};
use crate::path::{join_path, path_joined};
use crate::text::{is_blank, is_blank_str, join, joined, lex_lt, str_eq, str_lt};

verus! {

/// What the walk found of one exercise: the directory that holds a
/// definition file, and what was seen in it.
#[derive(Debug, Clone)]
pub struct ExerciseSource {
    /// The directory of the exercise.
    pub root: String,
    /// The components of the path from the lessons root to `root`.
    pub components: Vec<String>,
    /// The text of the definition file, `None` where it could not be read.
    pub definition: Option<String>,
    pub has_starter: bool,
    pub has_tests: bool,
    pub has_solution: bool,
    pub has_explanation: bool,
}

/// The mathematical content of an [`ExerciseSource`].
pub struct ExerciseSourceModel {
    pub root: Seq<char>,
    pub components: Seq<Seq<char>>,
    pub definition: Option<Seq<char>>,
    pub has_starter: bool,
    pub has_tests: bool,
    pub has_solution: bool,
    pub has_explanation: bool,
}

impl View for ExerciseSource {
    type V = ExerciseSourceModel;

    open spec fn view(&self) -> ExerciseSourceModel {
        ExerciseSourceModel {
            root: self.root@,
            components: self.components.deep_view(),
            definition: self.definition.deep_view(),
            has_starter: self.has_starter,
            has_tests: self.has_tests,
            has_solution: self.has_solution,
            has_explanation: self.has_explanation,
        }
    }
}

/// Why the catalog could not be loaded.
#[derive(Debug, Clone)]
pub enum CatalogError {
    /// The definition file at `path` could not be read.
    Unreadable { path: String },
    /// The definition file at `path` is malformed.
    Malformed { path: String, problem: MetaProblem, detail: String },
    /// The exercise in `root` lacks its starter or its test source.
    MissingSources { root: String },
}

/// The mathematical content of a [`CatalogError`], without the parser's
/// words.
pub enum CatalogProblem {
    Unreadable { path: Seq<char> },
    Malformed { path: Seq<char>, problem: MetaProblem },
    MissingSources { root: Seq<char> },
}

impl View for CatalogError {
    type V = CatalogProblem;

    open spec fn view(&self) -> CatalogProblem {
        match self {
            CatalogError::Unreadable { path } => CatalogProblem::Unreadable { path: path@ },
            CatalogError::Malformed { path, problem, detail } => CatalogProblem::Malformed {
                path: path@,
                problem: *problem,
            },
            CatalogError::MissingSources { root } => CatalogProblem::MissingSources { root: root@ },
        }
    }
}

/// The id of an exercise: the components of its place under the lessons
/// root, joined by `/`.
pub open spec fn exercise_id(components: Seq<Seq<char>>) -> Seq<char> {
    joined(components, "/"@)
}

/// The descriptor that a source makes, or the reason why it makes none. The
/// definition is read first, then parsed, then the starter and the tests
/// are asked for.
pub open spec fn exercise_of(src: ExerciseSourceModel) -> Result<ExerciseModel, CatalogProblem> {
    let path = path_joined(src.root, "exercise.toml"@);
    match src.definition {
        None => Err(CatalogProblem::Unreadable { path }),
        Some(text) => match meta_of_text(exercise_id(src.components), text) {
            Err(problem) => Err(CatalogProblem::Malformed { path, problem }),
            Ok(meta) => if !src.has_starter || !src.has_tests {
                Err(CatalogProblem::MissingSources { root: src.root })
            } else {
                Ok(
                    ExerciseModel {
                        meta,
                        root: src.root,
                        starter_rs: path_joined(src.root, "starter.rs"@),
                        tests_rs: path_joined(src.root, "tests.rs"@),
                        solution_rs: if src.has_solution {
                            Some(path_joined(src.root, "solution.rs"@))
                        } else {
                            None
                        },
                        explanation_md: if src.has_explanation {
                            Some(path_joined(src.root, "explanation.md"@))
                        } else {
                            None
                        },
                    },
                )
            },
        },
    }
}

/// Whether `r` is the outcome that `expected` describes.
pub open spec fn outcome_matches(
    r: Result<Exercise, CatalogError>,
    expected: Result<ExerciseModel, CatalogProblem>,
) -> bool {
    match r {
        Ok(ex) => expected == Ok::<ExerciseModel, CatalogProblem>(ex@),
        Err(e) => expected == Err::<ExerciseModel, CatalogProblem>(e@),
    }
}

/// Makes the descriptor of one exercise from what the walk found of it.
pub fn build_exercise(src: ExerciseSource) -> (r: Result<Exercise, CatalogError>)
    ensures
        outcome_matches(r, exercise_of(src@)),
{
    let text = match src.definition {
        Some(text) => text,
        None => {
            return Err(
                CatalogError::Unreadable { path: join_path(src.root.as_str(), "exercise.toml") },
            );
        },
    };
    let id = join(&src.components, "/");
    let meta = match parse_meta(id, text.as_str()) {
        Ok(meta) => meta,
        Err(e) => {
            return Err(
                CatalogError::Malformed {
                    path: join_path(src.root.as_str(), "exercise.toml"),
                    problem: e.problem,
                    detail: e.detail,
                },
            );
        },
    };
    if !src.has_starter || !src.has_tests {
        return Err(CatalogError::MissingSources { root: src.root });
    }
    let starter_rs = join_path(src.root.as_str(), "starter.rs");
    let tests_rs = join_path(src.root.as_str(), "tests.rs");
    let solution_rs = if src.has_solution {
        Some(join_path(src.root.as_str(), "solution.rs"))
    } else {
        None
    };
    let explanation_md = if src.has_explanation {
        Some(join_path(src.root.as_str(), "explanation.md"))
    } else {
        None
    };
    Ok(Exercise { meta, root: src.root, starter_rs, tests_rs, solution_rs, explanation_md })
}

/// `sorted` with `e` put behind every entry whose id is not greater than
/// that of `e`.
pub open spec fn inserted(sorted: Seq<ExerciseModel>, e: ExerciseModel) -> Seq<ExerciseModel>
    decreases sorted.len(),
{
    if sorted.len() == 0 {
        seq![e]
    } else if lex_lt(e.meta.id, sorted.last().meta.id) {
        inserted(sorted.drop_last(), e).push(sorted.last())
    } else {
        sorted.push(e)
    }
}

/// The entries ordered by id. Entries with the same id keep the order in
/// which they came.
pub open spec fn sorted_by_id(list: Seq<ExerciseModel>) -> Seq<ExerciseModel>
    decreases list.len(),
{
    if list.len() == 0 {
        list
    } else {
        inserted(sorted_by_id(list.drop_last()), list.last())
    }
}

/// No entry has an id that is less than the id of an entry before it.
pub open spec fn ordered_by_id(list: Seq<ExerciseModel>) -> bool {
    forall|i: int, j: int| 0 <= i < j < list.len() ==> !lex_lt(list[j].meta.id, list[i].meta.id)
}

/// Where `e` goes in `sorted`: the place `at` behind which every id is
/// greater and before which the nearest id is not.
proof fn lemma_inserted_at(sorted: Seq<ExerciseModel>, e: ExerciseModel, at: int)
    requires
        0 <= at <= sorted.len(),
        forall|i: int| at <= i < sorted.len() ==> lex_lt(e.meta.id, sorted[i].meta.id),
        at == 0 || !lex_lt(e.meta.id, sorted[at - 1].meta.id),
    ensures
        inserted(sorted, e) == sorted.insert(at, e),
    decreases sorted.len(),
{
    if sorted.len() == at {
        if at == 0 {
            assert(sorted.insert(0, e) =~= seq![e]);
        } else {
            assert(sorted.insert(at, e) =~= sorted.push(e));
        }
    } else {
        lemma_inserted_at(sorted.drop_last(), e, at);
        assert(sorted.drop_last().insert(at, e).push(sorted.last()) =~= sorted.insert(at, e));
    }
}

/// Putting an entry into an ordered list keeps the list ordered and adds
/// exactly that entry.
pub proof fn lemma_inserted(sorted: Seq<ExerciseModel>, e: ExerciseModel)
    requires
        ordered_by_id(sorted),
    ensures
        ordered_by_id(inserted(sorted, e)),
        inserted(sorted, e).len() == sorted.len() + 1,
        inserted(sorted, e).to_multiset() == sorted.to_multiset().insert(e),
    decreases sorted.len(),
{
    broadcast use vstd::seq_lib::group_to_multiset_ensures;

    if sorted.len() == 0 {
        assert(inserted(sorted, e) =~= sorted.push(e));
    } else if lex_lt(e.meta.id, sorted.last().meta.id) {
        let front = sorted.drop_last();
        let last = sorted.last();
        assert(ordered_by_id(front)) by {
            assert forall|i: int, j: int| 0 <= i < j < front.len() implies !lex_lt(
                front[j].meta.id,
                front[i].meta.id,
            ) by {
                assert(front[i] == sorted[i] && front[j] == sorted[j]);
            }
        }
        lemma_inserted(front, e);
        let mid = inserted(front, e);
        let out = mid.push(last);
        assert(sorted =~= front.push(last));
        assert(out.to_multiset() =~= sorted.to_multiset().insert(e));
        assert forall|i: int, j: int| 0 <= i < j < out.len() implies !lex_lt(
            out[j].meta.id,
            out[i].meta.id,
        ) by {
            if j == out.len() - 1 {
                // every entry of `mid` is `e` or an entry of `front`
                assert(mid.to_multiset().count(mid[i]) > 0);
                if mid[i] == e {
                    crate::text::lemma_lex_lt_asymmetric(e.meta.id, last.meta.id);
                } else {
                    assert(front.to_multiset().count(mid[i]) > 0);
                    let k = choose|k: int| 0 <= k < front.len() && front[k] == mid[i];
                    assert(sorted[k] == mid[i]);
                }
            }
        }
    } else {
        let out = sorted.push(e);
        assert forall|i: int, j: int| 0 <= i < j < out.len() implies !lex_lt(
            out[j].meta.id,
            out[i].meta.id,
        ) by {
            if j == out.len() - 1 && i < sorted.len() - 1 {
                // e is not below the last entry, which is not below entry i
                if lex_lt(e.meta.id, sorted[i].meta.id) {
                    let last = sorted.last();
                    assert(!lex_lt(last.meta.id, sorted[i].meta.id));
                    if last.meta.id != sorted[i].meta.id {
                        if !lex_lt(sorted[i].meta.id, last.meta.id) {
                            crate::text::lemma_lex_lt_connected(sorted[i].meta.id, last.meta.id);
                        }
                        crate::text::lemma_lex_lt_transitive(
                            e.meta.id,
                            sorted[i].meta.id,
                            last.meta.id,
                        );
                    }
                }
            }
        }
    }
}

/// Ordering by id gives an ordered list of the same entries.
pub proof fn lemma_sorted_by_id(list: Seq<ExerciseModel>)
    ensures
        ordered_by_id(sorted_by_id(list)),
        sorted_by_id(list).len() == list.len(),
        sorted_by_id(list).to_multiset() == list.to_multiset(),
    decreases list.len(),
{
    broadcast use vstd::seq_lib::group_to_multiset_ensures;

    if list.len() > 0 {
        lemma_sorted_by_id(list.drop_last());
        lemma_inserted(sorted_by_id(list.drop_last()), list.last());
        assert(list =~= list.drop_last().push(list.last()));
    }
}

/// Orders the descriptors by id.
pub fn sort_by_id(list: Vec<Exercise>) -> (out: Vec<Exercise>)
    ensures
        models(out@) == sorted_by_id(models(list@)),
        ordered_by_id(models(out@)),
        out@.len() == list@.len(),
        models(out@).to_multiset() == models(list@).to_multiset(),
{
    let ghost given = list@;
    let mut out: Vec<Exercise> = Vec::new();
    proof {
        assert(models(given).take(0) =~= Seq::<ExerciseModel>::empty());
        assert(models(out@) =~= Seq::<ExerciseModel>::empty());
    }
    for e in it: list
        invariant
            it.seq() == given,
            models(out@) == sorted_by_id(models(given).take(it.index() as int)),
    {
        let ghost before = models(out@);
        let ghost k = it.index() as int;
        let mut at: usize = out.len();
        while at > 0 && str_lt(e.meta.id.as_str(), out[at - 1].meta.id.as_str())
            invariant
                at <= out@.len(),
                before == models(out@),
                forall|i: int| at <= i < out@.len() ==> lex_lt(e.meta.id@, before[i].meta.id),
            decreases at,
        {
            at -= 1;
        }
        proof {
            lemma_inserted_at(before, e@, at as int);
            assert(models(given).take(k + 1).drop_last() =~= models(given).take(k));
            assert(models(given).take(k + 1).last() == e@);
        }
        out.insert(at, e);
        assert(models(out@) =~= before.insert(at as int, e@));
    }
    proof {
        assert(models(given).take(given.len() as int) =~= models(given));
        lemma_sorted_by_id(models(given));
    }
    out
}

/// The descriptors of sources that all make one, in the order of the
/// sources.
pub open spec fn built(found: Seq<ExerciseSource>) -> Seq<ExerciseModel> {
    Seq::new(found.len(), |i: int| exercise_of(found[i]@)->Ok_0)
}

/// Loads the catalog from what the walk found.
///
/// The load is all or nothing. Where every source makes a descriptor the
/// result holds them all, ordered by id. Else the result is the error of
/// the first source, in the order of the walk, that makes none.
pub fn load_all(found: Vec<ExerciseSource>) -> (r: Result<Vec<Exercise>, CatalogError>)
    ensures
        match r {
            Ok(list) => {
                &&& forall|i: int| 0 <= i < found@.len() ==> exercise_of(#[trigger] found@[i]@) is Ok
                &&& models(list@) == sorted_by_id(built(found@))
                &&& ordered_by_id(models(list@))
                &&& list@.len() == found@.len()
            },
            Err(e) => exists|k: int|
                {
                    &&& 0 <= k < found@.len()
                    &&& exercise_of(#[trigger] found@[k]@) == Err::<ExerciseModel, CatalogProblem>(e@)
                    &&& forall|i: int| 0 <= i < k ==> exercise_of(#[trigger] found@[i]@) is Ok
                },
        },
{
    let ghost given = found@;
    let mut list: Vec<Exercise> = Vec::new();
    for src in it: found
        invariant
            it.seq() == given,
            list@.len() == it.index(),
            forall|i: int| 0 <= i < it.index() ==> exercise_of(#[trigger] given[i]@) is Ok,
            models(list@) == built(given).take(it.index() as int),
    {
        let ghost k = it.index() as int;
        match build_exercise(src) {
            Ok(ex) => {
                let ghost before = models(list@);
                list.push(ex);
                assert(models(list@) =~= before.push(ex@));
                assert(built(given).take(k + 1) =~= built(given).take(k).push(ex@));
            },
            Err(e) => {
                assert(exercise_of(given[k]@) == Err::<ExerciseModel, CatalogProblem>(e@));
                return Err(e);
            },
        }
    }
    proof {
        assert(built(given).take(given.len() as int) =~= built(given));
    }
    Ok(sort_by_id(list))
}


/// What is wrong with a lesson.
#[derive(Debug, Clone, Copy, PartialEq, Eq, Structural)]
pub enum Issue {
    /// The starter source is not there.
    MissingStarter,
    /// The test source is not there.
    MissingTests,
    /// The title is empty or white space only.
    EmptyTitle,
    /// The difficulty names no tier.
    InvalidDifficulty,
}

/// Whether `difficulty` names one of the three tiers.
pub open spec fn is_tier(difficulty: Seq<char>) -> bool {
    difficulty == "beginner"@ || difficulty == "intermediate"@ || difficulty == "advanced"@
}

/// The issues of a lesson, in the order in which they are looked for: the
/// starter, the tests, the title, the difficulty.
pub open spec fn issues_of(ex: ExerciseModel, starter_exists: bool, tests_exist: bool) -> Seq<Issue> {
    (if starter_exists {
        Seq::<Issue>::empty()
    } else {
        seq![Issue::MissingStarter]
    }) + (if tests_exist {
        Seq::<Issue>::empty()
    } else {
        seq![Issue::MissingTests]
    }) + (if is_blank(ex.meta.title) {
        seq![Issue::EmptyTitle]
    } else {
        Seq::<Issue>::empty()
    }) + (if is_tier(ex.meta.difficulty) {
        Seq::<Issue>::empty()
    } else {
        seq![Issue::InvalidDifficulty]
    })
}

/// Looks for what is wrong with a lesson, given whether its two sources
/// are there. A lesson without issues gives the empty list.
pub fn validate(ex: &Exercise, starter_exists: bool, tests_exist: bool) -> (issues: Vec<Issue>)
    ensures
        issues@ == issues_of(ex@, starter_exists, tests_exist),
{
    let mut issues: Vec<Issue> = Vec::new();
    if !starter_exists {
        issues.push(Issue::MissingStarter);
    }
    if !tests_exist {
        issues.push(Issue::MissingTests);
    }
    if is_blank_str(ex.meta.title.as_str()) {
        issues.push(Issue::EmptyTitle);
    }
    let difficulty = ex.meta.difficulty.as_str();
    if !(str_eq(difficulty, "beginner") || str_eq(difficulty, "intermediate") || str_eq(
        difficulty,
        "advanced",
    )) {
        issues.push(Issue::InvalidDifficulty);
    }
    assert(issues@ =~= issues_of(ex@, starter_exists, tests_exist));
    issues
}

/// The words of an issue of the lesson `ex`.
pub fn issue_message(issue: Issue, ex: &Exercise) -> (text: String)
    ensures
        text@ == match issue {
            Issue::MissingStarter => "Missing starter.rs for "@ + ex.meta.id@,
            Issue::MissingTests => "Missing tests.rs for "@ + ex.meta.id@,
            Issue::EmptyTitle => "Empty title for "@ + ex.meta.id@,
            Issue::InvalidDifficulty => "Invalid difficulty for "@ + ex.meta.id@ + ": "@
                + ex.meta.difficulty@,
        },
{
    let mut text = match issue {
        Issue::MissingStarter => "Missing starter.rs for ".to_owned(),
        Issue::MissingTests => "Missing tests.rs for ".to_owned(),
        Issue::EmptyTitle => "Empty title for ".to_owned(),
        Issue::InvalidDifficulty => "Invalid difficulty for ".to_owned(),
    };
    text.append(ex.meta.id.as_str());
    match issue {
        Issue::InvalidDifficulty => {
            text.append(": ");
            text.append(ex.meta.difficulty.as_str());
        },
        _ => {},
    }
    text
}

impl CatalogError {
    /// The error in words; they name the file or directory at fault.
    pub fn message(&self) -> (text: String)
        ensures
            text@ == match self {
                CatalogError::Unreadable { path } => "Reading "@ + path@,
                CatalogError::Malformed { path, problem, detail } => "Parsing "@ + path@ + ": "@
                    + problem_text(*problem) + detail@,
                CatalogError::MissingSources { root } => "Exercise "@ + root@
                    + " missing starter.rs or tests.rs"@,
            },
    {
        match self {
            CatalogError::Unreadable { path } => {
                let mut text = "Reading ".to_owned();
                text.append(path.as_str());
                text
            },
            CatalogError::Malformed { path, problem, detail } => {
                let mut text = "Parsing ".to_owned();
                text.append(path.as_str());
                text.append(": ");
                text.append(problem_words(*problem));
                text.append(detail.as_str());
                text
            },
            CatalogError::MissingSources { root } => {
                let mut text = "Exercise ".to_owned();
                text.append(root.as_str());
                text.append(" missing starter.rs or tests.rs");
                text
            },
        }
    }
}

/// What is wrong with a definition, in words. For a text that is no TOML
/// the parser's own words follow, so nothing is said here.
pub open spec fn problem_text(problem: MetaProblem) -> Seq<char> {
    match problem {
        MetaProblem::Syntax => ""@,
        MetaProblem::MissingTitle => "missing field `title`"@,
        MetaProblem::MissingDifficulty => "missing field `difficulty`"@,
        MetaProblem::InvalidTitle => "`title` must be a string"@,
        MetaProblem::InvalidDifficulty => "`difficulty` must be a string"@,
        MetaProblem::InvalidHint => "`hint` must be a string"@,
        MetaProblem::InvalidTimeout =>
            "`timeout_secs` must be a number of seconds"@,
    }
}

/// What is wrong with a definition, in words.
pub fn problem_words(problem: MetaProblem) -> (text: &'static str)
    ensures
        text@ == problem_text(problem),
{
    match problem {
        MetaProblem::Syntax => "",
        MetaProblem::MissingTitle => "missing field `title`",
        MetaProblem::MissingDifficulty => "missing field `difficulty`",
        MetaProblem::InvalidTitle => "`title` must be a string",
        MetaProblem::InvalidDifficulty => "`difficulty` must be a string",
        MetaProblem::InvalidHint => "`hint` must be a string",
        MetaProblem::InvalidTimeout => "`timeout_secs` must be a number of seconds",
    }
}

} // verus!
