//! The progression rules: what a start and a graded attempt do to the
//! learner's progress and to the leaderboard.

use vstd::prelude::*;
use vstd::string::*;
use crate::exercise::{models, Exercise};
use crate::grader::GradeOutcome;
use crate::persistence::{
    add_leaderboard_entry, capped, completed_ids, lemma_capped_views, record_or_fresh,
    ExerciseProgress, LeaderboardEntry, LeaderboardRow, Progress, ProgressModel,
};
use crate::quiz::Question;
use crate::text::{chars_of, decimal, decimal_string, is_digit, is_digit_char, str_eq};
use crate::unlock::{find_by_id, is_first_with_id, Resolver};

verus! {

/// Points for a first pass of a beginner exercise.
pub const BEGINNER_POINTS: u32 = 10;

/// Points for a first pass of an intermediate exercise.
pub const INTERMEDIATE_POINTS: u32 = 25;

/// Points for a first pass of an exercise of any other tier.
pub const ADVANCED_POINTS: u32 = 50;

/// Points in one exercise from which the first badge is earned.
pub const MILESTONE_POINTS: u32 = 50;

/// Completed exercises from which the second badge is earned.
pub const SERIOUS_COMPLETIONS: usize = 5;

/// Points in total from which the third badge is earned.
pub const CENTURY_POINTS: u32 = 100;

/// The points that a first pass of an exercise of the given tier earns.
pub open spec fn points_of(difficulty: Seq<char>) -> u32 {
    if difficulty == "beginner"@ {
        BEGINNER_POINTS
    } else if difficulty == "intermediate"@ {
        INTERMEDIATE_POINTS
    } else {
        ADVANCED_POINTS
    }
}

/// The points that a first pass of an exercise of the given tier earns.
pub fn points_for(difficulty: &str) -> (points: u32)
    ensures
        points == points_of(difficulty@),
{
    if str_eq(difficulty, "beginner") {
        BEGINNER_POINTS
    } else if str_eq(difficulty, "intermediate") {
        INTERMEDIATE_POINTS
    } else {
        ADVANCED_POINTS
    }
}

/// The seconds from `start` to `now`, zero where `now` is not later.
pub open spec fn elapsed_secs(start: i64, now: i64) -> u64 {
    if now <= start {
        0
    } else {
        (now - start) as u64
    }
}

/// The seconds from `start` to `now`, zero where `now` is not later.
pub fn elapsed(start: i64, now: i64) -> (secs: u64)
    ensures
        secs == elapsed_secs(start, now),
{
    if now <= start {
        0
    } else {
        let span: i128 = now as i128 - start as i128;
        span as u64
    }
}

/// The record after a start at `now`: the first start is kept once set, the
/// last start is always `now`.
pub open spec fn started_record(r: ExerciseProgress, now: i64) -> ExerciseProgress {
    ExerciseProgress {
        first_started_at: if r.first_started_at is None {
            Some(now)
        } else {
            r.first_started_at
        },
        last_started_at: Some(now),
        ..r
    }
}

/// The progress after the exercise `id` was started at `now`.
pub open spec fn started(p: ProgressModel, id: Seq<char>, now: i64) -> ProgressModel {
    ProgressModel {
        records: p.records.insert(id, started_record(record_or_fresh(p.records, id), now)),
        ..p
    }
}

/// Notes that the learner starts the exercise `id` at `now`.
pub fn record_start(progress: &mut Progress, id: &str, now: i64)
    requires
        old(progress).wf(),
    ensures
        final(progress).wf(),
        final(progress)@ == started(old(progress)@, id@, now),
{
    let mut record = match progress.get(id) {
        Some(r) => r,
        None => ExerciseProgress::default(),
    };
    if record.first_started_at.is_none() {
        record.first_started_at = Some(now);
    }
    record.last_started_at = Some(now);
    progress.put(id, record);
}

/// The record after an attempt that failed: one attempt more, nothing else.
pub open spec fn failed_record(r: ExerciseProgress) -> ExerciseProgress {
    ExerciseProgress { attempts: (r.attempts + 1) as u32, ..r }
}

/// The record after an attempt that passed at `now`. The exercise is
/// completed at `now`. Where a start is known, the time since the last
/// start is the last duration, and the best duration is the smaller of it
/// and the best so far. `points` are earned if none were earned before.
pub open spec fn passed_record(r: ExerciseProgress, points: u32, now: i64) -> ExerciseProgress {
    ExerciseProgress {
        attempts: (r.attempts + 1) as u32,
        completed: true,
        completed_at: Some(now),
        last_duration_secs: match r.last_started_at {
            Some(start) => Some(elapsed_secs(start, now)),
            None => r.last_duration_secs,
        },
        best_duration_secs: match r.last_started_at {
            Some(start) => Some(
                match r.best_duration_secs {
                    Some(best) if best <= elapsed_secs(start, now) => best,
                    _ => elapsed_secs(start, now),
                },
            ),
            None => r.best_duration_secs,
        },
        points_earned: if r.points_earned == 0 {
            points
        } else {
            r.points_earned
        },
        ..r
    }
}

/// Whether an attempt on a record earns points: it passed and the record
/// holds no points yet.
pub open spec fn earns_points(r: ExerciseProgress, passed: bool) -> bool {
    passed && r.points_earned == 0
}

/// The sum of two point counts, held at the largest count there is.
pub open spec fn saturating_points(total: u32, points: u32) -> u32 {
    if total + points > u32::MAX {
        u32::MAX
    } else {
        (total + points) as u32
    }
}

/// The badges with `name` added at the end, if it is earned and not yet
/// among them.
pub open spec fn with_badge(badges: Seq<Seq<char>>, name: Seq<char>, earned: bool) -> Seq<
    Seq<char>,
> {
    if earned && !badges.contains(name) {
        badges.push(name)
    } else {
        badges
    }
}

/// The badges after points were awarded: first the badge for a high score
/// in one exercise, then the one for the number of completed exercises,
/// then the one for the points in total.
pub open spec fn badges_after_award(
    badges: Seq<Seq<char>>,
    points: u32,
    completed: nat,
    total: u32,
) -> Seq<Seq<char>> {
    with_badge(
        with_badge(
            with_badge(badges, "First Advanced"@, points >= MILESTONE_POINTS),
            "Getting Serious"@,
            completed >= SERIOUS_COMPLETIONS,
        ),
        "Century"@,
        total >= CENTURY_POINTS,
    )
}

/// The progress after an attempt on the exercise `id` of tier `difficulty`
/// was graded at `now`.
pub open spec fn attempted(
    p: ProgressModel,
    id: Seq<char>,
    difficulty: Seq<char>,
    passed: bool,
    now: i64,
) -> ProgressModel {
    let before = record_or_fresh(p.records, id);
    if !passed {
        ProgressModel { records: p.records.insert(id, failed_record(before)), ..p }
    } else {
        let points = points_of(difficulty);
        let records = p.records.insert(id, passed_record(before, points, now));
        if earns_points(before, passed) {
            let total = saturating_points(p.total_points, points);
            ProgressModel {
                records,
                total_points: total,
                badges: badges_after_award(
                    p.badges,
                    points,
                    completed_ids(records).len(),
                    total,
                ),
                ..p
            }
        } else {
            ProgressModel { records, ..p }
        }
    }
}

/// The leaderboard line for points awarded on the exercise `id`.
pub open spec fn award_row(
    p: ProgressModel,
    id: Seq<char>,
    difficulty: Seq<char>,
    now: i64,
) -> LeaderboardRow {
    LeaderboardRow {
        name: match p.display_name {
            Some(name) => name,
            None => "Player"@,
        },
        avatar: p.avatar,
        lesson_id: id,
        points: points_of(difficulty),
        duration_secs: passed_record(
            record_or_fresh(p.records, id),
            points_of(difficulty),
            now,
        ).last_duration_secs,
        timestamp: now,
    }
}

/// The leaderboard after the attempt: one line more, capped, where the
/// attempt earned points, else unchanged.
pub open spec fn board_after(
    board: Seq<LeaderboardRow>,
    p: ProgressModel,
    id: Seq<char>,
    difficulty: Seq<char>,
    passed: bool,
    now: i64,
) -> Seq<LeaderboardRow> {
    if earns_points(record_or_fresh(p.records, id), passed) {
        capped(board.push(award_row(p, id, difficulty, now)))
    } else {
        board
    }
}

/// Adds the badge `name` unless it is there already.
fn grant_badge(badges: &mut Vec<String>, name: &str)
    ensures
        final(badges).deep_view() == with_badge(old(badges).deep_view(), name@, true),
{
    let mut i: usize = 0;
    while i < badges.len()
        invariant
            i <= badges@.len(),
            forall|k: int| 0 <= k < i ==> badges@[k]@ != name@,
        decreases badges@.len() - i,
    {
        if str_eq(badges[i].as_str(), name) {
            assert(badges.deep_view()[i as int] == name@);
            return;
        }
        i += 1;
    }
    assert(!badges.deep_view().contains(name@)) by {
        if badges.deep_view().contains(name@) {
            let k = choose|k: int| 0 <= k < badges.deep_view().len() && badges.deep_view()[k] == name@;
            assert(badges@[k]@ == name@);
        }
    }
    badges.push(name.to_owned());
    assert(badges.deep_view() =~= old(badges).deep_view().push(name@));
}

/// Applies the verdict of a graded attempt on `ex` at `now` to the progress
/// and the leaderboard, and returns the exercise's record as it stands
/// then.
///
/// Every attempt counts. A pass completes the exercise and takes the time
/// since its last start. The first pass that finds no points on the record
/// earns the points of the tier, may earn badges and adds a line to the
/// leaderboard; no later attempt does any of that again.
pub fn record_attempt(
    progress: &mut Progress,
    board: &mut Vec<LeaderboardEntry>,
    ex: &Exercise,
    outcome: &GradeOutcome,
    now: i64,
) -> (updated: ExerciseProgress)
    requires
        old(progress).wf(),
        record_or_fresh(old(progress)@.records, ex.meta.id@).attempts < u32::MAX,
    ensures
        final(progress).wf(),
        final(progress)@ == attempted(
            old(progress)@,
            ex.meta.id@,
            ex.meta.difficulty@,
            outcome.passed,
            now,
        ),
        final(board).deep_view() == board_after(
            old(board).deep_view(),
            old(progress)@,
            ex.meta.id@,
            ex.meta.difficulty@,
            outcome.passed,
            now,
        ),
        final(progress)@.records.contains_key(ex.meta.id@),
        updated == final(progress)@.records[ex.meta.id@],
{
    let id = ex.meta.id.as_str();
    let before = match progress.get(id) {
        Some(r) => r,
        None => ExerciseProgress::default(),
    };
    let mut record = before;
    record.attempts = record.attempts + 1;
    if !outcome.passed {
        progress.put(id, record);
        return record;
    }
    let points = points_for(ex.meta.difficulty.as_str());
    record.completed = true;
    record.completed_at = Some(now);
    if let Some(start) = before.last_started_at {
        let duration = elapsed(start, now);
        record.last_duration_secs = Some(duration);
        record.best_duration_secs = Some(
            match before.best_duration_secs {
                Some(best) => if best <= duration {
                    best
                } else {
                    duration
                },
                None => duration,
            },
        );
    }
    let award = before.points_earned == 0;
    if award {
        record.points_earned = points;
    }
    progress.put(id, record);
    if award {
        progress.total_points = if points > u32::MAX - progress.total_points {
            u32::MAX
        } else {
            progress.total_points + points
        };
        if points >= MILESTONE_POINTS {
            grant_badge(&mut progress.badges, "First Advanced");
        }
        let completed = progress.completed_count();
        if completed >= SERIOUS_COMPLETIONS {
            grant_badge(&mut progress.badges, "Getting Serious");
        }
        if progress.total_points >= CENTURY_POINTS {
            grant_badge(&mut progress.badges, "Century");
        }
        let name = match &progress.display_name {
            Some(name) => name.clone(),
            None => "Player".to_owned(),
        };
        let avatar = match &progress.avatar {
            Some(a) => Some(a.clone()),
            None => None,
        };
        let line = LeaderboardEntry {
            name,
            avatar,
            lesson_id: id.to_owned(),
            points,
            duration_secs: record.last_duration_secs,
            timestamp: now,
        };
        proof {
            lemma_capped_views(old(board)@.push(line));
        }
        add_leaderboard_entry(board, line);
    }
    record
}

/// Every tier's award is more than nothing, so a record that earned its
/// points never reads as one that has none.
pub proof fn lemma_points_positive(difficulty: Seq<char>)
    ensures
        points_of(difficulty) > 0,
{
}

/// What every attempt keeps: the records of the other exercises, the
/// profile, an exercise once completed, points once earned, and the badges
/// earned so far, in their order and still without a name twice. A failed
/// attempt changes the attempt counter of its exercise and nothing else.
pub proof fn lemma_attempt_keeps(
    p: ProgressModel,
    id: Seq<char>,
    difficulty: Seq<char>,
    passed: bool,
    now: i64,
)
    requires
        record_or_fresh(p.records, id).attempts < u32::MAX,
    ensures
        ({
            let q = attempted(p, id, difficulty, passed, now);
            let before = record_or_fresh(p.records, id);
            let after = q.records[id];
            &&& q.records.dom() == p.records.dom().insert(id)
            &&& forall|other: Seq<char>|
                other != id && p.records.contains_key(other) ==> q.records[other]
                    == p.records[other]
            &&& after.attempts == before.attempts + 1
            &&& after.completed == (before.completed || passed)
            &&& (before.points_earned != 0 ==> after.points_earned == before.points_earned)
            &&& (after.points_earned != 0 <==> before.points_earned != 0 || passed)
            &&& q.total_points >= p.total_points
            &&& q.avatar == p.avatar && q.display_name == p.display_name && q.theme == p.theme
            &&& q.current_user_id == p.current_user_id && q.current_username == p.current_username
            &&& p.badges.len() <= q.badges.len()
            &&& q.badges.take(p.badges.len() as int) == p.badges
            &&& (crate::persistence::no_duplicates(p.badges)
                ==> crate::persistence::no_duplicates(q.badges))
            &&& (!passed ==> q == ProgressModel {
                records: p.records.insert(id, failed_record(before)),
                ..p
            })
            &&& (!passed ==> after == ExerciseProgress {
                attempts: (before.attempts + 1) as u32,
                ..before
            })
        }),
{
    let q = attempted(p, id, difficulty, passed, now);
    let points = points_of(difficulty);
    let before = record_or_fresh(p.records, id);
    if earns_points(before, passed) {
        let records = p.records.insert(id, passed_record(before, points, now));
        let total = saturating_points(p.total_points, points);
        let b1 = with_badge(p.badges, "First Advanced"@, points >= MILESTONE_POINTS);
        let b2 = with_badge(
            b1,
            "Getting Serious"@,
            completed_ids(records).len() >= SERIOUS_COMPLETIONS,
        );
        let b3 = with_badge(b2, "Century"@, total >= CENTURY_POINTS);
        assert(q.badges == b3);
        lemma_with_badge(p.badges, "First Advanced"@, points >= MILESTONE_POINTS);
        lemma_with_badge(
            b1,
            "Getting Serious"@,
            completed_ids(records).len() >= SERIOUS_COMPLETIONS,
        );
        lemma_with_badge(b2, "Century"@, total >= CENTURY_POINTS);
        assert(b3.take(p.badges.len() as int) =~= b2.take(b1.len() as int).take(
            p.badges.len() as int,
        ));
        assert(b2.take(p.badges.len() as int) =~= b1.take(p.badges.len() as int));
    } else {
        assert(q.badges.take(p.badges.len() as int) =~= p.badges);
    }
}

/// A badge goes to the end of the list, keeps what was there and puts no
/// name in twice.
pub proof fn lemma_with_badge(badges: Seq<Seq<char>>, name: Seq<char>, earned: bool)
    ensures
        badges.len() <= with_badge(badges, name, earned).len() <= badges.len() + 1,
        with_badge(badges, name, earned).take(badges.len() as int) == badges,
        crate::persistence::no_duplicates(badges) ==> crate::persistence::no_duplicates(
            with_badge(badges, name, earned),
        ),
        earned ==> with_badge(badges, name, earned).contains(name),
{
    let after = with_badge(badges, name, earned);
    assert(after.take(badges.len() as int) =~= badges);
    if earned && !badges.contains(name) {
        assert(after[badges.len() as int] == name);
        if crate::persistence::no_duplicates(badges) {
            assert forall|i: int, j: int| 0 <= i < j < after.len() implies after[i]
                != after[j] by {
                if j == badges.len() {
                    assert(badges.contains(badges[i]));
                }
            }
        }
    }
}

/// A pass after a pass counts as an attempt and awards nothing: the points
/// of the exercise, the points in total, the badges and the leaderboard
/// stay as the first pass left them, whatever tier and time the second pass
/// names.
pub proof fn lemma_second_pass_awards_nothing(
    p: ProgressModel,
    board: Seq<LeaderboardRow>,
    id: Seq<char>,
    difficulty: Seq<char>,
    first_at: i64,
    again_difficulty: Seq<char>,
    again_at: i64,
)
    requires
        record_or_fresh(p.records, id).attempts + 2 <= u32::MAX,
    ensures
        ({
            let once = attempted(p, id, difficulty, true, first_at);
            let twice = attempted(once, id, again_difficulty, true, again_at);
            let board_once = board_after(board, p, id, difficulty, true, first_at);
            let board_twice = board_after(board_once, once, id, again_difficulty, true, again_at);
            &&& twice.records[id].attempts == record_or_fresh(p.records, id).attempts + 2
            &&& twice.records[id].completed
            &&& twice.records[id].points_earned == once.records[id].points_earned
            &&& twice.total_points == once.total_points
            &&& twice.badges == once.badges
            &&& board_twice == board_once
        }),
{
    lemma_points_positive(difficulty);
}

/// The first pass of an exercise that holds no points earns the points of
/// its tier, adds them to the total up to the largest count there is, and
/// puts one line on the leaderboard.
pub proof fn lemma_first_pass_awards(
    p: ProgressModel,
    board: Seq<LeaderboardRow>,
    id: Seq<char>,
    difficulty: Seq<char>,
    now: i64,
)
    requires
        record_or_fresh(p.records, id).points_earned == 0,
    ensures
        ({
            let q = attempted(p, id, difficulty, true, now);
            let lines = board_after(board, p, id, difficulty, true, now);
            &&& q.records[id].points_earned == points_of(difficulty)
            &&& q.total_points == saturating_points(p.total_points, points_of(difficulty))
            &&& (p.total_points + points_of(difficulty) <= u32::MAX ==> q.total_points
                == p.total_points + points_of(difficulty))
            &&& (points_of(difficulty) >= MILESTONE_POINTS ==> q.badges.contains(
                "First Advanced"@,
            ))
            &&& lines.len() > 0
            &&& lines.last() == award_row(p, id, difficulty, now)
            &&& (board.len() < crate::persistence::LEADERBOARD_CAP ==> lines == board.push(
                award_row(p, id, difficulty, now),
            ))
        }),
{
    let points = points_of(difficulty);
    let before = record_or_fresh(p.records, id);
    let records = p.records.insert(id, passed_record(before, points, now));
    let total = saturating_points(p.total_points, points);
    let b1 = with_badge(p.badges, "First Advanced"@, points >= MILESTONE_POINTS);
    let b2 = with_badge(
        b1,
        "Getting Serious"@,
        completed_ids(records).len() >= SERIOUS_COMPLETIONS,
    );
    let b3 = with_badge(b2, "Century"@, total >= CENTURY_POINTS);
    lemma_with_badge(p.badges, "First Advanced"@, points >= MILESTONE_POINTS);
    lemma_with_badge(b1, "Getting Serious"@, completed_ids(records).len() >= SERIOUS_COMPLETIONS);
    lemma_with_badge(b2, "Century"@, total >= CENTURY_POINTS);
    if points >= MILESTONE_POINTS {
        let k = choose|k: int| 0 <= k < b1.len() && b1[k] == "First Advanced"@;
        assert(b2.take(b1.len() as int)[k] == b2[k]);
        assert(b3.take(b2.len() as int)[k] == b3[k]);
        assert(b3[k] == "First Advanced"@);
    }
}

/// Over passing attempts the best duration never grows, and the last
/// duration is the time from the last start to the latest pass. Where no
/// start is known a pass leaves both as they were.
pub proof fn lemma_durations(
    p: ProgressModel,
    id: Seq<char>,
    difficulty: Seq<char>,
    now: i64,
)
    ensures
        ({
            let before = record_or_fresh(p.records, id);
            let after = attempted(p, id, difficulty, true, now).records[id];
            &&& after.last_started_at == before.last_started_at
            &&& match before.last_started_at {
                Some(start) => {
                    &&& after.last_duration_secs == Some(elapsed_secs(start, now))
                    &&& after.best_duration_secs is Some
                    &&& after.best_duration_secs->0 <= elapsed_secs(start, now)
                    &&& (before.best_duration_secs matches Some(best)
                        ==> after.best_duration_secs->0 <= best)
                    &&& (after.best_duration_secs->0 == elapsed_secs(start, now)
                        || before.best_duration_secs == after.best_duration_secs)
                },
                None => {
                    &&& after.last_duration_secs == before.last_duration_secs
                    &&& after.best_duration_secs == before.best_duration_secs
                },
            }
        }),
{
}


/// Whether a compiler error code stands in `s` at place `i`: the letter
/// `E` and four digits.
pub open spec fn is_code_at(s: Seq<char>, i: int) -> bool {
    &&& 0 <= i
    &&& i + 5 <= s.len()
    &&& s[i] == 'E'
    &&& is_digit(s[i + 1])
    &&& is_digit(s[i + 2])
    &&& is_digit(s[i + 3])
    &&& is_digit(s[i + 4])
}

/// The codes with `code` added at the end, unless it is among them.
pub open spec fn with_code(codes: Seq<Seq<char>>, code: Seq<char>) -> Seq<Seq<char>> {
    if codes.contains(code) {
        codes
    } else {
        codes.push(code)
    }
}

/// The codes found when `s` is read from place `i` on, after `found`. The
/// reading goes on behind a code, so codes do not overlap.
pub open spec fn codes_from(s: Seq<char>, i: int, found: Seq<Seq<char>>) -> Seq<Seq<char>>
    decreases s.len() - i,
{
    if i < 0 || i + 5 > s.len() {
        found
    } else if is_code_at(s, i) {
        codes_from(s, i + 5, with_code(found, s.subrange(i, i + 5)))
    } else {
        codes_from(s, i + 1, found)
    }
}

/// The compiler error codes that `s` names, each once, in the order in
/// which they first appear.
pub open spec fn error_codes(s: Seq<char>) -> Seq<Seq<char>> {
    codes_from(s, 0, Seq::empty())
}

/// Whether `code` has the shape of a compiler error code.
pub open spec fn is_code(code: Seq<char>) -> bool {
    code.len() == 5 && is_code_at(code, 0)
}

/// Reading on keeps what was found, adds only codes that stand in the
/// text, and adds none twice.
pub proof fn lemma_codes_from(s: Seq<char>, i: int, found: Seq<Seq<char>>)
    requires
        crate::persistence::no_duplicates(found),
        forall|k: int| 0 <= k < found.len() ==> is_code(#[trigger] found[k]),
    ensures
        crate::persistence::no_duplicates(codes_from(s, i, found)),
        forall|k: int|
            0 <= k < codes_from(s, i, found).len() ==> is_code(#[trigger] codes_from(s, i, found)[k]),
        found.len() <= codes_from(s, i, found).len(),
        codes_from(s, i, found).take(found.len() as int) == found,
    decreases s.len() - i,
{
    if i < 0 || i + 5 > s.len() {
        assert(found.take(found.len() as int) =~= found);
    } else if is_code_at(s, i) {
        let code = s.subrange(i, i + 5);
        let next = with_code(found, code);
        assert(is_code(code));
        assert(crate::persistence::no_duplicates(next)) by {
            if !found.contains(code) {
                assert forall|a: int, b: int| 0 <= a < b < next.len() implies next[a]
                    != next[b] by {
                    if b == found.len() {
                        assert(found.contains(found[a]));
                    }
                }
            }
        }
        lemma_codes_from(s, i + 5, next);
        assert(codes_from(s, i, found).take(found.len() as int) =~= codes_from(
            s,
            i + 5,
            next,
        ).take(next.len() as int).take(found.len() as int));
        assert(next.take(found.len() as int) =~= found);
    } else {
        lemma_codes_from(s, i + 1, found);
    }
}

/// Finds the compiler error codes that the output of a failed run names.
pub fn extract_error_codes(stderr: &str) -> (codes: Vec<String>)
    ensures
        codes.deep_view() == error_codes(stderr@),
        crate::persistence::no_duplicates(codes.deep_view()),
        forall|k: int| 0 <= k < codes@.len() ==> is_code(#[trigger] codes@[k]@),
{
    let text = chars_of(stderr);
    let n = text.len();
    let mut codes: Vec<String> = Vec::new();
    let mut i: usize = 0;
    proof {
        assert(codes.deep_view() =~= Seq::<Seq<char>>::empty());
        lemma_codes_from(stderr@, 0, Seq::empty());
    }
    if n < 5 {
        return codes;
    }
    while i <= n - 5
        invariant
            5 <= n,
            n == stderr@.len(),
            n == text@.len(),
            text@ == stderr@,
            i <= n,
            codes_from(stderr@, i as int, codes.deep_view()) == error_codes(stderr@),
        decreases n - i,
    {
        if text[i] == 'E' && is_digit_char(text[i + 1]) && is_digit_char(text[i + 2])
            && is_digit_char(text[i + 3]) && is_digit_char(text[i + 4]) {
            let code = stderr.substring_char(i, i + 5);
            let ghost before = codes.deep_view();
            let mut known = false;
            let mut k: usize = 0;
            while k < codes.len()
                invariant
                    k <= codes@.len(),
                    before == codes.deep_view(),
                    known == exists|j: int| 0 <= j < k && before[j] == code@,
                decreases codes@.len() - k,
            {
                if str_eq(codes[k].as_str(), code) {
                    assert(before[k as int] == code@);
                    known = true;
                }
                k += 1;
            }
            assert(known == before.contains(code@));
            if !known {
                codes.push(code.to_owned());
                assert(codes.deep_view() =~= before.push(code@));
            }
            i += 5;
        } else {
            i += 1;
        }
    }
    proof {
        assert forall|k: int| 0 <= k < codes@.len() implies is_code(#[trigger] codes@[k]@) by {
            assert(codes.deep_view()[k] == codes@[k]@);
        }
    }
    codes
}

/// Where the meaning of a compiler error code is explained.
pub open spec fn help_address(code: Seq<char>) -> Seq<char> {
    "https://doc.rust-lang.org/error_codes/"@ + code + ".html"@
}

/// The address of the page that explains `code`.
pub fn help_url(code: &str) -> (url: String)
    ensures
        url@ == help_address(code@),
{
    let mut url = "https://doc.rust-lang.org/error_codes/".to_owned();
    url.append(code);
    url.append(".html");
    url
}


/// Why an exercise cannot be taken up.
#[derive(Debug, Clone)]
pub enum EngineError {
    /// The catalog holds no exercise of the id.
    NotFound { id: String },
    /// The exercise before this one in its tier is not completed.
    Locked { id: String },
}

/// The words of the error for an id that the catalog does not hold.
pub open spec fn not_found_text(id: Seq<char>) -> Seq<char> {
    "Exercise '"@ + id + "' not found"@
}

/// The words of the error for a locked exercise: they name what is asked
/// for and the way round it.
pub open spec fn locked_text(id: Seq<char>) -> Seq<char> {
    "Exercise '"@ + id
        + "' is locked. Complete the previous lesson first (or set RUST_GAME_FORCE=1)."@
}

impl EngineError {
    /// The error in words.
    pub fn message(&self) -> (text: String)
        ensures
            text@ == match self {
                EngineError::NotFound { id } => not_found_text(id@),
                EngineError::Locked { id } => locked_text(id@),
            },
    {
        let mut text = "Exercise '".to_owned();
        match self {
            EngineError::NotFound { id } => {
                text.append(id.as_str());
                text.append("' not found");
            },
            EngineError::Locked { id } => {
                text.append(id.as_str());
                text.append(
                    "' is locked. Complete the previous lesson first (or set RUST_GAME_FORCE=1).",
                );
            },
        }
        text
    }
}

/// The exercise of the id `id`: the first that the catalog holds under it.
pub fn load_by_id<'a>(all: &'a Vec<Exercise>, id: &str) -> (r: Result<&'a Exercise, EngineError>)
    ensures
        match r {
            Ok(ex) => exists|t: int| is_first_with_id(models(all@), id@, t) && all@[t] == *ex,
            Err(e) => {
                &&& forall|i: int| 0 <= i < all@.len() ==> all@[i].meta.id@ != id@
                &&& e matches EngineError::NotFound { id: named }
                &&& named@ == id@
            },
        },
{
    match find_by_id(all, id) {
        Some(t) => Ok(&all[t]),
        None => Err(EngineError::NotFound { id: id.to_owned() }),
    }
}

/// Decides whether the learner may start the exercise `id`, and says where
/// in the catalog it stands. An id that the catalog does not hold is not
/// found, whatever the override says; an exercise that is not open is
/// locked.
pub fn admit_start(resolver: &Resolver, all: &Vec<Exercise>, progress: &Progress, id: &str) -> (r:
    Result<usize, EngineError>)
    requires
        resolver.wf(),
        progress.wf(),
    ensures
        match r {
            Ok(t) => {
                &&& is_first_with_id(models(all@), id@, t as int)
                &&& resolver.unlocks(models(all@), progress@, id@)
            },
            Err(EngineError::NotFound { id: named }) => {
                &&& forall|i: int| 0 <= i < all@.len() ==> all@[i].meta.id@ != id@
                &&& named@ == id@
            },
            Err(EngineError::Locked { id: named }) => {
                &&& exists|t: int| is_first_with_id(models(all@), id@, t)
                &&& !resolver.unlocks(models(all@), progress@, id@)
                &&& named@ == id@
            },
        },
{
    match find_by_id(all, id) {
        None => Err(EngineError::NotFound { id: id.to_owned() }),
        Some(t) => {
            if resolver.is_unlocked(all, progress, id) {
                Ok(t)
            } else {
                Err(EngineError::Locked { id: id.to_owned() })
            }
        },
    }
}

/// The source that a run over all exercises grades: the learner's working
/// copy where there is one, else the starter of the exercise.
pub fn source_for(ex: &Exercise, working_file: String, working_copy_exists: bool) -> (source: String)
    ensures
        source@ == if working_copy_exists {
            working_file@
        } else {
            ex.starter_rs@
        },
{
    if working_copy_exists {
        working_file
    } else {
        ex.starter_rs.clone()
    }
}

/// How many exercises a run over all of them has graded, and how many of
/// those passed.
#[derive(Debug, Clone, Copy)]
pub struct Tally {
    pub total: usize,
    pub passed: usize,
}

/// The closing line of a run over all exercises.
pub open spec fn summary_text(tally: Tally) -> Seq<char> {
    "Summary: "@ + decimal(tally.passed as nat) + "/"@ + decimal(tally.total as nat) + " passed"@
}

impl Tally {
    /// Nothing graded yet.
    pub fn new() -> (tally: Tally)
        ensures
            tally.total == 0,
            tally.passed == 0,
    {
        Tally { total: 0, passed: 0 }
    }

    /// Takes in the verdict of one more exercise.
    pub fn record(&mut self, outcome: &GradeOutcome)
        requires
            old(self).passed <= old(self).total < usize::MAX,
        ensures
            final(self).total == old(self).total + 1,
            final(self).passed == old(self).passed + if outcome.passed {
                1int
            } else {
                0int
            },
            final(self).passed <= final(self).total,
    {
        self.total = self.total + 1;
        if outcome.passed {
            self.passed = self.passed + 1;
        }
    }

    /// The closing line: how many of how many passed.
    pub fn summary(&self) -> (text: String)
        ensures
            text@ == summary_text(*self),
    {
        let mut text = "Summary: ".to_owned();
        text.append(decimal_string(self.passed as u64).as_str());
        text.append("/");
        text.append(decimal_string(self.total as u64).as_str());
        text.append(" passed");
        text
    }
}

/// The record after the quiz of its exercise was answered: a right answer
/// completes the quiz, a wrong one changes nothing.
pub open spec fn quiz_answered(p: ProgressModel, id: Seq<char>, correct: bool) -> ProgressModel {
    if correct {
        ProgressModel {
            records: p.records.insert(
                id,
                ExerciseProgress { quiz_completed: true, ..record_or_fresh(p.records, id) },
            ),
            ..p
        }
    } else {
        p
    }
}

/// Takes the learner's answer to a question of the quiz of the exercise
/// `id` and says whether it is right.
pub fn record_quiz_answer(progress: &mut Progress, id: &str, question: &Question, choice: usize) -> (correct:
    bool)
    requires
        old(progress).wf(),
    ensures
        correct == (choice == question.answer_index),
        final(progress).wf(),
        final(progress)@ == quiz_answered(old(progress)@, id@, correct),
{
    let correct = question.is_correct(choice);
    if correct {
        let mut record = match progress.get(id) {
            Some(r) => r,
            None => ExerciseProgress::default(),
        };
        record.quiz_completed = true;
        progress.put(id, record);
    }
    correct
}

} // verus!
