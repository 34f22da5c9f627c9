//! Progress records, the progress aggregate and the leaderboard.
//!
//! The aggregate keeps one record per exercise id. Its view is a map from
//! ids to records, so the order in which records are stored is never part
//! of a contract.

use vstd::prelude::*;
use vstd::string::*;
use crate::path::{join_path, path_joined};

verus! {

/// Most entries that the leaderboard keeps.
pub const LEADERBOARD_CAP: usize = 2000;

/// What is known of a learner's work on one exercise.
#[derive(Debug, Clone, Copy)]
pub struct ExerciseProgress {
    pub attempts: u32,
    pub completed: bool,
    pub quiz_completed: bool,
    pub first_started_at: Option<i64>,
    pub last_started_at: Option<i64>,
    pub completed_at: Option<i64>,
    pub best_duration_secs: Option<u64>,
    pub last_duration_secs: Option<u64>,
    pub points_earned: u32,
    pub feedback_helpful: Option<bool>,
}

/// The record of an exercise that was never started nor attempted.
pub open spec fn fresh_record() -> ExerciseProgress {
    ExerciseProgress {
        attempts: 0,
        completed: false,
        quiz_completed: false,
        first_started_at: None,
        last_started_at: None,
        completed_at: None,
        best_duration_secs: None,
        last_duration_secs: None,
        points_earned: 0,
        feedback_helpful: None,
    }
}

impl Default for ExerciseProgress {
    fn default() -> (r: Self)
        ensures
            r == fresh_record(),
    {
        ExerciseProgress {
            attempts: 0,
            completed: false,
            quiz_completed: false,
            first_started_at: None,
            last_started_at: None,
            completed_at: None,
            best_duration_secs: None,
            last_duration_secs: None,
            points_earned: 0,
            feedback_helpful: None,
        }
    }
}

/// One stored record: an exercise id and the progress made on it.
#[derive(Debug, Clone)]
pub struct ProgressEntry {
    pub id: String,
    pub progress: ExerciseProgress,
}

/// The progress of one learner over all exercises, with the profile shown
/// beside it.
#[derive(Debug, Clone)]
pub struct Progress {
    pub exercises: Vec<ProgressEntry>,
    pub total_points: u32,
    pub avatar: Option<String>,
    pub display_name: Option<String>,
    pub theme: Option<String>,
    pub badges: Vec<String>,
    pub current_user_id: Option<i64>,
    pub current_username: Option<String>,
}

/// The mathematical content of a [`Progress`].
pub struct ProgressModel {
    pub records: Map<Seq<char>, ExerciseProgress>,
    pub total_points: u32,
    pub avatar: Option<Seq<char>>,
    pub display_name: Option<Seq<char>>,
    pub theme: Option<Seq<char>>,
    pub badges: Seq<Seq<char>>,
    pub current_user_id: Option<i64>,
    pub current_username: Option<Seq<char>>,
}

/// The map that a sequence of stored records stands for. Where an id occurs
/// twice the later record counts; a well-formed aggregate has no such id.
pub open spec fn records_of(entries: Seq<ProgressEntry>) -> Map<Seq<char>, ExerciseProgress>
    decreases entries.len(),
{
    if entries.len() == 0 {
        Map::empty()
    } else {
        records_of(entries.drop_last()).insert(entries.last().id@, entries.last().progress)
    }
}

/// No two stored records share an id.
pub open spec fn distinct_ids(entries: Seq<ProgressEntry>) -> bool {
    forall|i: int, j: int| 0 <= i < j < entries.len() ==> entries[i].id@ != entries[j].id@
}

/// No name occurs twice.
pub open spec fn no_duplicates(names: Seq<Seq<char>>) -> bool {
    forall|i: int, j: int| 0 <= i < j < names.len() ==> names[i] != names[j]
}

/// The ids whose record is marked completed.
pub open spec fn completed_ids(records: Map<Seq<char>, ExerciseProgress>) -> Set<Seq<char>> {
    Set::new(|k: Seq<char>| records.contains_key(k) && records[k].completed)
}

/// The record kept for `id`, or the fresh record where none is kept.
pub open spec fn record_or_fresh(
    records: Map<Seq<char>, ExerciseProgress>,
    id: Seq<char>,
) -> ExerciseProgress {
    if records.contains_key(id) {
        records[id]
    } else {
        fresh_record()
    }
}

impl View for Progress {
    type V = ProgressModel;

    open spec fn view(&self) -> ProgressModel {
        ProgressModel {
            records: records_of(self.exercises@),
            total_points: self.total_points,
            avatar: self.avatar.deep_view(),
            display_name: self.display_name.deep_view(),
            theme: self.theme.deep_view(),
            badges: self.badges.deep_view(),
            current_user_id: self.current_user_id,
            current_username: self.current_username.deep_view(),
        }
    }
}

impl ProgressModel {
    /// Whether `id` has a record that is marked completed.
    pub open spec fn is_completed(self, id: Seq<char>) -> bool {
        self.records.contains_key(id) && self.records[id].completed
    }
}

/// Facts that tie a sequence of records with distinct ids to its map.
pub proof fn lemma_records_of(entries: Seq<ProgressEntry>)
    requires
        distinct_ids(entries),
    ensures
        records_of(entries).dom().finite(),
        forall|i: int|
            0 <= i < entries.len() ==> records_of(entries).contains_key(#[trigger] entries[i].id@)
                && records_of(entries)[entries[i].id@] == entries[i].progress,
        forall|k: Seq<char>| #[trigger]
            records_of(entries).contains_key(k) ==> exists|i: int|
                0 <= i < entries.len() && entries[i].id@ == k,
    decreases entries.len(),
{
    if entries.len() > 0 {
        let front = entries.drop_last();
        lemma_records_of(front);
        assert forall|i: int| 0 <= i < entries.len() implies records_of(entries).contains_key(
            #[trigger] entries[i].id@,
        ) && records_of(entries)[entries[i].id@] == entries[i].progress by {
            if i < entries.len() - 1 {
                assert(front[i] == entries[i]);
                assert(entries[i].id@ != entries.last().id@);
            }
        }
        assert forall|k: Seq<char>| #[trigger] records_of(entries).contains_key(k) implies exists|
            i: int,
        |
            0 <= i < entries.len() && entries[i].id@ == k by {
            if k == entries.last().id@ {
                assert(entries[entries.len() - 1].id@ == k);
            } else {
                assert(records_of(front).contains_key(k));
                let i = choose|i: int| 0 <= i < front.len() && front[i].id@ == k;
                assert(entries[i].id@ == k);
            }
        }
    }
}

/// How many of the stored records are marked completed.
pub open spec fn count_completed(entries: Seq<ProgressEntry>) -> nat
    decreases entries.len(),
{
    if entries.len() == 0 {
        0
    } else {
        count_completed(entries.drop_last()) + if entries.last().progress.completed {
            1nat
        } else {
            0nat
        }
    }
}

/// With distinct ids, counting the stored records that are completed gives
/// the number of completed ids of the map.
pub proof fn lemma_count_completed(entries: Seq<ProgressEntry>)
    requires
        distinct_ids(entries),
    ensures
        completed_ids(records_of(entries)).finite(),
        completed_ids(records_of(entries)).len() == count_completed(entries),
        count_completed(entries) <= entries.len(),
    decreases entries.len(),
{
    if entries.len() == 0 {
        assert(completed_ids(records_of(entries)) =~= Set::<Seq<char>>::empty());
    } else {
        let front = entries.drop_last();
        let last = entries.last();
        lemma_count_completed(front);
        lemma_records_of(front);
        assert(!records_of(front).contains_key(last.id@)) by {
            if records_of(front).contains_key(last.id@) {
                let i = choose|i: int| 0 <= i < front.len() && front[i].id@ == last.id@;
                assert(entries[i].id@ == entries[entries.len() - 1].id@);
            }
        }
        if last.progress.completed {
            assert(completed_ids(records_of(entries)) =~= completed_ids(records_of(front)).insert(
                last.id@,
            ));
        } else {
            assert(completed_ids(records_of(entries)) =~= completed_ids(records_of(front)));
        }
    }
}

impl Default for Progress {
    /// The aggregate of a learner who has not begun.
    fn default() -> (p: Progress)
        ensures
            p.wf(),
            p@ == fresh_progress(),
    {
        Progress::new()
    }
}

/// The progress of a learner who has not begun: no records, points or
/// badges, and the profile `Player` with the crab avatar and the dark
/// theme.
pub open spec fn fresh_progress() -> ProgressModel {
    ProgressModel {
        records: Map::empty(),
        total_points: 0,
        avatar: Some("🦀"@),
        display_name: Some("Player"@),
        theme: Some("Dark"@),
        badges: Seq::empty(),
        current_user_id: None,
        current_username: None,
    }
}

impl Progress {
    /// No two stored records share an id.
    pub open spec fn wf(&self) -> bool {
        distinct_ids(self.exercises@)
    }

    /// The aggregate of a learner who has not begun.
    pub fn new() -> (p: Progress)
        ensures
            p.wf(),
            p@ == fresh_progress(),
    {
        let p = Progress {
            exercises: Vec::new(),
            total_points: 0,
            avatar: Some("🦀".to_owned()),
            display_name: Some("Player".to_owned()),
            theme: Some("Dark".to_owned()),
            badges: Vec::new(),
            current_user_id: None,
            current_username: None,
        };
        assert(p@.badges =~= Seq::<Seq<char>>::empty());
        p
    }

    /// Whether the stored records have distinct ids.
    pub fn has_distinct_ids(&self) -> (ok: bool)
        ensures
            ok == self.wf(),
    {
        let n = self.exercises.len();
        let mut j: usize = 0;
        while j < n
            invariant
                j <= n,
                n == self.exercises@.len(),
                forall|a: int, b: int| 0 <= a < b < j ==> self.exercises@[a].id@ != self.exercises@[b].id@,
            decreases n - j,
        {
            let mut i: usize = 0;
            while i < j
                invariant
                    i <= j,
                    j < n,
                    n == self.exercises@.len(),
                    forall|a: int| 0 <= a < i ==> self.exercises@[a].id@ != self.exercises@[j as int].id@,
                decreases j - i,
            {
                if self.exercises[i].id == self.exercises[j].id {
                    return false;
                }
                i += 1;
            }
            j += 1;
        }
        true
    }

    /// The first place at which a record of `id` is stored, if there is
    /// one.
    pub fn position(&self, id: &str) -> (at: Option<usize>)
        ensures
            match at {
                Some(i) => {
                    &&& i < self.exercises@.len()
                    &&& self.exercises@[i as int].id@ == id@
                    &&& forall|k: int| 0 <= k < i ==> self.exercises@[k].id@ != id@
                },
                None => forall|i: int| 0 <= i < self.exercises@.len() ==> self.exercises@[i].id@ != id@,
            },
    {
        let mut i: usize = 0;
        while i < self.exercises.len()
            invariant
                i <= self.exercises@.len(),
                forall|k: int| 0 <= k < i ==> self.exercises@[k].id@ != id@,
            decreases self.exercises@.len() - i,
        {
            if crate::text::str_eq(self.exercises[i].id.as_str(), id) {
                return Some(i);
            }
            i += 1;
        }
        None
    }

    /// The record kept for `id`.
    pub fn get(&self, id: &str) -> (found: Option<ExerciseProgress>)
        requires
            self.wf(),
        ensures
            found == if self@.records.contains_key(id@) {
                Some(self@.records[id@])
            } else {
                None
            },
    {
        proof {
            lemma_records_of(self.exercises@);
        }
        match self.position(id) {
            Some(i) => Some(self.exercises[i].progress),
            None => None,
        }
    }

    /// Whether `id` has a record that is marked completed.
    pub fn is_completed(&self, id: &str) -> (done: bool)
        requires
            self.wf(),
        ensures
            done == self@.is_completed(id@),
    {
        match self.get(id) {
            Some(record) => record.completed,
            None => false,
        }
    }

    /// Stores `record` for `id`, in place of the record that `id` had.
    pub fn put(&mut self, id: &str, record: ExerciseProgress)
        requires
            old(self).wf(),
        ensures
            final(self).wf(),
            final(self)@ == (ProgressModel {
                records: old(self)@.records.insert(id@, record),
                ..old(self)@
            }),
    {
        proof {
            lemma_records_of(self.exercises@);
        }
        match self.position(id) {
            Some(i) => {
                let ghost before = self.exercises@;
                let key = self.exercises[i].id.clone();
                self.exercises.set(i, ProgressEntry { id: key, progress: record });
                proof {
                    lemma_replace_record(before, i as int, self.exercises@[i as int]);
                }
            },
            None => {
                self.exercises.push(ProgressEntry { id: id.to_owned(), progress: record });
                assert(self.exercises@.drop_last() =~= old(self).exercises@);
            },
        }
    }

    /// How many exercises are marked completed.
    pub fn completed_count(&self) -> (n: usize)
        requires
            self.wf(),
        ensures
            n == completed_ids(self@.records).len(),
            completed_ids(self@.records).finite(),
    {
        let mut n: usize = 0;
        let mut i: usize = 0;
        proof {
            lemma_count_completed(self.exercises@);
            assert(self.exercises@.take(0) =~= Seq::<ProgressEntry>::empty());
        }
        while i < self.exercises.len()
            invariant
                i <= self.exercises@.len(),
                n == count_completed(self.exercises@.take(i as int)),
                n <= i,
            decreases self.exercises@.len() - i,
        {
            proof {
                assert(self.exercises@.take(i as int + 1).drop_last() =~= self.exercises@.take(
                    i as int,
                ));
            }
            if self.exercises[i].progress.completed {
                n += 1;
            }
            i += 1;
        }
        proof {
            assert(self.exercises@.take(i as int) =~= self.exercises@);
        }
        n
    }
}

/// Replacing the record stored at one place, under the same id, stores that
/// record for the id in the map and keeps the ids distinct.
pub proof fn lemma_replace_record(entries: Seq<ProgressEntry>, at: int, entry: ProgressEntry)
    requires
        distinct_ids(entries),
        0 <= at < entries.len(),
        entry.id@ == entries[at].id@,
    ensures
        distinct_ids(entries.update(at, entry)),
        records_of(entries.update(at, entry)) == records_of(entries).insert(
            entry.id@,
            entry.progress,
        ),
    decreases entries.len(),
{
    let after = entries.update(at, entry);
    assert(distinct_ids(after)) by {
        assert forall|i: int, j: int| 0 <= i < j < after.len() implies after[i].id@
            != after[j].id@ by {
            assert(after[i].id@ == entries[i].id@);
            assert(after[j].id@ == entries[j].id@);
        }
    }
    let front = entries.drop_last();
    if at == entries.len() - 1 {
        assert(after.drop_last() =~= front);
        assert(records_of(after) =~= records_of(entries).insert(entry.id@, entry.progress));
    } else {
        lemma_replace_record(front, at, entry);
        assert(after.drop_last() =~= front.update(at, entry));
        assert(entries.last().id@ != entry.id@);
        assert(records_of(after) =~= records_of(entries).insert(entry.id@, entry.progress));
    }
}


/// One line of the leaderboard: who earned how many points on which
/// exercise, how long it took and when.
#[derive(Debug, Clone)]
pub struct LeaderboardEntry {
    pub name: String,
    pub avatar: Option<String>,
    pub lesson_id: String,
    pub points: u32,
    pub duration_secs: Option<u64>,
    pub timestamp: i64,
}

/// The mathematical content of a [`LeaderboardEntry`].
pub struct LeaderboardRow {
    pub name: Seq<char>,
    pub avatar: Option<Seq<char>>,
    pub lesson_id: Seq<char>,
    pub points: u32,
    pub duration_secs: Option<u64>,
    pub timestamp: i64,
}

impl View for LeaderboardEntry {
    type V = LeaderboardRow;

    open spec fn view(&self) -> LeaderboardRow {
        LeaderboardRow {
            name: self.name@,
            avatar: self.avatar.deep_view(),
            lesson_id: self.lesson_id@,
            points: self.points,
            duration_secs: self.duration_secs,
            timestamp: self.timestamp,
        }
    }
}

impl DeepView for LeaderboardEntry {
    type V = LeaderboardRow;

    open spec fn deep_view(&self) -> LeaderboardRow {
        self@
    }
}

/// The newest entries of a leaderboard, as many as the cap admits, in the
/// order in which they were added.
pub open spec fn capped<T>(entries: Seq<T>) -> Seq<T> {
    if entries.len() > LEADERBOARD_CAP {
        entries.skip(entries.len() - LEADERBOARD_CAP)
    } else {
        entries
    }
}

/// Appends `entry` to the leaderboard and drops the oldest entries beyond
/// the cap.
pub fn add_leaderboard_entry(entries: &mut Vec<LeaderboardEntry>, entry: LeaderboardEntry)
    ensures
        final(entries)@ == capped(old(entries)@.push(entry)),
        final(entries)@.len() <= LEADERBOARD_CAP,
        final(entries)@.len() > 0,
        final(entries)@.last() == entry,
{
    entries.push(entry);
    let n = entries.len();
    if n > LEADERBOARD_CAP {
        let kept = entries.split_off(n - LEADERBOARD_CAP);
        *entries = kept;
        assert(entries@ =~= capped(old(entries)@.push(entry)));
    }
}

/// Adding to a full leaderboard keeps it full, removes exactly its oldest
/// entry and puts the new entry last.
pub proof fn lemma_full_board_drops_oldest<T>(entries: Seq<T>, entry: T)
    requires
        entries.len() == LEADERBOARD_CAP,
    ensures
        capped(entries.push(entry)).len() == LEADERBOARD_CAP,
        capped(entries.push(entry)) == entries.drop_first().push(entry),
{
    assert(capped(entries.push(entry)) =~= entries.drop_first().push(entry));
}

/// The views of the entries after an addition are the capped views.
pub proof fn lemma_capped_views(entries: Seq<LeaderboardEntry>)
    ensures
        Seq::new(capped(entries).len(), |i: int| capped(entries)[i]@) == capped(
            Seq::new(entries.len(), |i: int| entries[i]@),
        ),
{
    assert(Seq::new(capped(entries).len(), |i: int| capped(entries)[i]@) =~= capped(
        Seq::new(entries.len(), |i: int| entries[i]@),
    ));
}

/// The file that holds the progress, under the data directory.
pub fn progress_path(data_dir: &str) -> (path: String)
    ensures
        path@ == path_joined(data_dir@, "progress.json"@),
{
    join_path(data_dir, "progress.json")
}

/// The file that holds the leaderboard, under the data directory.
pub fn leaderboard_path(data_dir: &str) -> (path: String)
    ensures
        path@ == path_joined(data_dir@, "leaderboard.json"@),
{
    join_path(data_dir, "leaderboard.json")
}

} // verus!
