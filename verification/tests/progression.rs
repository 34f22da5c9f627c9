use rust_game::engine::{
    admit_start, elapsed, extract_error_codes, help_url, load_by_id, points_for, record_attempt,
    record_quiz_answer, record_start, source_for, EngineError, Tally,
};
use rust_game::exercise::{Exercise, ExerciseMeta};
use rust_game::grader::GradeOutcome;
use rust_game::persistence::{
    add_leaderboard_entry, ExerciseProgress, LeaderboardEntry, Progress, LEADERBOARD_CAP,
};
use rust_game::quiz::Question;
use rust_game::unlock::{find_by_id, CatalogOrder, Resolver, UNRANKED};

fn exercise(id: &str, difficulty: &str) -> Exercise {
    Exercise {
        meta: ExerciseMeta {
            id: id.to_string(),
            title: id.to_string(),
            difficulty: difficulty.to_string(),
            hint: None,
            timeout_secs: None,
        },
        root: format!("lessons/{}", id),
        starter_rs: format!("lessons/{}/starter.rs", id),
        tests_rs: format!("lessons/{}/tests.rs", id),
        solution_rs: None,
        explanation_md: None,
    }
}

fn pass() -> GradeOutcome {
    GradeOutcome::finished(true, String::new(), String::new())
}

fn fail() -> GradeOutcome {
    GradeOutcome::finished(false, "out".to_string(), "err".to_string())
}

fn line(n: i64) -> LeaderboardEntry {
    LeaderboardEntry {
        name: format!("p{}", n),
        avatar: None,
        lesson_id: "intro/x".to_string(),
        points: 10,
        duration_secs: None,
        timestamp: n,
    }
}

#[test]
fn three_beginner_exercises_unlock_in_turn() {
    let all = vec![
        exercise("intro/a", "beginner"),
        exercise("intro/b", "beginner"),
        exercise("intro/c", "beginner"),
    ];
    let resolver = Resolver::new(false);
    let mut progress = Progress::new();
    let mut board = Vec::new();
    assert!(resolver.is_unlocked(&all, &progress, "intro/a"));
    assert!(!resolver.is_unlocked(&all, &progress, "intro/b"));
    assert!(!resolver.is_unlocked(&all, &progress, "intro/c"));
    record_attempt(&mut progress, &mut board, &all[0], &pass(), 100);
    assert!(resolver.is_unlocked(&all, &progress, "intro/b"));
    assert!(!resolver.is_unlocked(&all, &progress, "intro/c"));
}

#[test]
fn a_failed_predecessor_keeps_the_next_locked() {
    let all = vec![exercise("intro/a", "beginner"), exercise("intro/b", "beginner")];
    let resolver = Resolver::new(false);
    let mut progress = Progress::new();
    let mut board = Vec::new();
    record_attempt(&mut progress, &mut board, &all[0], &fail(), 100);
    assert!(!resolver.is_unlocked(&all, &progress, "intro/b"));
}

#[test]
fn the_order_of_a_tier_goes_by_rank_then_id() {
    // `variables` is listed before `ownership`; `zebra` and `apple` are not listed.
    let all = vec![
        exercise("intro/apple", "beginner"),
        exercise("intro/ownership", "beginner"),
        exercise("intro/variables", "beginner"),
        exercise("intro/zebra", "beginner"),
    ];
    let resolver = Resolver::new(false);
    let mut progress = Progress::new();
    let mut board = Vec::new();
    assert!(resolver.is_unlocked(&all, &progress, "intro/variables"));
    assert!(!resolver.is_unlocked(&all, &progress, "intro/ownership"));
    assert!(!resolver.is_unlocked(&all, &progress, "intro/apple"));
    record_attempt(&mut progress, &mut board, &all[2], &pass(), 1);
    assert!(resolver.is_unlocked(&all, &progress, "intro/ownership"));
    assert!(!resolver.is_unlocked(&all, &progress, "intro/apple"));
    record_attempt(&mut progress, &mut board, &all[1], &pass(), 2);
    // behind the listed names, the others follow by id
    assert!(resolver.is_unlocked(&all, &progress, "intro/apple"));
    assert!(!resolver.is_unlocked(&all, &progress, "intro/zebra"));
}

#[test]
fn each_tier_has_its_own_head() {
    let all = vec![
        exercise("advanced/arc_mutex_counter", "advanced"),
        exercise("intermediate/lifetimes_longest", "intermediate"),
        exercise("intro/variables", "beginner"),
    ];
    let resolver = Resolver::new(false);
    let progress = Progress::new();
    assert!(resolver.is_unlocked(&all, &progress, "advanced/arc_mutex_counter"));
    assert!(resolver.is_unlocked(&all, &progress, "intermediate/lifetimes_longest"));
    assert!(resolver.is_unlocked(&all, &progress, "intro/variables"));
}

#[test]
fn an_unknown_id_is_locked_unless_forced() {
    let all = vec![exercise("intro/a", "beginner"), exercise("intro/b", "beginner")];
    let progress = Progress::new();
    assert!(!Resolver::new(false).is_unlocked(&all, &progress, "intro/nope"));
    assert!(Resolver::new(true).is_unlocked(&all, &progress, "intro/nope"));
    assert!(Resolver::new(true).is_unlocked(&all, &progress, "intro/b"));
}

#[test]
fn ranks_of_the_standard_order() {
    let order = CatalogOrder::standard();
    assert_eq!(order.rank("beginner", "variables"), 0);
    assert_eq!(order.rank("beginner", "traits"), 11);
    assert_eq!(order.rank("intermediate", "thiserror"), 6);
    assert_eq!(order.rank("advanced", "tokio_mpsc"), 3);
    // any other tier is ranked by the advanced list
    assert_eq!(order.rank("expert", "channels_mpsc"), 2);
    assert_eq!(order.rank("beginner", "tokio_mpsc"), UNRANKED);
    assert_eq!(order.rank("beginner", ""), 999);
    assert_eq!(order.rank_of_exercise(&exercise("a/b/hashmap", "beginner")), 8);
    assert_eq!(order.rank_of_exercise(&exercise("hashmap", "beginner")), 8);
    assert_eq!(order.rank_of_exercise(&exercise("hashmap/", "beginner")), 999);
}

#[test]
fn precedes_is_strict() {
    let order = CatalogOrder::standard();
    let a = exercise("intro/a", "beginner");
    let b = exercise("intro/b", "beginner");
    let v = exercise("intro/variables", "beginner");
    assert!(order.precedes(&a, &b));
    assert!(!order.precedes(&b, &a));
    assert!(!order.precedes(&a, &a));
    assert!(order.precedes(&v, &a));
}

#[test]
fn find_by_id_gives_the_first_place() {
    let all = vec![
        exercise("intro/a", "beginner"),
        exercise("intro/b", "beginner"),
        exercise("intro/b", "advanced"),
    ];
    assert_eq!(find_by_id(&all, "intro/b"), Some(1));
    assert_eq!(find_by_id(&all, "intro/c"), None);
    assert_eq!(load_by_id(&all, "intro/b").unwrap().meta.difficulty, "beginner");
    match load_by_id(&all, "intro/zz") {
        Err(e) => assert_eq!(e.message(), "Exercise 'intro/zz' not found"),
        Ok(_) => panic!("found an exercise that is not there"),
    }
}

#[test]
fn admit_start_names_the_reason() {
    let all = vec![exercise("intro/a", "beginner"), exercise("intro/b", "beginner")];
    let progress = Progress::new();
    let resolver = Resolver::new(false);
    assert_eq!(admit_start(&resolver, &all, &progress, "intro/a").unwrap(), 0);
    match admit_start(&resolver, &all, &progress, "intro/b") {
        Err(EngineError::Locked { id }) => {
            assert_eq!(id, "intro/b");
            assert_eq!(
                EngineError::Locked { id }.message(),
                "Exercise 'intro/b' is locked. Complete the previous lesson first (or set RUST_GAME_FORCE=1)."
            );
        }
        _ => panic!("a locked exercise was admitted"),
    }
    assert!(matches!(
        admit_start(&resolver, &all, &progress, "intro/q"),
        Err(EngineError::NotFound { .. })
    ));
    // the override opens what is there, and only that
    let forced = Resolver::new(true);
    assert_eq!(admit_start(&forced, &all, &progress, "intro/b").unwrap(), 1);
    assert!(matches!(
        admit_start(&forced, &all, &progress, "intro/q"),
        Err(EngineError::NotFound { .. })
    ));
}

#[test]
fn a_start_sets_the_first_time_once() {
    let mut progress = Progress::new();
    record_start(&mut progress, "intro/a", 100);
    let r = progress.get("intro/a").unwrap();
    assert_eq!(r.first_started_at, Some(100));
    assert_eq!(r.last_started_at, Some(100));
    assert_eq!(r.attempts, 0);
    assert!(!r.completed);
    record_start(&mut progress, "intro/a", 250);
    let r = progress.get("intro/a").unwrap();
    assert_eq!(r.first_started_at, Some(100));
    assert_eq!(r.last_started_at, Some(250));
    assert_eq!(progress.exercises.len(), 1);
    assert!(progress.get("intro/b").is_none());
}

#[test]
fn a_test_that_always_fails_only_counts_attempts() {
    let ex = exercise("intro/a", "beginner");
    let mut progress = Progress::new();
    let mut board = Vec::new();
    record_start(&mut progress, "intro/a", 10);
    for n in 1..=4u32 {
        let r = record_attempt(&mut progress, &mut board, &ex, &fail(), 20 + n as i64);
        assert_eq!(r.attempts, n);
        assert!(!r.completed);
        assert_eq!(r.completed_at, None);
        assert_eq!(r.last_duration_secs, None);
        assert_eq!(r.best_duration_secs, None);
        assert_eq!(r.points_earned, 0);
        assert_eq!(progress.total_points, 0);
        assert!(progress.badges.is_empty());
        assert!(board.is_empty());
    }
}

#[test]
fn a_first_advanced_pass_earns_fifty_points_and_the_badge_once() {
    let ex = exercise("advanced/channels_mpsc", "advanced");
    let mut progress = Progress::new();
    let mut board = Vec::new();
    let r = record_attempt(&mut progress, &mut board, &ex, &pass(), 1000);
    assert_eq!(r.points_earned, 50);
    assert_eq!(progress.total_points, 50);
    assert_eq!(progress.badges, vec!["First Advanced".to_string()]);
    assert_eq!(board.len(), 1);
    let r = record_attempt(&mut progress, &mut board, &ex, &pass(), 2000);
    assert_eq!(r.attempts, 2);
    assert_eq!(r.points_earned, 50);
    assert_eq!(progress.total_points, 50);
    assert_eq!(progress.badges, vec!["First Advanced".to_string()]);
    assert_eq!(board.len(), 1);
}

#[test]
fn passing_twice_awards_once() {
    let ex = exercise("intro/a", "beginner");
    let mut progress = Progress::new();
    let mut board = Vec::new();
    record_attempt(&mut progress, &mut board, &ex, &pass(), 5);
    let points = progress.get("intro/a").unwrap().points_earned;
    let total = progress.total_points;
    let badges = progress.badges.clone();
    let lines = board.len();
    assert_eq!((points, total, lines), (10, 10, 1));
    let r = record_attempt(&mut progress, &mut board, &ex, &pass(), 6);
    assert_eq!(r.attempts, 2);
    assert!(r.completed);
    assert_eq!(r.completed_at, Some(6));
    assert_eq!(r.points_earned, points);
    assert_eq!(progress.total_points, total);
    assert_eq!(progress.badges, badges);
    assert_eq!(board.len(), lines);
}

#[test]
fn points_go_by_tier() {
    assert_eq!(points_for("beginner"), 10);
    assert_eq!(points_for("intermediate"), 25);
    assert_eq!(points_for("advanced"), 50);
    assert_eq!(points_for("expert"), 50);
    assert_eq!(points_for(""), 50);
    assert_eq!(points_for("Beginner"), 50);
}

#[test]
fn the_best_duration_never_grows() {
    let ex = exercise("intro/a", "beginner");
    let mut progress = Progress::new();
    let mut board = Vec::new();
    record_start(&mut progress, "intro/a", 100);
    let r = record_attempt(&mut progress, &mut board, &ex, &pass(), 160);
    assert_eq!((r.last_duration_secs, r.best_duration_secs), (Some(60), Some(60)));
    record_start(&mut progress, "intro/a", 200);
    let r = record_attempt(&mut progress, &mut board, &ex, &pass(), 290);
    assert_eq!((r.last_duration_secs, r.best_duration_secs), (Some(90), Some(60)));
    record_start(&mut progress, "intro/a", 300);
    let r = record_attempt(&mut progress, &mut board, &ex, &pass(), 310);
    assert_eq!((r.last_duration_secs, r.best_duration_secs), (Some(10), Some(10)));
    // a failed attempt leaves both alone
    let r = record_attempt(&mut progress, &mut board, &ex, &fail(), 900);
    assert_eq!((r.last_duration_secs, r.best_duration_secs), (Some(10), Some(10)));
    // the clock went back: the duration is held at zero
    record_start(&mut progress, "intro/a", 1000);
    let r = record_attempt(&mut progress, &mut board, &ex, &pass(), 990);
    assert_eq!((r.last_duration_secs, r.best_duration_secs), (Some(0), Some(0)));
}

#[test]
fn a_pass_without_a_start_has_no_duration() {
    let ex = exercise("intro/a", "beginner");
    let mut progress = Progress::new();
    let mut board = Vec::new();
    let r = record_attempt(&mut progress, &mut board, &ex, &pass(), 50);
    assert!(r.completed);
    assert_eq!(r.completed_at, Some(50));
    assert_eq!(r.last_duration_secs, None);
    assert_eq!(r.best_duration_secs, None);
    assert_eq!(board[0].duration_secs, None);
}

#[test]
fn elapsed_spans_the_whole_range() {
    assert_eq!(elapsed(10, 25), 15);
    assert_eq!(elapsed(25, 10), 0);
    assert_eq!(elapsed(7, 7), 0);
    assert_eq!(elapsed(i64::MIN, i64::MAX), u64::MAX);
    assert_eq!(elapsed(-5, 5), 10);
}

#[test]
fn the_leaderboard_line_tells_who_and_what() {
    let ex = exercise("intermediate/rc_refcell", "intermediate");
    let mut progress = Progress::new();
    progress.display_name = Some("Ada".to_string());
    progress.avatar = Some("A".to_string());
    let mut board = Vec::new();
    record_start(&mut progress, "intermediate/rc_refcell", 40);
    record_attempt(&mut progress, &mut board, &ex, &pass(), 100);
    assert_eq!(board.len(), 1);
    assert_eq!(board[0].name, "Ada");
    assert_eq!(board[0].avatar, Some("A".to_string()));
    assert_eq!(board[0].lesson_id, "intermediate/rc_refcell");
    assert_eq!(board[0].points, 25);
    assert_eq!(board[0].duration_secs, Some(60));
    assert_eq!(board[0].timestamp, 100);
    // without a display name the line goes to `Player`
    let other = exercise("intro/a", "beginner");
    progress.display_name = None;
    record_attempt(&mut progress, &mut board, &other, &pass(), 101);
    assert_eq!(board[1].name, "Player");
}

#[test]
fn badges_come_at_their_thresholds() {
    let mut progress = Progress::new();
    let mut board = Vec::new();
    for (n, id) in ["a", "b", "c", "d"].iter().enumerate() {
        let ex = exercise(&format!("intro/{}", id), "beginner");
        record_attempt(&mut progress, &mut board, &ex, &pass(), n as i64);
    }
    assert_eq!(progress.total_points, 40);
    assert!(progress.badges.is_empty());
    assert_eq!(progress.completed_count(), 4);
    // the fifth completed exercise
    record_attempt(&mut progress, &mut board, &exercise("intro/e", "beginner"), &pass(), 9);
    assert_eq!(progress.badges, vec!["Getting Serious".to_string()]);
    // fifty points in one exercise, and a hundred in total, at once
    record_attempt(&mut progress, &mut board, &exercise("adv/x", "advanced"), &pass(), 10);
    assert_eq!(progress.total_points, 100);
    assert_eq!(
        progress.badges,
        vec!["Getting Serious".to_string(), "First Advanced".to_string(), "Century".to_string()]
    );
    record_attempt(&mut progress, &mut board, &exercise("adv/y", "advanced"), &pass(), 11);
    assert_eq!(progress.total_points, 150);
    assert_eq!(progress.badges.len(), 3);
}

#[test]
fn the_total_is_held_at_the_largest_count() {
    let mut progress = Progress::new();
    progress.total_points = u32::MAX - 20;
    let mut board = Vec::new();
    record_attempt(&mut progress, &mut board, &exercise("adv/x", "advanced"), &pass(), 1);
    assert_eq!(progress.total_points, u32::MAX);
    let mut exact = Progress::new();
    exact.total_points = u32::MAX - 10;
    record_attempt(&mut exact, &mut board, &exercise("intro/x", "beginner"), &pass(), 1);
    assert_eq!(exact.total_points, u32::MAX);
}

#[test]
fn points_already_on_the_record_are_kept() {
    let mut progress = Progress::new();
    let mut record = ExerciseProgress::default();
    record.points_earned = 7;
    progress.put("intro/a", record);
    let mut board = Vec::new();
    let r = record_attempt(&mut progress, &mut board, &exercise("intro/a", "beginner"), &pass(), 1);
    assert_eq!(r.points_earned, 7);
    assert!(r.completed);
    assert_eq!(progress.total_points, 0);
    assert!(board.is_empty());
}

#[test]
fn the_2001st_entry_pushes_the_oldest_out() {
    let mut board = Vec::new();
    for n in 0..2000 {
        add_leaderboard_entry(&mut board, line(n));
    }
    assert_eq!(board.len(), 2000);
    assert_eq!(board[0].timestamp, 0);
    add_leaderboard_entry(&mut board, line(2000));
    assert_eq!(board.len(), 2000);
    assert_eq!(board.len(), LEADERBOARD_CAP);
    assert_eq!(board[0].timestamp, 1);
    assert_eq!(board[1999].timestamp, 2000);
}

#[test]
fn an_overlong_leaderboard_is_cut_to_the_cap() {
    let mut board: Vec<LeaderboardEntry> = (0..2500).map(line).collect();
    add_leaderboard_entry(&mut board, line(2500));
    assert_eq!(board.len(), 2000);
    assert_eq!(board[0].timestamp, 501);
    assert_eq!(board[1999].timestamp, 2500);
}

#[test]
fn the_eviction_goes_by_insertion_not_by_time() {
    let mut board = Vec::new();
    add_leaderboard_entry(&mut board, line(9_000_000));
    for n in 1..2000 {
        add_leaderboard_entry(&mut board, line(n));
    }
    add_leaderboard_entry(&mut board, line(0));
    assert_eq!(board.len(), 2000);
    assert_eq!(board[0].timestamp, 1);
    assert_eq!(board[1999].timestamp, 0);
}

#[test]
fn progress_records_are_kept_by_id() {
    let mut progress = Progress::new();
    assert!(progress.has_distinct_ids());
    assert_eq!(progress.total_points, 0);
    assert_eq!(progress.display_name, Some("Player".to_string()));
    assert_eq!(progress.avatar, Some("🦀".to_string()));
    assert_eq!(progress.theme, Some("Dark".to_string()));
    let mut r = ExerciseProgress::default();
    assert_eq!(r.attempts, 0);
    r.completed = true;
    progress.put("x", r);
    r.attempts = 3;
    progress.put("y", r);
    progress.put("x", r);
    assert_eq!(progress.exercises.len(), 2);
    assert_eq!(progress.position("y"), Some(1));
    assert_eq!(progress.get("x").unwrap().attempts, 3);
    assert!(progress.is_completed("x"));
    assert!(!progress.is_completed("z"));
    assert_eq!(progress.completed_count(), 2);
    let twice = progress.exercises[0].clone();
    progress.exercises.push(twice);
    assert!(!progress.has_distinct_ids());
}

#[test]
fn error_codes_are_found_once_each() {
    let stderr = "error[E0382]: borrow of moved value\nerror[E0502]: cannot borrow\nsee E0382";
    assert_eq!(extract_error_codes(stderr), vec!["E0382".to_string(), "E0502".to_string()]);
    assert_eq!(extract_error_codes(""), Vec::<String>::new());
    assert_eq!(extract_error_codes("E123"), Vec::<String>::new());
    assert_eq!(extract_error_codes("E1234"), vec!["E1234".to_string()]);
    assert_eq!(extract_error_codes("E12345"), vec!["E1234".to_string()]);
    assert_eq!(extract_error_codes("EE0001E0002"), vec!["E0001".to_string(), "E0002".to_string()]);
    assert_eq!(extract_error_codes("é E0499 ü"), vec!["E0499".to_string()]);
    assert_eq!(extract_error_codes("e0499 E04x9"), Vec::<String>::new());
    assert_eq!(extract_error_codes("E١٢٣٤"), Vec::<String>::new());
}

#[test]
fn help_pages_go_by_code() {
    assert_eq!(help_url("E0382"), "https://doc.rust-lang.org/error_codes/E0382.html");
}

#[test]
fn a_run_over_all_takes_the_working_copy_if_there_is_one() {
    let ex = exercise("intro/a", "beginner");
    assert_eq!(source_for(&ex, "work/intro_a/lib.rs".to_string(), true), "work/intro_a/lib.rs");
    assert_eq!(
        source_for(&ex, "work/intro_a/lib.rs".to_string(), false),
        "lessons/intro/a/starter.rs"
    );
}

#[test]
fn the_tally_sums_up() {
    let mut tally = Tally::new();
    assert_eq!(tally.summary(), "Summary: 0/0 passed");
    tally.record(&pass());
    tally.record(&fail());
    tally.record(&pass());
    assert_eq!((tally.passed, tally.total), (2, 3));
    assert_eq!(tally.summary(), "Summary: 2/3 passed");
    for _ in 0..10 {
        tally.record(&pass());
    }
    assert_eq!(tally.summary(), "Summary: 12/13 passed");
}

#[test]
fn a_right_answer_completes_the_quiz() {
    let q = Question {
        prompt: "2 + 2?".to_string(),
        options: vec!["3".to_string(), "4".to_string()],
        answer_index: 1,
    };
    let mut progress = Progress::new();
    assert!(!record_quiz_answer(&mut progress, "intro/a", &q, 0));
    assert!(progress.get("intro/a").is_none());
    assert!(record_quiz_answer(&mut progress, "intro/a", &q, 1));
    let r = progress.get("intro/a").unwrap();
    assert!(r.quiz_completed);
    assert!(!r.completed);
    assert_eq!(r.attempts, 0);
    assert!(!record_quiz_answer(&mut progress, "intro/a", &q, 5));
    assert!(progress.get("intro/a").unwrap().quiz_completed);
}

#[test]
fn a_tier_is_listed_in_its_order() {
    let all = vec![
        exercise("intro/zebra", "beginner"),
        exercise("advanced/channels_mpsc", "advanced"),
        exercise("intro/ownership", "beginner"),
        exercise("intro/apple", "beginner"),
        exercise("advanced/arc_mutex_counter", "advanced"),
        exercise("intro/variables", "beginner"),
        exercise("other/traits_dyn_dispatch", "expert"),
    ];
    let order = CatalogOrder::standard();
    assert_eq!(order.tier_listing(&all, "beginner"), vec![5, 2, 3, 0]);
    assert_eq!(order.tier_listing(&all, "advanced"), vec![4, 1]);
    assert_eq!(order.tier_listing(&all, "expert"), vec![6]);
    assert_eq!(order.tier_listing(&all, "intermediate"), Vec::<usize>::new());
    assert_eq!(order.tier_listing(&Vec::new(), "beginner"), Vec::<usize>::new());
}

#[test]
fn the_listing_tells_which_exercise_is_open() {
    let all = vec![
        exercise("intro/zebra", "beginner"),
        exercise("intro/ownership", "beginner"),
        exercise("intro/apple", "beginner"),
        exercise("intro/variables", "beginner"),
    ];
    let resolver = Resolver::new(false);
    let mut progress = Progress::default();
    let mut board = Vec::new();
    let tier = resolver.order.tier_listing(&all, "beginner");
    for round in 0..tier.len() {
        for (k, &t) in tier.iter().enumerate() {
            let open = resolver.is_unlocked(&all, &progress, &all[t].meta.id);
            let expected = k == 0 || progress.is_completed(&all[tier[k - 1]].meta.id);
            assert_eq!(open, expected, "round {} place {}", round, k);
        }
        record_attempt(&mut progress, &mut board, &all[tier[round]], &pass(), round as i64);
    }
}

#[test]
fn entries_of_one_id_stay_in_catalog_order() {
    let all = vec![
        exercise("intro/b", "beginner"),
        exercise("intro/a", "beginner"),
        exercise("intro/b", "beginner"),
        exercise("intro/a", "beginner"),
    ];
    let order = CatalogOrder::standard();
    assert_eq!(order.tier_listing(&all, "beginner"), vec![1, 3, 0, 2]);
}

#[test]
fn the_next_open_exercise_follows_in_catalog_order() {
    let all = vec![
        exercise("advanced/arc_mutex_counter", "advanced"),
        exercise("advanced/channels_mpsc", "advanced"),
        exercise("intro/ownership", "beginner"),
        exercise("intro/variables", "beginner"),
    ];
    let resolver = Resolver::new(false);
    let mut progress = Progress::new();
    let mut board = Vec::new();
    // behind the first advanced exercise the next open one is the head of the beginners
    assert_eq!(resolver.next_unlocked(&all, &progress, "advanced/arc_mutex_counter"), Some(3));
    assert_eq!(resolver.next_unlocked(&all, &progress, "intro/ownership"), Some(3));
    assert_eq!(resolver.next_unlocked(&all, &progress, "intro/variables"), None);
    assert_eq!(resolver.next_unlocked(&all, &progress, "intro/nope"), None);
    record_attempt(&mut progress, &mut board, &all[0], &pass(), 1);
    assert_eq!(resolver.next_unlocked(&all, &progress, "advanced/arc_mutex_counter"), Some(1));
    assert_eq!(Resolver::new(true).next_unlocked(&all, &Progress::new(), "advanced/channels_mpsc"), Some(2));
}
