use rust_game::exercise::{Exercise, ExerciseMeta};
use rust_game::grader::{
    has_verdict, layout_for, resolve_timeout, rewrite_tests, sandbox_dir_for, sandbox_manifest,
    step, test_arguments, test_program, GradeAction, GradeEvent, GradeOutcome, GradeState,
    DEFAULT_TIMEOUT_SECS,
};
use rust_game::persistence::{leaderboard_path, progress_path};
use rust_game::path::{dir_name_of, join_path};
use rust_game::storage::{
    attempt_from_row, db_path, stored_hash, StorageError, authenticate, grant, hash_password, passed_flag, registered_user,
    stored_duration, User,
};
use rust_game::text::{
    chars_of, decimal_string, is_blank_str, join, last_segment_of, replace_all, str_eq, str_lt,
};

fn exercise(id: &str) -> Exercise {
    Exercise {
        meta: ExerciseMeta {
            id: id.to_string(),
            title: "x".to_string(),
            difficulty: "beginner".to_string(),
            hint: None,
            timeout_secs: Some(2),
        },
        root: "lesson".to_string(),
        starter_rs: "lesson/starter.rs".to_string(),
        tests_rs: "lesson/tests.rs".to_string(),
        solution_rs: None,
        explanation_md: None,
    }
}

#[test]
fn a_run_past_its_deadline_fails_with_the_timeout_message() {
    let out = GradeOutcome::timed_out(10);
    assert!(!out.passed);
    assert_eq!(out.stdout, "");
    assert_eq!(out.stderr, "Timed out after 10s");
    assert_eq!(GradeOutcome::timed_out(0).stderr, "Timed out after 0s");
    assert_eq!(
        GradeOutcome::timed_out(u64::MAX).stderr,
        "Timed out after 18446744073709551615s"
    );
}

#[test]
fn a_finished_run_passes_as_its_process_says() {
    let out = GradeOutcome::finished(true, "ok".to_string(), "warn".to_string());
    assert!(out.passed);
    assert_eq!((out.stdout.as_str(), out.stderr.as_str()), ("ok", "warn"));
    let out = GradeOutcome::finished(false, String::new(), "boom".to_string());
    assert!(!out.passed);
    assert_eq!(out.stderr, "boom");
}

#[test]
fn the_deadline_comes_from_caller_exercise_or_default() {
    assert_eq!(resolve_timeout(Some(3), Some(7)), 3);
    assert_eq!(resolve_timeout(None, Some(7)), 7);
    assert_eq!(resolve_timeout(None, None), 15);
    assert_eq!(resolve_timeout(Some(0), None), 0);
    assert_eq!(DEFAULT_TIMEOUT_SECS, 15);
}

#[test]
fn the_tests_are_rewritten_for_the_sandbox() {
    let raw = "#[test] fn ok(){ assert_eq!(crate::add(1,2),3); }\nuse crate::Shape::*;";
    assert_eq!(
        rewrite_tests(raw),
        "#[test] fn ok(){ assert_eq!(exercise_sandbox::add(1,2),3); }\nuse exercise_sandbox::Shape::*;"
    );
    assert_eq!(rewrite_tests("no such thing: crate :: x, crate:"), "no such thing: crate :: x, crate:");
    // the replacement is textual: a longer name that ends in the token is caught too
    assert_eq!(rewrite_tests("mycrate::f()"), "myexercise_sandbox::f()");
    assert_eq!(rewrite_tests("crate::crate::"), "exercise_sandbox::exercise_sandbox::");
    assert_eq!(rewrite_tests(""), "");
}

#[test]
fn the_sandbox_of_an_exercise_is_always_the_same() {
    let ex = exercise("x/y");
    assert_eq!(sandbox_dir_for(&ex, "/home/u/.rustlearn"), "/home/u/.rustlearn/sandboxes/x_y");
    assert_eq!(sandbox_dir_for(&ex, "/home/u/.rustlearn"), "/home/u/.rustlearn/sandboxes/x_y");
    assert_eq!(
        sandbox_dir_for(&exercise("intro/a/b"), "data/"),
        "data/sandboxes/intro_a_b"
    );
    assert_eq!(ex.working_file("/home/u/.rustlearn"), "/home/u/.rustlearn/work/x_y/lib.rs");
    assert_eq!(Exercise::working_dir("/d"), "/d/work");
}

#[test]
fn the_manifest_names_the_sandbox_package() {
    let text = sandbox_manifest();
    assert!(text.starts_with("[package]\nname = \"exercise_sandbox\"\nversion = \"0.1.0\"\nedition = \"2021\"\n"));
    assert!(text.contains("\n[dependencies]\nthiserror = \"1\"\n"));
    assert!(text.ends_with("tokio = { version = \"1\", features = [\"rt-multi-thread\",\"macros\",\"sync\"] }\n"));
}

#[test]
fn a_run_goes_from_provisioning_to_a_verdict() {
    let s = GradeState::Uninitialized;
    assert_eq!(step(s, GradeEvent::SandboxMissing), Some((GradeState::Uninitialized, GradeAction::Provision)));
    assert_eq!(step(s, GradeEvent::SandboxReady), Some((GradeState::Provisioned, GradeAction::Start)));
    assert_eq!(
        step(GradeState::Provisioned, GradeEvent::Started),
        Some((GradeState::Running, GradeAction::Await))
    );
    assert_eq!(
        step(GradeState::Running, GradeEvent::Exited { success: true }),
        Some((GradeState::Passed, GradeAction::Collect))
    );
    assert_eq!(
        step(GradeState::Running, GradeEvent::Exited { success: false }),
        Some((GradeState::Failed, GradeAction::Collect))
    );
    assert_eq!(
        step(GradeState::Running, GradeEvent::DeadlineElapsed),
        Some((GradeState::TimedOut, GradeAction::Kill))
    );
}

#[test]
fn a_run_takes_no_event_out_of_turn() {
    assert_eq!(step(GradeState::Uninitialized, GradeEvent::Started), None);
    assert_eq!(step(GradeState::Uninitialized, GradeEvent::DeadlineElapsed), None);
    assert_eq!(step(GradeState::Provisioned, GradeEvent::SandboxMissing), None);
    assert_eq!(step(GradeState::Provisioned, GradeEvent::Exited { success: true }), None);
    assert_eq!(step(GradeState::Running, GradeEvent::Started), None);
    for done in [GradeState::Passed, GradeState::Failed, GradeState::TimedOut] {
        assert!(has_verdict(done));
        assert_eq!(step(done, GradeEvent::SandboxReady), None);
        assert_eq!(step(done, GradeEvent::Exited { success: true }), None);
        assert_eq!(step(done, GradeEvent::DeadlineElapsed), None);
    }
    assert!(!has_verdict(GradeState::Uninitialized));
    assert!(!has_verdict(GradeState::Provisioned));
    assert!(!has_verdict(GradeState::Running));
}

#[test]
fn paths_are_joined_with_one_slash() {
    assert_eq!(join_path("a", "b"), "a/b");
    assert_eq!(join_path("a/", "b"), "a/b");
    assert_eq!(join_path("", "b"), "b");
    assert_eq!(join_path("a", "/b"), "/b");
    assert_eq!(join_path("a", ""), "a/");
    assert_eq!(join_path("/", "x"), "/x");
}

#[test]
fn directory_names_have_no_slash() {
    assert_eq!(dir_name_of("intro/vars"), "intro_vars");
    assert_eq!(dir_name_of("a/b/c"), "a_b_c");
    assert_eq!(dir_name_of("plain"), "plain");
    assert_eq!(dir_name_of("//"), "__");
    assert_eq!(dir_name_of(""), "");
}

#[test]
fn text_is_replaced_from_the_left() {
    assert_eq!(replace_all("aaaa", "aa", "b"), "bb");
    assert_eq!(replace_all("aaa", "aa", "b"), "ba");
    assert_eq!(replace_all("abcabc", "bc", ""), "aa");
    assert_eq!(replace_all("abc", "abcd", "x"), "abc");
    assert_eq!(replace_all("abc", "", "x"), "abc");
    assert_eq!(replace_all("héllo", "é", "ee"), "heello");
    assert_eq!(replace_all("abab", "ab", "abab"), "abababab");
}

#[test]
fn text_is_compared_like_strings() {
    let words = ["", "a", "ab", "b", "B", "é", "z", "a/b", "a-"];
    for a in words {
        for b in words {
            assert_eq!(str_lt(a, b), a < b, "{:?} < {:?}", a, b);
            assert_eq!(str_eq(a, b), a == b);
        }
    }
    assert_eq!(chars_of("héy"), vec!['h', 'é', 'y']);
}

#[test]
fn text_helpers() {
    assert_eq!(last_segment_of("intro/vars", '/'), "vars");
    assert_eq!(last_segment_of("vars", '/'), "vars");
    assert_eq!(last_segment_of("a/b/", '/'), "");
    assert_eq!(last_segment_of("", '/'), "");
    assert_eq!(join(&vec!["a".to_string(), "b".to_string(), "c".to_string()], "/"), "a/b/c");
    assert_eq!(join(&vec!["a".to_string()], "/"), "a");
    assert_eq!(join(&Vec::new(), "/"), "");
    assert_eq!(join(&vec!["".to_string(), "".to_string()], "--"), "--");
    assert_eq!(decimal_string(0), "0");
    assert_eq!(decimal_string(9), "9");
    assert_eq!(decimal_string(10), "10");
    assert_eq!(decimal_string(1234567890), "1234567890");
    assert!(is_blank_str(""));
    assert!(is_blank_str(" \r\n\t\u{3000}\u{85}"));
    assert!(!is_blank_str(" a "));
    for c in (0..=0x3100u32).filter_map(char::from_u32) {
        assert_eq!(is_blank_str(&c.to_string()), c.is_whitespace(), "{:?}", c);
    }
}

#[test]
fn a_password_opens_its_own_account_only() {
    let hash = "$2b$04$EGdrhbKUv8Oc9vGiXX0HQOxSg445d458Muh7DAHskb6QbtCvdxcie";
    let row = User {
        id: 7,
        username: "ann".to_string(),
        password_hash: hash.to_string(),
        display_name: Some("Ann".to_string()),
        avatar: None,
    };
    let user = authenticate(Some(row.clone()), "correctbatteryhorsestapler").unwrap();
    assert_eq!(user.id, 7);
    assert_eq!(user.username, "ann");
    assert_eq!(user.password_hash, "<redacted>");
    assert_eq!(user.display_name, Some("Ann".to_string()));
    assert!(authenticate(Some(row.clone()), "wrong").is_none());
    assert!(authenticate(Some(row.clone()), hash).is_none());
    assert!(authenticate(None, "correctbatteryhorsestapler").is_none());
    let mut broken = row;
    broken.password_hash = "not a hash".to_string();
    assert!(authenticate(Some(broken), "correctbatteryhorsestapler").is_none());
}

#[test]
fn a_hashed_password_is_found_again() {
    let hash = hash_password("s3cret").unwrap();
    assert_ne!(hash, "s3cret");
    let row = User { id: 1, username: "u".to_string(), password_hash: hash, display_name: None, avatar: None };
    assert!(authenticate(Some(row.clone()), "s3cret").is_some());
    assert!(authenticate(Some(row), "s3cret ").is_none());
}

#[test]
fn accounts_are_handed_out_without_their_hash() {
    let user = registered_user(3, "bob");
    assert_eq!((user.id, user.username.as_str(), user.password_hash.as_str()), (3, "bob", "<redacted>"));
    assert_eq!(user.display_name, None);
    let row = User { id: 4, username: "c".to_string(), password_hash: "h".to_string(), display_name: None, avatar: Some("x".to_string()) };
    assert!(grant(row.clone(), None).is_none());
    assert!(grant(row.clone(), Some(false)).is_none());
    let granted = grant(row, Some(true)).unwrap();
    assert_eq!(granted.password_hash, "<redacted>");
    assert_eq!(granted.avatar, Some("x".to_string()));
}

#[test]
fn history_rows_and_attempts() {
    assert_eq!(passed_flag(true), 1);
    assert_eq!(passed_flag(false), 0);
    assert_eq!(stored_duration(Some(12)), Some(12));
    assert_eq!(stored_duration(None), None);
    let a = attempt_from_row(1, 2, "intro/a".to_string(), 1, Some(30), 99);
    assert_eq!((a.id, a.user_id, a.lesson_id.as_str(), a.passed, a.duration_secs, a.timestamp), (1, 2, "intro/a", true, Some(30), 99));
    assert!(!attempt_from_row(1, 2, String::new(), 0, None, 0).passed);
    assert!(attempt_from_row(1, 2, String::new(), -4, None, 0).passed);
}

#[test]
fn the_sandbox_is_a_package_with_one_test() {
    let layout = layout_for(&exercise("x/y"), "/d");
    assert_eq!(layout.root, "/d/sandboxes/x_y");
    assert_eq!(layout.manifest, "/d/sandboxes/x_y/Cargo.toml");
    assert_eq!(layout.source_dir, "/d/sandboxes/x_y/src");
    assert_eq!(layout.source_file, "/d/sandboxes/x_y/src/lib.rs");
    assert_eq!(layout.tests_dir, "/d/sandboxes/x_y/tests");
    assert_eq!(layout.tests_file, "/d/sandboxes/x_y/tests/exercise.rs");
    assert_eq!(test_program(), "cargo");
    assert_eq!(test_arguments(), vec!["test".to_string(), "--quiet".to_string()]);
}

#[test]
fn the_stores_lie_in_the_data_directory() {
    assert_eq!(progress_path("/home/u/.rustlearn"), "/home/u/.rustlearn/progress.json");
    assert_eq!(leaderboard_path("/home/u/.rustlearn"), "/home/u/.rustlearn/leaderboard.json");
    assert_eq!(db_path("/home/u/.rustlearn"), "/home/u/.rustlearn/app.db");
}

#[test]
fn a_hash_is_stored_as_it_came() {
    assert_eq!(stored_hash(Ok("$2b$12$abc".to_string())), Ok("$2b$12$abc".to_string()));
    assert_eq!(stored_hash(Ok(String::new())), Ok(String::new()));
    assert_eq!(stored_hash(Err(bcrypt::BcryptError::CostNotAllowed(3))), Err(StorageError::Hashing));
    assert_eq!(
        stored_hash(Err(bcrypt::BcryptError::InvalidHash("x".to_string()))),
        Err(StorageError::Hashing)
    );
}

#[test]
fn every_new_hash_lets_its_password_in() {
    for password in ["", "a", "pässwörd", "correct horse battery staple"] {
        let hash = hash_password(password).unwrap();
        assert!(hash.starts_with("$2b$12$"));
        assert_eq!(hash.len(), 60);
        let row = User { id: 1, username: "u".to_string(), password_hash: hash, display_name: None, avatar: None };
        assert!(authenticate(Some(row), password).is_some(), "{:?}", password);
    }
}
