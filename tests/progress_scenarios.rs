use lesson_progress::{
    complete_lesson, initialize_user, CompleteLesson, CompletionOutcome, Identity,
    InitializeUser, ProgressError, ProgressStore, UserProgress, MAX_LESSONS, MAX_LESSON_ID_LEN,
    RECORD_SPACE,
};

fn alice() -> Identity {
    Identity::new([0xA1; 32])
}

fn bob() -> Identity {
    Identity::new([0xB0; 32])
}

fn store_with(user: Identity) -> ProgressStore {
    let mut store = ProgressStore::new();
    assert_eq!(initialize_user(&mut store, &InitializeUser { user, bump: 254 }), Ok(()));
    store
}

fn as_owner(user: Identity) -> CompleteLesson {
    CompleteLesson { user_progress: user, user }
}

fn lessons(record: &UserProgress) -> Vec<String> {
    record.completed_lessons().clone()
}

#[test]
fn initialize_creates_empty_record() {
    let store = store_with(alice());
    let record = store.get(&alice()).unwrap();
    assert_eq!(record.user().to_bytes(), [0xA1; 32]);
    assert!(record.completed_lessons().is_empty());
    assert_eq!(record.points(), 0);
    assert_eq!(record.allocated_balance(), 0);
    assert_eq!(record.bump(), 254);
    assert!(store.get(&bob()).is_none());
}

#[test]
fn first_completion_is_applied() {
    let mut store = store_with(alice());
    let r = complete_lesson(&mut store, &as_owner(alice()), "intro-1".to_string(), 10, 0);
    assert_eq!(r, Ok(CompletionOutcome::Applied));
    let record = store.get(&alice()).unwrap();
    assert_eq!(lessons(record), vec!["intro-1".to_string()]);
    assert_eq!(record.points(), 10);
    assert_eq!(record.allocated_balance(), 0);
}

#[test]
fn repeated_completion_is_noop() {
    let mut store = store_with(alice());
    let ctx = as_owner(alice());
    complete_lesson(&mut store, &ctx, "intro-1".to_string(), 10, 0).unwrap();
    let r = complete_lesson(&mut store, &ctx, "intro-1".to_string(), 10, 0);
    assert_eq!(r, Ok(CompletionOutcome::NoOp));
    let record = store.get(&alice()).unwrap();
    assert_eq!(lessons(record), vec!["intro-1".to_string()]);
    assert_eq!(record.points(), 10);
}

#[test]
fn completion_with_reward_accumulates() {
    let mut store = store_with(alice());
    let ctx = as_owner(alice());
    complete_lesson(&mut store, &ctx, "intro-1".to_string(), 10, 0).unwrap();
    let r = complete_lesson(&mut store, &ctx, "intro-2".to_string(), 5, 100);
    assert_eq!(r, Ok(CompletionOutcome::Applied));
    let record = store.get(&alice()).unwrap();
    assert_eq!(record.points(), 15);
    assert_eq!(record.allocated_balance(), 100);
    assert_eq!(lessons(record), vec!["intro-1".to_string(), "intro-2".to_string()]);
}

#[test]
fn second_initialize_fails() {
    let mut store = store_with(alice());
    complete_lesson(&mut store, &as_owner(alice()), "intro-1".to_string(), 10, 7).unwrap();
    let r = initialize_user(&mut store, &InitializeUser { user: alice(), bump: 1 });
    assert_eq!(r, Err(ProgressError::AlreadyInitialized));
    let record = store.get(&alice()).unwrap();
    assert_eq!(lessons(record), vec!["intro-1".to_string()]);
    assert_eq!(record.points(), 10);
    assert_eq!(record.allocated_balance(), 7);
    assert_eq!(record.bump(), 254);
}

#[test]
fn records_of_different_users_are_independent() {
    let mut store = store_with(alice());
    assert_eq!(initialize_user(&mut store, &InitializeUser { user: bob(), bump: 3 }), Ok(()));
    complete_lesson(&mut store, &as_owner(bob()), "intro-1".to_string(), 4, 0).unwrap();
    assert_eq!(store.get(&bob()).unwrap().points(), 4);
    assert_eq!(store.get(&alice()).unwrap().points(), 0);
    assert!(store.get(&alice()).unwrap().completed_lessons().is_empty());
}

#[test]
fn completion_by_another_identity_is_refused() {
    let mut store = store_with(alice());
    let ctx = CompleteLesson { user_progress: alice(), user: bob() };
    let r = complete_lesson(&mut store, &ctx, "intro-1".to_string(), 10, 0);
    assert_eq!(r, Err(ProgressError::IdentityMismatch));
    assert_eq!(store.get(&alice()).unwrap().points(), 0);
}

#[test]
fn completion_without_record_is_refused() {
    let mut store = store_with(alice());
    let r = complete_lesson(&mut store, &as_owner(bob()), "intro-1".to_string(), 10, 0);
    assert_eq!(r, Err(ProgressError::NotInitialized));
    assert!(store.get(&bob()).is_none());
}

#[test]
fn empty_lesson_id_is_refused() {
    let mut store = store_with(alice());
    let r = complete_lesson(&mut store, &as_owner(alice()), String::new(), 10, 0);
    assert_eq!(r, Err(ProgressError::InvalidLessonId));
    assert!(store.get(&alice()).unwrap().completed_lessons().is_empty());
}

#[test]
fn lesson_id_length_is_counted_in_bytes() {
    let mut store = store_with(alice());
    let ctx = as_owner(alice());
    let longest = "a".repeat(MAX_LESSON_ID_LEN);
    assert_eq!(MAX_LESSON_ID_LEN, 124);
    assert_eq!(complete_lesson(&mut store, &ctx, longest, 1, 0), Ok(CompletionOutcome::Applied));
    let too_long = "b".repeat(MAX_LESSON_ID_LEN + 1);
    assert_eq!(complete_lesson(&mut store, &ctx, too_long, 1, 0), Err(ProgressError::InvalidLessonId));
    // 62 two-byte characters fit, 63 do not.
    let wide_fits = "é".repeat(62);
    assert_eq!(complete_lesson(&mut store, &ctx, wide_fits, 1, 0), Ok(CompletionOutcome::Applied));
    let wide_too_long = "é".repeat(63);
    assert_eq!(
        complete_lesson(&mut store, &ctx, wide_too_long, 1, 0),
        Err(ProgressError::InvalidLessonId)
    );
    assert_eq!(store.get(&alice()).unwrap().points(), 2);
}

#[test]
fn capacity_boundary() {
    let mut store = store_with(alice());
    let ctx = as_owner(alice());
    let mut expected: Vec<String> = Vec::new();
    for i in 0..MAX_LESSONS {
        let id = format!("lesson-{}", i);
        expected.push(id.clone());
        let r = complete_lesson(&mut store, &ctx, id, 3, 20);
        assert_eq!(r, Ok(CompletionOutcome::Applied));
    }
    let r = complete_lesson(&mut store, &ctx, "one-too-many".to_string(), 3, 20);
    assert_eq!(r, Err(ProgressError::OutOfCapacity));
    // A lesson already completed is still a no-op on a full record.
    let again = complete_lesson(&mut store, &ctx, "lesson-0".to_string(), 3, 20);
    assert_eq!(again, Ok(CompletionOutcome::NoOp));
    let record = store.get(&alice()).unwrap();
    assert_eq!(lessons(record), expected);
    assert_eq!(record.points(), 30);
    assert_eq!(record.allocated_balance(), 200);
}

#[test]
fn points_overflow_is_refused() {
    let mut store = store_with(alice());
    let ctx = as_owner(alice());
    complete_lesson(&mut store, &ctx, "big".to_string(), u32::MAX, 0).unwrap();
    let r = complete_lesson(&mut store, &ctx, "one-more".to_string(), 1, 0);
    assert_eq!(r, Err(ProgressError::Overflow));
    let record = store.get(&alice()).unwrap();
    assert_eq!(record.points(), u32::MAX);
    assert_eq!(lessons(record), vec!["big".to_string()]);
}

#[test]
fn balance_overflow_is_refused() {
    let mut store = store_with(alice());
    let ctx = as_owner(alice());
    complete_lesson(&mut store, &ctx, "big".to_string(), 0, u64::MAX).unwrap();
    let r = complete_lesson(&mut store, &ctx, "one-more".to_string(), 0, 1);
    assert_eq!(r, Err(ProgressError::Overflow));
    assert_eq!(store.get(&alice()).unwrap().allocated_balance(), u64::MAX);
}

#[test]
fn points_never_decrease_over_a_sequence() {
    let mut store = store_with(alice());
    let ctx = as_owner(alice());
    let calls: [(&str, u32, u64); 6] =
        [("a", 5, 1), ("b", 0, 0), ("a", 9, 9), ("", 3, 3), ("c", 2, 0), ("b", 7, 7)];
    let mut last = (0u32, 0u64);
    for (id, p, r) in calls {
        let _ = complete_lesson(&mut store, &ctx, id.to_string(), p, r);
        let record = store.get(&alice()).unwrap();
        assert!(record.points() >= last.0);
        assert!(record.allocated_balance() >= last.1);
        last = (record.points(), record.allocated_balance());
    }
    let record = store.get(&alice()).unwrap();
    assert_eq!(last, (7, 1));
    assert_eq!(lessons(record), vec!["a".to_string(), "b".to_string(), "c".to_string()]);
}

#[test]
fn record_level_completion() {
    let mut record = UserProgress::new(alice(), 9);
    assert!(!record.has_completed(&"x".to_string()));
    assert_eq!(record.complete_lesson(&alice(), "x".to_string(), 2, 3), Ok(CompletionOutcome::Applied));
    assert!(record.has_completed(&"x".to_string()));
    assert_eq!(record.complete_lesson(&alice(), "x".to_string(), 2, 3), Ok(CompletionOutcome::NoOp));
    assert_eq!(record.complete_lesson(&bob(), "y".to_string(), 2, 3), Err(ProgressError::IdentityMismatch));
    assert_eq!((record.points(), record.allocated_balance()), (2, 3));
}

#[test]
fn identity_comparison() {
    assert!(alice().same_as(&alice()));
    assert!(!alice().same_as(&bob()));
    let mut bytes = [0xA1; 32];
    bytes[31] = 0;
    assert!(!alice().same_as(&Identity::new(bytes)));
}

#[test]
fn record_space_matches_layout() {
    assert_eq!(RECORD_SPACE, 8 + 32 + 4 + 128 * 10 + 4 + 8 + 1);
}

#[test]
fn restore_accepts_well_formed_records() {
    let stored = vec!["intro-1".to_string(), "intro-2".to_string()];
    let record = UserProgress::restore(alice(), stored.clone(), 15, 100, 254).unwrap();
    assert_eq!(lessons(&record), stored);
    assert_eq!((record.points(), record.allocated_balance(), record.bump()), (15, 100, 254));
    assert!(UserProgress::restore(alice(), Vec::new(), 0, 0, 0).is_some());
}

#[test]
fn restore_rejects_malformed_records() {
    let dup = vec!["a".to_string(), "b".to_string(), "a".to_string()];
    assert!(UserProgress::restore(alice(), dup, 0, 0, 0).is_none());
    let empty_id = vec!["a".to_string(), String::new()];
    assert!(UserProgress::restore(alice(), empty_id, 0, 0, 0).is_none());
    let long_id = vec!["x".repeat(MAX_LESSON_ID_LEN + 1)];
    assert!(UserProgress::restore(alice(), long_id, 0, 0, 0).is_none());
    let too_many: Vec<String> = (0..MAX_LESSONS + 1).map(|i| format!("l{}", i)).collect();
    assert!(UserProgress::restore(alice(), too_many, 0, 0, 0).is_none());
}
