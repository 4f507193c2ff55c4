//! Per-user lesson progress: a fixed-capacity record of completed lessons,
//! an idempotent completion step, and a store that creates one record per
//! identity.

mod identity;
mod laws;
mod progress;
mod store;

pub use identity::{Identity, IDENTITY_LEN};
pub use laws::{
    applied, lemma_capacity_boundary, lemma_complete_lesson_idempotent,
    lemma_distinct_lessons_applied, lemma_initialize_user_once, lemma_run_keeps_lessons_distinct,
    lemma_store_operations_monotone,
    lemma_run_monotone, lemma_run_order, lessons_of, run, LessonRequest, sum_points, sum_rewards,
};
pub use progress::{
    completion, lesson_bytes, valid_lesson_id, CompletionOutcome, ProgressError,
    ProgressView, UserProgress, LESSON_SLOT_LEN, MAX_LESSONS, MAX_LESSON_ID_LEN, RECORD_SPACE,
};
pub use store::{
    complete_lesson, initialization, initialize_user, store_completion, CompleteLesson,
    InitializeUser, ProgressStore,
};
