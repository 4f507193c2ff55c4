use crate::progress::{
    completion, valid_lesson_id, CompletionOutcome, ProgressError, ProgressView, MAX_LESSONS,
};
use crate::store::{initialization, store_completion};
use vstd::prelude::*;

verus! {

/// One completion request, as the laws about sequences of requests see it.
pub struct LessonRequest {
    pub caller: Seq<u8>,
    pub lesson: Seq<char>,
    pub points: u32,
    pub reward: u64,
}

/// The record after the requests `reqs` have been made one after another,
/// starting from `v`.
pub open spec fn run(v: ProgressView, reqs: Seq<LessonRequest>) -> ProgressView
    decreases reqs.len(),
{
    if reqs.len() == 0 {
        v
    } else {
        let q = reqs[0];
        run(completion(v, q.caller, q.lesson, q.points, q.reward).1, reqs.drop_first())
    }
}

/// The lessons of the requests in `reqs` that were applied, in the order
/// the requests were made, starting from `v`.
pub open spec fn applied(v: ProgressView, reqs: Seq<LessonRequest>) -> Seq<Seq<char>>
    decreases reqs.len(),
{
    if reqs.len() == 0 {
        Seq::empty()
    } else {
        let q = reqs[0];
        let (r, v1) = completion(v, q.caller, q.lesson, q.points, q.reward);
        let head = if r == Ok::<CompletionOutcome, ProgressError>(CompletionOutcome::Applied) {
            seq![q.lesson]
        } else {
            Seq::empty()
        };
        head + applied(v1, reqs.drop_first())
    }
}

/// The lessons that `reqs` name, in order.
pub open spec fn lessons_of(reqs: Seq<LessonRequest>) -> Seq<Seq<char>> {
    reqs.map_values(|q: LessonRequest| q.lesson)
}

pub open spec fn sum_points(reqs: Seq<LessonRequest>) -> nat
    decreases reqs.len(),
{
    if reqs.len() == 0 {
        0
    } else {
        reqs[0].points as nat + sum_points(reqs.drop_first())
    }
}

pub open spec fn sum_rewards(reqs: Seq<LessonRequest>) -> nat
    decreases reqs.len(),
{
    if reqs.len() == 0 {
        0
    } else {
        reqs[0].reward as nat + sum_rewards(reqs.drop_first())
    }
}

/// A completion step keeps a record well formed and keeps its owner.
proof fn lemma_completion_wf(v: ProgressView, caller: Seq<u8>, lesson: Seq<char>, points: u32, reward: u64)
    requires
        v.wf(),
    ensures
        completion(v, caller, lesson, points, reward).1.wf(),
        completion(v, caller, lesson, points, reward).1.user == v.user,
{
    let (r, v1) = completion(v, caller, lesson, points, reward);
    if r == Ok::<CompletionOutcome, ProgressError>(CompletionOutcome::Applied) {
        assert(v1.lessons == v.lessons.push(lesson));
        assert forall|i: int, j: int|
            0 <= i < v1.lessons.len() && 0 <= j < v1.lessons.len() && i != j implies v1.lessons[i]
            != v1.lessons[j] by {
            if i == v.lessons.len() {
                assert(v.lessons.contains(v.lessons[j]));
            }
            if j == v.lessons.len() {
                assert(v.lessons.contains(v.lessons[i]));
            }
        }
        assert forall|i: int| 0 <= i < v1.lessons.len() implies valid_lesson_id(
            #[trigger] v1.lessons[i],
        ) by {
            if i < v.lessons.len() {
                assert(valid_lesson_id(v.lessons[i]));
            }
        }
    }
}

/// Completing the same lesson twice in a row ends in the same record as
/// completing it once; the second request reports that nothing changed, or
/// is refused again for the same reason.
pub proof fn lemma_complete_lesson_idempotent(
    v: ProgressView,
    caller: Seq<u8>,
    lesson: Seq<char>,
    points: u32,
    reward: u64,
)
    requires
        v.wf(),
    ensures
        ({
            let (r1, v1) = completion(v, caller, lesson, points, reward);
            let (r2, v2) = completion(v1, caller, lesson, points, reward);
            &&& v2 == v1
            &&& r1.is_ok() ==> r2 == Ok::<CompletionOutcome, ProgressError>(CompletionOutcome::NoOp)
            &&& r1.is_err() ==> r2 == r1
        }),
{
    let (r1, v1) = completion(v, caller, lesson, points, reward);
    if r1 == Ok::<CompletionOutcome, ProgressError>(CompletionOutcome::Applied) {
        assert(v1.lessons[v1.lessons.len() - 1] == lesson);
        assert(v1.lessons.contains(lesson));
    }
}

/// Over any sequence of requests a record stays well formed: in particular
/// its lessons stay pairwise distinct.
pub proof fn lemma_run_keeps_lessons_distinct(v: ProgressView, reqs: Seq<LessonRequest>)
    requires
        v.wf(),
    ensures
        run(v, reqs).wf(),
        run(v, reqs).lessons.no_duplicates(),
        run(v, reqs).user == v.user,
    decreases reqs.len(),
{
    if reqs.len() > 0 {
        let q = reqs[0];
        lemma_completion_wf(v, q.caller, q.lesson, q.points, q.reward);
        lemma_run_keeps_lessons_distinct(
            completion(v, q.caller, q.lesson, q.points, q.reward).1,
            reqs.drop_first(),
        );
    }
}

/// Over any sequence of requests, points and allocated balance never
/// decrease and a completed lesson stays completed.
pub proof fn lemma_run_monotone(v: ProgressView, reqs: Seq<LessonRequest>)
    ensures
        run(v, reqs).points >= v.points,
        run(v, reqs).allocated_balance >= v.allocated_balance,
        v.lessons.is_prefix_of(run(v, reqs).lessons),
    decreases reqs.len(),
{
    if reqs.len() > 0 {
        let q = reqs[0];
        let v1 = completion(v, q.caller, q.lesson, q.points, q.reward).1;
        lemma_run_monotone(v1, reqs.drop_first());
        assert(v.lessons.is_prefix_of(v1.lessons));
    }
}

/// Over any sequence of requests, the lessons that were applied are
/// appended in the order in which they were requested, after those the
/// record held before.
pub proof fn lemma_run_order(v: ProgressView, reqs: Seq<LessonRequest>)
    ensures
        run(v, reqs).lessons == v.lessons + applied(v, reqs),
    decreases reqs.len(),
{
    if reqs.len() == 0 {
        assert(v.lessons + Seq::<Seq<char>>::empty() =~= v.lessons);
    } else {
        let q = reqs[0];
        let (r, v1) = completion(v, q.caller, q.lesson, q.points, q.reward);
        lemma_run_order(v1, reqs.drop_first());
        let rest = applied(v1, reqs.drop_first());
        if r == Ok::<CompletionOutcome, ProgressError>(CompletionOutcome::Applied) {
            assert(v1.lessons + rest =~= v.lessons + (seq![q.lesson] + rest));
        } else {
            assert(v1.lessons + rest =~= v.lessons + (Seq::<Seq<char>>::empty() + rest));
        }
    }
}

/// Requests by the owner for new, valid, pairwise distinct lessons that fit
/// in the record and whose awards fit in the counters are all applied: the
/// record then holds them in order and the sums of their awards.
pub proof fn lemma_distinct_lessons_applied(v: ProgressView, reqs: Seq<LessonRequest>)
    requires
        v.wf(),
        v.lessons.len() + reqs.len() <= MAX_LESSONS,
        forall|i: int|
            0 <= i < reqs.len() ==> (#[trigger] reqs[i]).caller == v.user && valid_lesson_id(
                reqs[i].lesson,
            ) && !v.lessons.contains(reqs[i].lesson),
        lessons_of(reqs).no_duplicates(),
        v.points + sum_points(reqs) <= u32::MAX,
        v.allocated_balance + sum_rewards(reqs) <= u64::MAX,
    ensures
        applied(v, reqs) == lessons_of(reqs),
        run(v, reqs).lessons == v.lessons + lessons_of(reqs),
        run(v, reqs).points == v.points + sum_points(reqs),
        run(v, reqs).allocated_balance == v.allocated_balance + sum_rewards(reqs),
        run(v, reqs).user == v.user,
        run(v, reqs).bump == v.bump,
    decreases reqs.len(),
{
    if reqs.len() == 0 {
        assert(lessons_of(reqs) =~= Seq::<Seq<char>>::empty());
        assert(v.lessons + lessons_of(reqs) =~= v.lessons);
    } else {
        let q = reqs[0];
        let rest = reqs.drop_first();
        assert(reqs[0] == q);
        let (r, v1) = completion(v, q.caller, q.lesson, q.points, q.reward);
        assert(r == Ok::<CompletionOutcome, ProgressError>(CompletionOutcome::Applied));
        lemma_completion_wf(v, q.caller, q.lesson, q.points, q.reward);
        assert(lessons_of(reqs) =~= seq![q.lesson] + lessons_of(rest));
        assert forall|i: int| 0 <= i < rest.len() implies (#[trigger] rest[i]).caller == v1.user
            && valid_lesson_id(rest[i].lesson) && !v1.lessons.contains(rest[i].lesson) by {
            assert(rest[i] == reqs[i + 1]);
            assert(lessons_of(reqs)[0] != lessons_of(reqs)[i + 1]);
            if v1.lessons.contains(rest[i].lesson) {
                let k = choose|k: int| 0 <= k < v1.lessons.len() && v1.lessons[k] == rest[i].lesson;
                if k < v.lessons.len() {
                    assert(v.lessons.contains(reqs[i + 1].lesson));
                }
            }
        }
        assert forall|i: int, j: int|
            0 <= i < lessons_of(rest).len() && 0 <= j < lessons_of(rest).len() && i != j implies
            lessons_of(rest)[i] != lessons_of(rest)[j] by {
            assert(lessons_of(rest)[i] == lessons_of(reqs)[i + 1]);
            assert(lessons_of(rest)[j] == lessons_of(reqs)[j + 1]);
        }
        lemma_distinct_lessons_applied(v1, rest);
        assert(v1.lessons + lessons_of(rest) =~= v.lessons + lessons_of(reqs));
        assert(seq![q.lesson] + lessons_of(rest) == lessons_of(reqs));
    }
}

/// A record filled to capacity with distinct lessons by its owner holds
/// them all, with the sums of their awards; a further, new lesson is then
/// refused with `OutOfCapacity` and the record stays as it is.
pub proof fn lemma_capacity_boundary(
    user: Seq<u8>,
    bump: u8,
    reqs: Seq<LessonRequest>,
    next: LessonRequest,
)
    requires
        user.len() == 32,
        reqs.len() == MAX_LESSONS,
        forall|i: int|
            0 <= i < reqs.len() ==> (#[trigger] reqs[i]).caller == user && valid_lesson_id(
                reqs[i].lesson,
            ),
        lessons_of(reqs).no_duplicates(),
        sum_points(reqs) <= u32::MAX,
        sum_rewards(reqs) <= u64::MAX,
        next.caller == user,
        valid_lesson_id(next.lesson),
        !lessons_of(reqs).contains(next.lesson),
    ensures
        ({
            let full = run(ProgressView::fresh(user, bump), reqs);
            &&& applied(ProgressView::fresh(user, bump), reqs) == lessons_of(reqs)
            &&& full.lessons == lessons_of(reqs)
            &&& full.points == sum_points(reqs)
            &&& full.allocated_balance == sum_rewards(reqs)
            &&& completion(full, next.caller, next.lesson, next.points, next.reward) == (
            Err::<CompletionOutcome, ProgressError>(ProgressError::OutOfCapacity),
            full,
            )
        }),
{
    let v = ProgressView::fresh(user, bump);
    lemma_distinct_lessons_applied(v, reqs);
    assert(v.lessons + lessons_of(reqs) =~= lessons_of(reqs));
}

/// No operation on the store removes a record or lowers its points or its
/// allocated balance; initialization leaves existing records untouched.
pub proof fn lemma_store_operations_monotone(
    m: Map<Seq<u8>, ProgressView>,
    user: Seq<u8>,
    bump: u8,
    key: Seq<u8>,
    caller: Seq<u8>,
    lesson: Seq<char>,
    points: u32,
    reward: u64,
)
    ensures
        forall|u: Seq<u8>| #[trigger]
            m.contains_key(u) ==> initialization(m, user, bump).1.contains_key(u)
                && initialization(m, user, bump).1[u] == m[u],
        forall|u: Seq<u8>| #[trigger]
            m.contains_key(u) ==> ({
                let m1 = store_completion(m, key, caller, lesson, points, reward).1;
                &&& m1.contains_key(u)
                &&& m1[u].points >= m[u].points
                &&& m1[u].allocated_balance >= m[u].allocated_balance
                &&& m[u].lessons.is_prefix_of(m1[u].lessons)
            }),
{
    if m.contains_key(key) {
        let v = m[key];
        let v1 = completion(v, caller, lesson, points, reward).1;
        assert(v.lessons.is_prefix_of(v1.lessons));
    }
}

/// Once a record exists for an identity, initializing it again fails with
/// `AlreadyInitialized` and leaves every record as it was.
pub proof fn lemma_initialize_user_once(
    m: Map<Seq<u8>, ProgressView>,
    user: Seq<u8>,
    first_bump: u8,
    second_bump: u8,
)
    ensures
        ({
            let m1 = initialization(m, user, first_bump).1;
            initialization(m1, user, second_bump) == (
            Err::<(), ProgressError>(ProgressError::AlreadyInitialized),
            m1,
            )
        }),
{
}

} // verus!
