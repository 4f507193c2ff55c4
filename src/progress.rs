use crate::identity::Identity;
use vstd::prelude::*;
use vstd::utf8::encode_utf8;

verus! {

/// Largest number of lessons a record can ever hold.
pub const MAX_LESSONS: usize = 10;

/// Room reserved for each lesson identifier, its four-byte length prefix included.
pub const LESSON_SLOT_LEN: usize = 128;

/// Largest length of a lesson identifier, in UTF-8 bytes.
pub const MAX_LESSON_ID_LEN: usize = LESSON_SLOT_LEN - 4;

/// Bytes reserved for a stored record: an eight-byte type tag, the owner,
/// the length prefix of the lesson list, the lesson slots, the points, the
/// allocated balance and the address bump.
pub const RECORD_SPACE: usize = 8 + 32 + 4 + LESSON_SLOT_LEN * MAX_LESSONS + 4 + 8 + 1;

/// What a completion request did to a record.
#[derive(Clone, Copy, Debug, PartialEq, Eq, Structural)]
pub enum CompletionOutcome {
    /// The lesson was new: it was appended and its awards were credited.
    Applied,
    /// The lesson had already been completed: nothing changed.
    NoOp,
}

/// Why an operation was refused. A refused operation changes nothing.
#[derive(Clone, Copy, Debug, PartialEq, Eq, Structural)]
pub enum ProgressError {
    /// A record already exists for this identity.
    AlreadyInitialized,
    /// No record exists for this identity.
    NotInitialized,
    /// The caller is not the owner of the record.
    IdentityMismatch,
    /// The lesson identifier is empty or longer than `MAX_LESSON_ID_LEN` bytes.
    InvalidLessonId,
    /// The record already holds `MAX_LESSONS` lessons.
    OutOfCapacity,
    /// Crediting the awards would overflow `points` or `allocated_balance`.
    Overflow,
}

/// The abstract content of a record.
pub struct ProgressView {
    pub user: Seq<u8>,
    pub lessons: Seq<Seq<char>>,
    pub points: u32,
    pub allocated_balance: u64,
    pub bump: u8,
}

/// UTF-8 length of a lesson identifier.
pub open spec fn lesson_bytes(id: Seq<char>) -> nat {
    encode_utf8(id).len()
}

pub open spec fn valid_lesson_id(id: Seq<char>) -> bool {
    id.len() > 0 && lesson_bytes(id) <= MAX_LESSON_ID_LEN
}

impl ProgressView {
    /// The record's invariant: a 32-byte owner, valid and pairwise distinct
    /// lessons, no more of them than the capacity.
    pub open spec fn wf(self) -> bool {
        &&& self.user.len() == 32
        &&& self.lessons.len() <= MAX_LESSONS
        &&& self.lessons.no_duplicates()
        &&& forall|i: int| 0 <= i < self.lessons.len() ==> valid_lesson_id(#[trigger] self.lessons[i])
    }

    /// A fresh record: no lessons, nothing credited.
    pub open spec fn fresh(user: Seq<u8>, bump: u8) -> ProgressView {
        ProgressView { user, lessons: Seq::empty(), points: 0, allocated_balance: 0, bump }
    }
}

/// The completion step on a record: the outcome of asking, as `caller`, to
/// complete `lesson` for `points` points and `reward` of allocated balance,
/// and the record afterwards.
pub open spec fn completion(
    v: ProgressView,
    caller: Seq<u8>,
    lesson: Seq<char>,
    points: u32,
    reward: u64,
) -> (Result<CompletionOutcome, ProgressError>, ProgressView) {
    if caller != v.user {
        (Err(ProgressError::IdentityMismatch), v)
    } else if !valid_lesson_id(lesson) {
        (Err(ProgressError::InvalidLessonId), v)
    } else if v.lessons.contains(lesson) {
        (Ok(CompletionOutcome::NoOp), v)
    } else if v.lessons.len() >= MAX_LESSONS {
        (Err(ProgressError::OutOfCapacity), v)
    } else if v.points + points > u32::MAX || v.allocated_balance + reward > u64::MAX {
        (Err(ProgressError::Overflow), v)
    } else {
        (
            Ok(CompletionOutcome::Applied),
            ProgressView {
                lessons: v.lessons.push(lesson),
                points: (v.points + points) as u32,
                allocated_balance: (v.allocated_balance + reward) as u64,
                ..v
            },
        )
    }
}

/// A user's progress record.
pub struct UserProgress {
    user: Identity,
    completed_lessons: Vec<String>,
    points: u32,
    allocated_balance: u64,
    bump: u8,
}

impl View for UserProgress {
    type V = ProgressView;

    closed spec fn view(&self) -> ProgressView {
        ProgressView {
            user: self.user@,
            lessons: self.completed_lessons@.map_values(|s: String| s@),
            points: self.points,
            allocated_balance: self.allocated_balance,
            bump: self.bump,
        }
    }
}

impl UserProgress {
    /// A new, empty record owned by `user`.
    pub fn new(user: Identity, bump: u8) -> (r: UserProgress)
        ensures
            r@ == ProgressView::fresh(user@, bump),
            r@.wf(),
    {
        let r = UserProgress {
            user,
            completed_lessons: Vec::new(),
            points: 0,
            allocated_balance: 0,
            bump,
        };
        assert(r@.lessons =~= Seq::<Seq<char>>::empty());
        r
    }

    /// Rebuilds a record from stored fields. Succeeds exactly when they form
    /// a well-formed record: at most `MAX_LESSONS` lessons, each valid, no
    /// two equal.
    pub fn restore(
        user: Identity,
        completed_lessons: Vec<String>,
        points: u32,
        allocated_balance: u64,
        bump: u8,
    ) -> (r: Option<UserProgress>)
        ensures
            ({
                let v = ProgressView {
                    user: user@,
                    lessons: completed_lessons@.map_values(|s: String| s@),
                    points,
                    allocated_balance,
                    bump,
                };
                &&& r.is_some() == v.wf()
                &&& r.is_some() ==> r.unwrap()@ == v
            }),
    {
        let ghost lessons = completed_lessons@.map_values(|s: String| s@);
        let n = completed_lessons.len();
        if n > MAX_LESSONS {
            return None;
        }
        let mut i: usize = 0;
        while i < n
            invariant
                n == completed_lessons.len(),
                n <= MAX_LESSONS,
                lessons == completed_lessons@.map_values(|s: String| s@),
                i <= n,
                forall|k: int| 0 <= k < i ==> valid_lesson_id(#[trigger] lessons[k]),
                forall|k: int, l: int| 0 <= k < i && 0 <= l < i && k != l ==> lessons[k] != lessons[l],
            decreases n - i,
        {
            let id = &completed_lessons[i];
            assert(lessons.len() == n && id@ == lessons[i as int]);
            if id.as_str().is_empty() || id.as_str().as_bytes().len() > MAX_LESSON_ID_LEN {
                assert(!valid_lesson_id(lessons[i as int]));
                return None;
            }
            let mut j: usize = 0;
            while j < i
                invariant
                    n == completed_lessons.len(),
                    lessons == completed_lessons@.map_values(|s: String| s@),
                    lessons.len() == n,
                    i < n,
                    j <= i,
                    id@ == lessons[i as int],
                    forall|l: int| 0 <= l < j ==> lessons[l] != lessons[i as int],
                decreases i - j,
            {
                assert(lessons[j as int] == completed_lessons@[j as int]@);
                if completed_lessons[j] == *id {
                    return None;
                }
                j += 1;
            }
            i += 1;
        }
        let r = UserProgress { user, completed_lessons, points, allocated_balance, bump };
        assert(r@.lessons == lessons);
        Some(r)
    }

    pub fn user(&self) -> (r: Identity)
        ensures
            r@ == self@.user,
    {
        self.user
    }

    pub fn completed_lessons(&self) -> (r: &Vec<String>)
        ensures
            r@.map_values(|s: String| s@) == self@.lessons,
    {
        &self.completed_lessons
    }

    pub fn points(&self) -> (r: u32)
        ensures
            r == self@.points,
    {
        self.points
    }

    pub fn allocated_balance(&self) -> (r: u64)
        ensures
            r == self@.allocated_balance,
    {
        self.allocated_balance
    }

    pub fn bump(&self) -> (r: u8)
        ensures
            r == self@.bump,
    {
        self.bump
    }

    /// Whether `lesson_id` is among the completed lessons.
    pub fn has_completed(&self, lesson_id: &String) -> (r: bool)
        ensures
            r == self@.lessons.contains(lesson_id@),
    {
        let mut i: usize = 0;
        while i < self.completed_lessons.len()
            invariant
                i <= self.completed_lessons.len(),
                forall|j: int| 0 <= j < i ==> self@.lessons[j] != lesson_id@,
            decreases self.completed_lessons.len() - i,
        {
            if self.completed_lessons[i] == *lesson_id {
                assert(self@.lessons[i as int] == lesson_id@);
                return true;
            }
            i += 1;
        }
        false
    }

    /// Completes `lesson_id` on behalf of `caller`: a new lesson is appended
    /// and `points` and `reward_amount` are credited; a lesson already
    /// completed changes nothing. A refused request changes nothing either.
    pub fn complete_lesson(
        &mut self,
        caller: &Identity,
        lesson_id: String,
        points: u32,
        reward_amount: u64,
    ) -> (r: Result<CompletionOutcome, ProgressError>)
        requires
            old(self)@.wf(),
        ensures
            (r, final(self)@) == completion(old(self)@, caller@, lesson_id@, points, reward_amount),
            final(self)@.wf(),
    {
        if !self.user.same_as(caller) {
            return Err(ProgressError::IdentityMismatch);
        }
        if lesson_id.as_str().is_empty() || lesson_id.as_str().as_bytes().len() > MAX_LESSON_ID_LEN {
            return Err(ProgressError::InvalidLessonId);
        }
        if self.has_completed(&lesson_id) {
            return Ok(CompletionOutcome::NoOp);
        }
        assert(self@.lessons.len() == self.completed_lessons@.len());
        if self.completed_lessons.len() >= MAX_LESSONS {
            return Err(ProgressError::OutOfCapacity);
        }
        let new_points = match self.points.checked_add(points) {
            Some(p) => p,
            None => {
                return Err(ProgressError::Overflow);
            },
        };
        let new_balance = match self.allocated_balance.checked_add(reward_amount) {
            Some(b) => b,
            None => {
                return Err(ProgressError::Overflow);
            },
        };
        let ghost before = self@;
        self.completed_lessons.push(lesson_id);
        self.points = new_points;
        self.allocated_balance = new_balance;
        assert(self@.lessons =~= before.lessons.push(lesson_id@));
        Ok(CompletionOutcome::Applied)
    }
}

} // verus!
