use crate::identity::Identity;
use crate::progress::{completion, CompletionOutcome, ProgressError, ProgressView, UserProgress};
use vstd::prelude::*;

verus! {

/// A request to create the record of `user`. `bump` is the address bump
/// the host derived for the record and is stored with it.
pub struct InitializeUser {
    pub user: Identity,
    pub bump: u8,
}

/// A request to complete a lesson: `user_progress` is the identity under
/// which the record to update is addressed, `user` the authenticated caller.
pub struct CompleteLesson {
    pub user_progress: Identity,
    pub user: Identity,
}

/// The records of all users, at most one per identity.
pub struct ProgressStore {
    records: Vec<UserProgress>,
}

/// Initialization on the store's content: fails if `user` already has a
/// record, else adds a fresh one.
pub open spec fn initialization(m: Map<Seq<u8>, ProgressView>, user: Seq<u8>, bump: u8) -> (
    Result<(), ProgressError>,
    Map<Seq<u8>, ProgressView>,
) {
    if m.contains_key(user) {
        (Err(ProgressError::AlreadyInitialized), m)
    } else {
        (Ok(()), m.insert(user, ProgressView::fresh(user, bump)))
    }
}

/// Lesson completion on the store's content: the completion step applied
/// to the record addressed by `key`, if there is one.
pub open spec fn store_completion(
    m: Map<Seq<u8>, ProgressView>,
    key: Seq<u8>,
    caller: Seq<u8>,
    lesson: Seq<char>,
    points: u32,
    reward: u64,
) -> (Result<CompletionOutcome, ProgressError>, Map<Seq<u8>, ProgressView>) {
    if !m.contains_key(key) {
        (Err(ProgressError::NotInitialized), m)
    } else {
        let (r, v) = completion(m[key], caller, lesson, points, reward);
        (r, m.insert(key, v))
    }
}

impl View for ProgressStore {
    type V = Map<Seq<u8>, ProgressView>;

    closed spec fn view(&self) -> Map<Seq<u8>, ProgressView> {
        Map::new(
            |u: Seq<u8>| exists|i: int| 0 <= i < self.records@.len() && self.records@[i]@.user == u,
            |u: Seq<u8>|
                self.records@[choose|i: int|
                    0 <= i < self.records@.len() && self.records@[i]@.user == u]@,
        )
    }
}

impl ProgressStore {
    /// Every record is well formed and no two belong to the same identity.
    pub closed spec fn wf(&self) -> bool {
        &&& forall|i: int| 0 <= i < self.records@.len() ==> (#[trigger] self.records@[i])@.wf()
        &&& forall|i: int, j: int|
            0 <= i < self.records@.len() && 0 <= j < self.records@.len() && i != j
                ==> (#[trigger] self.records@[i])@.user != (#[trigger] self.records@[j])@.user
    }

    /// Every record in the store's content is well formed and keyed by its owner.
    pub proof fn lemma_records_wf(&self)
        requires
            self.wf(),
        ensures
            forall|u: Seq<u8>| #[trigger] self@.contains_key(u) ==> self@[u].wf() && self@[u].user == u,
    {
        assert forall|u: Seq<u8>| #[trigger] self@.contains_key(u) implies self@[u].wf() && self@[u].user == u by {
            let i = choose|i: int| 0 <= i < self.records@.len() && self.records@[i]@.user == u;
            self.lemma_view_at(i);
        }
    }

    proof fn lemma_view_at(&self, i: int)
        requires
            self.wf(),
            0 <= i < self.records@.len(),
        ensures
            self@.contains_key(self.records@[i]@.user),
            self@[self.records@[i]@.user] == self.records@[i]@,
    {
        let u = self.records@[i]@.user;
        assert(0 <= i < self.records@.len() && self.records@[i]@.user == u);
        let c = choose|c: int| 0 <= c < self.records@.len() && self.records@[c]@.user == u;
        assert(c == i);
    }

    /// An empty store.
    pub fn new() -> (r: ProgressStore)
        ensures
            r.wf(),
            r@ == Map::<Seq<u8>, ProgressView>::empty(),
    {
        let r = ProgressStore { records: Vec::new() };
        assert(r@ =~= Map::<Seq<u8>, ProgressView>::empty());
        r
    }

    fn find(&self, user: &Identity) -> (r: Option<usize>)
        ensures
            match r {
                Some(i) => i < self.records@.len() && self.records@[i as int]@.user == user@,
                None => forall|i: int|
                    0 <= i < self.records@.len() ==> self.records@[i]@.user != user@,
            },
    {
        let mut i: usize = 0;
        while i < self.records.len()
            invariant
                i <= self.records@.len(),
                forall|j: int| 0 <= j < i ==> self.records@[j]@.user != user@,
            decreases self.records.len() - i,
        {
            if self.records[i].user().same_as(user) {
                return Some(i);
            }
            i += 1;
        }
        None
    }

    /// The record of `user`, if there is one.
    pub fn get(&self, user: &Identity) -> (r: Option<&UserProgress>)
        requires
            self.wf(),
        ensures
            r.is_some() == self@.contains_key(user@),
            r.is_some() ==> r.unwrap()@ == self@[user@],
    {
        match self.find(user) {
            Some(i) => {
                proof {
                    self.lemma_view_at(i as int);
                }
                Some(&self.records[i])
            },
            None => None,
        }
    }
}

/// Creates the empty record of `ctx.user`, unless it already has one.
pub fn initialize_user(store: &mut ProgressStore, ctx: &InitializeUser) -> (r: Result<(), ProgressError>)
    requires
        old(store).wf(),
    ensures
        final(store).wf(),
        (r, final(store)@) == initialization(old(store)@, ctx.user@, ctx.bump),
{
    match store.find(&ctx.user) {
        Some(i) => {
            proof {
                store.lemma_view_at(i as int);
            }
            Err(ProgressError::AlreadyInitialized)
        },
        None => {
            let ghost old_store = *store;
            let ghost u = ctx.user@;
            let record = UserProgress::new(ctx.user, ctx.bump);
            store.records.push(record);
            proof {
                let n = old_store.records@.len();
                assert(store.records@[n as int]@.user == u);
                assert forall|i: int| 0 <= i < n implies store.records@[i] == old_store.records@[i] by {}
                assert(store.wf());
                let target = old_store@.insert(u, ProgressView::fresh(u, ctx.bump));
                assert forall|k: Seq<u8>| store@.contains_key(k) <==> target.contains_key(k) by {
                    if store@.contains_key(k) && k != u {
                        let i = choose|i: int|
                            0 <= i < store.records@.len() && store.records@[i]@.user == k;
                        assert(i < n);
                        old_store.lemma_view_at(i);
                    }
                    if old_store@.contains_key(k) {
                        let i = choose|i: int|
                            0 <= i < old_store.records@.len() && old_store.records@[i]@.user == k;
                        store.lemma_view_at(i);
                    }
                    if k == u {
                        store.lemma_view_at(n as int);
                    }
                }
                assert forall|k: Seq<u8>| #[trigger] store@.contains_key(k) implies store@[k] == target[k] by {
                    let i = choose|i: int|
                        0 <= i < store.records@.len() && store.records@[i]@.user == k;
                    store.lemma_view_at(i);
                    if i < n {
                        old_store.lemma_view_at(i);
                    }
                }
                assert(store@ =~= target);
            }
            Ok(())
        },
    }
}

/// Completes `lesson_id` in the record addressed by `ctx.user_progress`, on
/// behalf of `ctx.user`, crediting `points` and `reward_amount` if the lesson
/// is new.
pub fn complete_lesson(
    store: &mut ProgressStore,
    ctx: &CompleteLesson,
    lesson_id: String,
    points: u32,
    reward_amount: u64,
) -> (r: Result<CompletionOutcome, ProgressError>)
    requires
        old(store).wf(),
    ensures
        final(store).wf(),
        (r, final(store)@) == store_completion(
            old(store)@,
            ctx.user_progress@,
            ctx.user@,
            lesson_id@,
            points,
            reward_amount,
        ),
{
    match store.find(&ctx.user_progress) {
        None => Err(ProgressError::NotInitialized),
        Some(i) => {
            let ghost old_store = *store;
            let ghost key = ctx.user_progress@;
            proof {
                old_store.lemma_view_at(i as int);
            }
            let mut record = store.records.remove(i);
            let r = record.complete_lesson(&ctx.user, lesson_id, points, reward_amount);
            store.records.insert(i, record);
            proof {
                let n = old_store.records@.len();
                assert(store.records@ =~= old_store.records@.update(i as int, record));
                assert(record@.user == key);
                assert(store.wf());
                let target = old_store@.insert(key, record@);
                assert forall|k: Seq<u8>| store@.contains_key(k) <==> target.contains_key(k) by {
                    if store@.contains_key(k) {
                        let j = choose|j: int|
                            0 <= j < store.records@.len() && store.records@[j]@.user == k;
                        old_store.lemma_view_at(j);
                    }
                    if old_store@.contains_key(k) {
                        let j = choose|j: int|
                            0 <= j < old_store.records@.len() && old_store.records@[j]@.user == k;
                        store.lemma_view_at(j);
                    }
                }
                assert forall|k: Seq<u8>| #[trigger] store@.contains_key(k) implies store@[k] == target[k] by {
                    let j = choose|j: int|
                        0 <= j < store.records@.len() && store.records@[j]@.user == k;
                    store.lemma_view_at(j);
                    old_store.lemma_view_at(j);
                }
                assert(store@ =~= target);
            }
            r
        },
    }
}

} // verus!
