//! The persistence worker: the consumer side of the save/exit protocol.
//!
//! The editor sends messages over an ordered queue; the worker consumes them
//! in send order. For a new entry it blocks for the first message: a save
//! stores the text with [`LogStore::insert_log`] and fixes the entry's index
//! for the rest of the session; every later save overwrites that index. For
//! an existing entry the index is known from the start and every save
//! overwrites it. An exit message ends the loop; a write failure ends it
//! early, and the worker reports its outcome instead of failing silently:
//! after the session, the last save before exit is what is stored — later
//! saves win, nothing interleaves.

use vstd::prelude::*;
use crate::editor::EditorEvent;
use crate::editor::EditorMessage;
use crate::keychain::KeyChain;
use crate::store::DateView;
use crate::store::LogStore;
use crate::store::StoreError;
use crate::store::date_view_of;
use crate::store::valid_date;
use crate::store::sealed_for;

verus! {

/// How a worker session ended.
#[derive(Clone, Copy, PartialEq, Eq, Structural, Debug)]
pub enum WorkerStatus {
    /// An exit message arrived; every save before it is applied.
    Done,
    /// The queue ran dry without an exit; all of it is applied.
    Waiting,
    /// A store operation failed; the loop stopped there.
    Failed(StoreError),
}

/// Index of the first exit message, or the queue length if there is none.
pub open spec fn first_exit(msgs: Seq<EditorMessage>) -> int
    decreases msgs.len(),
{
    if msgs.len() == 0 {
        0
    } else if msgs[0].event == EditorEvent::Exit {
        0
    } else {
        1 + first_exit(msgs.drop_first())
    }
}

/// `first_exit` is the unique position that no exit precedes and that is
/// either the end of the queue or an exit itself.
pub proof fn lemma_first_exit_is(msgs: Seq<EditorMessage>, m: int)
    requires
        0 <= m <= msgs.len(),
        forall|k: int| 0 <= k < m ==> msgs[k].event != EditorEvent::Exit,
        m < msgs.len() ==> msgs[m].event == EditorEvent::Exit,
    ensures
        first_exit(msgs) == m,
    decreases msgs.len(),
{
    if msgs.len() == 0 {
    } else if msgs[0].event == EditorEvent::Exit {
        assert(m == 0);
    } else {
        assert(m >= 1);
        lemma_first_exit_is(msgs.drop_first(), m - 1);
    }
}

/// The text of the last save among the first `upto` messages, if any.
pub open spec fn last_save_text(msgs: Seq<EditorMessage>, upto: int) -> Option<Seq<char>>
    decreases upto,
{
    if upto <= 0 {
        None
    } else if 0 <= upto - 1 < msgs.len() && msgs[upto - 1].event == EditorEvent::Save {
        Some(msgs[upto - 1].message@)
    } else {
        last_save_text(msgs, upto - 1)
    }
}

/// True when some save message before the first exit carries the text `t`.
pub open spec fn some_save_text(msgs: Seq<EditorMessage>, t: Seq<char>) -> bool {
    exists|k: int|
        0 <= k < first_exit(msgs) && k < msgs.len() && (#[trigger] msgs[k]).event
            == EditorEvent::Save && msgs[k].message@ == t
}

/// `first_exit` never leaves the queue.
pub proof fn lemma_first_exit_bound(msgs: Seq<EditorMessage>)
    ensures
        0 <= first_exit(msgs) <= msgs.len(),
    decreases msgs.len(),
{
    if msgs.len() > 0 && msgs[0].event != EditorEvent::Exit {
        lemma_first_exit_bound(msgs.drop_first());
    }
}

/// An exit-free prefix pushes the first exit at least that far out.
pub proof fn lemma_first_exit_at_least(msgs: Seq<EditorMessage>, m: int)
    requires
        0 <= m <= msgs.len(),
        forall|k: int| 0 <= k < m ==> msgs[k].event != EditorEvent::Exit,
    ensures
        first_exit(msgs) >= m,
    decreases msgs.len(),
{
    if msgs.len() == 0 {
    } else if msgs[0].event == EditorEvent::Exit {
        assert(m == 0);
    } else if m > 0 {
        lemma_first_exit_at_least(msgs.drop_first(), m - 1);
    } else {
        lemma_first_exit_bound(msgs);
    }
}

/// A save at position `k` makes the last save before `upto > k` a value.
pub proof fn lemma_last_save_some(msgs: Seq<EditorMessage>, k: int, upto: int)
    requires
        0 <= k < upto <= msgs.len(),
        msgs[k].event == EditorEvent::Save,
    ensures
        last_save_text(msgs, upto) is Some,
    decreases upto,
{
    if upto - 1 > k && msgs[upto - 1].event != EditorEvent::Save {
        lemma_last_save_some(msgs, k, upto - 1);
    }
}

/// The last save of an exit-free prefix is one of the saves before the
/// first exit.
pub proof fn lemma_last_save_is_some_save(msgs: Seq<EditorMessage>, i: int, t: Seq<char>)
    requires
        0 <= i <= msgs.len(),
        forall|k: int| 0 <= k < i ==> msgs[k].event != EditorEvent::Exit,
        last_save_text(msgs, i) == Some(t),
    ensures
        some_save_text(msgs, t),
    decreases i,
{
    if i > 0 {
        if msgs[i - 1].event == EditorEvent::Save {
            lemma_first_exit_at_least(msgs, i);
            assert(0 <= i - 1 < first_exit(msgs) && i - 1 < msgs.len() && msgs[i - 1].event
                == EditorEvent::Save && msgs[i - 1].message@ == t);
        } else {
            lemma_last_save_is_some_save(msgs, i - 1, t);
        }
    }
}

/// After a successful save of text `t`, the address `(user, dv)` holds one
/// fresh ciphertext of `t`, sealed under the user's key: appended at the
/// next free index when the session started without one (`pos0` is none,
/// and `pos` now holds the assigned index), and written at the fixed index
/// `pos0` otherwise. `before` is what the address held when the session
/// began.
pub open spec fn saved_state(
    store: LogStore,
    before: Seq<Seq<u8>>,
    keys: KeyChain,
    user: Seq<char>,
    pw: Seq<char>,
    dv: DateView,
    pos0: Option<usize>,
    pos: Option<usize>,
    t: Seq<char>,
) -> bool {
    exists|ct: Seq<u8>|
        {
            &&& #[trigger] sealed_for(keys, user, pw, t, ct)
            &&& match pos0 {
                None => store.entries_of(user, dv) == before.push(ct) && (pos matches Some(p)
                    && p == before.len()),
                Some(p) => {
                    &&& p <= before.len()
                    &&& store.entries_of(user, dv) == (if p < before.len() {
                        before.update(p as int, ct)
                    } else {
                        before.push(ct)
                    })
                    &&& pos == Some(p)
                },
            }
        }
}

/// What one message asks the store to do.
#[derive(Clone, Copy, PartialEq, Eq, Structural, Debug)]
pub enum WorkerAction {
    /// Store the text at the next free index of the address.
    Insert,
    /// Rewrite the entry at this fixed index.
    Overwrite(usize),
    /// End the session; nothing more will be written.
    Stop,
}

/// The consumer of save and exit messages for one entry's session.
pub struct PersistenceWorker {
    date: String,
    user: String,
    password: String,
    log_pos: Option<usize>,
}

impl PersistenceWorker {
    /// The date string of the entry's address.
    pub closed spec fn spec_date(&self) -> Seq<char> {
        self.date@
    }

    /// The user of the entry's address.
    pub closed spec fn spec_user(&self) -> Seq<char> {
        self.user@
    }

    /// The password every save is sealed under.
    pub closed spec fn spec_password(&self) -> Seq<char> {
        self.password@
    }

    /// The entry's index: fixed from the start for an existing entry, and
    /// assigned by the first save for a new one.
    pub closed spec fn spec_pos(&self) -> Option<usize> {
        self.log_pos
    }

    /// A worker for a new entry: no index yet; the first save assigns it.
    pub fn new_entry(date: &str, user: &str, password: &str) -> (w: PersistenceWorker)
        ensures
            w.spec_date() == date@,
            w.spec_user() == user@,
            w.spec_password() == password@,
            w.spec_pos() is None,
    {
        PersistenceWorker {
            date: date.to_owned(),
            user: user.to_owned(),
            password: password.to_owned(),
            log_pos: None,
        }
    }

    /// A worker for an entry opened for edit: its index is already known and
    /// never changes.
    pub fn existing_entry(date: &str, user: &str, password: &str, log_pos: usize) -> (w:
        PersistenceWorker)
        ensures
            w.spec_date() == date@,
            w.spec_user() == user@,
            w.spec_password() == password@,
            w.spec_pos() == Some(log_pos),
    {
        PersistenceWorker {
            date: date.to_owned(),
            user: user.to_owned(),
            password: password.to_owned(),
            log_pos: Some(log_pos),
        }
    }

    /// What the worker does with a message: this is the whole protocol. An
    /// exit stops the loop; a save inserts a fresh entry while no index is
    /// fixed yet, and overwrites the fixed index afterwards. A shell that
    /// performs the store operations elsewhere drives them by this decision
    /// and reports the assigned index back via
    /// [`PersistenceWorker::record_index`].
    pub fn next_action(&self, event: EditorEvent) -> (a: WorkerAction)
        ensures
            a == match event {
                EditorEvent::Exit => WorkerAction::Stop,
                EditorEvent::Save => match self.spec_pos() {
                    None => WorkerAction::Insert,
                    Some(p) => WorkerAction::Overwrite(p),
                },
            },
    {
        match event {
            EditorEvent::Exit => WorkerAction::Stop,
            EditorEvent::Save => match self.log_pos {
                None => WorkerAction::Insert,
                Some(p) => WorkerAction::Overwrite(p),
            },
        }
    }

    /// Fixes the index that the first save's insert assigned: every later
    /// save overwrites it.
    pub fn record_index(&mut self, idx: usize)
        ensures
            final(self).spec_pos() == Some(idx),
            final(self).spec_date() == old(self).spec_date(),
            final(self).spec_user() == old(self).spec_user(),
            final(self).spec_password() == old(self).spec_password(),
    {
        self.log_pos = Some(idx);
    }

    /// Consumes the queued messages in order, as the background worker does,
    /// and reports how the session ended.
    ///
    /// Messages after the first exit are never touched. If no save precedes
    /// the exit, nothing is persisted. Otherwise the entry's address holds
    /// one entry more (new entry) or the entry at the fixed index rewritten
    /// (existing entry), and its ciphertext opens to exactly the text of the
    /// last save before the exit: later saves win, nothing interleaves. No
    /// other address ever changes, even on failure.
    pub fn run(
        &mut self,
        store: &mut LogStore,
        keys: &KeyChain,
        msgs: &Vec<EditorMessage>,
    ) -> (st: WorkerStatus)
        requires
            old(store).wf(),
            keys.wf(),
        ensures
            final(store).wf(),
            final(self).spec_date() == old(self).spec_date(),
            final(self).spec_user() == old(self).spec_user(),
            final(self).spec_password() == old(self).spec_password(),
            forall|u: Seq<char>, d: DateView|
                #![auto]
                !(u == old(self).spec_user() && d == date_view_of(old(self).spec_date()))
                    ==> final(store).entries_of(u, d) == old(store).entries_of(u, d),
            !(st is Failed) ==> {
                let dv = date_view_of(old(self).spec_date());
                let before = old(store).entries_of(old(self).spec_user(), dv);
                &&& (st == WorkerStatus::Done <==> first_exit(msgs@) < msgs@.len())
                &&& match last_save_text(msgs@, first_exit(msgs@)) {
                    None => *final(store) == *old(store) && final(self).spec_pos() == old(
                        self,
                    ).spec_pos(),
                    Some(t) => saved_state(
                        *final(store),
                        before,
                        *keys,
                        old(self).spec_user(),
                        old(self).spec_password(),
                        dv,
                        old(self).spec_pos(),
                        final(self).spec_pos(),
                        t,
                    ),
                }
            },
            last_save_text(msgs@, first_exit(msgs@)) is None ==> *final(store) == *old(store)
                && final(self).spec_pos() == old(self).spec_pos() && !(st is Failed),
            st is Failed ==> *final(store) == *old(store) || exists|t: Seq<char>|
                #[trigger] some_save_text(msgs@, t) && saved_state(
                    *final(store),
                    old(store).entries_of(
                        old(self).spec_user(),
                        date_view_of(old(self).spec_date()),
                    ),
                    *keys,
                    old(self).spec_user(),
                    old(self).spec_password(),
                    date_view_of(old(self).spec_date()),
                    old(self).spec_pos(),
                    final(self).spec_pos(),
                    t,
                ),
            last_save_text(msgs@, first_exit(msgs@)) is Some && !valid_date(
                old(self).spec_date(),
            ) ==> st == WorkerStatus::Failed(StoreError::InvalidDate),
            last_save_text(msgs@, first_exit(msgs@)) is Some && valid_date(old(self).spec_date())
                && !keys.spec_contains(old(self).spec_user()) ==> st == WorkerStatus::Failed(
                StoreError::Crypto,
            ),
            last_save_text(msgs@, first_exit(msgs@)) is Some && valid_date(old(self).spec_date())
                && keys.spec_contains(old(self).spec_user()) && (old(self).spec_pos() matches Some(
                p,
            ) && p > old(store).entries_of(
                old(self).spec_user(),
                date_view_of(old(self).spec_date()),
            ).len()) ==> st is Failed,
            st == WorkerStatus::Failed(StoreError::InvalidDate) ==> !valid_date(
                old(self).spec_date(),
            ),
            st == WorkerStatus::Failed(StoreError::BadIndex) ==> (old(self).spec_pos()
                matches Some(p) && p > old(store).entries_of(
                old(self).spec_user(),
                date_view_of(old(self).spec_date()),
            ).len()),
            st != WorkerStatus::Failed(StoreError::NotFound),
    {
        let ghost store0 = *store;
        let ghost dv = date_view_of(self.date@);
        let ghost before = store0.entries_of(self.user@, dv);
        let mut i: usize = 0;
        while i < msgs.len()
            invariant
                0 <= i <= msgs@.len(),
                store.wf(),
                keys.wf(),
                store0.wf(),
                store0 == *old(store),
                self.date@ == old(self).spec_date(),
                self.user@ == old(self).spec_user(),
                self.password@ == old(self).spec_password(),
                dv == date_view_of(self.date@),
                before == store0.entries_of(self.user@, dv),
                forall|k: int| 0 <= k < i ==> msgs@[k].event != EditorEvent::Exit,
                forall|u: Seq<char>, d: DateView|
                    #![auto]
                    !(u == self.user@ && d == dv) ==> store.entries_of(u, d)
                        == store0.entries_of(u, d),
                match last_save_text(msgs@, i as int) {
                    None => *store == store0 && self.log_pos == old(self).spec_pos(),
                    Some(t) => saved_state(
                        *store,
                        before,
                        *keys,
                        self.user@,
                        self.password@,
                        dv,
                        old(self).spec_pos(),
                        self.log_pos,
                        t,
                    ),
                },
                last_save_text(msgs@, i as int) is Some ==> {
                    &&& valid_date(self.date@)
                    &&& keys.spec_contains(self.user@)
                    &&& (old(self).spec_pos() is None ==> (self.log_pos matches Some(q) && q
                        == before.len()) && store.entries_of(self.user@, dv).len() == before.len()
                        + 1)
                    &&& (old(self).spec_pos() matches Some(p) ==> p <= before.len()
                        && self.log_pos == Some(p) && store.entries_of(self.user@, dv).len() == (
                    if p < before.len() {
                        before.len() as int
                    } else {
                        before.len() as int + 1
                    }))
                },
            decreases msgs@.len() - i,
        {
            let is_exit = msgs[i].event == EditorEvent::Exit;
            if is_exit {
                proof {
                    lemma_first_exit_is(msgs@, i as int);
                }
                return WorkerStatus::Done;
            }
            let is_save = msgs[i].event == EditorEvent::Save;
            if is_save {
                let ghost cur = *store;
                let ghost cur_e = cur.entries_of(self.user@, dv);
                let text: &str = msgs[i].message.as_str();
                let ghost t_new = text@;
                proof {
                    assert(t_new == msgs@[i as int].message@);
                }
                match self.log_pos {
                    None => {
                        proof {
                            // before the first save nothing was stored yet
                            assert(last_save_text(msgs@, i as int) is None);
                            assert(cur == store0 && cur_e == before);
                        }
                        let r = store.insert_log(
                            keys,
                            self.date.as_str(),
                            self.user.as_str(),
                            text,
                            self.password.as_str(),
                        );
                        match r {
                            Ok(idx) => {
                                let ghost ct1 = choose|ct: Seq<u8>|
                                    store.entries_of(self.user@, dv) == cur_e.push(ct)
                                        && #[trigger] sealed_for(
                                        *keys,
                                        self.user@,
                                        self.password@,
                                        t_new,
                                        ct,
                                    );
                                proof {
                                    assert(store.entries_of(self.user@, dv) == before.push(ct1));
                                    assert(sealed_for(
                                        *keys,
                                        self.user@,
                                        self.password@,
                                        t_new,
                                        ct1,
                                    ));
                                    assert(idx == before.len());
                                    assert forall|u: Seq<char>, d: DateView|
                                        #![auto]
                                        !(u == self.user@ && d == dv) implies store.entries_of(
                                        u,
                                        d,
                                    ) == store0.entries_of(u, d) by {
                                        assert(store.entries_of(u, d) == cur.entries_of(u, d));
                                    }
                                }
                                self.log_pos = Some(idx);
                                proof {
                                    assert(last_save_text(msgs@, i + 1) == Some(t_new));
                                    assert(sealed_for(
                                        *keys,
                                        self.user@,
                                        self.password@,
                                        t_new,
                                        ct1,
                                    ));
                                    assert(store.entries_of(self.user@, dv) == before.push(ct1));
                                    assert(self.log_pos matches Some(q) && q == before.len());
                                    assert(saved_state(
                                        *store,
                                        before,
                                        *keys,
                                        self.user@,
                                        self.password@,
                                        dv,
                                        old(self).spec_pos(),
                                        self.log_pos,
                                        t_new,
                                    ));
                                }
                            },
                            Err(e) => {
                                proof {
                                    assert(msgs@[i as int].event == EditorEvent::Save);
                                    lemma_first_exit_at_least(msgs@, i + 1);
                                    lemma_first_exit_bound(msgs@);
                                    lemma_last_save_some(
                                        msgs@,
                                        i as int,
                                        first_exit(msgs@),
                                    );
                                    match last_save_text(msgs@, i as int) {
                                        Option::None => {
                                            assert(*store == store0);
                                        },
                                        Option::Some(t0) => {
                                            lemma_last_save_is_some_save(msgs@, i as int, t0);
                                            assert(some_save_text(msgs@, t0) && saved_state(
                                                *store,
                                                before,
                                                *keys,
                                                self.user@,
                                                self.password@,
                                                dv,
                                                old(self).spec_pos(),
                                                self.log_pos,
                                                t0,
                                            ));
                                        },
                                    }
                                }
                                return WorkerStatus::Failed(e);
                            },
                        }
                    },
                    Some(p) => {
                        let r = store.overwrite_log(
                            keys,
                            self.date.as_str(),
                            self.user.as_str(),
                            text,
                            self.password.as_str(),
                            p,
                        );
                        match r {
                            Ok(_) => {
                                proof {
                                    assert(last_save_text(msgs@, i + 1) == Some(t_new));
                                    let ct2 = choose|ct: Seq<u8>|
                                        {
                                            &&& store.entries_of(self.user@, dv) == if p
                                                < cur_e.len() {
                                                cur_e.update(p as int, ct)
                                            } else {
                                                cur_e.push(ct)
                                            }
                                            &&& #[trigger] sealed_for(
                                                *keys,
                                                self.user@,
                                                self.password@,
                                                t_new,
                                                ct,
                                            )
                                        };
                                    match old(self).spec_pos() {
                                        None => {
                                            // the first save assigned the index: the
                                            // address already holds one appended entry
                                            assert(last_save_text(msgs@, i as int) is Some);
                                            let t0 = last_save_text(msgs@, i as int).unwrap();
                                            let ct1 = choose|ct: Seq<u8>|
                                                #[trigger] sealed_for(
                                                    *keys,
                                                    self.user@,
                                                    self.password@,
                                                    t0,
                                                    ct,
                                                ) && cur.entries_of(self.user@, dv)
                                                    == before.push(ct) && (
                                                self.log_pos matches Some(q) && q
                                                    == before.len());
                                            assert(cur_e == before.push(ct1));
                                            assert(p == before.len());
                                            assert(p < cur_e.len());
                                            assert(cur_e.update(p as int, ct2) =~= before.push(
                                                ct2,
                                            ));
                                            assert(store.entries_of(self.user@, dv)
                                                == before.push(ct2));
                                            assert(self.log_pos matches Some(q) && q
                                                == before.len());
                                            assert(sealed_for(
                                                *keys,
                                                self.user@,
                                                self.password@,
                                                t_new,
                                                ct2,
                                            ));
                                            assert(saved_state(
                                                *store,
                                                before,
                                                *keys,
                                                self.user@,
                                                self.password@,
                                                dv,
                                                old(self).spec_pos(),
                                                self.log_pos,
                                                t_new,
                                            ));
                                        },
                                        Some(p0) => {
                                            assert(p0 == p);
                                            if last_save_text(msgs@, i as int) is None {
                                                assert(cur == store0 && cur_e == before);
                                            } else {
                                                let t0 = last_save_text(
                                                    msgs@,
                                                    i as int,
                                                ).unwrap();
                                                let ct1 = choose|ct: Seq<u8>|
                                                    #[trigger] sealed_for(
                                                        *keys,
                                                        self.user@,
                                                        self.password@,
                                                        t0,
                                                        ct,
                                                    ) && p <= before.len() && cur.entries_of(
                                                        self.user@,
                                                        dv,
                                                    ) == if p < before.len() {
                                                        before.update(p as int, ct)
                                                    } else {
                                                        before.push(ct)
                                                    };
                                                if p < before.len() {
                                                    assert(cur_e == before.update(p as int, ct1));
                                                    assert(cur_e.len() == before.len());
                                                    assert(cur_e.update(p as int, ct2)
                                                        =~= before.update(p as int, ct2));
                                                } else {
                                                    assert(p == before.len());
                                                    assert(cur_e == before.push(ct1));
                                                    assert(cur_e.len() == before.len() + 1);
                                                    assert(cur_e.update(p as int, ct2)
                                                        =~= before.push(ct2));
                                                }
                                            }
                                            assert(p <= before.len());
                                            assert(store.entries_of(self.user@, dv) == if p
                                                < before.len() {
                                                before.update(p as int, ct2)
                                            } else {
                                                before.push(ct2)
                                            });
                                            assert(self.log_pos == Some(p));
                                            assert(sealed_for(
                                                *keys,
                                                self.user@,
                                                self.password@,
                                                t_new,
                                                ct2,
                                            ));
                                            assert(saved_state(
                                                *store,
                                                before,
                                                *keys,
                                                self.user@,
                                                self.password@,
                                                dv,
                                                old(self).spec_pos(),
                                                self.log_pos,
                                                t_new,
                                            ));
                                        },
                                    }
                                    assert forall|u: Seq<char>, d: DateView|
                                        #![auto]
                                        !(u == self.user@ && d == dv) implies store.entries_of(
                                        u,
                                        d,
                                    ) == store0.entries_of(u, d) by {
                                        assert(store.entries_of(u, d) == cur.entries_of(u, d));
                                    }
                                }
                            },
                            Err(e) => {
                                proof {
                                    assert(msgs@[i as int].event == EditorEvent::Save);
                                    lemma_first_exit_at_least(msgs@, i + 1);
                                    lemma_first_exit_bound(msgs@);
                                    lemma_last_save_some(
                                        msgs@,
                                        i as int,
                                        first_exit(msgs@),
                                    );
                                    match last_save_text(msgs@, i as int) {
                                        Option::None => {
                                            assert(*store == store0);
                                        },
                                        Option::Some(t0) => {
                                            lemma_last_save_is_some_save(msgs@, i as int, t0);
                                            assert(some_save_text(msgs@, t0) && saved_state(
                                                *store,
                                                before,
                                                *keys,
                                                self.user@,
                                                self.password@,
                                                dv,
                                                old(self).spec_pos(),
                                                self.log_pos,
                                                t0,
                                            ));
                                        },
                                    }
                                    if e == StoreError::BadIndex {
                                        match old(self).spec_pos() {
                                            Option::None => {
                                                assert(last_save_text(msgs@, i as int) is Some);
                                                assert(false);
                                            },
                                            Option::Some(p0) => {
                                                assert(p0 == p);
                                                if last_save_text(msgs@, i as int) is Some {
                                                    assert(false);
                                                } else {
                                                    assert(cur_e == before);
                                                    assert(p > before.len());
                                                }
                                            },
                                        }
                                    }
                                }
                                return WorkerStatus::Failed(e);
                            },
                        }
                    },
                }
            } else {
                proof {
                    assert(last_save_text(msgs@, i + 1) == last_save_text(msgs@, i as int));
                }
            }
            i = i + 1;
        }
        proof {
            lemma_first_exit_is(msgs@, msgs@.len() as int);
        }
        WorkerStatus::Waiting
    }
}

/// The decision core of an editing session: it owns no terminal and no
/// thread, only the protocol. A shell around it runs the interactive editor
/// on one side and feeds the queued messages to the worker on the other.
pub struct CryptoEditor;

impl CryptoEditor {
    /// Runs the persistence side of a session over a new entry: the first
    /// save inserts the entry and fixes its index, every later save
    /// overwrites it, exit ends the session. If the first message is an exit
    /// with no prior save, nothing is persisted; otherwise the address gains
    /// exactly one entry holding the last save before the exit. No other
    /// address ever changes.
    pub fn create_log(
        store: &mut LogStore,
        keys: &KeyChain,
        date: &str,
        user: &str,
        password: &str,
        msgs: &Vec<EditorMessage>,
    ) -> (st: WorkerStatus)
        requires
            old(store).wf(),
            keys.wf(),
        ensures
            final(store).wf(),
            forall|u: Seq<char>, d: DateView|
                #![auto]
                !(u == user@ && d == date_view_of(date@)) ==> final(store).entries_of(u, d)
                    == old(store).entries_of(u, d),
            !(st is Failed) ==> {
                &&& (st == WorkerStatus::Done <==> first_exit(msgs@) < msgs@.len())
                &&& match last_save_text(msgs@, first_exit(msgs@)) {
                    None => *final(store) == *old(store),
                    Some(t) => exists|pos: Option<usize>|
                        #[trigger] saved_state(
                            *final(store),
                            old(store).entries_of(user@, date_view_of(date@)),
                            *keys,
                            user@,
                            password@,
                            date_view_of(date@),
                            None,
                            pos,
                            t,
                        ),
                }
            },
            last_save_text(msgs@, first_exit(msgs@)) is None ==> *final(store) == *old(store)
                && !(st is Failed),
            st is Failed ==> *final(store) == *old(store) || exists|t: Seq<char>, pos: Option<
                usize,
            >|
                some_save_text(msgs@, t) && #[trigger] saved_state(
                    *final(store),
                    old(store).entries_of(user@, date_view_of(date@)),
                    *keys,
                    user@,
                    password@,
                    date_view_of(date@),
                    None,
                    pos,
                    t,
                ),
            last_save_text(msgs@, first_exit(msgs@)) is Some && !valid_date(date@) ==> st
                == WorkerStatus::Failed(StoreError::InvalidDate),
            last_save_text(msgs@, first_exit(msgs@)) is Some && valid_date(date@)
                && !keys.spec_contains(user@) ==> st == WorkerStatus::Failed(StoreError::Crypto),
            st == WorkerStatus::Failed(StoreError::InvalidDate) ==> !valid_date(date@),
            st != WorkerStatus::Failed(StoreError::BadIndex),
            st != WorkerStatus::Failed(StoreError::NotFound),
    {
        let mut worker = PersistenceWorker::new_entry(date, user, password);
        let st = worker.run(store, keys, msgs);
        proof {
            if st is Failed && *store != *old(store) {
                let t = choose|t: Seq<char>|
                    #[trigger] some_save_text(msgs@, t) && saved_state(
                        *store,
                        old(store).entries_of(user@, date_view_of(date@)),
                        *keys,
                        user@,
                        password@,
                        date_view_of(date@),
                        None,
                        worker.spec_pos(),
                        t,
                    );
                assert(some_save_text(msgs@, t) && saved_state(
                    *store,
                    old(store).entries_of(user@, date_view_of(date@)),
                    *keys,
                    user@,
                    password@,
                    date_view_of(date@),
                    None,
                    worker.spec_pos(),
                    t,
                ));
            }
        }
        st
    }

    /// Runs the persistence side of a session over an entry opened for edit:
    /// its index is known and never changes; every save overwrites it, exit
    /// ends the session. After a session ending in exit, the entry at that
    /// index holds the last save before the exit; every other entry and
    /// address is untouched.
    pub fn edit_log(
        store: &mut LogStore,
        keys: &KeyChain,
        date: &str,
        user: &str,
        password: &str,
        log_pos: usize,
        msgs: &Vec<EditorMessage>,
    ) -> (st: WorkerStatus)
        requires
            old(store).wf(),
            keys.wf(),
        ensures
            final(store).wf(),
            forall|u: Seq<char>, d: DateView|
                #![auto]
                !(u == user@ && d == date_view_of(date@)) ==> final(store).entries_of(u, d)
                    == old(store).entries_of(u, d),
            !(st is Failed) ==> {
                &&& (st == WorkerStatus::Done <==> first_exit(msgs@) < msgs@.len())
                &&& match last_save_text(msgs@, first_exit(msgs@)) {
                    None => *final(store) == *old(store),
                    Some(t) => saved_state(
                        *final(store),
                        old(store).entries_of(user@, date_view_of(date@)),
                        *keys,
                        user@,
                        password@,
                        date_view_of(date@),
                        Some(log_pos),
                        Some(log_pos),
                        t,
                    ),
                }
            },
            last_save_text(msgs@, first_exit(msgs@)) is None ==> *final(store) == *old(store)
                && !(st is Failed),
            st is Failed ==> *final(store) == *old(store) || exists|t: Seq<char>|
                #[trigger] some_save_text(msgs@, t) && saved_state(
                    *final(store),
                    old(store).entries_of(user@, date_view_of(date@)),
                    *keys,
                    user@,
                    password@,
                    date_view_of(date@),
                    Some(log_pos),
                    Some(log_pos),
                    t,
                ),
            last_save_text(msgs@, first_exit(msgs@)) is Some && !valid_date(date@) ==> st
                == WorkerStatus::Failed(StoreError::InvalidDate),
            last_save_text(msgs@, first_exit(msgs@)) is Some && valid_date(date@)
                && !keys.spec_contains(user@) ==> st == WorkerStatus::Failed(StoreError::Crypto),
            last_save_text(msgs@, first_exit(msgs@)) is Some && valid_date(date@)
                && keys.spec_contains(user@) && log_pos > old(store).entries_of(
                user@,
                date_view_of(date@),
            ).len() ==> st is Failed,
            st == WorkerStatus::Failed(StoreError::InvalidDate) ==> !valid_date(date@),
            st == WorkerStatus::Failed(StoreError::BadIndex) ==> log_pos > old(store).entries_of(
                user@,
                date_view_of(date@),
            ).len(),
            st != WorkerStatus::Failed(StoreError::NotFound),
    {
        let mut worker = PersistenceWorker::existing_entry(date, user, password, log_pos);
        let st = worker.run(store, keys, msgs);
        proof {
            if st is Failed && *store != *old(store) {
                let t = choose|t: Seq<char>|
                    #[trigger] some_save_text(msgs@, t) && saved_state(
                        *store,
                        old(store).entries_of(user@, date_view_of(date@)),
                        *keys,
                        user@,
                        password@,
                        date_view_of(date@),
                        Some(log_pos),
                        worker.spec_pos(),
                        t,
                    );
                assert(worker.spec_pos() == Some(log_pos));
                assert(some_save_text(msgs@, t) && saved_state(
                    *store,
                    old(store).entries_of(user@, date_view_of(date@)),
                    *keys,
                    user@,
                    password@,
                    date_view_of(date@),
                    Some(log_pos),
                    Some(log_pos),
                    t,
                ));
            }
        }
        st
    }
}

} // verus!
