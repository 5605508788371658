use vstd::prelude::*;
use vstd::string::StrSliceExecFns;

use crate::codec::{decode_exchanges, encode_exchanges, spec_decode, spec_encode};
use crate::db::{
    owner_check, owner_of, ConversationRow, Database, DatabaseView, ProjectView, RowView,
};
use crate::error::Error;
use crate::exchange::{
    exchange_views, first_line, title_of, valid_for_store, Exchange, ExchangeView,
};

verus! {

/// The aggregate a caller builds in memory and saves wholesale. The thread
/// id is generated once, when the conversation is first created, and stays
/// stable across every subsequent replace-save.
#[derive(Debug)]
pub struct Conversation {
    pub exchanges: Vec<Exchange>,
    pub thread_id: u128,
    pub project_id: i64,
}

pub ghost struct ConversationView {
    pub exchanges: Seq<ExchangeView>,
    pub thread_id: u128,
    pub project_id: int,
}

impl View for Conversation {
    type V = ConversationView;

    open spec fn view(&self) -> ConversationView {
        ConversationView {
            exchanges: exchange_views(self.exchanges@),
            thread_id: self.thread_id,
            project_id: self.project_id as int,
        }
    }
}

/// Relies on `uuid::Uuid::new_v4` (read out through `as_u128`) for a fresh
/// random thread identifier. The value is random, so nothing is promised
/// of it.
#[verifier::external_body]
fn fresh_thread_id() -> u128 {
    uuid::Uuid::new_v4().as_u128()
}

/// A save for `thread_id` by `user_id` deletes exactly the rows whose
/// thread matches and whose project the user owns.
pub open spec fn row_replaced(
    projects: Seq<ProjectView>,
    row: RowView,
    thread_id: u128,
    user_id: Seq<char>,
) -> bool {
    row.thread_id == thread_id && owner_of(projects, row.project_id, user_id)
}

/// The rows that survive a replace-save for `thread_id` by `user_id`, in
/// their original order.
pub open spec fn surviving(
    rows: Seq<RowView>,
    projects: Seq<ProjectView>,
    thread_id: u128,
    user_id: Seq<char>,
) -> Seq<RowView>
    decreases rows.len(),
{
    if rows.len() == 0 {
        Seq::<RowView>::empty()
    } else {
        surviving(rows.drop_last(), projects, thread_id, user_id) + (if row_replaced(
            projects,
            rows.last(),
            thread_id,
            user_id,
        ) {
            Seq::<RowView>::empty()
        } else {
            seq![rows.last()]
        })
    }
}

/// Every surviving row is one of the original rows, no surviving row is one
/// the save replaces, and uniqueness and id bounds carry over.
pub proof fn lemma_surviving(
    rows: Seq<RowView>,
    projects: Seq<ProjectView>,
    thread_id: u128,
    user_id: Seq<char>,
)
    ensures
        forall|k: int|
            0 <= k < surviving(rows, projects, thread_id, user_id).len() ==> rows.contains(
                #[trigger] surviving(rows, projects, thread_id, user_id)[k],
            ),
        forall|k: int|
            0 <= k < surviving(rows, projects, thread_id, user_id).len() ==> !row_replaced(
                projects,
                #[trigger] surviving(rows, projects, thread_id, user_id)[k],
                thread_id,
                user_id,
            ),
        (forall|i: int, j: int| 0 <= i < j < rows.len() ==> rows[i].id != rows[j].id)
            ==> (forall|i: int, j: int|
            0 <= i < j < surviving(rows, projects, thread_id, user_id).len() ==> surviving(
                rows,
                projects,
                thread_id,
                user_id,
            )[i].id != surviving(rows, projects, thread_id, user_id)[j].id),
    decreases rows.len(),
{
    let s = surviving(rows, projects, thread_id, user_id);
    if rows.len() > 0 {
        let head = rows.drop_last();
        lemma_surviving(head, projects, thread_id, user_id);
        let sh = surviving(head, projects, thread_id, user_id);
        assert forall|k: int| 0 <= k < s.len() implies rows.contains(s[k]) by {
            if k < sh.len() {
                assert(head.contains(sh[k]));
                let i = choose|i: int| 0 <= i < head.len() && head[i] == sh[k];
                assert(rows[i] == s[k]);
            } else {
                assert(s[k] == rows.last());
                assert(rows[rows.len() - 1] == s[k]);
            }
        }
        if forall|i: int, j: int| 0 <= i < j < rows.len() ==> rows[i].id != rows[j].id {
            assert(forall|i: int, j: int| 0 <= i < j < head.len() ==> head[i].id != head[j].id);
            assert forall|i: int, j: int| 0 <= i < j < s.len() implies s[i].id != s[j].id by {
                if j < sh.len() {
                    assert(sh[i].id != sh[j].id);
                } else {
                    assert(s[j] == rows.last());
                    assert(head.contains(sh[i]));
                    let w = choose|w: int| 0 <= w < head.len() && head[w] == sh[i];
                    assert(rows[w].id != rows[rows.len() - 1].id);
                }
            }
        }
    }
}

/// The row a successful save writes: a fresh row id, the stable thread id,
/// the derived title, the serialized exchanges, and the insert-time stamp.
pub open spec fn new_row(db: DatabaseView, c: ConversationView, now: int) -> RowView {
    RowView {
        id: db.next_row_id,
        thread_id: c.thread_id,
        title: title_of(c.exchanges[0].query),
        exchanges: spec_encode(c.exchanges),
        project_id: c.project_id,
        created_at: now,
    }
}

/// The state after a successful save: replaced rows gone, the new row
/// appended, the row-id cursor advanced, projects untouched.
pub open spec fn store_post(
    db: DatabaseView,
    c: ConversationView,
    user_id: Seq<char>,
    now: int,
) -> DatabaseView {
    DatabaseView {
        projects: db.projects,
        conversations: surviving(db.conversations, db.projects, c.thread_id, user_id).push(
            new_row(db, c, now),
        ),
        next_row_id: db.next_row_id + 1,
    }
}

/// The full effect of `store`: a rejected save leaves the state untouched.
pub open spec fn spec_store(
    db: DatabaseView,
    c: ConversationView,
    user_id: Seq<char>,
    now: int,
) -> DatabaseView {
    if valid_for_store(c.exchanges) {
        store_post(db, c, user_id, now)
    } else {
        db
    }
}

pub proof fn lemma_store_post_wf(db: DatabaseView, c: ConversationView, user_id: Seq<char>, now: int)
    requires
        db.wf(),
    ensures
        store_post(db, c, user_id, now).wf(),
{
    lemma_surviving(db.conversations, db.projects, c.thread_id, user_id);
    let s = surviving(db.conversations, db.projects, c.thread_id, user_id);
    let post = store_post(db, c, user_id, now);
    assert forall|k: int| 0 <= k < s.len() implies s[k].id < db.next_row_id by {
        assert(db.conversations.contains(s[k]));
        let w = choose|w: int| 0 <= w < db.conversations.len() && db.conversations[w] == s[k];
        assert(db.conversations[w].id < db.next_row_id);
    }
    assert forall|i: int, j: int|
        0 <= i < j < post.conversations.len() implies post.conversations[i].id
        != post.conversations[j].id by {
        if j < s.len() {
            assert(s[i].id != s[j].id);
        } else {
            assert(post.conversations[j].id == db.next_row_id);
            assert(s[i].id < db.next_row_id);
        }
    }
}

/// Does some row match the requested id and project, visible under the
/// ownership filter? False alike for a row that does not exist and for one
/// owned by someone else.
pub open spec fn row_matches(row: RowView, project_id: int, conversation_id: int) -> bool {
    row.id == conversation_id && row.project_id == project_id
}

pub open spec fn visible_match(
    db: DatabaseView,
    user_id: Seq<char>,
    project_id: int,
    conversation_id: int,
) -> bool {
    db.owns_project(project_id, user_id) && exists|i: int|
        0 <= i < db.conversations.len() && row_matches(
            #[trigger] db.conversations[i],
            project_id,
            conversation_id,
        )
}

pub open spec fn match_index(db: DatabaseView, project_id: int, conversation_id: int) -> int {
    choose|i: int|
        0 <= i < db.conversations.len() && row_matches(
            db.conversations[i],
            project_id,
            conversation_id,
        )
}

/// The outcome `load` is specified against.
pub ghost enum LoadOutcome {
    Absent,
    Corrupt,
    Found { thread_id: u128, exchanges: Seq<ExchangeView> },
}

pub open spec fn spec_load(
    db: DatabaseView,
    user_id: Seq<char>,
    project_id: int,
    conversation_id: int,
) -> LoadOutcome {
    if !visible_match(db, user_id, project_id, conversation_id) {
        LoadOutcome::Absent
    } else {
        let row = db.conversations[match_index(db, project_id, conversation_id)];
        match spec_decode(row.exchanges) {
            Some(es) => LoadOutcome::Found { thread_id: row.thread_id, exchanges: es },
            None => LoadOutcome::Corrupt,
        }
    }
}

impl Conversation {
    /// A new, empty conversation for a project, with a fresh thread id.
    pub fn new(project_id: i64) -> (r: Conversation)
        ensures
            r@.exchanges.len() == 0,
            r@.project_id == project_id as int,
    {
        let r = Conversation {
            exchanges: Vec::new(),
            thread_id: fresh_thread_id(),
            project_id,
        };
        proof {
            assert(exchange_views(r.exchanges@) =~= Seq::<ExchangeView>::empty());
        }
        r
    }

    /// Persist this conversation as the authoritative state for its thread,
    /// scoped to `user_id`. Validation precedes every destructive step: a
    /// rejected save changes nothing. A successful save atomically replaces
    /// the owned rows of this thread with one fresh row.
    pub fn store(&self, db: &mut Database, user_id: &str, now: i64) -> (r: Result<(), Error>)
        requires
            old(db)@.wf(),
            old(db).next_row_id < i64::MAX,
        ensures
            final(db)@.wf(),
            final(db)@ == spec_store(old(db)@, self@, user_id@, now as int),
            valid_for_store(self@.exchanges) ==> r == Ok::<(), Error>(()),
            !valid_for_store(self@.exchanges) ==> r == Err::<(), Error>(Error::Validation)
                && *final(db) == *old(db),
    {
        if self.exchanges.len() == 0 {
            return Err(Error::Validation);
        }
        if self.exchanges[0].query.as_str().unicode_len() == 0 {
            proof {
                assert(self@.exchanges[0].query.len() == 0);
            }
            return Err(Error::Validation);
        }
        proof {
            assert(self@.exchanges[0] == self.exchanges@[0]@);
            assert(valid_for_store(self@.exchanges));
        }
        let title = first_line(self.exchanges[0].query.as_str());
        let blob = encode_exchanges(&self.exchanges);
        let ghost init = *db;
        let mut kept: Vec<ConversationRow> = Vec::new();
        let mut i: usize = 0;
        proof {
            assert(init@.conversations.take(0) =~= Seq::<RowView>::empty());
            assert(kept@.map_values(|r: ConversationRow| r@) =~= Seq::<RowView>::empty());
        }
        while i < db.conversations.len()
            invariant
                *db == init,
                init == *old(db),
                init@.wf(),
                init.next_row_id < i64::MAX,
                i <= db.conversations.len(),
                kept@.map_values(|r: ConversationRow| r@) == surviving(
                    init@.conversations.take(i as int),
                    init@.projects,
                    self.thread_id,
                    user_id@,
                ),
            decreases db.conversations.len() - i,
        {
            let ghost kept0 = kept@;
            let tid = db.conversations[i].thread_id;
            let pid = db.conversations[i].project_id;
            let replaced = tid == self.thread_id && owner_check(db, pid, user_id);
            if !replaced {
                let r2 = ConversationRow {
                    id: db.conversations[i].id,
                    thread_id: db.conversations[i].thread_id,
                    title: db.conversations[i].title.clone(),
                    exchanges: db.conversations[i].exchanges.clone(),
                    project_id: db.conversations[i].project_id,
                    created_at: db.conversations[i].created_at,
                };
                kept.push(r2);
                proof {
                    assert(r2@ == init@.conversations[i as int]);
                }
            }
            proof {
                let taken = init@.conversations.take(i as int + 1);
                assert(taken.drop_last() =~= init@.conversations.take(i as int));
                assert(taken.last() == init@.conversations[i as int]);
                assert(row_replaced(
                    init@.projects,
                    init@.conversations[i as int],
                    self.thread_id,
                    user_id@,
                ) == replaced);
                if !replaced {
                    assert(kept@.map_values(|r: ConversationRow| r@) =~= kept0.map_values(
                        |r: ConversationRow| r@,
                    ).push(init@.conversations[i as int]));
                }
                assert(kept@.map_values(|r: ConversationRow| r@) =~= surviving(
                    taken,
                    init@.projects,
                    self.thread_id,
                    user_id@,
                ));
            }
            i += 1;
        }
        proof {
            assert(init@.conversations.take(init@.conversations.len() as int)
                =~= init@.conversations);
        }
        let ghost keptv = kept@.map_values(|r: ConversationRow| r@);
        let nr = ConversationRow {
            id: db.next_row_id,
            thread_id: self.thread_id,
            title,
            exchanges: blob,
            project_id: self.project_id,
            created_at: now,
        };
        kept.push(nr);
        db.conversations = kept;
        db.next_row_id = db.next_row_id + 1;
        proof {
            assert(nr@ == new_row(init@, self@, now as int));
            assert(db@.conversations =~= keptv.push(new_row(init@, self@, now as int)));
            assert(db@.projects =~= init@.projects);
            assert(db@ == store_post(init@, self@, user_id@, now as int));
            lemma_store_post_wf(init@, self@, user_id@, now as int);
        }
        Ok(())
    }

    /// Fetch the single conversation matching `conversation_id` under
    /// `project_id`, joined against the ownership filter. A missing row, a
    /// wrong project, and a foreign owner are answered identically.
    pub fn load(
        db: &Database,
        user_id: &str,
        project_id: i64,
        conversation_id: i64,
    ) -> (r: Result<Conversation, Error>)
        requires
            db@.wf(),
        ensures
            (match spec_load(db@, user_id@, project_id as int, conversation_id as int) {
                LoadOutcome::Absent => r == Err::<Conversation, Error>(Error::NotFound),
                LoadOutcome::Corrupt => r == Err::<Conversation, Error>(Error::Internal),
                LoadOutcome::Found { thread_id, exchanges } => r matches Ok(c)
                    && c@.thread_id == thread_id && c@.exchanges == exchanges && c@.project_id
                    == project_id as int,
            }),
    {
        if !owner_check(db, project_id, user_id) {
            return Err(Error::NotFound);
        }
        let mut i: usize = 0;
        while i < db.conversations.len()
            invariant
                i <= db.conversations.len(),
                db@.wf(),
                db@.owns_project(project_id as int, user_id@),
                forall|k: int|
                    0 <= k < i ==> !row_matches(
                        #[trigger] db@.conversations[k],
                        project_id as int,
                        conversation_id as int,
                    ),
            decreases db.conversations.len() - i,
        {
            if db.conversations[i].id == conversation_id && db.conversations[i].project_id
                == project_id {
                proof {
                    assert(row_matches(
                        db@.conversations[i as int],
                        project_id as int,
                        conversation_id as int,
                    ));
                    let j = match_index(db@, project_id as int, conversation_id as int);
                    assert(0 <= j < db@.conversations.len() && row_matches(
                        db@.conversations[j],
                        project_id as int,
                        conversation_id as int,
                    ));
                    assert(j == i as int) by {
                        if j < i as int {
                            assert(db@.conversations[j].id != db@.conversations[i as int].id);
                        }
                        if j > i as int {
                            assert(db@.conversations[i as int].id != db@.conversations[j].id);
                        }
                    }
                }
                let row = &db.conversations[i];
                match decode_exchanges(row.exchanges.as_str()) {
                    None => {
                        return Err(Error::Internal);
                    },
                    Some(v) => {
                        return Ok(Conversation {
                            exchanges: v,
                            thread_id: row.thread_id,
                            project_id,
                        });
                    },
                }
            }
            i += 1;
        }
        proof {
            assert(!visible_match(db@, user_id@, project_id as int, conversation_id as int));
        }
        Err(Error::NotFound)
    }
}

} // verus!
