use vstd::prelude::*;
use vstd::seq_lib::group_to_multiset_ensures;

use crate::db::{owner_check, Database, DatabaseView, RowView};
use crate::error::Error;
use crate::exchange::{compress, CompressedExchange, CompressedExchangeView, ExchangeView};
use crate::store::{match_index, row_matches, spec_load, visible_match, Conversation, LoadOutcome};

verus! {

/// Composite key of a conversation as a caller addresses it: row id,
/// project, and acting user.
#[derive(Hash, PartialEq, Eq, Clone)]
pub struct ConversationId {
    pub conversation_id: i64,
    pub project_id: i64,
    pub user_id: String,
}

/// The listing projection of a conversation row: never carries exchanges.
#[derive(Debug)]
pub struct ConversationPreview {
    pub id: i64,
    pub created_at: i64,
    pub title: String,
}

pub ghost struct PreviewView {
    pub id: int,
    pub created_at: int,
    pub title: Seq<char>,
}

impl View for ConversationPreview {
    type V = PreviewView;

    open spec fn view(&self) -> PreviewView {
        PreviewView { id: self.id as int, created_at: self.created_at as int, title: self.title@ }
    }
}

pub open spec fn preview_views(s: Seq<ConversationPreview>) -> Seq<PreviewView> {
    s.map_values(|p: ConversationPreview| p@)
}

pub open spec fn preview_of(row: RowView) -> PreviewView {
    PreviewView { id: row.id, created_at: row.created_at, title: row.title }
}

/// The previews of the rows under one project, in row order.
pub open spec fn previews_of(rows: Seq<RowView>, project_id: int) -> Seq<PreviewView>
    decreases rows.len(),
{
    if rows.len() == 0 {
        Seq::<PreviewView>::empty()
    } else {
        previews_of(rows.drop_last(), project_id) + (if rows.last().project_id == project_id {
            seq![preview_of(rows.last())]
        } else {
            Seq::<PreviewView>::empty()
        })
    }
}

/// What `list` returns, before ordering: the previews of the rows the
/// caller owns under the project; nothing for a project the caller does
/// not own.
pub open spec fn spec_list(db: DatabaseView, user_id: Seq<char>, project_id: int) -> Seq<
    PreviewView,
> {
    if db.owns_project(project_id, user_id) {
        previews_of(db.conversations, project_id)
    } else {
        Seq::<PreviewView>::empty()
    }
}

/// Sorted by creation time, most recent first.
pub open spec fn sorted_desc(s: Seq<PreviewView>) -> bool {
    forall|i: int, j: int|
        0 <= i <= j < s.len() ==> #[trigger] s[i].created_at >= #[trigger] s[j].created_at
}

/// All conversation previews under `project_id` owned by `user_id`, most
/// recent first; empty when none exist or the project is not the caller's.
pub fn list(db: &Database, user_id: &str, project_id: i64) -> (r: Vec<ConversationPreview>)
    ensures
        sorted_desc(preview_views(r@)),
        preview_views(r@).to_multiset() == spec_list(
            db@,
            user_id@,
            project_id as int,
        ).to_multiset(),
{
    broadcast use group_to_multiset_ensures;
    broadcast use vstd::multiset::group_multiset_axioms;

    let mut out: Vec<ConversationPreview> = Vec::new();
    if !owner_check(db, project_id, user_id) {
        proof {
            assert(preview_views(out@) =~= Seq::<PreviewView>::empty());
        }
        return out;
    }
    let mut cand: Vec<ConversationPreview> = Vec::new();
    let mut i: usize = 0;
    proof {
        assert(db@.conversations.take(0) =~= Seq::<RowView>::empty());
        assert(preview_views(cand@) =~= Seq::<PreviewView>::empty());
    }
    while i < db.conversations.len()
        invariant
            i <= db.conversations.len(),
            preview_views(cand@) == previews_of(db@.conversations.take(i as int), project_id as int),
        decreases db.conversations.len() - i,
    {
        let ghost cand0 = cand@;
        if db.conversations[i].project_id == project_id {
            let p = ConversationPreview {
                id: db.conversations[i].id,
                created_at: db.conversations[i].created_at,
                title: db.conversations[i].title.clone(),
            };
            cand.push(p);
            proof {
                assert(p@ == preview_of(db@.conversations[i as int]));
            }
        }
        proof {
            let taken = db@.conversations.take(i as int + 1);
            assert(taken.drop_last() =~= db@.conversations.take(i as int));
            assert(taken.last() == db@.conversations[i as int]);
            if db@.conversations[i as int].project_id == project_id as int {
                assert(preview_views(cand@) =~= preview_views(cand0).push(
                    preview_of(db@.conversations[i as int]),
                ));
            }
            assert(preview_views(cand@) =~= previews_of(taken, project_id as int));
        }
        i += 1;
    }
    proof {
        assert(db@.conversations.take(db@.conversations.len() as int) =~= db@.conversations);
    }
    let ghost total = previews_of(db@.conversations, project_id as int);
    while cand.len() > 0
        invariant
            preview_views(out@).to_multiset().add(preview_views(cand@).to_multiset())
                == total.to_multiset(),
            sorted_desc(preview_views(out@)),
            forall|a: int, b: int|
                0 <= a < out@.len() && 0 <= b < cand@.len() ==> #[trigger] out@[a]@.created_at
                    >= #[trigger] cand@[b]@.created_at,
        decreases cand.len(),
    {
        let mut m: usize = 0;
        let mut j: usize = 1;
        while j < cand.len()
            invariant
                m < cand.len(),
                j <= cand.len(),
                cand.len() > 0,
                forall|k: int| 0 <= k < j ==> cand@[m as int]@.created_at >= #[trigger] cand@[k]@.created_at,
            decreases cand.len() - j,
        {
            if cand[j].created_at > cand[m].created_at {
                m = j;
            }
            j += 1;
        }
        let ghost out0 = out@;
        let ghost cand0 = cand@;
        let p = cand.remove(m);
        out.push(p);
        proof {
            let pv_out0 = preview_views(out0);
            let pv_cand0 = preview_views(cand0);
            pv_out0.to_multiset_ensures();
            pv_cand0.to_multiset_ensures();
            assert(preview_views(cand@) =~= pv_cand0.remove(m as int));
            assert(preview_views(out@) =~= pv_out0.push(p@));
            assert(pv_cand0[m as int] == p@);
            assert(pv_out0.push(p@).to_multiset() =~= pv_out0.to_multiset().insert(p@));
            assert(pv_cand0.remove(m as int).to_multiset() =~= pv_cand0.to_multiset().remove(
                pv_cand0[m as int],
            ));
            assert(pv_cand0.contains(p@)) by {
                assert(pv_cand0[m as int] == p@);
            }
            assert(pv_cand0.to_multiset().count(p@) > 0);
            assert(pv_out0.to_multiset().insert(p@).add(pv_cand0.to_multiset().remove(p@))
                =~= pv_out0.to_multiset().add(pv_cand0.to_multiset()));
            assert(preview_views(out@).to_multiset().add(preview_views(cand@).to_multiset())
                =~= total.to_multiset());
            assert forall|a: int, b: int|
                0 <= a < out@.len() && 0 <= b < cand@.len() implies #[trigger] out@[a]@.created_at
                >= #[trigger] cand@[b]@.created_at by {
                let bb = if b < m as int {
                    b
                } else {
                    b + 1
                };
                assert(cand@[b] == cand0[bb]);
                if a < out0.len() {
                    assert(out@[a] == out0[a]);
                } else {
                    assert(out@[a] == p);
                    assert(cand0[m as int]@.created_at >= cand0[bb]@.created_at);
                }
            }
            assert forall|a: int, b: int|
                0 <= a <= b < preview_views(out@).len() implies preview_views(out@)[
                    a
                ].created_at >= preview_views(out@)[b].created_at by {
                if b < out0.len() {
                    assert(sorted_desc(preview_views(out0)));
                    assert(preview_views(out0)[a].created_at >= preview_views(out0)[b].created_at);
                } else if a < out0.len() {
                    assert(out0[a]@.created_at >= cand0[m as int]@.created_at);
                }
            }
        }
    }
    proof {
        assert(preview_views(cand@) =~= Seq::<PreviewView>::empty());
        assert(preview_views(out@).to_multiset().add(Seq::<PreviewView>::empty().to_multiset())
            =~= preview_views(out@).to_multiset());
    }
    out
}

/// Delete the single row matching id and project under the ownership
/// filter. A missing row, a wrong project, and a foreign owner all answer
/// `NotFound`, leaving the state untouched.
pub fn delete(
    db: &mut Database,
    user_id: &str,
    project_id: i64,
    conversation_id: i64,
) -> (r: Result<(), Error>)
    requires
        old(db)@.wf(),
    ensures
        final(db)@.wf(),
        visible_match(old(db)@, user_id@, project_id as int, conversation_id as int) ==> r == Ok::<
            (),
            Error,
        >(()) && final(db)@ == (DatabaseView {
            conversations: old(db)@.conversations.remove(
                match_index(old(db)@, project_id as int, conversation_id as int),
            ),
            projects: old(db)@.projects,
            next_row_id: old(db)@.next_row_id,
        }) && !visible_match(final(db)@, user_id@, project_id as int, conversation_id as int),
        !visible_match(old(db)@, user_id@, project_id as int, conversation_id as int) ==> r
            == Err::<(), Error>(Error::NotFound) && *final(db) == *old(db),
{
    let ghost init = *db;
    if !owner_check(db, project_id, user_id) {
        return Err(Error::NotFound);
    }
    let mut i: usize = 0;
    while i < db.conversations.len()
        invariant
            *db == init,
            init == *old(db),
            init@.wf(),
            init@.owns_project(project_id as int, user_id@),
            i <= db.conversations.len(),
            forall|k: int|
                0 <= k < i ==> !row_matches(
                    #[trigger] init@.conversations[k],
                    project_id as int,
                    conversation_id as int,
                ),
        decreases db.conversations.len() - i,
    {
        if db.conversations[i].id == conversation_id && db.conversations[i].project_id
            == project_id {
            proof {
                assert(row_matches(
                    init@.conversations[i as int],
                    project_id as int,
                    conversation_id as int,
                ));
                let j = match_index(init@, project_id as int, conversation_id as int);
                assert(0 <= j < init@.conversations.len() && row_matches(
                    init@.conversations[j],
                    project_id as int,
                    conversation_id as int,
                ));
                assert(j == i as int) by {
                    if j < i as int {
                        assert(init@.conversations[j].id != init@.conversations[i as int].id);
                    }
                    if j > i as int {
                        assert(init@.conversations[i as int].id != init@.conversations[j].id);
                    }
                }
            }
            db.conversations.remove(i);
            proof {
                assert(db@.conversations =~= init@.conversations.remove(i as int));
                let newc = db@.conversations;
                assert forall|a: int, b: int|
                    0 <= a < b < newc.len() implies newc[a].id != newc[b].id by {
                    let aa = if a < i as int {
                        a
                    } else {
                        a + 1
                    };
                    let bb = if b < i as int {
                        b
                    } else {
                        b + 1
                    };
                    assert(newc[a] == init@.conversations[aa]);
                    assert(newc[b] == init@.conversations[bb]);
                    assert(init@.conversations[aa].id != init@.conversations[bb].id);
                }
                assert forall|a: int| 0 <= a < newc.len() implies newc[a].id
                    < db@.next_row_id by {
                    let aa = if a < i as int {
                        a
                    } else {
                        a + 1
                    };
                    assert(newc[a] == init@.conversations[aa]);
                }
                assert forall|k: int| 0 <= k < newc.len() implies !row_matches(
                    #[trigger] newc[k],
                    project_id as int,
                    conversation_id as int,
                ) by {
                    let kk = if k < i as int {
                        k
                    } else {
                        k + 1
                    };
                    assert(newc[k] == init@.conversations[kk]);
                    if row_matches(init@.conversations[kk], project_id as int,
                    conversation_id as int) {
                        if kk < i as int {
                            assert(init@.conversations[kk].id != init@.conversations[
                                i as int
                            ].id);
                        } else {
                            assert(init@.conversations[i as int].id != init@.conversations[
                                kk
                            ].id);
                        }
                    }
                }
            }
            return Ok(());
        }
        i += 1;
    }
    proof {
        assert(!visible_match(init@, user_id@, project_id as int, conversation_id as int));
    }
    Err(Error::NotFound)
}

pub open spec fn compressed_views(s: Seq<CompressedExchange>) -> Seq<CompressedExchangeView> {
    s.map_values(|e: CompressedExchange| e@)
}

/// The detail read: load the conversation, then project every exchange
/// through the pure compression step. Errors exactly as `load` errs.
pub fn get(
    db: &Database,
    user_id: &str,
    project_id: i64,
    conversation_id: i64,
) -> (r: Result<Vec<CompressedExchange>, Error>)
    requires
        db@.wf(),
    ensures
        (match spec_load(db@, user_id@, project_id as int, conversation_id as int) {
            LoadOutcome::Absent => r == Err::<Vec<CompressedExchange>, Error>(Error::NotFound),
            LoadOutcome::Corrupt => r == Err::<Vec<CompressedExchange>, Error>(Error::Internal),
            LoadOutcome::Found { thread_id, exchanges } => r matches Ok(v) && compressed_views(v@)
                == exchanges.map_values(|e: ExchangeView| compress(e)),
        }),
{
    let conv = match Conversation::load(db, user_id, project_id, conversation_id) {
        Err(e) => {
            return Err(e);
        },
        Ok(c) => c,
    };
    let mut out: Vec<CompressedExchange> = Vec::new();
    let mut i: usize = 0;
    while i < conv.exchanges.len()
        invariant
            i <= conv.exchanges.len(),
            compressed_views(out@) == conv@.exchanges.take(i as int).map_values(
                |e: ExchangeView| compress(e),
            ),
        decreases conv.exchanges.len() - i,
    {
        let ghost out0 = out@;
        let c = conv.exchanges[i].compressed();
        out.push(c);
        proof {
            assert(compressed_views(out@) =~= compressed_views(out0).push(
                compress(conv@.exchanges[i as int]),
            ));
            assert(compressed_views(out@) =~= conv@.exchanges.take(i as int + 1).map_values(
                |e: ExchangeView| compress(e),
            ));
        }
        i += 1;
    }
    proof {
        assert(conv@.exchanges.take(conv@.exchanges.len() as int) =~= conv@.exchanges);
    }
    Ok(out)
}

} // verus!
