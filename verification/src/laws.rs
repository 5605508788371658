use vstd::prelude::*;

use crate::codec::{lemma_decode_encode, spec_encode};
use crate::db::DatabaseView;
use crate::exchange::{title_of, valid_for_store};
use crate::store::{
    lemma_store_post_wf, lemma_surviving, match_index, new_row, row_matches, row_replaced,
    spec_load, spec_store, store_post, surviving, visible_match, ConversationView, LoadOutcome,
};

verus! {

/// Round trip: storing a valid conversation and loading it back under the
/// same owner, at the row id the save assigned, yields exactly the stored
/// exchanges and the stable thread id.
pub proof fn lemma_store_load_round_trip(
    db: DatabaseView,
    c: ConversationView,
    user_id: Seq<char>,
    now: int,
)
    requires
        db.wf(),
        valid_for_store(c.exchanges),
        db.owns_project(c.project_id, user_id),
    ensures
        spec_load(store_post(db, c, user_id, now), user_id, c.project_id, db.next_row_id)
            == (LoadOutcome::Found { thread_id: c.thread_id, exchanges: c.exchanges }),
{
    let post = store_post(db, c, user_id, now);
    lemma_store_post_wf(db, c, user_id, now);
    lemma_surviving(db.conversations, db.projects, c.thread_id, user_id);
    let s = surviving(db.conversations, db.projects, c.thread_id, user_id);
    let nr = new_row(db, c, now);
    let last = post.conversations.len() - 1;
    assert(post.conversations[last] == nr);
    assert(row_matches(post.conversations[last], c.project_id, db.next_row_id));
    assert(visible_match(post, user_id, c.project_id, db.next_row_id));
    let j = match_index(post, c.project_id, db.next_row_id);
    assert(0 <= j < post.conversations.len() && row_matches(
        post.conversations[j],
        c.project_id,
        db.next_row_id,
    ));
    if j < last {
        assert(post.conversations[j] == s[j]);
        assert(db.conversations.contains(s[j]));
        let w = choose|w: int|
            0 <= w < db.conversations.len() && db.conversations[w] == s[j];
        assert(db.conversations[w].id < db.next_row_id);
        assert(false);
    }
    lemma_decode_encode(c.exchanges);
}

/// Validation precedes destruction: a save rejected for having no
/// exchanges, or no query text in the first one, changes nothing, so every
/// previously stored conversation remains retrievable, unchanged.
pub proof fn lemma_validation_before_destruction(
    db: DatabaseView,
    c: ConversationView,
    user_id: Seq<char>,
    now: int,
    reader: Seq<char>,
    project_id: int,
    conversation_id: int,
)
    requires
        !valid_for_store(c.exchanges),
    ensures
        spec_store(db, c, user_id, now) == db,
        spec_load(spec_store(db, c, user_id, now), reader, project_id, conversation_id)
            == spec_load(db, reader, project_id, conversation_id),
{
}

/// Uniform absence: under a project the caller does not own, load answers
/// `Absent` and delete finds no visible row — exactly as for an id that
/// does not exist at all — whether or not the row is really there.
pub proof fn lemma_uniform_absence(
    db: DatabaseView,
    user_id: Seq<char>,
    project_id: int,
    conversation_id: int,
)
    ensures
        !db.owns_project(project_id, user_id) ==> spec_load(
            db,
            user_id,
            project_id,
            conversation_id,
        ) == LoadOutcome::Absent,
        !db.owns_project(project_id, user_id) ==> !visible_match(
            db,
            user_id,
            project_id,
            conversation_id,
        ),
        (forall|i: int|
            0 <= i < db.conversations.len() ==> !row_matches(
                #[trigger] db.conversations[i],
                project_id,
                conversation_id,
            )) ==> spec_load(db, user_id, project_id, conversation_id) == LoadOutcome::Absent
            && !visible_match(db, user_id, project_id, conversation_id),
{
}

/// Atomic replace, last write wins: after two successful saves for the
/// same thread, the only row of that thread visible to the owner is the
/// one the second save wrote, and its title, blob, and project are derived
/// from the second payload alone — never a mixture of the two.
pub proof fn lemma_replace_last_write_wins(
    db: DatabaseView,
    c1: ConversationView,
    c2: ConversationView,
    user_id: Seq<char>,
    now1: int,
    now2: int,
)
    requires
        db.wf(),
        valid_for_store(c1.exchanges),
        valid_for_store(c2.exchanges),
        c1.thread_id == c2.thread_id,
    ensures
        ({
            let mid = store_post(db, c1, user_id, now1);
            let fin = store_post(mid, c2, user_id, now2);
            &&& fin.conversations.len() > 0
            &&& fin.conversations.last() == new_row(mid, c2, now2)
            &&& fin.conversations.last().title == title_of(c2.exchanges[0].query)
            &&& fin.conversations.last().exchanges == spec_encode(c2.exchanges)
            &&& fin.conversations.last().project_id == c2.project_id
            &&& forall|i: int|
                0 <= i < fin.conversations.len() && #[trigger] fin.conversations[i].thread_id
                    == c2.thread_id && fin.owns_project(fin.conversations[i].project_id, user_id)
                    ==> fin.conversations[i] == fin.conversations.last()
        }),
{
    let mid = store_post(db, c1, user_id, now1);
    let fin = store_post(mid, c2, user_id, now2);
    lemma_surviving(mid.conversations, mid.projects, c2.thread_id, user_id);
    let s2 = surviving(mid.conversations, mid.projects, c2.thread_id, user_id);
    let last = fin.conversations.len() - 1;
    assert(fin.conversations[last] == new_row(mid, c2, now2));
    assert forall|i: int|
        0 <= i < fin.conversations.len() && #[trigger] fin.conversations[i].thread_id
            == c2.thread_id && fin.owns_project(fin.conversations[i].project_id, user_id)
        implies fin.conversations[i] == fin.conversations.last() by {
        if i < last {
            assert(fin.conversations[i] == s2[i]);
            assert(!row_replaced(mid.projects, s2[i], c2.thread_id, user_id));
        }
    }
}

} // verus!
