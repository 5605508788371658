use conversations::codec::{decode_exchanges, encode_exchanges};
use conversations::db::{ConversationRow, Database};
use conversations::directory::{delete, get, list};
use conversations::error::Error;
use conversations::exchange::{first_line, Exchange};
use conversations::store::Conversation;

fn ex(query: &str, answer: &str) -> Exchange {
    Exchange { query: query.to_string(), answer: answer.to_string() }
}

fn conv(thread_id: u128, project_id: i64, exchanges: Vec<Exchange>) -> Conversation {
    Conversation { exchanges, thread_id, project_id }
}

#[test]
fn scenario_store_list_load_delete() {
    let mut db = Database::new();
    assert!(db.add_project(42, "u1"));

    let c = conv(7, 42, vec![ex("fix bug\ndetails", "patched")]);
    assert_eq!(c.store(&mut db, "u1", 100), Ok(()));

    let previews = list(&db, "u1", 42);
    assert_eq!(previews.len(), 1);
    assert_eq!(previews[0].title, "fix bug");
    let id = previews[0].id;

    let loaded = Conversation::load(&db, "u1", 42, id).unwrap();
    assert_eq!(loaded.exchanges.len(), 1);
    assert_eq!(loaded.exchanges[0].query, "fix bug\ndetails");
    assert_eq!(loaded.thread_id, 7);

    assert_eq!(delete(&mut db, "u1", 42, id), Ok(()));
    assert_eq!(Conversation::load(&db, "u1", 42, id).unwrap_err(), Error::NotFound);
}

#[test]
fn round_trip_preserves_exchanges_exactly() {
    let mut db = Database::new();
    assert!(db.add_project(1, "alice"));

    let tricky = vec![
        ex("what is 1:2?\nsecond line", "a colon: and 123 digits"),
        ex("", "empty query is fine past the first"),
        ex("unicode \u{00e9}\u{6f22}\u{1f600}", "12:34:56"),
    ];
    let c = conv(99, 1, tricky);
    assert_eq!(c.store(&mut db, "alice", 5), Ok(()));

    let id = list(&db, "alice", 1)[0].id;
    let loaded = Conversation::load(&db, "alice", 1, id).unwrap();
    assert_eq!(loaded.exchanges.len(), 3);
    assert_eq!(loaded.exchanges[0].query, "what is 1:2?\nsecond line");
    assert_eq!(loaded.exchanges[0].answer, "a colon: and 123 digits");
    assert_eq!(loaded.exchanges[1].query, "");
    assert_eq!(loaded.exchanges[1].answer, "empty query is fine past the first");
    assert_eq!(loaded.exchanges[2].query, "unicode \u{00e9}\u{6f22}\u{1f600}");
    assert_eq!(loaded.exchanges[2].answer, "12:34:56");
    assert_eq!(loaded.thread_id, 99);
}

#[test]
fn validation_rejects_empty_exchange_sequence() {
    let mut db = Database::new();
    assert!(db.add_project(1, "u"));
    let c = conv(5, 1, Vec::new());
    assert_eq!(c.store(&mut db, "u", 1), Err(Error::Validation));
    assert_eq!(list(&db, "u", 1).len(), 0);
}

#[test]
fn validation_rejects_empty_first_query() {
    let mut db = Database::new();
    assert!(db.add_project(1, "u"));
    let c = conv(5, 1, vec![ex("", "answer")]);
    assert_eq!(c.store(&mut db, "u", 1), Err(Error::Validation));
    assert_eq!(list(&db, "u", 1).len(), 0);
}

#[test]
fn failed_store_leaves_prior_conversation_untouched() {
    let mut db = Database::new();
    assert!(db.add_project(1, "u"));

    let good = conv(5, 1, vec![ex("keep me\nsafe", "ok")]);
    assert_eq!(good.store(&mut db, "u", 10), Ok(()));
    let id = list(&db, "u", 1)[0].id;

    let bad = conv(5, 1, Vec::new());
    assert_eq!(bad.store(&mut db, "u", 20), Err(Error::Validation));

    let loaded = Conversation::load(&db, "u", 1, id).unwrap();
    assert_eq!(loaded.exchanges.len(), 1);
    assert_eq!(loaded.exchanges[0].query, "keep me\nsafe");
    assert_eq!(loaded.exchanges[0].answer, "ok");

    let previews = list(&db, "u", 1);
    assert_eq!(previews.len(), 1);
    assert_eq!(previews[0].title, "keep me");
    assert_eq!(previews[0].created_at, 10);
}

#[test]
fn foreign_owner_is_answered_like_absence() {
    let mut db = Database::new();
    assert!(db.add_project(1, "owner"));
    assert!(db.add_project(2, "intruder"));

    let c = conv(5, 1, vec![ex("secret", "data")]);
    assert_eq!(c.store(&mut db, "owner", 1), Ok(()));
    let id = list(&db, "owner", 1)[0].id;

    // A row that exists but belongs to someone else...
    assert_eq!(Conversation::load(&db, "intruder", 1, id).unwrap_err(), Error::NotFound);
    assert_eq!(delete(&mut db, "intruder", 1, id), Err(Error::NotFound));
    assert_eq!(get(&db, "intruder", 1, id).unwrap_err(), Error::NotFound);
    // ...answers exactly like an id that does not exist at all.
    assert_eq!(Conversation::load(&db, "owner", 1, id + 1000).unwrap_err(), Error::NotFound);
    assert_eq!(delete(&mut db, "owner", 1, id + 1000), Err(Error::NotFound));

    // The row itself is still there for its owner.
    let loaded = Conversation::load(&db, "owner", 1, id).unwrap();
    assert_eq!(loaded.exchanges[0].query, "secret");
}

#[test]
fn list_orders_by_created_at_descending() {
    let mut db = Database::new();
    assert!(db.add_project(1, "u"));

    assert_eq!(conv(1, 1, vec![ex("a", "")]).store(&mut db, "u", 10), Ok(()));
    assert_eq!(conv(2, 1, vec![ex("b", "")]).store(&mut db, "u", 20), Ok(()));
    assert_eq!(conv(3, 1, vec![ex("c", "")]).store(&mut db, "u", 30), Ok(()));

    let previews = list(&db, "u", 1);
    assert_eq!(previews.len(), 3);
    assert_eq!(previews[0].title, "c");
    assert_eq!(previews[1].title, "b");
    assert_eq!(previews[2].title, "a");
    assert!(previews[0].created_at >= previews[1].created_at);
    assert!(previews[1].created_at >= previews[2].created_at);
}

#[test]
fn replace_save_is_last_write_wins() {
    let mut db = Database::new();
    assert!(db.add_project(1, "u"));

    let first = conv(5, 1, vec![ex("first payload", "one")]);
    assert_eq!(first.store(&mut db, "u", 10), Ok(()));
    let second = conv(5, 1, vec![ex("second payload\nmore", "two"), ex("extra", "turn")]);
    assert_eq!(second.store(&mut db, "u", 20), Ok(()));

    let previews = list(&db, "u", 1);
    assert_eq!(previews.len(), 1);
    assert_eq!(previews[0].title, "second payload");

    let loaded = Conversation::load(&db, "u", 1, previews[0].id).unwrap();
    assert_eq!(loaded.exchanges.len(), 2);
    assert_eq!(loaded.exchanges[0].query, "second payload\nmore");
    assert_eq!(loaded.exchanges[1].query, "extra");
    assert_eq!(loaded.thread_id, 5);
}

#[test]
fn replace_save_assigns_fresh_row_id_and_keeps_thread_id() {
    let mut db = Database::new();
    assert!(db.add_project(1, "u"));

    assert_eq!(conv(5, 1, vec![ex("v1", "")]).store(&mut db, "u", 10), Ok(()));
    let id1 = list(&db, "u", 1)[0].id;
    assert_eq!(conv(5, 1, vec![ex("v2", "")]).store(&mut db, "u", 20), Ok(()));
    let id2 = list(&db, "u", 1)[0].id;

    assert_ne!(id1, id2);
    let loaded = Conversation::load(&db, "u", 1, id2).unwrap();
    assert_eq!(loaded.thread_id, 5);
    // The old row id no longer resolves.
    assert_eq!(Conversation::load(&db, "u", 1, id1).unwrap_err(), Error::NotFound);
}

#[test]
fn replace_only_touches_the_matching_thread() {
    let mut db = Database::new();
    assert!(db.add_project(1, "u"));

    assert_eq!(conv(5, 1, vec![ex("thread five", "")]).store(&mut db, "u", 10), Ok(()));
    assert_eq!(conv(6, 1, vec![ex("thread six", "")]).store(&mut db, "u", 20), Ok(()));
    assert_eq!(conv(5, 1, vec![ex("thread five again", "")]).store(&mut db, "u", 30), Ok(()));

    let previews = list(&db, "u", 1);
    assert_eq!(previews.len(), 2);
    assert_eq!(previews[0].title, "thread five again");
    assert_eq!(previews[1].title, "thread six");
}

#[test]
fn get_returns_compressed_projection() {
    let mut db = Database::new();
    assert!(db.add_project(1, "u"));
    let c = conv(5, 1, vec![ex("q1\nrest", "a1"), ex("q2", "a2")]);
    assert_eq!(c.store(&mut db, "u", 1), Ok(()));
    let id = list(&db, "u", 1)[0].id;

    let compressed = get(&db, "u", 1, id).unwrap();
    assert_eq!(compressed.len(), 2);
    assert_eq!(compressed[0].query, "q1\nrest");
    assert_eq!(compressed[1].query, "q2");
}

#[test]
fn corrupt_blob_yields_internal_error() {
    let mut db = Database::new();
    assert!(db.add_project(1, "u"));
    db.conversations.push(ConversationRow {
        id: 1,
        thread_id: 5,
        title: "broken".to_string(),
        exchanges: "not a valid blob".to_string(),
        project_id: 1,
        created_at: 1,
    });
    db.next_row_id = 2;
    assert_eq!(Conversation::load(&db, "u", 1, 1).unwrap_err(), Error::Internal);
    assert_eq!(get(&db, "u", 1, 1).unwrap_err(), Error::Internal);
}

#[test]
fn codec_round_trips_edge_cases() {
    let cases: Vec<Vec<Exchange>> = vec![
        vec![],
        vec![ex("", "")],
        vec![ex("10:23", "::::"), ex("\n\n", "0")],
        vec![ex(&"x".repeat(1000), "y")],
    ];
    for c in cases {
        let blob = encode_exchanges(&c);
        let back = decode_exchanges(blob.as_str()).unwrap();
        assert_eq!(back.len(), c.len());
        for (b, o) in back.iter().zip(c.iter()) {
            assert_eq!(b.query, o.query);
            assert_eq!(b.answer, o.answer);
        }
    }
}

#[test]
fn codec_rejects_malformed_blobs() {
    assert!(decode_exchanges("garbage").is_none());
    assert!(decode_exchanges("3:ab").is_none());
    assert!(decode_exchanges("1:a").is_none());
    assert!(decode_exchanges("2:ab3:cde9999999999999999999999:x").is_none());
    assert!(decode_exchanges(":").is_none());
    // The empty blob is the encoding of "no exchanges".
    assert_eq!(decode_exchanges("").unwrap().len(), 0);
}

#[test]
fn title_is_first_line_of_query() {
    assert_eq!(first_line("fix bug\ndetails"), "fix bug");
    assert_eq!(first_line("no newline"), "no newline");
    assert_eq!(first_line("\nstarts with newline"), "");
    assert_eq!(first_line("a\nb\nc"), "a");
}

#[test]
fn new_conversation_is_empty_with_given_project() {
    let c = Conversation::new(42);
    assert_eq!(c.exchanges.len(), 0);
    assert_eq!(c.project_id, 42);
    let d = Conversation::new(42);
    // Fresh random thread ids almost surely differ.
    assert_ne!(c.thread_id, d.thread_id);
}

#[test]
fn add_project_rejects_duplicate_ids() {
    let mut db = Database::new();
    assert!(db.add_project(1, "u"));
    assert!(!db.add_project(1, "someone else"));
    assert!(db.add_project(2, "u"));
}

#[test]
fn list_of_unowned_or_empty_project_is_empty() {
    let mut db = Database::new();
    assert!(db.add_project(1, "owner"));
    assert_eq!(list(&db, "owner", 1).len(), 0);
    let c = conv(5, 1, vec![ex("hello", "")]);
    assert_eq!(c.store(&mut db, "owner", 1), Ok(()));
    assert_eq!(list(&db, "stranger", 1).len(), 0);
    assert_eq!(list(&db, "owner", 99).len(), 0);
}
