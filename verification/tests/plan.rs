use tagstore::digest::Digest;
use tagstore::engine::serve;
use tagstore::error::{Error, StorageError};
use tagstore::plan::{AttachPlan, Reply, Request};
use tagstore::store::Store;
use tagstore::tag::Tag;

fn hash(fill: u8) -> Digest {
    Digest::try_from(&[fill; 32][..]).unwrap()
}

fn label(text: &str) -> Tag {
    Tag::try_from(text.to_string()).unwrap()
}

fn plan_for(fill: u8, texts: &[&str]) -> AttachPlan {
    AttachPlan::new(hash(fill), texts.iter().map(|t| label(t)).collect())
}

#[test]
fn plan_starts_by_opening_the_transaction() {
    let plan = plan_for(1, &["x"]);
    assert!(matches!(plan.pending(), Some(Request::Begin)));
    assert_eq!(plan.outcome(), None);
}

#[test]
fn plan_resolves_the_hash_then_each_tag_and_commits_last() {
    let plan = plan_for(1, &["x", "y"]);
    assert!(matches!(plan.pending(), Some(Request::Begin)));
    let plan = plan.advance(Reply::Done);
    match plan.pending() {
        Some(Request::ResolveHash(d)) => assert_eq!(d, hash(1)),
        other => panic!("unexpected statement {:?}", other),
    }
    let plan = plan.advance(Reply::Id(7));
    match plan.pending() {
        Some(Request::ResolveTag(t)) => assert_eq!(t.as_str(), "x"),
        other => panic!("unexpected statement {:?}", other),
    }
    let plan = plan.advance(Reply::Id(3));
    assert!(matches!(plan.pending(), Some(Request::Associate { hash_id: 7, tag_id: 3 })));
    let plan = plan.advance(Reply::Done);
    match plan.pending() {
        Some(Request::ResolveTag(t)) => assert_eq!(t.as_str(), "y"),
        other => panic!("unexpected statement {:?}", other),
    }
    let plan = plan.advance(Reply::Id(4));
    assert!(matches!(plan.pending(), Some(Request::Associate { hash_id: 7, tag_id: 4 })));
    let plan = plan.advance(Reply::Done);
    assert!(matches!(plan.pending(), Some(Request::Commit)));
    let plan = plan.advance(Reply::Done);
    assert!(plan.pending().is_none());
    assert_eq!(plan.outcome(), Some(Ok(())));
}

#[test]
fn plan_without_tags_resolves_the_hash_and_commits() {
    let plan = plan_for(1, &[]);
    let plan = plan.advance(Reply::Done);
    assert!(matches!(plan.pending(), Some(Request::ResolveHash(_))));
    let plan = plan.advance(Reply::Id(1));
    assert!(matches!(plan.pending(), Some(Request::Commit)));
    let plan = plan.advance(Reply::Done);
    assert_eq!(plan.outcome(), Some(Ok(())));
}

#[test]
fn plan_ends_when_the_transaction_cannot_be_opened() {
    let plan = plan_for(1, &["x"]);
    let plan = plan.advance(Reply::Failed(StorageError::Engine("no connection".to_string())));
    assert!(plan.pending().is_none());
    assert_eq!(
        plan.outcome(),
        Some(Err(Error::Postgres(StorageError::Engine("no connection".to_string()))))
    );
}

#[test]
fn plan_rolls_back_when_the_hash_cannot_be_resolved() {
    let plan = plan_for(1, &["x"]).advance(Reply::Done);
    let plan = plan.advance(Reply::Failed(StorageError::Exhausted));
    assert!(matches!(plan.pending(), Some(Request::Rollback)));
    let plan = plan.advance(Reply::Done);
    assert_eq!(plan.outcome(), Some(Err(Error::Postgres(StorageError::Exhausted))));
}

#[test]
fn plan_rolls_back_when_an_association_fails() {
    let plan = plan_for(1, &["x"]).advance(Reply::Done).advance(Reply::Id(1)).advance(Reply::Id(1));
    assert!(matches!(plan.pending(), Some(Request::Associate { hash_id: 1, tag_id: 1 })));
    let plan = plan.advance(Reply::Failed(StorageError::UnknownId));
    assert!(matches!(plan.pending(), Some(Request::Rollback)));
    // What the engine says of the rollback does not change the outcome.
    let plan = plan.advance(Reply::Failed(StorageError::Engine("gone".to_string())));
    assert_eq!(plan.outcome(), Some(Err(Error::Postgres(StorageError::UnknownId))));
}

#[test]
fn plan_rolls_back_when_the_commit_fails() {
    let plan = plan_for(1, &[]).advance(Reply::Done).advance(Reply::Id(1));
    assert!(matches!(plan.pending(), Some(Request::Commit)));
    let plan = plan.advance(Reply::Failed(StorageError::Engine("late".to_string())));
    assert!(matches!(plan.pending(), Some(Request::Rollback)));
    let plan = plan.advance(Reply::Done);
    assert_eq!(
        plan.outcome(),
        Some(Err(Error::Postgres(StorageError::Engine("late".to_string()))))
    );
}

#[test]
fn plan_rolls_back_when_no_identifier_comes() {
    let plan = plan_for(1, &["x"]).advance(Reply::Done);
    let plan = plan.advance(Reply::Done);
    assert!(matches!(plan.pending(), Some(Request::Rollback)));
    let plan = plan.advance(Reply::Done);
    assert_eq!(plan.outcome(), Some(Err(Error::Postgres(StorageError::NoIdentifier))));

    let plan = plan_for(1, &["x"]).advance(Reply::Done).advance(Reply::Id(1));
    let plan = plan.advance(Reply::Done);
    assert!(matches!(plan.pending(), Some(Request::Rollback)));
    let plan = plan.advance(Reply::Done);
    assert_eq!(plan.outcome(), Some(Err(Error::Postgres(StorageError::NoIdentifier))));
}

#[test]
fn ended_plan_stays_ended() {
    let plan = plan_for(1, &[]).advance(Reply::Done).advance(Reply::Id(1)).advance(Reply::Done);
    let plan = plan.advance(Reply::Failed(StorageError::Exhausted));
    assert!(plan.pending().is_none());
    assert_eq!(plan.outcome(), Some(Ok(())));
}

#[test]
fn plan_of_n_tags_ends_within_2n_plus_4_replies() {
    for n in 0usize..5 {
        let texts: Vec<String> = (0..n).map(|i| format!("t{}", i)).collect();
        let tags: Vec<Tag> = texts.iter().map(|t| label(t)).collect();
        let mut store = Store::new();
        let mark = store.savepoint();
        let mut plan = AttachPlan::new(hash(1), tags);
        let mut steps = 0;
        while let Some(request) = plan.pending() {
            let reply = serve(&mut store, &mark, &request);
            plan = plan.advance(reply);
            steps += 1;
            assert!(steps <= 2 * n + 4);
        }
        assert_eq!(steps, 2 * n + 3);
        assert_eq!(plan.outcome(), Some(Ok(())));
        assert_eq!(store.get_tags(&hash(1)), texts);
    }
}

#[test]
fn engine_answers_each_statement() {
    let mut store = Store::new();
    let mark = store.savepoint();
    assert!(matches!(serve(&mut store, &mark, &Request::Begin), Reply::Done));
    assert!(matches!(serve(&mut store, &mark, &Request::ResolveHash(hash(1))), Reply::Id(1)));
    assert!(matches!(serve(&mut store, &mark, &Request::ResolveTag(label("a"))), Reply::Id(1)));
    assert!(matches!(serve(&mut store, &mark, &Request::ResolveTag(label("b"))), Reply::Id(2)));
    assert!(matches!(
        serve(&mut store, &mark, &Request::Associate { hash_id: 1, tag_id: 2 }),
        Reply::Done
    ));
    assert!(matches!(
        serve(&mut store, &mark, &Request::Associate { hash_id: 2, tag_id: 2 }),
        Reply::Failed(StorageError::UnknownId)
    ));
    assert!(matches!(serve(&mut store, &mark, &Request::Commit), Reply::Done));
    assert_eq!(store.get_tags(&hash(1)), vec!["b"]);
    assert!(matches!(serve(&mut store, &mark, &Request::Rollback), Reply::Done));
    assert_eq!(store.get_tags(&hash(1)), Vec::<String>::new());
}

#[test]
fn storage_failure_between_two_tags_leaves_neither() {
    let mut store = Store::new();
    let mark = store.savepoint();
    let mut plan = plan_for(9, &["x", "y"]);
    let mut failed = false;
    while let Some(request) = plan.pending() {
        let fails = match &request {
            Request::ResolveTag(tag) => tag.as_str() == "y",
            _ => false,
        };
        let reply = if fails {
            // "x" is resolved and attached by now.
            assert_eq!(store.get_tags(&hash(9)), vec!["x"]);
            failed = true;
            Reply::Failed(StorageError::Engine("connection lost".to_string()))
        } else {
            serve(&mut store, &mark, &request)
        };
        plan = plan.advance(reply);
    }
    assert!(failed);
    assert_eq!(
        plan.outcome(),
        Some(Err(Error::Postgres(StorageError::Engine("connection lost".to_string()))))
    );
    let found = store.get_tags(&hash(9));
    assert!(!found.contains(&"x".to_string()));
    assert!(!found.contains(&"y".to_string()));
    // No row is left of the hash or of "x".
    assert_eq!(store.get_or_insert_hash(&hash(8)), Ok(1));
    assert_eq!(store.get_or_insert_tag(&label("z")), Ok(1));
}
