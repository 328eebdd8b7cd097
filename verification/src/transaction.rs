//! Attaching tags in one transaction: what holds of a store while a plan
//! runs on it, whatever fails, and the run of a plan on the store in memory.

use crate::digest::{Digest, DIGEST_LEN};
use crate::engine::{reply_to, serve, served, valid_statement};
use crate::error::{Error, StorageError};
use crate::plan::{AttachPlan, Phase, PlanView, Reply, Statement};
use crate::store::{tag_texts, Store};
use crate::tables::{
    id_of, lemma_associate, lemma_attach_step, lemma_can_attach_prefix, lemma_id_of,
    lemma_resolve_hash, lemma_resolve_tag, Tables,
};
use crate::tag::Tag;
use vstd::prelude::*;

verus! {

/// What a store holds while a plan runs on it, phase by phase, where
/// `before` is what it held when the plan began: what the statements so far
/// have made of it while the plan is under way, all that the plan attaches
/// once it has ended well, and what it held before once it has ended with
/// an error.
pub open spec fn consistent(plan: PlanView, now: Tables, before: Tables) -> bool {
    let hash = plan.hash;
    let tags = plan.tags;
    &&& before.wf()
    &&& now.wf()
    &&& match plan.phase {
        Phase::Begin => now == before,
        Phase::Hash => now == before,
        Phase::Tag { hash_id, index } => {
            &&& before.can_attach(hash, tags.take(index as int))
            &&& now == before.attach(hash, tags.take(index as int))
            &&& now.hashes.contains(hash)
            &&& hash_id == id_of(now.hashes, hash)
        },
        Phase::Link { hash_id, tag_id, index } => {
            let mid = before.attach(hash, tags.take(index as int));
            &&& before.can_attach(hash, tags.take(index as int))
            &&& mid.can_resolve_tag(tags[index as int])
            &&& now == mid.resolve_tag(tags[index as int])
            &&& now.hashes.contains(hash)
            &&& now.tags.contains(tags[index as int])
            &&& hash_id == id_of(now.hashes, hash)
            &&& tag_id == id_of(now.tags, tags[index as int])
        },
        Phase::Commit => before.can_attach(hash, tags) && now == before.attach(hash, tags),
        Phase::Rollback(_) => true,
        Phase::Ended(Ok(())) => before.can_attach(hash, tags) && now == before.attach(hash, tags),
        Phase::Ended(Err(_)) => now == before,
    }
}

/// Whether a plan that failed, or is about to, does so because the store
/// has no room for what it attaches.
pub open spec fn out_of_room(plan: PlanView, before: Tables) -> bool {
    match plan.phase {
        Phase::Rollback(e) => !before.can_attach(plan.hash, plan.tags) && e
            == StorageError::Exhausted,
        Phase::Ended(Err(e)) => !before.can_attach(plan.hash, plan.tags) && e
            == StorageError::Exhausted,
        _ => true,
    }
}

/// What the engine makes of a statement: it runs it, or, where `fault`
/// holds an error, fails with that error and leaves the state as it is. A
/// rollback is always run.
pub open spec fn state_after(
    now: Tables,
    before: Tables,
    statement: Statement,
    fault: Option<StorageError>,
) -> Tables {
    if fault is Some && statement != Statement::Rollback {
        now
    } else {
        served(now, before, statement)
    }
}

/// What the engine answers to a statement that it runs, or fails as `fault`
/// says.
pub open spec fn reply_after(now: Tables, statement: Statement, fault: Option<StorageError>) -> Reply {
    if fault is Some && statement != Statement::Rollback {
        Reply::Failed(fault->Some_0)
    } else {
        reply_to(now, statement)
    }
}

/// Every statement of a plan, whether the engine runs it or fails, leaves
/// the plan and the store consistent. Where no statement is made to fail, a
/// plan fails only for want of room.
pub proof fn lemma_step(
    plan: PlanView,
    now: Tables,
    before: Tables,
    statement: Statement,
    fault: Option<StorageError>,
)
    requires
        plan.wf(),
        plan.hash.len() == DIGEST_LEN,
        consistent(plan, now, before),
        plan.pending() == Some(statement),
        valid_statement(statement),
    ensures
        consistent(
            plan.advance(reply_after(now, statement, fault)),
            state_after(now, before, statement, fault),
            before,
        ),
        fault is None && out_of_room(plan, before) ==> out_of_room(
            plan.advance(reply_after(now, statement, fault)),
            before,
        ),
{
    let hash = plan.hash;
    let tags = plan.tags;
    let after = state_after(now, before, statement, fault);
    match plan.phase {
        Phase::Begin => {},
        Phase::Hash => {
            assert(tags.take(0) =~= Seq::<Seq<char>>::empty());
            if now.can_resolve_hash(hash) {
                lemma_resolve_hash(now, hash);
                lemma_id_of(now.resolve_hash(hash).hashes, hash);
                if tags.len() == 0 {
                    assert(tags =~= tags.take(0));
                }
            } else {
                if before.can_attach(hash, tags) {
                    lemma_can_attach_prefix(before, hash, tags, 0);
                }
            }
        },
        Phase::Tag { hash_id, index } => {
            let tag = tags[index as int];
            lemma_attach_step(before, hash, tags, index as int);
            if now.can_resolve_tag(tag) {
                lemma_resolve_tag(now, tag);
                lemma_id_of(now.resolve_tag(tag).tags, tag);
            } else {
                if before.can_attach(hash, tags) {
                    lemma_can_attach_prefix(before, hash, tags, index + 1);
                }
            }
        },
        Phase::Link { hash_id, tag_id, index } => {
            lemma_attach_step(before, hash, tags, index as int);
            lemma_id_of(now.hashes, hash);
            lemma_id_of(now.tags, tags[index as int]);
            lemma_associate(now, (hash_id as int, tag_id as int));
            if index + 1 == tags.len() {
                assert(tags.take(index + 1) =~= tags);
            }
        },
        Phase::Commit => {},
        Phase::Rollback(e) => {},
        Phase::Ended(r) => {},
    }
}

/// Attaches each of `tags` to `hash`, making the rows of the hash, of the
/// tags and of the associations that are not there yet, in one transaction:
/// where it fails, the store is left as it was. It fails exactly when a
/// table has no room for a row that is needed.
pub fn add_tags_to_hash(store: &mut Store, hash: &Digest, tags: Vec<Tag>) -> (r: Result<(), Error>)
    requires
        old(store)@.wf(),
    ensures
        final(store)@.wf(),
        final(store)@.extends(old(store)@),
        match r {
            Ok(()) => {
                &&& old(store)@.can_attach(hash@, tag_texts(tags@))
                &&& final(store)@ == old(store)@.attach(hash@, tag_texts(tags@))
            },
            Err(e) => {
                &&& !old(store)@.can_attach(hash@, tag_texts(tags@))
                &&& final(store)@ == old(store)@
                &&& e == Error::Postgres(StorageError::Exhausted)
            },
        },
{
    let ghost before = store@;
    let ghost wanted = tag_texts(tags@);
    let mark = store.savepoint();
    let mut plan = AttachPlan::new(*hash, tags);
    proof {
        hash.lemma_len();
        assert(before.extends(before)) by {
            assert(before.hashes =~= before.hashes.subrange(0, before.hashes.len() as int));
            assert(before.tags =~= before.tags.subrange(0, before.tags.len() as int));
            assert(before.links =~= before.links.subrange(0, before.links.len() as int));
        }
    }
    loop
        invariant
            mark.wf(),
            mark@ == before,
            store@.extends(before),
            plan@.wf(),
            plan@.hash == hash@,
            plan@.hash.len() == DIGEST_LEN,
            plan@.tags == wanted,
            consistent(plan@, store@, before),
            out_of_room(plan@, before),
        ensures
            store@.extends(before),
            plan@.hash == hash@,
            plan@.tags == wanted,
            plan@.pending() is None,
            consistent(plan@, store@, before),
            out_of_room(plan@, before),
        decreases plan@.remaining(),
    {
        match plan.pending() {
            None => {
                break ;
            },
            Some(request) => {
                let ghost held = store@;
                let ghost at = plan@;
                let reply = serve(store, &mark, &request);
                proof {
                    lemma_step(at, held, before, request@, None);
                }
                plan = plan.advance(reply);
            },
        }
    }
    plan.outcome().unwrap()
}

} // verus!
