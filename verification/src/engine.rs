//! The store in memory as a storage engine: it runs the statements of a
//! plan and answers them.

use crate::digest::DIGEST_LEN;
use crate::error::StorageError;
use crate::plan::{Reply, Request, Statement};
use crate::store::{Savepoint, Store};
use crate::tables::{id_of, Tables};
use crate::tag::valid_tag;
use vstd::prelude::*;

verus! {

/// What a statement leaves of the state `t`, in a transaction that began in
/// the state `before`. A statement that fails leaves the state as it was.
pub open spec fn served(t: Tables, before: Tables, statement: Statement) -> Tables {
    match statement {
        Statement::Begin => t,
        Statement::ResolveHash(hash) => if t.can_resolve_hash(hash) {
            t.resolve_hash(hash)
        } else {
            t
        },
        Statement::ResolveTag(tag) => if t.can_resolve_tag(tag) {
            t.resolve_tag(tag)
        } else {
            t
        },
        Statement::Associate { hash_id, tag_id } => if t.refers((hash_id, tag_id)) {
            t.associate((hash_id, tag_id))
        } else {
            t
        },
        Statement::Commit => t,
        Statement::Rollback => before,
    }
}

/// What the engine answers to a statement in the state `t`.
pub open spec fn reply_to(t: Tables, statement: Statement) -> Reply {
    match statement {
        Statement::Begin => Reply::Done,
        Statement::ResolveHash(hash) => if t.can_resolve_hash(hash) {
            Reply::Id(id_of(t.resolve_hash(hash).hashes, hash) as i32)
        } else {
            Reply::Failed(StorageError::Exhausted)
        },
        Statement::ResolveTag(tag) => if t.can_resolve_tag(tag) {
            Reply::Id(id_of(t.resolve_tag(tag).tags, tag) as i32)
        } else {
            Reply::Failed(StorageError::Exhausted)
        },
        Statement::Associate { hash_id, tag_id } => if t.refers((hash_id, tag_id)) {
            Reply::Done
        } else {
            Reply::Failed(StorageError::UnknownId)
        },
        Statement::Commit => Reply::Done,
        Statement::Rollback => Reply::Done,
    }
}

/// Whether the values in a statement are valid: they are in every statement
/// that is made of a digest or a tag.
pub open spec fn valid_statement(statement: Statement) -> bool {
    match statement {
        Statement::ResolveHash(hash) => hash.len() == DIGEST_LEN,
        Statement::ResolveTag(tag) => valid_tag(tag),
        _ => true,
    }
}

/// Runs a statement of the transaction that began at `mark`, and answers
/// it.
pub fn serve(store: &mut Store, mark: &Savepoint, request: &Request) -> (reply: Reply)
    requires
        old(store)@.wf(),
        mark.wf(),
        old(store)@.extends(mark@),
    ensures
        final(store)@.wf(),
        final(store)@.extends(mark@),
        final(store)@ == served(old(store)@, mark@, request@),
        reply == reply_to(old(store)@, request@),
        valid_statement(request@),
{
    match request {
        Request::Begin => Reply::Done,
        Request::ResolveHash(hash) => {
            proof {
                hash.lemma_len();
            }
            match store.get_or_insert_hash(hash) {
                Ok(id) => Reply::Id(id),
                Err(e) => Reply::Failed(e),
            }
        },
        Request::ResolveTag(tag) => {
            let _ = tag.as_str();
            match store.get_or_insert_tag(tag) {
                Ok(id) => Reply::Id(id),
                Err(e) => Reply::Failed(e),
            }
        },
        Request::Associate { hash_id, tag_id } => match store.associate(*hash_id, *tag_id) {
            Ok(()) => Reply::Done,
            Err(e) => Reply::Failed(e),
        },
        Request::Commit => Reply::Done,
        Request::Rollback => {
            store.rollback_to(mark);
            Reply::Done
        },
    }
}

} // verus!
