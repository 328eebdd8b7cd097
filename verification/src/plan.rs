//! Attaching tags as a conversation with a storage engine.
//!
//! A plan says which statement the engine is to run next, and takes the
//! engine's reply to the one before. Whoever talks to the engine runs the
//! statements; the plan decides. All statements of one plan belong to one
//! transaction, which is committed only when every one of them succeeded.

use crate::digest::Digest;
use crate::error::{Error, StorageError};
use crate::tag::Tag;
use vstd::prelude::*;

verus! {

/// A statement for the storage engine.
#[derive(Debug)]
pub enum Request {
    /// Open a transaction.
    Begin,
    /// Return the identifier of the hash, making its row if it has none.
    ResolveHash(Digest),
    /// Return the identifier of the tag, making its row if it has none.
    ResolveTag(Tag),
    /// Record the association, unless it is recorded already.
    Associate { hash_id: i32, tag_id: i32 },
    /// Make the transaction's work lasting.
    Commit,
    /// Undo the transaction's work.
    Rollback,
}

/// A statement, with each value taken by its view.
pub enum Statement {
    Begin,
    ResolveHash(Seq<u8>),
    ResolveTag(Seq<char>),
    Associate { hash_id: int, tag_id: int },
    Commit,
    Rollback,
}

impl View for Request {
    type V = Statement;

    open spec fn view(&self) -> Statement {
        match *self {
            Request::Begin => Statement::Begin,
            Request::ResolveHash(hash) => Statement::ResolveHash(hash@),
            Request::ResolveTag(tag) => Statement::ResolveTag(tag@),
            Request::Associate { hash_id, tag_id } => Statement::Associate {
                hash_id: hash_id as int,
                tag_id: tag_id as int,
            },
            Request::Commit => Statement::Commit,
            Request::Rollback => Statement::Rollback,
        }
    }
}

/// What the storage engine answers to a statement.
#[derive(Debug)]
pub enum Reply {
    /// The statement was run and returns nothing.
    Done,
    /// The statement was run and returns an identifier.
    Id(i32),
    /// The statement failed.
    Failed(StorageError),
}

/// How far a plan has come: the statement whose reply it waits for.
#[derive(Debug)]
pub enum Phase {
    /// The opening of the transaction.
    Begin,
    /// The resolution of the hash.
    Hash,
    /// The resolution of the tag at `index`.
    Tag { hash_id: i32, index: usize },
    /// The association of the tag at `index`.
    Link { hash_id: i32, tag_id: i32, index: usize },
    /// The commit.
    Commit,
    /// The rollback after a statement failed with the given error.
    Rollback(StorageError),
    /// No statement: the plan has ended, well or with the given error.
    Ended(Result<(), StorageError>),
}

/// A plan as a mathematical value.
pub struct PlanView {
    pub hash: Seq<u8>,
    pub tags: Seq<Seq<char>>,
    pub phase: Phase,
}

impl PlanView {
    /// Whether the tags can be counted and the phase names one of them.
    pub open spec fn wf(self) -> bool {
        &&& self.tags.len() <= usize::MAX
        &&& match self.phase {
            Phase::Tag { hash_id, index } => index < self.tags.len(),
            Phase::Link { hash_id, tag_id, index } => index < self.tags.len(),
            _ => true,
        }
    }

    /// The statement that the engine is to run next: none once the plan has
    /// ended.
    pub open spec fn pending(self) -> Option<Statement> {
        match self.phase {
            Phase::Begin => Some(Statement::Begin),
            Phase::Hash => Some(Statement::ResolveHash(self.hash)),
            Phase::Tag { hash_id, index } => Some(Statement::ResolveTag(self.tags[index as int])),
            Phase::Link { hash_id, tag_id, index } => Some(
                Statement::Associate { hash_id: hash_id as int, tag_id: tag_id as int },
            ),
            Phase::Commit => Some(Statement::Commit),
            Phase::Rollback(_) => Some(Statement::Rollback),
            Phase::Ended(_) => None,
        }
    }

    /// The phase after the hash, or the tag at `index - 1`, has been dealt
    /// with: the next tag, or the commit when none is left.
    pub open spec fn onward(self, hash_id: i32, index: int) -> Phase {
        if index < self.tags.len() {
            Phase::Tag { hash_id, index: index as usize }
        } else {
            Phase::Commit
        }
    }

    /// The phase that follows on a reply to the pending statement.
    ///
    /// Where the transaction cannot be opened, the plan ends with that
    /// error. Every later failure is followed by a rollback, and so is a
    /// reply without an identifier where one was asked for. Whatever the
    /// engine answers to the rollback, the plan then ends with the error
    /// that caused it.
    pub open spec fn next_phase(self, reply: Reply) -> Phase {
        match self.phase {
            Phase::Begin => match reply {
                Reply::Failed(e) => Phase::Ended(Err(e)),
                _ => Phase::Hash,
            },
            Phase::Hash => match reply {
                Reply::Id(id) => self.onward(id, 0),
                Reply::Done => Phase::Rollback(StorageError::NoIdentifier),
                Reply::Failed(e) => Phase::Rollback(e),
            },
            Phase::Tag { hash_id, index } => match reply {
                Reply::Id(id) => Phase::Link { hash_id, tag_id: id, index },
                Reply::Done => Phase::Rollback(StorageError::NoIdentifier),
                Reply::Failed(e) => Phase::Rollback(e),
            },
            Phase::Link { hash_id, tag_id, index } => match reply {
                Reply::Failed(e) => Phase::Rollback(e),
                _ => self.onward(hash_id, index + 1),
            },
            Phase::Commit => match reply {
                Reply::Failed(e) => Phase::Rollback(e),
                _ => Phase::Ended(Ok(())),
            },
            Phase::Rollback(e) => Phase::Ended(Err(e)),
            Phase::Ended(r) => Phase::Ended(r),
        }
    }

    /// The plan after a reply to the pending statement.
    pub open spec fn advance(self, reply: Reply) -> PlanView {
        PlanView { phase: self.next_phase(reply), ..self }
    }

    /// How the plan ended, once it has.
    pub open spec fn outcome(self) -> Option<Result<(), Error>> {
        match self.phase {
            Phase::Ended(Ok(())) => Some(Ok(())),
            Phase::Ended(Err(e)) => Some(Err(Error::Postgres(e))),
            _ => None,
        }
    }

    /// The most replies that the plan still takes before it has ended.
    pub open spec fn remaining(self) -> nat {
        match self.phase {
            Phase::Begin => 2 * self.tags.len() + 4,
            Phase::Hash => 2 * self.tags.len() + 3,
            Phase::Tag { hash_id, index } => (2 * (self.tags.len() - index) + 2) as nat,
            Phase::Link { hash_id, tag_id, index } => (2 * (self.tags.len() - index) + 1) as nat,
            Phase::Commit => 2,
            Phase::Rollback(_) => 1,
            Phase::Ended(_) => 0,
        }
    }
}

/// A reply to the pending statement leaves the plan well formed and brings
/// it nearer to its end, which it has reached exactly when nothing is
/// pending.
pub proof fn lemma_advance(plan: PlanView, reply: Reply)
    requires
        plan.wf(),
    ensures
        plan.advance(reply).wf(),
        plan.pending() is Some ==> plan.advance(reply).remaining() < plan.remaining(),
        plan.pending() is None <==> plan.remaining() == 0,
        plan.pending() is None <==> plan.outcome() is Some,
{
}

/// A plan to attach tags to a hash, in one transaction.
#[derive(Debug)]
pub struct AttachPlan {
    hash: Digest,
    tags: Vec<Tag>,
    phase: Phase,
}

impl View for AttachPlan {
    type V = PlanView;

    closed spec fn view(&self) -> PlanView {
        PlanView {
            hash: self.hash@,
            tags: self.tags@.map_values(|t: Tag| t@),
            phase: self.phase,
        }
    }
}

impl AttachPlan {
    #[verifier::type_invariant]
    spec fn well_formed(self) -> bool {
        self@.wf()
    }

    /// The plan to attach `tags` to `hash`. It starts by opening the
    /// transaction.
    pub fn new(hash: Digest, tags: Vec<Tag>) -> (plan: AttachPlan)
        ensures
            plan@ == (PlanView {
                hash: hash@,
                tags: tags@.map_values(|t: Tag| t@),
                phase: Phase::Begin,
            }),
            plan@.wf(),
    {
        assert(tags@.len() == tags.len());
        AttachPlan { hash, tags, phase: Phase::Begin }
    }

    /// The statement that the engine is to run next: none once the plan has
    /// ended.
    pub fn pending(&self) -> (request: Option<Request>)
        ensures
            self@.wf(),
            match request {
                Some(r) => self@.pending() == Some(r@),
                None => self@.pending() is None,
            },
    {
        proof {
            use_type_invariant(self);
        }
        match &self.phase {
            Phase::Begin => Some(Request::Begin),
            Phase::Hash => Some(Request::ResolveHash(self.hash)),
            Phase::Tag { hash_id, index } => Some(Request::ResolveTag(self.tags[*index].clone())),
            Phase::Link { hash_id, tag_id, index } => Some(
                Request::Associate { hash_id: *hash_id, tag_id: *tag_id },
            ),
            Phase::Commit => Some(Request::Commit),
            Phase::Rollback(_) => Some(Request::Rollback),
            Phase::Ended(_) => None,
        }
    }

    /// The plan after the engine's reply to the pending statement. Each
    /// reply brings the plan nearer to its end.
    pub fn advance(self, reply: Reply) -> (next: AttachPlan)
        ensures
            next@ == self@.advance(reply),
            next@.wf(),
            self@.pending() is Some ==> next@.remaining() < self@.remaining(),
    {
        proof {
            use_type_invariant(&self);
        }
        let AttachPlan { hash, tags, phase } = self;
        let count = tags.len();
        let next = match phase {
            Phase::Begin => match reply {
                Reply::Failed(e) => Phase::Ended(Err(e)),
                _ => Phase::Hash,
            },
            Phase::Hash => match reply {
                Reply::Id(id) => if 0 < count {
                    Phase::Tag { hash_id: id, index: 0 }
                } else {
                    Phase::Commit
                },
                Reply::Done => Phase::Rollback(StorageError::NoIdentifier),
                Reply::Failed(e) => Phase::Rollback(e),
            },
            Phase::Tag { hash_id, index } => match reply {
                Reply::Id(id) => Phase::Link { hash_id, tag_id: id, index },
                Reply::Done => Phase::Rollback(StorageError::NoIdentifier),
                Reply::Failed(e) => Phase::Rollback(e),
            },
            Phase::Link { hash_id, tag_id, index } => match reply {
                Reply::Failed(e) => Phase::Rollback(e),
                _ => if index + 1 < count {
                    Phase::Tag { hash_id, index: index + 1 }
                } else {
                    Phase::Commit
                },
            },
            Phase::Commit => match reply {
                Reply::Failed(e) => Phase::Rollback(e),
                _ => Phase::Ended(Ok(())),
            },
            Phase::Rollback(e) => Phase::Ended(Err(e)),
            Phase::Ended(r) => Phase::Ended(r),
        };
        AttachPlan { hash, tags, phase: next }
    }

    /// How the plan ended: nothing while a statement is pending.
    pub fn outcome(self) -> (r: Option<Result<(), Error>>)
        ensures
            r == self@.outcome(),
            r is None <==> self@.pending() is Some,
    {
        match self.phase {
            Phase::Ended(Ok(())) => Some(Ok(())),
            Phase::Ended(Err(e)) => Some(Err(Error::Postgres(e))),
            _ => None,
        }
    }
}

} // verus!
