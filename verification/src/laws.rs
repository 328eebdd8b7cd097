//! What holds of the operations of the store, over all states and inputs.

use crate::digest::DIGEST_LEN;
use crate::engine::valid_statement;
use crate::error::StorageError;
use crate::plan::{lemma_advance, Phase, PlanView};
use crate::tables::{
    lemma_attach, lemma_attach_settled, lemma_can_attach_prefix, lemma_tag_list, valid_tags,
    Tables,
};
use crate::tag::valid_tag;
use crate::transaction::{consistent, lemma_step, reply_after, state_after};
use vstd::prelude::*;
use vstd::seq_lib::seq_to_set_is_finite;
use vstd::set::{axiom_set_insert_len, axiom_set_union_finite};

verus! {

/// A hash that the store has not seen carries no tag.
pub proof fn lemma_unseen_hash_has_no_tags(t: Tables, hash: Seq<u8>)
    requires
        !t.hashes.contains(hash),
    ensures
        t.tags_of(hash) == Set::<Seq<char>>::empty(),
        t.tag_list(hash) == Seq::<Seq<char>>::empty(),
{
    assert(t.tags_of(hash) =~= Set::<Seq<char>>::empty());
}

/// After tags were attached to a hash, the hash carries them besides those
/// that it carried before, and every other hash carries what it carried.
pub proof fn lemma_attach_tags_of(t: Tables, hash: Seq<u8>, tags: Seq<Seq<char>>)
    requires
        t.wf(),
        hash.len() == DIGEST_LEN,
        valid_tags(tags),
        t.can_attach(hash, tags),
    ensures
        t.attach(hash, tags).tags_of(hash) == t.tags_of(hash).union(tags.to_set()),
        tags.to_set().subset_of(t.attach(hash, tags).tags_of(hash)),
        t.tags_of(hash).subset_of(t.attach(hash, tags).tags_of(hash)),
        forall|other: Seq<u8>|
            other != hash ==> t.attach(hash, tags).tags_of(other) == t.tags_of(other),
{
    lemma_attach(t, hash, tags);
    let after = t.attach(hash, tags);
    assert(after.tags_of(hash) =~= t.tags_of(hash).union(tags.to_set()));
    assert forall|other: Seq<u8>| other != hash implies after.tags_of(other) == t.tags_of(
        other,
    ) by {
        assert(after.tags_of(other) =~= t.tags_of(other));
    }
}

/// The tags that are known once `tags` are: those that the store knows and
/// those among `tags`.
pub open spec fn tags_known_with(t: Tables, tags: Seq<Seq<char>>) -> Set<Seq<char>> {
    t.tags.to_set().union(tags.to_set())
}

/// There is room to attach tags to a hash exactly when the hash has a row
/// or the table of hashes has one left, and the tags that are known
/// afterwards are no more than the table of tags holds.
pub proof fn lemma_room(t: Tables, hash: Seq<u8>, tags: Seq<Seq<char>>)
    requires
        t.wf(),
        hash.len() == DIGEST_LEN,
        valid_tags(tags),
    ensures
        tags_known_with(t, tags).finite(),
        t.can_attach(hash, tags) <==> t.can_resolve_hash(hash) && tags_known_with(t, tags).len()
            <= t.limit,
    decreases tags.len(),
{
    broadcast use {seq_to_set_is_finite, axiom_set_union_finite, axiom_set_insert_len};

    let known = tags_known_with(t, tags);
    if t.can_attach(hash, tags) {
        lemma_attach(t, hash, tags);
        let after = t.attach(hash, tags);
        assert(after.tags.to_set() =~= known);
        after.tags.unique_seq_to_set();
        lemma_can_attach_prefix(t, hash, tags, 0);
        assert(tags.take(0) =~= Seq::<Seq<char>>::empty());
    }
    if t.can_resolve_hash(hash) && known.len() <= t.limit {
        if tags.len() == 0 {
        } else {
            let front = tags.drop_last();
            let tag = tags.last();
            assert(valid_tags(front)) by {
                assert forall|i: int| 0 <= i < front.len() implies valid_tag(
                    #[trigger] front[i],
                ) by {
                    assert(front[i] == tags[i]);
                }
            }
            let fewer = tags_known_with(t, front);
            assert(known =~= fewer.insert(tag)) by {
                assert forall|g: Seq<char>| known.contains(g) == fewer.insert(tag).contains(
                    g,
                ) by {
                    if tags.contains(g) {
                        let i = tags.index_of(g);
                        if i < front.len() {
                            assert(front[i] == g);
                        }
                    }
                    if front.contains(g) {
                        let i = front.index_of(g);
                        assert(tags[i] == g);
                    }
                    assert(tags[tags.len() - 1] == tag);
                }
            }
            lemma_room(t, hash, front);
            assert(t.can_attach(hash, front));
            lemma_attach(t, hash, front);
            let mid = t.attach(hash, front);
            assert(mid.tags.to_set() =~= fewer);
            mid.tags.unique_seq_to_set();
        }
    }
}

/// Attaching the same tags to the same hash once more succeeds and changes
/// nothing: no row is added, and the hash carries what it carried after the
/// first time.
pub proof fn lemma_attach_again(t: Tables, hash: Seq<u8>, tags: Seq<Seq<char>>)
    requires
        t.wf(),
        hash.len() == DIGEST_LEN,
        valid_tags(tags),
        t.can_attach(hash, tags),
    ensures
        t.attach(hash, tags).can_attach(hash, tags),
        t.attach(hash, tags).attach(hash, tags) == t.attach(hash, tags),
{
    lemma_attach(t, hash, tags);
    let once = t.attach(hash, tags);
    assert forall|i: int| 0 <= i < tags.len() implies once.linked(hash, #[trigger] tags[i]) by {
        assert(tags.contains(tags[i]));
    }
    lemma_attach_settled(once, hash, tags);
}

/// The store after each of `tags` was attached to `hash` by a call of its
/// own, one call after the other.
pub open spec fn attach_in_turn(t: Tables, hash: Seq<u8>, tags: Seq<Seq<char>>) -> Tables
    decreases tags.len(),
{
    if tags.len() == 0 {
        t
    } else {
        attach_in_turn(t, hash, tags.drop_last()).attach(hash, seq![tags.last()])
    }
}

/// Whether each of those calls finds the room that it needs.
pub open spec fn can_attach_in_turn(t: Tables, hash: Seq<u8>, tags: Seq<Seq<char>>) -> bool
    decreases tags.len(),
{
    if tags.len() == 0 {
        true
    } else {
        &&& can_attach_in_turn(t, hash, tags.drop_last())
        &&& attach_in_turn(t, hash, tags.drop_last()).can_attach(hash, seq![tags.last()])
    }
}

/// Callers that each attach one tag to the same hash, in whatever order
/// their transactions take place, leave the hash with the tags of all of
/// them besides those that it carried, leave every other hash as it was,
/// and leave no value and no association with two rows.
pub proof fn lemma_attach_in_turn(t: Tables, hash: Seq<u8>, tags: Seq<Seq<char>>)
    requires
        t.wf(),
        hash.len() == DIGEST_LEN,
        valid_tags(tags),
        can_attach_in_turn(t, hash, tags),
    ensures
        attach_in_turn(t, hash, tags).wf(),
        attach_in_turn(t, hash, tags).tags_of(hash) == t.tags_of(hash).union(tags.to_set()),
        tags.len() > 0 ==> attach_in_turn(t, hash, tags).hashes.contains(hash),
        forall|other: Seq<u8>|
            other != hash ==> attach_in_turn(t, hash, tags).tags_of(other) == t.tags_of(other),
    decreases tags.len(),
{
    if tags.len() == 0 {
        assert(t.tags_of(hash) =~= t.tags_of(hash).union(tags.to_set()));
    } else {
        let front = tags.drop_last();
        let one = seq![tags.last()];
        let mid = attach_in_turn(t, hash, front);
        assert(valid_tags(front)) by {
            assert forall|i: int| 0 <= i < front.len() implies valid_tag(#[trigger] front[i]) by {
                assert(front[i] == tags[i]);
            }
        }
        assert(valid_tags(one)) by {
            assert(one[0] == tags[tags.len() - 1]);
        }
        lemma_attach_in_turn(t, hash, front);
        lemma_attach_tags_of(mid, hash, one);
        lemma_attach(mid, hash, one);
        assert(tags.to_set() =~= front.to_set().union(one.to_set())) by {
            assert forall|g: Seq<char>|
                tags.to_set().contains(g) == front.to_set().union(one.to_set()).contains(g) by {
                if tags.contains(g) {
                    let i = tags.index_of(g);
                    if i < front.len() {
                        assert(front[i] == g);
                    } else {
                        assert(one[0] == g);
                    }
                }
                if front.contains(g) {
                    let i = front.index_of(g);
                    assert(tags[i] == g);
                }
                if one.contains(g) {
                    assert(tags[tags.len() - 1] == g);
                }
            }
        }
        assert(attach_in_turn(t, hash, tags).tags_of(hash) =~= t.tags_of(hash).union(
            tags.to_set(),
        ));
    }
}

/// Copying attaches to the destination what the source carries: the
/// destination then carries its own tags and those of the source, and every
/// other hash carries what it carried.
pub proof fn lemma_copy(t: Tables, src: Seq<u8>, dest: Seq<u8>)
    requires
        t.wf(),
        dest.len() == DIGEST_LEN,
        t.can_attach(dest, t.tag_list(src)),
    ensures
        t.attach(dest, t.tag_list(src)).wf(),
        t.attach(dest, t.tag_list(src)).tags_of(dest) == t.tags_of(dest).union(t.tags_of(src)),
        forall|other: Seq<u8>|
            other != dest ==> t.attach(dest, t.tag_list(src)).tags_of(other) == t.tags_of(other),
{
    lemma_tag_list(t, src);
    lemma_attach(t, dest, t.tag_list(src));
    lemma_attach_tags_of(t, dest, t.tag_list(src));
}

/// Copying the tags of a hash onto that hash leaves every hash with the
/// tags that it carried. Where the store has seen the hash, the copy
/// succeeds and adds no row.
pub proof fn lemma_copy_onto_itself(t: Tables, hash: Seq<u8>)
    requires
        t.wf(),
        hash.len() == DIGEST_LEN,
    ensures
        t.hashes.contains(hash) ==> t.can_attach(hash, t.tag_list(hash)) && t.attach(
            hash,
            t.tag_list(hash),
        ) == t,
        t.can_attach(hash, t.tag_list(hash)) ==> forall|other: Seq<u8>|
            t.attach(hash, t.tag_list(hash)).tags_of(other) == t.tags_of(other),
{
    let list = t.tag_list(hash);
    lemma_tag_list(t, hash);
    if t.hashes.contains(hash) {
        assert forall|i: int| 0 <= i < list.len() implies t.linked(hash, #[trigger] list[i]) by {
            assert(list.to_set().contains(list[i]));
            assert(t.tags_of(hash).contains(list[i]));
        }
        lemma_attach_settled(t, hash, list);
    }
    if t.can_attach(hash, list) {
        lemma_copy(t, hash, hash);
        assert(t.tags_of(hash).union(t.tags_of(hash)) =~= t.tags_of(hash));
    }
}

/// The plan and the store after the engine has dealt with the statements
/// of the plan, one for each entry of `faults`: it runs a statement where the
/// entry is empty and fails it with the entry's error where it is not.
pub open spec fn run(
    plan: PlanView,
    now: Tables,
    before: Tables,
    faults: Seq<Option<StorageError>>,
) -> (PlanView, Tables)
    decreases faults.len(),
{
    if faults.len() == 0 {
        (plan, now)
    } else {
        match plan.pending() {
            None => (plan, now),
            Some(statement) => run(
                plan.advance(reply_after(now, statement, faults[0])),
                state_after(now, before, statement, faults[0]),
                before,
                faults.drop_first(),
            ),
        }
    }
}

/// The statement that a plan has pending holds valid values.
proof fn lemma_pending_is_valid(plan: PlanView)
    requires
        plan.wf(),
        plan.hash.len() == DIGEST_LEN,
        valid_tags(plan.tags),
    ensures
        plan.pending() matches Some(statement) ==> valid_statement(statement),
{
}

/// A run keeps the plan and the store consistent, and it reaches the end of
/// the plan within as many statements as the plan has left.
proof fn lemma_run(plan: PlanView, now: Tables, before: Tables, faults: Seq<Option<StorageError>>)
    requires
        plan.wf(),
        plan.hash.len() == DIGEST_LEN,
        valid_tags(plan.tags),
        consistent(plan, now, before),
    ensures
        run(plan, now, before, faults).0.wf(),
        run(plan, now, before, faults).0.hash == plan.hash,
        run(plan, now, before, faults).0.tags == plan.tags,
        consistent(run(plan, now, before, faults).0, run(plan, now, before, faults).1, before),
        faults.len() >= plan.remaining() ==> run(plan, now, before, faults).0.pending() is None,
    decreases faults.len(),
{
    lemma_advance(plan, arbitrary());
    if faults.len() > 0 {
        match plan.pending() {
            None => {},
            Some(statement) => {
                let reply = reply_after(now, statement, faults[0]);
                lemma_pending_is_valid(plan);
                lemma_step(plan, now, before, statement, faults[0]);
                lemma_advance(plan, reply);
                lemma_run(
                    plan.advance(reply),
                    state_after(now, before, statement, faults[0]),
                    before,
                    faults.drop_first(),
                );
            },
        }
    }
}

/// Attaching is all or nothing, whatever fails and wherever: once the plan
/// has ended, the store holds all that the plan attaches where it ended
/// well, and exactly what it held before where it ended with an error. A
/// plan with `n` tags has ended after `2 * n + 4` statements at the most.
pub proof fn lemma_all_or_nothing(
    before: Tables,
    hash: Seq<u8>,
    tags: Seq<Seq<char>>,
    faults: Seq<Option<StorageError>>,
)
    requires
        before.wf(),
        hash.len() == DIGEST_LEN,
        valid_tags(tags),
        tags.len() <= usize::MAX,
    ensures
        ({
            let start = PlanView { hash, tags, phase: Phase::Begin };
            let (end, after) = run(start, before, before, faults);
            &&& after.wf()
            &&& end.outcome() matches Some(Ok(_)) ==> after == before.attach(hash, tags)
            &&& end.outcome() matches Some(Err(_)) ==> after == before
            &&& faults.len() >= 2 * tags.len() + 4 ==> end.outcome() is Some
        }),
{
    let start = PlanView { hash, tags, phase: Phase::Begin };
    lemma_run(start, before, before, faults);
    lemma_advance(run(start, before, before, faults).0, arbitrary());
}

} // verus!
