//! The persisted state as three tables of rows, and what resolving an entity
//! and recording an association do to them.
//!
//! Rows are only ever appended. The row at position `i` of a table of
//! entities has the identifier `i + 1`.

use crate::digest::DIGEST_LEN;
use crate::tag::valid_tag;
use vstd::prelude::*;

verus! {

/// The identifier of the row of `rows` that holds `value`.
pub open spec fn id_of<T>(rows: Seq<T>, value: T) -> int
    recommends
        rows.contains(value),
{
    rows.index_of(value) + 1
}

/// The state of the store.
#[verifier::ext_equal]
pub struct Tables {
    /// The known hashes, one row each.
    pub hashes: Seq<Seq<u8>>,
    /// The known tags, one row each.
    pub tags: Seq<Seq<char>>,
    /// The associations, one row each: the identifier of a hash and that of
    /// a tag.
    pub links: Seq<(int, int)>,
    /// The most rows that the table of hashes and the table of tags each
    /// hold.
    pub limit: int,
}

impl Tables {
    /// The store that has seen nothing yet.
    pub open spec fn empty(limit: int) -> Tables {
        Tables { hashes: Seq::empty(), tags: Seq::empty(), links: Seq::empty(), limit }
    }

    /// Whether both identifiers of an association name a row.
    pub open spec fn refers(self, link: (int, int)) -> bool {
        &&& 1 <= link.0 <= self.hashes.len()
        &&& 1 <= link.1 <= self.tags.len()
    }

    /// The invariant of the store: no value and no association has two rows,
    /// every row holds a valid value, every association names two rows, and
    /// every identifier fits the limit.
    pub open spec fn wf(self) -> bool {
        &&& 0 <= self.limit <= i32::MAX
        &&& self.hashes.len() <= self.limit
        &&& self.tags.len() <= self.limit
        &&& self.hashes.no_duplicates()
        &&& self.tags.no_duplicates()
        &&& self.links.no_duplicates()
        &&& forall|i: int| 0 <= i < self.hashes.len() ==> (#[trigger] self.hashes[i]).len() == DIGEST_LEN
        &&& forall|i: int| 0 <= i < self.tags.len() ==> valid_tag(#[trigger] self.tags[i])
        &&& forall|i: int| 0 <= i < self.links.len() ==> self.refers(#[trigger] self.links[i])
    }

    /// Whether `tag` is attached to `hash`.
    pub open spec fn linked(self, hash: Seq<u8>, tag: Seq<char>) -> bool {
        &&& self.hashes.contains(hash)
        &&& self.tags.contains(tag)
        &&& self.links.contains((id_of(self.hashes, hash), id_of(self.tags, tag)))
    }

    /// The tags attached to `hash`: none for a hash that the store has not
    /// seen.
    pub open spec fn tags_of(self, hash: Seq<u8>) -> Set<Seq<char>> {
        Set::new(|tag: Seq<char>| self.linked(hash, tag))
    }

    /// The tags of the first `upto` associations that name the hash `hash_id`,
    /// in the order of their rows.
    pub open spec fn tags_linked(self, hash_id: int, upto: int) -> Seq<Seq<char>>
        decreases upto,
    {
        if upto <= 0 {
            Seq::empty()
        } else {
            let rest = self.tags_linked(hash_id, upto - 1);
            let link = self.links[upto - 1];
            if link.0 == hash_id {
                rest.push(self.tags[link.1 - 1])
            } else {
                rest
            }
        }
    }

    /// The tags attached to `hash`, in the order in which they were attached.
    pub open spec fn tag_list(self, hash: Seq<u8>) -> Seq<Seq<char>> {
        if self.hashes.contains(hash) {
            self.tags_linked(id_of(self.hashes, hash), self.links.len() as int)
        } else {
            Seq::empty()
        }
    }

    /// Whether `self` holds every row of `before`, at the same place.
    pub open spec fn extends(self, before: Tables) -> bool {
        &&& before.hashes.is_prefix_of(self.hashes)
        &&& before.tags.is_prefix_of(self.tags)
        &&& before.links.is_prefix_of(self.links)
        &&& before.limit == self.limit
    }

    /// The store without the rows behind the given lengths.
    pub open spec fn truncated(self, hashes: int, tags: int, links: int) -> Tables {
        Tables {
            hashes: self.hashes.take(hashes),
            tags: self.tags.take(tags),
            links: self.links.take(links),
            limit: self.limit,
        }
    }

    /// Whether the identifier of `hash` can be had: it has a row, or there is
    /// room for one.
    pub open spec fn can_resolve_hash(self, hash: Seq<u8>) -> bool {
        self.hashes.contains(hash) || self.hashes.len() < self.limit
    }

    /// The store once `hash` has a row.
    pub open spec fn resolve_hash(self, hash: Seq<u8>) -> Tables {
        if self.hashes.contains(hash) {
            self
        } else {
            Tables { hashes: self.hashes.push(hash), ..self }
        }
    }

    /// Whether the identifier of `tag` can be had.
    pub open spec fn can_resolve_tag(self, tag: Seq<char>) -> bool {
        self.tags.contains(tag) || self.tags.len() < self.limit
    }

    /// The store once `tag` has a row.
    pub open spec fn resolve_tag(self, tag: Seq<char>) -> Tables {
        if self.tags.contains(tag) {
            self
        } else {
            Tables { tags: self.tags.push(tag), ..self }
        }
    }

    /// The store once the association `link` has a row.
    pub open spec fn associate(self, link: (int, int)) -> Tables {
        if self.links.contains(link) {
            self
        } else {
            Tables { links: self.links.push(link), ..self }
        }
    }

    /// The store once `tag` is attached to the known hash `hash`.
    pub open spec fn attach_one(self, hash: Seq<u8>, tag: Seq<char>) -> Tables {
        let resolved = self.resolve_tag(tag);
        resolved.associate((id_of(resolved.hashes, hash), id_of(resolved.tags, tag)))
    }

    /// The store once `hash` has a row and each of `tags` is attached to it,
    /// one after the other.
    pub open spec fn attach(self, hash: Seq<u8>, tags: Seq<Seq<char>>) -> Tables
        decreases tags.len(),
    {
        if tags.len() == 0 {
            self.resolve_hash(hash)
        } else {
            self.attach(hash, tags.drop_last()).attach_one(hash, tags.last())
        }
    }

    /// Whether the store has room for all that attaching `tags` to `hash`
    /// adds: a row for the hash and one for each tag that it has not seen.
    pub open spec fn can_attach(self, hash: Seq<u8>, tags: Seq<Seq<char>>) -> bool
        decreases tags.len(),
    {
        if tags.len() == 0 {
            self.can_resolve_hash(hash)
        } else {
            &&& self.can_attach(hash, tags.drop_last())
            &&& self.attach(hash, tags.drop_last()).can_resolve_tag(tags.last())
        }
    }
}

/// A value that has a row has one identifier, which names that row.
pub proof fn lemma_id_of<T>(rows: Seq<T>, value: T)
    requires
        rows.contains(value),
    ensures
        1 <= id_of(rows, value) <= rows.len(),
        rows[id_of(rows, value) - 1] == value,
{
}

/// Without duplicates, the identifier of the value in row `i` is `i + 1`.
pub proof fn lemma_id_of_row<T>(rows: Seq<T>, i: int)
    requires
        rows.no_duplicates(),
        0 <= i < rows.len(),
    ensures
        rows.contains(rows[i]),
        id_of(rows, rows[i]) == i + 1,
{
}

/// A new row leaves the identifiers of the old rows as they were and gets
/// the next identifier.
pub proof fn lemma_id_of_push<T>(rows: Seq<T>, fresh: T, value: T)
    requires
        rows.no_duplicates(),
        !rows.contains(fresh),
    ensures
        rows.push(fresh).no_duplicates(),
        rows.push(fresh).contains(fresh),
        id_of(rows.push(fresh), fresh) == rows.len() + 1,
        rows.contains(value) ==> rows.push(fresh).contains(value) && id_of(
            rows.push(fresh),
            value,
        ) == id_of(rows, value),
        rows.push(fresh).contains(value) ==> value == fresh || rows.contains(value),
{
    let pushed = rows.push(fresh);
    assert(pushed.no_duplicates()) by {
        assert forall|i: int, j: int|
            0 <= i < pushed.len() && 0 <= j < pushed.len() && i != j implies pushed[i]
            != pushed[j] by {
            if i < rows.len() {
                assert(rows[i] == pushed[i]);
            }
            if j < rows.len() {
                assert(rows[j] == pushed[j]);
            }
        }
    }
    assert(pushed[rows.len() as int] == fresh);
    lemma_id_of_row(pushed, rows.len() as int);
    if rows.contains(value) {
        let i = rows.index_of(value);
        assert(pushed[i] == value);
        lemma_id_of_row(pushed, i);
    }
    if pushed.contains(value) && value != fresh {
        let i = pushed.index_of(value);
        assert(rows[i] == value);
    }
}

/// Resolving a hash keeps the invariant and every row, gives the hash a row,
/// and attaches nothing.
pub proof fn lemma_resolve_hash(t: Tables, hash: Seq<u8>)
    requires
        t.wf(),
        hash.len() == DIGEST_LEN,
        t.can_resolve_hash(hash),
    ensures
        t.resolve_hash(hash).wf(),
        t.resolve_hash(hash).extends(t),
        t.resolve_hash(hash).hashes.contains(hash),
        forall|h: Seq<u8>, g: Seq<char>|
            #[trigger] t.resolve_hash(hash).linked(h, g) == t.linked(h, g),
{
    let after = t.resolve_hash(hash);
    if t.hashes.contains(hash) {
    } else {
        lemma_id_of_push(t.hashes, hash, hash);
        assert(t.hashes =~= after.hashes.subrange(0, t.hashes.len() as int));
        assert(t.links =~= after.links.subrange(0, t.links.len() as int));
        assert(t.tags =~= after.tags.subrange(0, t.tags.len() as int));
        assert forall|h: Seq<u8>, g: Seq<char>| after.linked(h, g) == t.linked(h, g) by {
            lemma_id_of_push(t.hashes, hash, h);
            if after.linked(h, g) && h == hash {
                let k = after.links.index_of((id_of(after.hashes, h), id_of(after.tags, g)));
                assert(t.refers(t.links[k]));
            }
        }
    }
}

/// Resolving a tag keeps the invariant and every row, gives the tag a row,
/// and attaches nothing.
pub proof fn lemma_resolve_tag(t: Tables, tag: Seq<char>)
    requires
        t.wf(),
        valid_tag(tag),
        t.can_resolve_tag(tag),
    ensures
        t.resolve_tag(tag).wf(),
        t.resolve_tag(tag).extends(t),
        t.resolve_tag(tag).tags.contains(tag),
        t.resolve_tag(tag).hashes == t.hashes,
        forall|h: Seq<u8>, g: Seq<char>|
            #[trigger] t.resolve_tag(tag).linked(h, g) == t.linked(h, g),
{
    let after = t.resolve_tag(tag);
    if t.tags.contains(tag) {
    } else {
        lemma_id_of_push(t.tags, tag, tag);
        assert(t.hashes =~= after.hashes.subrange(0, t.hashes.len() as int));
        assert(t.links =~= after.links.subrange(0, t.links.len() as int));
        assert(t.tags =~= after.tags.subrange(0, t.tags.len() as int));
        assert forall|h: Seq<u8>, g: Seq<char>| after.linked(h, g) == t.linked(h, g) by {
            lemma_id_of_push(t.tags, tag, g);
            if after.linked(h, g) && g == tag {
                let k = after.links.index_of((id_of(after.hashes, h), id_of(after.tags, g)));
                assert(t.refers(t.links[k]));
            }
        }
    }
}

/// Recording an association between two rows keeps the invariant and every
/// row, and attaches the tag of the one row to the hash of the other, and
/// nothing else.
pub proof fn lemma_associate(t: Tables, link: (int, int))
    requires
        t.wf(),
        t.refers(link),
    ensures
        t.associate(link).wf(),
        t.associate(link).extends(t),
        t.associate(link).hashes == t.hashes,
        t.associate(link).tags == t.tags,
        forall|h: Seq<u8>, g: Seq<char>|
            #[trigger] t.associate(link).linked(h, g) == (t.linked(h, g) || (h == t.hashes[link.0
                - 1] && g == t.tags[link.1 - 1])),
{
    let after = t.associate(link);
    lemma_id_of_row(t.hashes, link.0 - 1);
    lemma_id_of_row(t.tags, link.1 - 1);
    if t.links.contains(link) {
    } else {
        lemma_id_of_push(t.links, link, link);
        assert(t.hashes =~= after.hashes.subrange(0, t.hashes.len() as int));
        assert(t.links =~= after.links.subrange(0, t.links.len() as int));
        assert(t.tags =~= after.tags.subrange(0, t.tags.len() as int));
        assert forall|i: int| 0 <= i < after.links.len() implies after.refers(
            #[trigger] after.links[i],
        ) by {
            if i < t.links.len() {
                assert(after.links[i] == t.links[i]);
            }
        }
    }
    assert forall|h: Seq<u8>, g: Seq<char>|
        after.linked(h, g) == (t.linked(h, g) || (h == t.hashes[link.0 - 1] && g
            == t.tags[link.1 - 1])) by {
        if t.hashes.contains(h) && t.tags.contains(g) {
            lemma_id_of(t.hashes, h);
            lemma_id_of(t.tags, g);
            if !t.links.contains(link) {
                lemma_id_of_push(t.links, link, (id_of(t.hashes, h), id_of(t.tags, g)));
            }
        }
    }
}

/// What was appended since an earlier state is all that separates a state
/// from it.
pub proof fn lemma_truncated(t: Tables, before: Tables)
    requires
        t.extends(before),
    ensures
        t.truncated(
            before.hashes.len() as int,
            before.tags.len() as int,
            before.links.len() as int,
        ) == before,
{
    assert(t.truncated(
        before.hashes.len() as int,
        before.tags.len() as int,
        before.links.len() as int,
    ) =~= before);
}

/// Each tag of a hash is listed once, its tags are all listed, and nothing
/// else is.
pub proof fn lemma_tag_list(t: Tables, hash: Seq<u8>)
    requires
        t.wf(),
    ensures
        t.tag_list(hash).no_duplicates(),
        t.tag_list(hash).to_set() == t.tags_of(hash),
        forall|i: int| 0 <= i < t.tag_list(hash).len() ==> valid_tag(#[trigger] t.tag_list(hash)[i]),
{
    if t.hashes.contains(hash) {
        let id = id_of(t.hashes, hash);
        lemma_tags_linked(t, id, t.links.len() as int);
        let list = t.tag_list(hash);
        assert forall|g: Seq<char>| list.to_set().contains(g) == t.tags_of(hash).contains(g) by {
            if list.contains(g) {
                let k = choose|k: int|
                    0 <= k < t.links.len() && t.links[k].0 == id && t.tags[t.links[k].1 - 1] == g;
                assert(t.refers(t.links[k]));
                lemma_id_of_row(t.tags, t.links[k].1 - 1);
            }
            if t.linked(hash, g) {
                let k = t.links.index_of((id, id_of(t.tags, g)));
                lemma_id_of(t.tags, g);
                assert(t.links[k].0 == id && t.tags[t.links[k].1 - 1] == g);
            }
        }
        assert(list.to_set() =~= t.tags_of(hash));
    } else {
        assert(t.tag_list(hash).to_set() =~= t.tags_of(hash));
    }
}

/// The tags of the first `upto` associations of a hash are listed once each.
proof fn lemma_tags_linked(t: Tables, id: int, upto: int)
    requires
        t.wf(),
        0 <= upto <= t.links.len(),
    ensures
        t.tags_linked(id, upto).no_duplicates(),
        forall|g: Seq<char>|
            t.tags_linked(id, upto).contains(g) <==> exists|k: int|
                0 <= k < upto && (#[trigger] t.links[k]).0 == id && t.tags[t.links[k].1 - 1] == g,
        forall|i: int|
            0 <= i < t.tags_linked(id, upto).len() ==> valid_tag(
                #[trigger] t.tags_linked(id, upto)[i],
            ),
    decreases upto,
{
    if upto > 0 {
        lemma_tags_linked(t, id, upto - 1);
        let rest = t.tags_linked(id, upto - 1);
        let link = t.links[upto - 1];
        let list = t.tags_linked(id, upto);
        assert(t.refers(link));
        if link.0 == id {
            let tag = t.tags[link.1 - 1];
            assert(list == rest.push(tag));
            if rest.contains(tag) {
                let k = choose|k: int|
                    0 <= k < upto - 1 && (#[trigger] t.links[k]).0 == id && t.tags[t.links[k].1
                        - 1] == tag;
                assert(t.refers(t.links[k]));
                assert(t.links[k].1 == link.1);
                assert(t.links[k] == link);
            }
            lemma_id_of_push(rest, tag, tag);
            assert forall|g: Seq<char>|
                list.contains(g) <==> exists|k: int|
                    0 <= k < upto && (#[trigger] t.links[k]).0 == id && t.tags[t.links[k].1 - 1]
                        == g by {
                lemma_id_of_push(rest, tag, g);
                if list.contains(g) {
                    if g == tag {
                        assert(t.links[upto - 1].0 == id);
                    } else {
                        let k = choose|k: int|
                            0 <= k < upto - 1 && (#[trigger] t.links[k]).0 == id
                                && t.tags[t.links[k].1 - 1] == g;
                        assert(0 <= k < upto && t.links[k].0 == id);
                    }
                }
                if exists|k: int|
                    0 <= k < upto && (#[trigger] t.links[k]).0 == id && t.tags[t.links[k].1 - 1]
                        == g {
                    let k = choose|k: int|
                        0 <= k < upto && (#[trigger] t.links[k]).0 == id && t.tags[t.links[k].1
                            - 1] == g;
                    if k < upto - 1 {
                        assert(rest.contains(g));
                    }
                }
            }
        } else {
            assert forall|g: Seq<char>|
                list.contains(g) <==> exists|k: int|
                    0 <= k < upto && (#[trigger] t.links[k]).0 == id && t.tags[t.links[k].1 - 1]
                        == g by {
                if list.contains(g) {
                    let k = choose|k: int|
                        0 <= k < upto - 1 && (#[trigger] t.links[k]).0 == id
                            && t.tags[t.links[k].1 - 1] == g;
                    assert(0 <= k < upto && t.links[k].0 == id);
                }
                if exists|k: int|
                    0 <= k < upto && (#[trigger] t.links[k]).0 == id && t.tags[t.links[k].1 - 1]
                        == g {
                    let k = choose|k: int|
                        0 <= k < upto && (#[trigger] t.links[k]).0 == id && t.tags[t.links[k].1
                            - 1] == g;
                    assert(k < upto - 1);
                }
            }
        }
    }
}

/// Whether every text of `tags` can be a tag.
pub open spec fn valid_tags(tags: Seq<Seq<char>>) -> bool {
    forall|i: int| 0 <= i < tags.len() ==> valid_tag(#[trigger] tags[i])
}

/// What holds every row of a state that holds every row of a third, holds
/// every row of the third.
pub proof fn lemma_extends_transitive(a: Tables, b: Tables, c: Tables)
    requires
        a.extends(b),
        b.extends(c),
    ensures
        a.extends(c),
{
    assert(c.hashes =~= a.hashes.subrange(0, c.hashes.len() as int));
    assert(c.tags =~= a.tags.subrange(0, c.tags.len() as int));
    assert(c.links =~= a.links.subrange(0, c.links.len() as int));
}

/// Attaching a tag to a known hash keeps the invariant and every row, and
/// attaches that tag to that hash and nothing else.
pub proof fn lemma_attach_one(t: Tables, hash: Seq<u8>, tag: Seq<char>)
    requires
        t.wf(),
        t.hashes.contains(hash),
        valid_tag(tag),
        t.can_resolve_tag(tag),
    ensures
        t.attach_one(hash, tag).wf(),
        t.attach_one(hash, tag).extends(t),
        t.attach_one(hash, tag).hashes == t.hashes,
        t.attach_one(hash, tag).tags == t.resolve_tag(tag).tags,
        forall|h: Seq<u8>, g: Seq<char>|
            #[trigger] t.attach_one(hash, tag).linked(h, g) == (t.linked(h, g) || (h == hash && g
                == tag)),
{
    let resolved = t.resolve_tag(tag);
    lemma_resolve_tag(t, tag);
    lemma_id_of(resolved.hashes, hash);
    lemma_id_of(resolved.tags, tag);
    let link = (id_of(resolved.hashes, hash), id_of(resolved.tags, tag));
    lemma_associate(resolved, link);
    lemma_extends_transitive(t.attach_one(hash, tag), resolved, t);
}

/// Attaching tags to a hash, where there is room, keeps the invariant and
/// every row, makes the hash and the tags known, and attaches those tags to
/// that hash and nothing else.
pub proof fn lemma_attach(t: Tables, hash: Seq<u8>, tags: Seq<Seq<char>>)
    requires
        t.wf(),
        hash.len() == DIGEST_LEN,
        valid_tags(tags),
        t.can_attach(hash, tags),
    ensures
        t.attach(hash, tags).wf(),
        t.attach(hash, tags).extends(t),
        t.attach(hash, tags).hashes == t.resolve_hash(hash).hashes,
        t.attach(hash, tags).hashes.contains(hash),
        forall|g: Seq<char>|
            #[trigger] t.attach(hash, tags).tags.contains(g) == (t.tags.contains(g)
                || tags.contains(g)),
        forall|h: Seq<u8>, g: Seq<char>|
            #[trigger] t.attach(hash, tags).linked(h, g) == (t.linked(h, g) || (h == hash
                && tags.contains(g))),
    decreases tags.len(),
{
    let after = t.attach(hash, tags);
    if tags.len() == 0 {
        lemma_resolve_hash(t, hash);
    } else {
        let front = tags.drop_last();
        let tag = tags.last();
        let mid = t.attach(hash, front);
        assert(valid_tags(front)) by {
            assert forall|i: int| 0 <= i < front.len() implies valid_tag(#[trigger] front[i]) by {
                assert(front[i] == tags[i]);
            }
        }
        lemma_attach(t, hash, front);
        lemma_attach_one(mid, hash, tag);
        lemma_extends_transitive(after, mid, t);
        assert forall|g: Seq<char>| tags.contains(g) == (front.contains(g) || g == tag) by {
            if tags.contains(g) {
                let i = tags.index_of(g);
                if i < front.len() {
                    assert(front[i] == g);
                }
            }
            if front.contains(g) {
                let i = front.index_of(g);
                assert(tags[i] == g);
            }
            assert(tags[tags.len() - 1] == tag);
        }
        assert forall|g: Seq<char>|
            after.tags.contains(g) == (t.tags.contains(g) || tags.contains(g)) by {
            if !mid.tags.contains(tag) {
                lemma_id_of_push(mid.tags, tag, g);
            }
        }
    }
}

/// Where a hash has its row and carries each of the tags already, attaching
/// them changes nothing and needs no room.
pub proof fn lemma_attach_settled(t: Tables, hash: Seq<u8>, tags: Seq<Seq<char>>)
    requires
        t.hashes.contains(hash),
        forall|i: int| 0 <= i < tags.len() ==> t.linked(hash, #[trigger] tags[i]),
    ensures
        t.can_attach(hash, tags),
        t.attach(hash, tags) == t,
    decreases tags.len(),
{
    if tags.len() > 0 {
        let front = tags.drop_last();
        assert forall|i: int| 0 <= i < front.len() implies t.linked(hash, #[trigger] front[i]) by {
            assert(front[i] == tags[i]);
        }
        lemma_attach_settled(t, hash, front);
        assert(t.linked(hash, tags[tags.len() - 1]));
    }
}

/// Where there is room to attach tags, there is room to attach the first
/// `count` of them.
pub proof fn lemma_can_attach_prefix(t: Tables, hash: Seq<u8>, tags: Seq<Seq<char>>, count: int)
    requires
        0 <= count <= tags.len(),
        t.can_attach(hash, tags),
    ensures
        t.can_attach(hash, tags.take(count)),
    decreases tags.len(),
{
    if count == tags.len() {
        assert(tags.take(count) =~= tags);
    } else {
        lemma_can_attach_prefix(t, hash, tags.drop_last(), count);
        assert(tags.drop_last().take(count) =~= tags.take(count));
    }
}

/// Attaching one tag more is attaching the tags before it and then that
/// tag.
pub proof fn lemma_attach_step(t: Tables, hash: Seq<u8>, tags: Seq<Seq<char>>, index: int)
    requires
        0 <= index < tags.len(),
    ensures
        t.attach(hash, tags.take(index + 1)) == t.attach(hash, tags.take(index)).attach_one(
            hash,
            tags[index],
        ),
        t.can_attach(hash, tags.take(index + 1)) == (t.can_attach(hash, tags.take(index))
            && t.attach(hash, tags.take(index)).can_resolve_tag(tags[index])),
{
    assert(tags.take(index + 1).drop_last() =~= tags.take(index));
    assert(tags.take(index + 1).last() == tags[index]);
}

} // verus!
