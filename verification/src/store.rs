//! The store in memory: the three tables, the resolver of entities, and the
//! statements that the operations are made of.

use crate::digest::Digest;
use crate::error::StorageError;
use crate::tables::{
    id_of, lemma_associate, lemma_id_of_row, lemma_resolve_hash, lemma_resolve_tag,
    lemma_tag_list, lemma_truncated, valid_tags, Tables,
};
use crate::tag::Tag;
use vstd::prelude::*;

verus! {

/// The texts of a sequence of strings.
pub open spec fn texts(strings: Seq<String>) -> Seq<Seq<char>> {
    strings.map_values(|s: String| s@)
}

/// The texts of a sequence of tags.
pub open spec fn tag_texts(tags: Seq<Tag>) -> Seq<Seq<char>> {
    tags.map_values(|t: Tag| t@)
}

/// The bytes of a sequence of digests.
pub open spec fn digest_bytes(digests: Seq<Digest>) -> Seq<Seq<u8>> {
    digests.map_values(|d: Digest| d@)
}

/// A row of the table of associations as a pair of identifiers.
pub open spec fn link_ids(links: Seq<(i32, i32)>) -> Seq<(int, int)> {
    links.map_values(|l: (i32, i32)| (l.0 as int, l.1 as int))
}

/// A store in memory. Its view is the state of its tables.
pub struct Store {
    hashes: Vec<Digest>,
    tags: Vec<Tag>,
    links: Vec<(i32, i32)>,
    limit: i32,
}

impl View for Store {
    type V = Tables;

    closed spec fn view(&self) -> Tables {
        Tables {
            hashes: digest_bytes(self.hashes@),
            tags: tag_texts(self.tags@),
            links: link_ids(self.links@),
            limit: self.limit as int,
        }
    }
}

/// The place in a store to which a transaction goes back when it is
/// abandoned. Its view is the state of the store when it was taken.
pub struct Savepoint {
    hashes: usize,
    tags: usize,
    links: usize,
    state: Ghost<Tables>,
}

impl View for Savepoint {
    type V = Tables;

    closed spec fn view(&self) -> Tables {
        self.state@
    }
}

impl Savepoint {
    /// Whether the savepoint was taken from a store.
    pub closed spec fn wf(&self) -> bool {
        &&& self@.wf()
        &&& self.hashes == self@.hashes.len()
        &&& self.tags == self@.tags.len()
        &&& self.links == self@.links.len()
    }
}

impl Store {
    /// A store that has seen nothing, with room for as many rows as there
    /// are identifiers.
    pub fn new() -> (store: Store)
        ensures
            store@ == Tables::empty(i32::MAX as int),
            store@.wf(),
    {
        Store::with_limit(i32::MAX)
    }

    /// A store that has seen nothing, with room for `limit` hashes and
    /// `limit` tags; none where `limit` is negative.
    pub fn with_limit(limit: i32) -> (store: Store)
        ensures
            store@ == Tables::empty(if limit < 0 { 0 } else { limit as int }),
            store@.wf(),
    {
        let limit: i32 = if limit < 0 { 0 } else { limit };
        let store = Store { hashes: Vec::new(), tags: Vec::new(), links: Vec::new(), limit };
        assert(store@ =~= Tables::empty(limit as int));
        store
    }

    /// The row of `hash`, if it has one.
    fn find_hash(&self, hash: &Digest) -> (found: Option<usize>)
        ensures
            match found {
                Some(row) => row < self@.hashes.len() && self@.hashes[row as int] == hash@,
                None => !self@.hashes.contains(hash@),
            },
    {
        let mut row: usize = 0;
        while row < self.hashes.len()
            invariant
                row <= self.hashes.len(),
                forall|j: int| 0 <= j < row ==> self@.hashes[j] != hash@,
            decreases self.hashes.len() - row,
        {
            if self.hashes[row] == *hash {
                return Some(row);
            }
            row = row + 1;
        }
        None
    }

    /// The row of `tag`, if it has one.
    fn find_tag(&self, tag: &Tag) -> (found: Option<usize>)
        ensures
            match found {
                Some(row) => row < self@.tags.len() && self@.tags[row as int] == tag@,
                None => !self@.tags.contains(tag@),
            },
    {
        let mut row: usize = 0;
        while row < self.tags.len()
            invariant
                row <= self.tags.len(),
                forall|j: int| 0 <= j < row ==> self@.tags[j] != tag@,
            decreases self.tags.len() - row,
        {
            if self.tags[row] == *tag {
                return Some(row);
            }
            row = row + 1;
        }
        None
    }

    /// The row of the association `(hash_id, tag_id)`, if it has one.
    fn find_link(&self, hash_id: i32, tag_id: i32) -> (found: bool)
        ensures
            found == self@.links.contains((hash_id as int, tag_id as int)),
    {
        let mut row: usize = 0;
        while row < self.links.len()
            invariant
                row <= self.links.len(),
                forall|j: int| 0 <= j < row ==> self@.links[j] != (hash_id as int, tag_id as int),
            decreases self.links.len() - row,
        {
            if self.links[row].0 == hash_id && self.links[row].1 == tag_id {
                assert(self@.links[row as int] == (hash_id as int, tag_id as int));
                return true;
            }
            row = row + 1;
        }
        false
    }

    /// Resolves a hash: returns the identifier of its row, which is made
    /// if the hash has none yet. Fails, and changes nothing, exactly when the
    /// hash is new and the table is full.
    pub fn get_or_insert_hash(&mut self, hash: &Digest) -> (r: Result<i32, StorageError>)
        requires
            old(self)@.wf(),
        ensures
            final(self)@.wf(),
            final(self)@.extends(old(self)@),
            match r {
                Ok(id) => {
                    &&& old(self)@.can_resolve_hash(hash@)
                    &&& final(self)@ == old(self)@.resolve_hash(hash@)
                    &&& final(self)@.hashes.contains(hash@)
                    &&& id == id_of(final(self)@.hashes, hash@)
                },
                Err(e) => {
                    &&& !old(self)@.can_resolve_hash(hash@)
                    &&& final(self)@ == old(self)@
                    &&& e == StorageError::Exhausted
                },
            },
    {
        proof {
            hash.lemma_len();
            if old(self)@.can_resolve_hash(hash@) {
                lemma_resolve_hash(old(self)@, hash@);
            }
        }
        match self.find_hash(hash) {
            Some(row) => {
                proof {
                    lemma_id_of_row(self@.hashes, row as int);
                }
                Ok((row + 1) as i32)
            },
            None => {
                let rows = self.hashes.len();
                if rows < self.limit as usize {
                    self.hashes.push(*hash);
                    proof {
                        assert(self@.hashes =~= old(self)@.hashes.push(hash@));
                        lemma_id_of_row(self@.hashes, rows as int);
                    }
                    Ok((rows + 1) as i32)
                } else {
                    Err(StorageError::Exhausted)
                }
            },
        }
    }

    /// Resolves a tag: returns the identifier of its row, which is made if
    /// the tag has none yet. Fails, and changes nothing, exactly when the
    /// tag is new and the table is full.
    pub fn get_or_insert_tag(&mut self, tag: &Tag) -> (r: Result<i32, StorageError>)
        requires
            old(self)@.wf(),
        ensures
            final(self)@.wf(),
            final(self)@.extends(old(self)@),
            match r {
                Ok(id) => {
                    &&& old(self)@.can_resolve_tag(tag@)
                    &&& final(self)@ == old(self)@.resolve_tag(tag@)
                    &&& final(self)@.tags.contains(tag@)
                    &&& id == id_of(final(self)@.tags, tag@)
                },
                Err(e) => {
                    &&& !old(self)@.can_resolve_tag(tag@)
                    &&& final(self)@ == old(self)@
                    &&& e == StorageError::Exhausted
                },
            },
    {
        let _ = tag.as_str();
        proof {
            if old(self)@.can_resolve_tag(tag@) {
                lemma_resolve_tag(old(self)@, tag@);
            }
        }
        match self.find_tag(tag) {
            Some(row) => {
                proof {
                    lemma_id_of_row(self@.tags, row as int);
                }
                Ok((row + 1) as i32)
            },
            None => {
                let rows = self.tags.len();
                if rows < self.limit as usize {
                    self.tags.push(tag.clone());
                    proof {
                        assert(self@.tags =~= old(self)@.tags.push(tag@));
                        lemma_id_of_row(self@.tags, rows as int);
                    }
                    Ok((rows + 1) as i32)
                } else {
                    Err(StorageError::Exhausted)
                }
            },
        }
    }

    /// Records that the tag with the identifier `tag_id` is attached to the
    /// hash with the identifier `hash_id`; an association that is there
    /// already stays as it is. Fails, and changes nothing, exactly when one
    /// of the identifiers names no row.
    pub fn associate(&mut self, hash_id: i32, tag_id: i32) -> (r: Result<(), StorageError>)
        requires
            old(self)@.wf(),
        ensures
            final(self)@.wf(),
            final(self)@.extends(old(self)@),
            match r {
                Ok(()) => {
                    &&& old(self)@.refers((hash_id as int, tag_id as int))
                    &&& final(self)@ == old(self)@.associate((hash_id as int, tag_id as int))
                },
                Err(e) => {
                    &&& !old(self)@.refers((hash_id as int, tag_id as int))
                    &&& final(self)@ == old(self)@
                    &&& e == StorageError::UnknownId
                },
            },
    {
        if hash_id < 1 || tag_id < 1 || hash_id as usize > self.hashes.len() || tag_id as usize
            > self.tags.len() {
            return Err(StorageError::UnknownId);
        }
        proof {
            lemma_associate(old(self)@, (hash_id as int, tag_id as int));
        }
        if !self.find_link(hash_id, tag_id) {
            self.links.push((hash_id, tag_id));
            assert(self@.links =~= old(self)@.links.push((hash_id as int, tag_id as int)));
        }
        Ok(())
    }

    /// The tags attached to `hash`, each once, in the order in which they
    /// were attached: none for a hash that the store has not seen.
    pub fn get_tags(&self, hash: &Digest) -> (found: Vec<String>)
        requires
            self@.wf(),
        ensures
            texts(found@) == self@.tag_list(hash@),
            texts(found@).no_duplicates(),
            texts(found@).to_set() == self@.tags_of(hash@),
            valid_tags(texts(found@)),
            !self@.hashes.contains(hash@) ==> found@.len() == 0,
    {
        proof {
            lemma_tag_list(self@, hash@);
        }
        let mut found: Vec<String> = Vec::new();
        match self.find_hash(hash) {
            None => {
                assert(texts(found@) =~= Seq::<Seq<char>>::empty());
            },
            Some(row) => {
                proof {
                    lemma_id_of_row(self@.hashes, row as int);
                }
                let hash_id: i32 = (row + 1) as i32;
                let mut k: usize = 0;
                assert(texts(found@) =~= self@.tags_linked(hash_id as int, 0));
                while k < self.links.len()
                    invariant
                        self@.wf(),
                        k <= self.links.len(),
                        texts(found@) == self@.tags_linked(hash_id as int, k as int),
                    decreases self.links.len() - k,
                {
                    let link = self.links[k];
                    assert(self@.links[k as int] == (link.0 as int, link.1 as int));
                    assert(self@.refers(self@.links[k as int]));
                    if link.0 == hash_id {
                        let text = self.tags[(link.1 - 1) as usize].text();
                        let ghost before = found@;
                        found.push(text);
                        assert(texts(found@) =~= texts(before).push(text@));
                    }
                    k = k + 1;
                }
            },
        }
        found
    }

    /// Marks the place to which `rollback_to` goes back.
    pub fn savepoint(&self) -> (mark: Savepoint)
        requires
            self@.wf(),
        ensures
            mark.wf(),
            mark@ == self@,
    {
        Savepoint {
            hashes: self.hashes.len(),
            tags: self.tags.len(),
            links: self.links.len(),
            state: Ghost(self@),
        }
    }

    /// Takes back every row that was made since `mark` was taken.
    pub fn rollback_to(&mut self, mark: &Savepoint)
        requires
            mark.wf(),
            old(self)@.extends(mark@),
        ensures
            final(self)@ == mark@,
            final(self)@.wf(),
    {
        proof {
            lemma_truncated(old(self)@, mark@);
        }
        self.hashes.truncate(mark.hashes);
        self.tags.truncate(mark.tags);
        self.links.truncate(mark.links);
        assert(self@ =~= old(self)@.truncated(
            mark@.hashes.len() as int,
            mark@.tags.len() as int,
            mark@.links.len() as int,
        ));
    }
}

} // verus!
