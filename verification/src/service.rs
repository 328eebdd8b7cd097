//! The operations of the tag store on what a request holds as it came:
//! validation, and the four operations.

use crate::digest::{Digest, HashError, DIGEST_LEN};
use crate::error::{Code, Error, Status};
use crate::store::{digest_bytes, tag_texts, texts, Store};
use crate::laws::{lemma_attach_tags_of, lemma_copy, lemma_copy_onto_itself};
use crate::tables::{lemma_attach, valid_tags, Tables};
use crate::transaction::add_tags_to_hash;
use crate::tag::{valid_tag, Tag, TagError};
use vstd::prelude::*;

verus! {

/// Validates the hash of a request.
pub fn parse_hash(raw: &[u8]) -> (r: Result<Digest, Error>)
    ensures
        match r {
            Ok(hash) => raw@.len() == DIGEST_LEN && hash@ == raw@,
            Err(e) => raw@.len() != DIGEST_LEN && e == Error::ArgHash(
                HashError { len: raw@.len() as usize },
            ),
        },
{
    match Digest::try_from(raw) {
        Ok(hash) => Ok(hash),
        Err(e) => Err(Error::ArgHash(e)),
    }
}

/// Validates a request to attach tags: the hash first, then the tags in
/// their order.
pub fn parse_add_tags(hash: &[u8], tags: &Vec<String>) -> (r: Result<(Digest, Vec<Tag>), Error>)
    ensures
        match r {
            Ok((digest, parsed)) => {
                &&& hash@.len() == DIGEST_LEN
                &&& valid_tags(texts(tags@))
                &&& digest@ == hash@
                &&& tag_texts(parsed@) == texts(tags@)
            },
            Err(e) => e == if hash@.len() != DIGEST_LEN {
                Error::ArgHash(HashError { len: hash@.len() as usize })
            } else {
                Error::ArgTag(TagError::Empty)
            } && (hash@.len() != DIGEST_LEN || !valid_tags(texts(tags@))),
        },
{
    let digest = match parse_hash(hash) {
        Ok(digest) => digest,
        Err(e) => {
            return Err(e);
        },
    };
    match parse_tags(tags) {
        Ok(parsed) => Ok((digest, parsed)),
        Err(e) => Err(e),
    }
}

/// Validates a request to copy tags: the source first, then the
/// destination.
pub fn parse_src_dest(src_hash: &[u8], dest_hash: &[u8]) -> (r: Result<(Digest, Digest), Error>)
    ensures
        match r {
            Ok((src, dest)) => {
                &&& src_hash@.len() == DIGEST_LEN
                &&& dest_hash@.len() == DIGEST_LEN
                &&& src@ == src_hash@
                &&& dest@ == dest_hash@
            },
            Err(e) => e == Error::ArgHash(
                HashError {
                    len: if src_hash@.len() != DIGEST_LEN {
                        src_hash@.len() as usize
                    } else {
                        dest_hash@.len() as usize
                    },
                },
            ) && (src_hash@.len() != DIGEST_LEN || dest_hash@.len() != DIGEST_LEN),
        },
{
    let src = match parse_hash(src_hash) {
        Ok(digest) => digest,
        Err(e) => {
            return Err(e);
        },
    };
    match parse_hash(dest_hash) {
        Ok(dest) => Ok((src, dest)),
        Err(e) => Err(e),
    }
}

/// The raw byte strings of a sequence of byte vectors.
pub open spec fn byte_strings(raw: Seq<Vec<u8>>) -> Seq<Seq<u8>> {
    raw.map_values(|b: Vec<u8>| b@)
}

/// Whether every byte string has the length of a digest.
pub open spec fn valid_hashes(raw: Seq<Seq<u8>>) -> bool {
    forall|i: int| 0 <= i < raw.len() ==> (#[trigger] raw[i]).len() == DIGEST_LEN
}

/// Whether `at` is the place of the first byte string that is no digest.
pub open spec fn first_bad_hash(raw: Seq<Seq<u8>>, at: int) -> bool {
    &&& 0 <= at < raw.len()
    &&& raw[at].len() != DIGEST_LEN
    &&& forall|j: int| 0 <= j < at ==> (#[trigger] raw[j]).len() == DIGEST_LEN
}

/// Validates the hashes of a request, in their order: all of them, or the
/// error of the first that is malformed.
pub fn parse_hashes(raw: &Vec<Vec<u8>>) -> (r: Result<Vec<Digest>, Error>)
    ensures
        match r {
            Ok(digests) => {
                &&& valid_hashes(byte_strings(raw@))
                &&& digest_bytes(digests@) == byte_strings(raw@)
            },
            Err(e) => exists|at: int|
                first_bad_hash(byte_strings(raw@), at) && e == Error::ArgHash(
                    HashError { len: #[trigger] byte_strings(raw@)[at].len() as usize },
                ),
        },
{
    let mut digests: Vec<Digest> = Vec::new();
    let mut i: usize = 0;
    while i < raw.len()
        invariant
            i <= raw.len(),
            digests@.len() == i,
            forall|j: int| 0 <= j < i ==> (#[trigger] byte_strings(raw@)[j]).len() == DIGEST_LEN,
            forall|j: int| 0 <= j < i ==> (#[trigger] digests@[j])@ == raw@[j]@,
        decreases raw.len() - i,
    {
        match Digest::try_from(raw[i].as_slice()) {
            Ok(digest) => {
                digests.push(digest);
            },
            Err(e) => {
                assert(first_bad_hash(byte_strings(raw@), i as int));
                return Err(Error::ArgHash(e));
            },
        }
        i = i + 1;
    }
    assert(digest_bytes(digests@) =~= byte_strings(raw@));
    Ok(digests)
}

/// Validates the tags of a request, in their order: all of them, or the
/// error of the first that is malformed.
pub fn parse_tags(raw: &Vec<String>) -> (r: Result<Vec<Tag>, Error>)
    ensures
        match r {
            Ok(tags) => valid_tags(texts(raw@)) && tag_texts(tags@) == texts(raw@),
            Err(e) => !valid_tags(texts(raw@)) && e == Error::ArgTag(TagError::Empty),
        },
{
    let mut tags: Vec<Tag> = Vec::new();
    let mut i: usize = 0;
    while i < raw.len()
        invariant
            i <= raw.len(),
            tags@.len() == i,
            forall|j: int| 0 <= j < i ==> valid_tag(#[trigger] texts(raw@)[j]),
            forall|j: int| 0 <= j < i ==> (#[trigger] tags@[j])@ == raw@[j]@,
        decreases raw.len() - i,
    {
        match Tag::try_from(raw[i].clone()) {
            Ok(tag) => {
                tags.push(tag);
            },
            Err(e) => {
                assert(!valid_tag(texts(raw@)[i as int]));
                return Err(Error::ArgTag(e));
            },
        }
        i = i + 1;
    }
    assert(tag_texts(tags@) =~= texts(raw@));
    Ok(tags)
}

/// What is reported of a request that holds a malformed hash or tag.
pub open spec fn invalid_argument() -> Status {
    Status { code: Code::InvalidArgument, message: "Received invalid argument" }
}

/// What is reported when the storage fails.
pub open spec fn unavailable() -> Status {
    Status { code: Code::Unavailable, message: "db error" }
}

/// The tag store behind its four operations, which take what a request
/// holds as it came. Its view is the state of its store.
pub struct Tgcd {
    store: Store,
}

impl View for Tgcd {
    type V = Tables;

    closed spec fn view(&self) -> Tables {
        self.store@
    }
}

impl Tgcd {
    /// The service on the given store.
    pub fn new(store: Store) -> (service: Tgcd)
        ensures
            service@ == store@,
    {
        Tgcd { store }
    }

    /// The store of the service.
    pub fn into_store(self) -> (store: Store)
        ensures
            store@ == self@,
    {
        self.store
    }

    /// The tags of a hash, each once: none for a hash that the store has
    /// not seen. A byte string that is no hash is an invalid argument.
    pub fn get_tags(&self, hash: &[u8]) -> (r: Result<Vec<String>, Status>)
        requires
            self@.wf(),
        ensures
            match r {
                Ok(found) => {
                    &&& hash@.len() == DIGEST_LEN
                    &&& texts(found@) == self@.tag_list(hash@)
                    &&& texts(found@).no_duplicates()
                    &&& texts(found@).to_set() == self@.tags_of(hash@)
                },
                Err(status) => hash@.len() != DIGEST_LEN && status == invalid_argument(),
            },
    {
        match parse_hash(hash) {
            Ok(hash) => Ok(self.store.get_tags(&hash)),
            Err(e) => Err(Status::from(e)),
        }
    }

    /// Attaches each of `tags` to `hash`, all of them or, where it fails,
    /// none. A malformed hash is reported before a malformed tag, and both
    /// before the store is touched.
    pub fn add_tags_to_hash(&mut self, hash: &[u8], tags: Vec<String>) -> (r: Result<(), Status>)
        requires
            old(self)@.wf(),
        ensures
            final(self)@.wf(),
            match r {
                Ok(()) => {
                    &&& hash@.len() == DIGEST_LEN
                    &&& valid_tags(texts(tags@))
                    &&& old(self)@.can_attach(hash@, texts(tags@))
                    &&& final(self)@ == old(self)@.attach(hash@, texts(tags@))
                    &&& final(self)@.tags_of(hash@) == old(self)@.tags_of(hash@).union(
                        texts(tags@).to_set(),
                    )
                    &&& forall|other: Seq<u8>|
                        other != hash@ ==> #[trigger] final(self)@.tags_of(other) == old(
                            self,
                        )@.tags_of(other)
                },
                Err(status) => {
                    &&& final(self)@ == old(self)@
                    &&& if hash@.len() != DIGEST_LEN || !valid_tags(texts(tags@)) {
                        status == invalid_argument()
                    } else {
                        status == unavailable() && !old(self)@.can_attach(hash@, texts(tags@))
                    }
                },
            },
    {
        let (hash, tags) = match parse_add_tags(hash, &tags) {
            Ok(parsed) => parsed,
            Err(e) => {
                return Err(Status::from(e));
            },
        };
        proof {
            if old(self)@.can_attach(hash@, tag_texts(tags@)) {
                lemma_attach(old(self)@, hash@, tag_texts(tags@));
                lemma_attach_tags_of(old(self)@, hash@, tag_texts(tags@));
            }
        }
        match add_tags_to_hash(&mut self.store, &hash, tags) {
            Ok(()) => Ok(()),
            Err(e) => Err(Status::from(e)),
        }
    }

    /// The tags of each hash, in the order of the hashes and one entry for
    /// each, whether or not a hash comes twice. One byte string that is no
    /// hash makes the whole request an invalid argument.
    pub fn get_multiple_tags(&self, hashes: Vec<Vec<u8>>) -> (r: Result<Vec<Vec<String>>, Status>)
        requires
            self@.wf(),
        ensures
            match r {
                Ok(found) => {
                    &&& valid_hashes(byte_strings(hashes@))
                    &&& found@.len() == hashes@.len()
                    &&& forall|i: int|
                        0 <= i < hashes@.len() ==> {
                            &&& texts((#[trigger] found@[i])@) == self@.tag_list(hashes@[i]@)
                            &&& texts(found@[i]@).no_duplicates()
                            &&& texts(found@[i]@).to_set() == self@.tags_of(hashes@[i]@)
                        }
                },
                Err(status) => !valid_hashes(byte_strings(hashes@)) && status
                    == invalid_argument(),
            },
    {
        let digests = match parse_hashes(&hashes) {
            Ok(digests) => digests,
            Err(e) => {
                return Err(Status::from(e));
            },
        };
        let mut found: Vec<Vec<String>> = Vec::new();
        let mut i: usize = 0;
        while i < digests.len()
            invariant
                self@.wf(),
                i <= digests.len(),
                digests@.len() == hashes@.len(),
                digest_bytes(digests@) == byte_strings(hashes@),
                found@.len() == i,
                forall|j: int|
                    0 <= j < i ==> {
                        &&& texts((#[trigger] found@[j])@) == self@.tag_list(hashes@[j]@)
                        &&& texts(found@[j]@).no_duplicates()
                        &&& texts(found@[j]@).to_set() == self@.tags_of(hashes@[j]@)
                    },
            decreases digests.len() - i,
        {
            assert(digest_bytes(digests@)[i as int] == byte_strings(hashes@)[i as int]);
            let tags = self.store.get_tags(&digests[i]);
            found.push(tags);
            i = i + 1;
        }
        Ok(found)
    }

    /// Attaches the tags that `src_hash` carries to `dest_hash`, all of them
    /// or, where it fails, none. A malformed source is reported before a
    /// malformed destination.
    pub fn copy_tags(&mut self, src_hash: &[u8], dest_hash: &[u8]) -> (r: Result<(), Status>)
        requires
            old(self)@.wf(),
        ensures
            final(self)@.wf(),
            match r {
                Ok(()) => {
                    &&& src_hash@.len() == DIGEST_LEN
                    &&& dest_hash@.len() == DIGEST_LEN
                    &&& old(self)@.can_attach(dest_hash@, old(self)@.tag_list(src_hash@))
                    &&& final(self)@ == old(self)@.attach(
                        dest_hash@,
                        old(self)@.tag_list(src_hash@),
                    )
                    &&& final(self)@.tags_of(dest_hash@) == old(self)@.tags_of(dest_hash@).union(
                        old(self)@.tags_of(src_hash@),
                    )
                    &&& forall|other: Seq<u8>|
                        other != dest_hash@ ==> #[trigger] final(self)@.tags_of(other) == old(
                            self,
                        )@.tags_of(other)
                },
                Err(status) => {
                    &&& final(self)@ == old(self)@
                    &&& if src_hash@.len() != DIGEST_LEN || dest_hash@.len() != DIGEST_LEN {
                        status == invalid_argument()
                    } else {
                        status == unavailable() && !old(self)@.can_attach(
                            dest_hash@,
                            old(self)@.tag_list(src_hash@),
                        )
                    }
                },
            },
            src_hash@ == dest_hash@ ==> forall|other: Seq<u8>|
                #[trigger] final(self)@.tags_of(other) == old(self)@.tags_of(other),
    {
        let (src, dest) = match parse_src_dest(src_hash, dest_hash) {
            Ok(parsed) => parsed,
            Err(e) => {
                return Err(Status::from(e));
            },
        };
        let found = self.store.get_tags(&src);
        // No row holds a text that is no tag.
        let tags = parse_tags(&found).unwrap();
        proof {
            if old(self)@.can_attach(dest@, tag_texts(tags@)) {
                lemma_copy(old(self)@, src@, dest@);
                if src@ == dest@ {
                    lemma_copy_onto_itself(old(self)@, src@);
                }
            }
        }
        match add_tags_to_hash(&mut self.store, &dest, tags) {
            Ok(()) => Ok(()),
            Err(e) => Err(Status::from(e)),
        }
    }
}

} // verus!
