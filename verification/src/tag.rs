//! Tags: the labels that content carries.

use vstd::prelude::*;
use vstd::std_specs::cmp::PartialEqSpecImpl;

verus! {

/// Why a string is no tag.
#[derive(Clone, Copy, Debug, PartialEq, Eq, Structural)]
pub enum TagError {
    /// The text is empty.
    Empty,
}

/// A tag: a non-empty label. Its view is its text.
#[derive(Debug)]
pub struct Tag {
    text: String,
}

impl View for Tag {
    type V = Seq<char>;

    closed spec fn view(&self) -> Seq<char> {
        self.text@
    }
}

/// Whether a text can be a tag.
pub open spec fn valid_tag(text: Seq<char>) -> bool {
    text.len() > 0
}

impl Tag {
    #[verifier::type_invariant]
    spec fn well_formed(self) -> bool {
        valid_tag(self.text@)
    }

    /// Validates a text: exactly the non-empty texts are tags.
    pub fn try_from(text: String) -> (r: Result<Tag, TagError>)
        ensures
            valid_tag(text@) ==> r is Ok && r->Ok_0@ == text@,
            !valid_tag(text@) ==> r == Err::<Tag, TagError>(TagError::Empty),
    {
        if text.as_str().is_empty() {
            Err(TagError::Empty)
        } else {
            Ok(Tag { text })
        }
    }

    /// The text of the tag, which is never empty.
    pub fn as_str(&self) -> (s: &str)
        ensures
            s@ == self@,
            valid_tag(s@),
    {
        proof {
            use_type_invariant(self);
        }
        self.text.as_str()
    }

    /// A copy of the text of the tag.
    pub fn text(&self) -> (s: String)
        ensures
            s@ == self@,
            valid_tag(s@),
    {
        proof {
            use_type_invariant(self);
        }
        self.text.clone()
    }
}

impl Clone for Tag {
    fn clone(&self) -> (r: Tag)
        ensures
            r@ == self@,
            valid_tag(r@),
    {
        proof {
            use_type_invariant(self);
        }
        Tag { text: self.text.clone() }
    }
}

impl PartialEq for Tag {
    fn eq(&self, other: &Tag) -> (b: bool) {
        self.text == other.text
    }
}

impl PartialEqSpecImpl for Tag {
    open spec fn obeys_eq_spec() -> bool {
        true
    }

    open spec fn eq_spec(&self, other: &Tag) -> bool {
        self@ == other@
    }
}

impl Eq for Tag {

}

} // verus!
