//! A fixed-width field: content, declared width and justification.

use crate::text::{blanks, make_blanks, str_eq, substring};
use vstd::prelude::*;
use vstd::std_specs::convert::FromSpecImpl;
use vstd::string::*;

verus! {

/// The mathematical value of a [`Field`].
pub ghost struct FieldView {
    pub content: Seq<char>,
    pub width: nat,
    pub left: bool,
}

impl FieldView {
    /// The content is no wider than the field.
    pub open spec fn fits(self) -> bool {
        self.content.len() <= self.width
    }

    /// The field as it stands in a line: exactly `width` characters.  Content
    /// that fits is padded with blanks on the side opposite its justification;
    /// content that does not fit is cut to its first `width` characters.
    pub open spec fn rendered(self) -> Seq<char> {
        if self.content.len() > self.width {
            self.content.take(self.width as int)
        } else if self.left {
            self.content + blanks((self.width - self.content.len()) as nat)
        } else {
            blanks((self.width - self.content.len()) as nat) + self.content
        }
    }

    /// A rendered field is exactly as wide as declared.
    pub proof fn lemma_rendered_len(self)
        ensures
            self.rendered().len() == self.width,
    {
    }

    /// Content that fills its field is rendered as it is.
    pub proof fn lemma_full_renders_itself(self)
        requires
            self.content.len() == self.width,
        ensures
            self.rendered() == self.content,
    {
        assert(self.rendered() =~= self.content);
    }
}

/// A fixed-width value of a record.  Right justification is the default.
#[derive(Debug)]
pub struct Field {
    pub content: String,
    pub size: usize,
    pub left_justified: bool,
}

impl View for Field {
    type V = FieldView;

    open spec fn view(&self) -> FieldView {
        FieldView { content: self.content@, width: self.size as nat, left: self.left_justified }
    }
}

impl Field {
    /// A right-justified field of the given width.
    pub fn new(content: &str, size: usize) -> (r: Field)
        ensures
            r@ == (FieldView { content: content@, width: size as nat, left: false }),
    {
        Field { content: content.to_owned(), size, left_justified: false }
    }

    /// The same field with its justification set: left if `justification`.
    pub fn left_just(self, justification: bool) -> (r: Field)
        ensures
            r@ == (FieldView { left: justification, ..self@ }),
    {
        let mut f = self;
        f.left_justified = justification;
        f
    }

    /// Whether the content is no wider than the field.
    pub fn fits(&self) -> (r: bool)
        ensures
            r == self@.fits(),
    {
        self.content.as_str().unicode_len() <= self.size
    }

    /// Whether the content is exactly `other`.
    pub fn content_is(&self, other: &str) -> (r: bool)
        ensures
            r == (self@.content == other@),
    {
        str_eq(self.content.as_str(), other)
    }

    /// The field as it stands in a line.
    pub fn to_string(&self) -> (r: String)
        ensures
            r@ == self@.rendered(),
    {
        let len = self.content.as_str().unicode_len();
        if len > self.size {
            let r = substring(self.content.as_str(), 0, self.size);
            assert(r@ =~= self@.rendered());
            r
        } else {
            let pad = make_blanks(self.size - len);
            if self.left_justified {
                let mut out = self.content.clone();
                out.append(pad.as_str());
                out
            } else {
                let mut out = pad;
                out.append(self.content.as_str());
                out
            }
        }
    }

    /// Replaces the content by `value` if `value` fits the field, and says
    /// whether it did; the field is left as it is if it did not.
    pub fn set_content(&mut self, value: &str) -> (done: bool)
        ensures
            done == (value@.len() <= old(self).size),
            done ==> final(self)@ == (FieldView { content: value@, ..old(self)@ }),
            !done ==> *final(self) == *old(self),
    {
        if value.unicode_len() > self.size {
            false
        } else {
            self.content = value.to_owned();
            true
        }
    }
}

impl Clone for Field {
    fn clone(&self) -> (r: Field)
        ensures
            r@ == self@,
    {
        Field {
            content: self.content.clone(),
            size: self.size,
            left_justified: self.left_justified,
        }
    }
}

impl Default for Field {
    /// The empty field of width zero.
    fn default() -> (r: Field)
        ensures
            r@ == (FieldView { content: Seq::empty(), width: 0, left: false }),
    {
        Field { content: String::new(), size: 0, left_justified: false }
    }
}

impl From<&str> for Field {
    /// A field that its content fills exactly.
    fn from(content: &str) -> (r: Field)
        ensures
            r@ == (FieldView { content: content@, width: content@.len(), left: false }),
    {
        let size = content.unicode_len();
        Field { content: content.to_owned(), size, left_justified: false }
    }
}

impl FromSpecImpl<&str> for Field {
    open spec fn obeys_from_spec() -> bool {
        false
    }

    open spec fn from_spec(v: &str) -> Field {
        arbitrary()
    }
}

impl From<String> for Field {
    /// A field that its content fills exactly.
    fn from(content: String) -> (r: Field)
        ensures
            r@ == (FieldView { content: content@, width: content@.len(), left: false }),
    {
        let size = content.as_str().unicode_len();
        Field { content, size, left_justified: false }
    }
}

impl FromSpecImpl<String> for Field {
    open spec fn obeys_from_spec() -> bool {
        false
    }

    open spec fn from_spec(v: String) -> Field {
        arbitrary()
    }
}

impl From<u32> for Field {
    /// An empty field of the given width.
    fn from(size: u32) -> (r: Field)
        ensures
            r@ == (FieldView { content: Seq::empty(), width: size as nat, left: false }),
    {
        Field { content: String::new(), size: size as usize, left_justified: false }
    }
}

impl FromSpecImpl<u32> for Field {
    open spec fn obeys_from_spec() -> bool {
        false
    }

    open spec fn from_spec(v: u32) -> Field {
        arbitrary()
    }
}

} // verus!
