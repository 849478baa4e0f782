//! Reference-counted strings.
//!
//! Stage names and dependency paths appear as keys in many tables, so the
//! compiler shares their storage: cloning a [`Text`] copies a handle, not
//! the characters.

use std::sync::Arc;
use vstd::prelude::*;

verus! {

/// A reference-counted string, compared by its characters.
#[derive(Debug)]
pub struct Text {
    inner: Arc<String>,
}

impl View for Text {
    type V = Seq<char>;

    closed spec fn view(&self) -> Seq<char> {
        self.inner@
    }
}

impl Text {
    /// Wrap a string.
    pub fn new(s: String) -> (r: Text)
        ensures
            r@ == s@,
    {
        Text { inner: Arc::new(s) }
    }

    /// The characters of this text.
    pub fn as_str(&self) -> (r: &str)
        ensures
            r@ == self@,
    {
        (*self.inner).as_str()
    }
}

} // verus!
