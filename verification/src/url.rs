//! The path value that a rename goes from and to.

use vstd::prelude::*;
use vstd::std_specs::cmp::PartialEqSpecImpl;

verus! {

/// A resource identifier, held in its canonical textual form.
///
/// Two urls are the same resource exactly when their texts are equal; the
/// view of a url is that text.
#[derive(Debug)]
pub struct Url {
    text: String,
}

impl View for Url {
    type V = Seq<char>;

    closed spec fn view(&self) -> Seq<char> {
        self.text@
    }
}

impl Url {
    /// The url whose canonical text is `text`.
    pub fn new(text: String) -> (url: Url)
        ensures
            url@ == text@,
    {
        Url { text }
    }

    /// The canonical text of the url.
    pub fn as_str(&self) -> (text: &str)
        ensures
            text@ == self@,
    {
        self.text.as_str()
    }
}

impl PartialEq for Url {
    fn eq(&self, other: &Url) -> (same: bool) {
        self.text == other.text
    }
}

impl Eq for Url {

}

impl PartialEqSpecImpl for Url {
    open spec fn obeys_eq_spec() -> bool {
        true
    }

    open spec fn eq_spec(&self, other: &Url) -> bool {
        self@ == other@
    }
}

impl Clone for Url {
    fn clone(&self) -> (copy: Url)
        ensures
            copy@ == self@,
    {
        Url { text: self.text.clone() }
    }
}

} // verus!
