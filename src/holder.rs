use vstd::prelude::*;

verus! {

/// The text of a tag, held on its own.
#[derive(Debug, Clone, PartialEq)]
pub struct TestContainer {
    pub text: String,
}

/// Holds the text that a tag carries.
#[derive(Debug, Clone, PartialEq)]
pub struct TestHolder {
    pub text: String,
}

impl TestHolder {
    pub fn new(text: String) -> (r: TestHolder)
        ensures
            r.text@ == text@,
    {
        TestHolder { text }
    }

    pub fn text(&self) -> (r: &String)
        ensures
            r@ == self.text@,
    {
        &self.text
    }
}

} // verus!
