use vstd::prelude::*;
use vstd::std_specs::iter::IteratorSpec;

verus! {

broadcast use vstd::string::group_string_axioms;

/// The text being parsed, with its characters laid out for indexing.
pub(crate) struct Source<'a> {
    pub(crate) text: &'a str,
    pub(crate) chars: Vec<char>,
}

impl<'a> Source<'a> {
    pub(crate) open spec fn wf(&self) -> bool {
        self.chars@ == self.text@
    }

    pub(crate) fn new(text: &'a str) -> (r: Source<'a>)
        ensures
            r.wf(),
            r.text == text,
    {
        let mut chars: Vec<char> = Vec::new();
        for c in it: text.chars()
            invariant
                chars@ == it.seq().take(it.index()),
        {
            chars.push(c);
        }
        assert(chars@ == text@);
        Source { text, chars }
    }
}

} // verus!
