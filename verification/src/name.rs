//! Names of variables: immutable, shared text, compared by content.
use crate::shared::share;
use std::rc::Rc;
use vstd::prelude::*;
use vstd::string::*;

verus! {

/// The text of a name, as contracts see it.
pub type Ident = Seq<char>;

/// The name of a binder that its body never refers to. It is never renamed.
pub open spec fn placeholder() -> Ident {
    seq!['_']
}

/// The mark that renaming appends to a name.
pub open spec fn tick() -> char {
    '\''
}

/// `x` followed by `n` marks.
pub open spec fn primed(x: Ident, n: nat) -> Ident {
    x + Seq::new(n, |i: int| tick())
}

/// An immutable identifier. Copies share one allocation of the text.
#[derive(Debug)]
pub struct Name {
    text: Rc<String>,
}

impl View for Name {
    type V = Ident;

    closed spec fn view(&self) -> Ident {
        self.text@
    }
}

impl Clone for Name {
    fn clone(&self) -> (r: Self)
        ensures
            r == *self,
    {
        Name { text: share(&self.text) }
    }
}

impl PartialEq for Name {
    fn eq(&self, other: &Self) -> (r: bool) {
        *self.text == *other.text
    }
}

impl vstd::std_specs::cmp::PartialEqSpecImpl for Name {
    open spec fn obeys_eq_spec() -> bool {
        true
    }

    open spec fn eq_spec(&self, other: &Self) -> bool {
        self@ == other@
    }
}

impl Eq for Name {

}

impl Name {
    /// The name with the text `s`.
    pub fn new(s: &str) -> (r: Name)
        ensures
            r@ == s@,
    {
        Name { text: Rc::new(s.to_owned()) }
    }

    /// The text of the name.
    pub fn as_str(&self) -> (r: &str)
        ensures
            r@ == self@,
    {
        self.text.as_str()
    }

    /// Whether this is the placeholder `_`.
    pub fn is_placeholder(&self) -> (r: bool)
        ensures
            r == (self@ == placeholder()),
    {
        let s = self.text.as_str();
        let r = s.unicode_len() == 1 && s.get_char(0) == '_';
        proof {
            if r {
                assert(self@ =~= placeholder());
            }
        }
        r
    }

    /// The name with one more mark at its end.
    pub fn prime(&self) -> (r: Name)
        ensures
            r@ == self@.push(tick()),
    {
        let mut s = self.text.as_str().to_owned();
        proof {
            reveal_strlit("'");
        }
        s.append("'");
        assert(s@ =~= self@.push(tick()));
        Name { text: Rc::new(s) }
    }
}

} // verus!
