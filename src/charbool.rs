use vstd::prelude::*;
use vstd::string::StringExecFns;
use crate::text::{push_char, split_first};

verus! {

/// A test on single characters, with a description of the characters it
/// accepts for use in error messages.
pub trait CharBool {
    /// Whether the test accepts `c`.
    spec fn accepts(&self, c: char) -> bool;

    /// Whether the executable test can be run and agrees with `accepts`.
    spec fn ready(&self) -> bool;

    /// Whether `d` is a description that this test may give.
    spec fn describes(&self, d: Seq<char>) -> bool;

    fn cb(&self, c: char) -> (r: bool)
        requires
            self.ready(),
        ensures
            r == self.accepts(c),
    ;

    fn expects(&self) -> (r: String)
        ensures
            self.describes(r@),
    ;
}

/// A function from characters to `bool` accepts what it returns `true` for.
/// It must be callable on every character and never able to give both answers
/// for one character.
impl<F: Fn(char) -> bool> CharBool for F {
    open spec fn accepts(&self, c: char) -> bool {
        self.ensures((c,), true)
    }

    open spec fn ready(&self) -> bool {
        forall|c: char|
            #![trigger self.requires((c,))]
            self.requires((c,)) && !(self.ensures((c,), true) && self.ensures((c,), false))
    }

    open spec fn describes(&self, d: Seq<char>) -> bool {
        d == "A char passing the test"@
    }

    fn cb(&self, c: char) -> (r: bool) {
        let r = self(c);
        proof {
            if !r {
                assert(self.ensures((c,), false));
                assert(self.requires((c,)));
            }
        }
        r
    }

    fn expects(&self) -> (r: String) {
        String::from_str("A char passing the test")
    }
}

/// A string accepts the characters it contains.
impl<'s> CharBool for &'s str {
    open spec fn accepts(&self, c: char) -> bool {
        self@.contains(c)
    }

    open spec fn ready(&self) -> bool {
        true
    }

    open spec fn describes(&self, d: Seq<char>) -> bool {
        d == "One of '"@ + self@ + "'"@
    }

    fn cb(&self, c: char) -> (r: bool) {
        let mut rest: &str = *self;
        let ghost mut k: int = 0;
        loop
            invariant
                0 <= k <= self@.len(),
                rest@ == self@.skip(k),
                forall|j: int| 0 <= j < k ==> self@[j] != c,
            decreases rest@.len(),
        {
            match split_first(rest) {
                Some((x, tail)) => {
                    if x == c {
                        assert(self@[k] == c);
                        return true;
                    }
                    rest = tail;
                    proof {
                        k = k + 1;
                        assert(rest@ =~= self@.skip(k));
                    }
                },
                None => {
                    assert(!self@.contains(c));
                    return false;
                },
            }
        }
    }

    fn expects(&self) -> (r: String) {
        let mut r = String::from_str("One of '");
        r.append(self);
        r.append("'");
        r
    }
}

/// A character accepts itself alone.
impl CharBool for char {
    open spec fn accepts(&self, c: char) -> bool {
        *self == c
    }

    open spec fn ready(&self) -> bool {
        true
    }

    open spec fn describes(&self, d: Seq<char>) -> bool {
        d == "Char '"@.push(*self) + "'"@
    }

    fn cb(&self, c: char) -> (r: bool) {
        *self == c
    }

    fn expects(&self) -> (r: String) {
        let mut r = String::from_str("Char '");
        push_char(&mut r, *self);
        r.append("'");
        r
    }
}

} // verus!
