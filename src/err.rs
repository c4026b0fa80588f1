use vstd::prelude::*;
use vstd::string::StringExecFns;
use crate::pos::Pos;
use crate::text::{decimal, push_char, push_decimal};

verus! {

/// A lexical failure: where it happened, what was expected there, and the
/// character found instead (`None` at the end of the input).
#[derive(Clone, Debug)]
pub struct TErr {
    pub pos: Pos,
    pub exp: String,
    pub got: Option<char>,
}

impl TErr {
    /// The text of the failure: what was expected, what came (`EOI` at the
    /// end of the input) and the line and column.
    pub open spec fn message_text(&self) -> Seq<char> {
        let got = match self.got {
            Some(c) => seq![c],
            None => "EOI"@,
        };
        "Expected '"@ + self.exp@ + "'  but got "@ + got + " at ("@ + decimal(self.pos.line as nat)
            + ","@ + decimal(self.pos.col as nat) + ")"@
    }

    pub fn message(&self) -> (r: String)
        ensures
            r@ == self.message_text(),
    {
        let mut r = String::from_str("Expected '");
        r.append(self.exp.as_str());
        r.append("'  but got ");
        match self.got {
            Some(c) => push_char(&mut r, c),
            None => r.append("EOI"),
        }
        r.append(" at (");
        push_decimal(&mut r, self.pos.line);
        r.append(",");
        push_decimal(&mut r, self.pos.col);
        r.append(")");
        assert(r@ =~= self.message_text());
        r
    }
}

} // verus!
