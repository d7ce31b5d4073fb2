//! The operators that a constraint can open with.

use vstd::prelude::*;
use crate::error::ParseError;
use crate::text::to_chars;

verus! {

/// What a constraint asks of a version, relative to the version it names.
#[derive(Clone, Copy, Debug, PartialEq, Eq, Hash, Structural)]
pub enum Op {
    /// `=`, `==`, or no operator at all: the named version is admitted.
    Eq,
    /// `!=`: the named version is excluded.
    Ne,
    /// `>`: above the named version.
    Gt,
    /// `<`: below the named version.
    Lt,
    /// `>=`: the named version or above.
    Ge,
    /// `<=`: the named version or below.
    Le,
    /// `~`: from the named version up to the next minor version.
    Tilde,
    /// `^`: from the named version up to the next major version.
    Caret,
}

impl View for Op {
    type V = Op;

    open spec fn view(&self) -> Op {
        *self
    }
}

impl DeepView for Op {
    type V = Op;

    open spec fn deep_view(&self) -> Op {
        *self
    }
}

/// The operator that a text spells, if it spells one. The reversed comparisons
/// `=>` and `=<` spell none.
pub open spec fn op_of_text(t: Seq<char>) -> Option<Op> {
    if t.len() == 0 {
        Some(Op::Eq)
    } else if t.len() == 1 {
        if t[0] == '=' {
            Some(Op::Eq)
        } else if t[0] == '>' {
            Some(Op::Gt)
        } else if t[0] == '<' {
            Some(Op::Lt)
        } else if t[0] == '~' {
            Some(Op::Tilde)
        } else if t[0] == '^' {
            Some(Op::Caret)
        } else {
            None
        }
    } else if t.len() == 2 && t[1] == '=' {
        if t[0] == '=' {
            Some(Op::Eq)
        } else if t[0] == '!' {
            Some(Op::Ne)
        } else if t[0] == '>' {
            Some(Op::Ge)
        } else if t[0] == '<' {
            Some(Op::Le)
        } else {
            None
        }
    } else {
        None
    }
}

/// The operator that the characters of `chars` from `start` to `end` spell.
pub fn op_of_chars(chars: &Vec<char>, start: usize, end: usize) -> (op: Option<Op>)
    requires
        start <= end <= chars.len(),
    ensures
        op == op_of_text(chars@.subrange(start as int, end as int)),
{
    let ghost t = chars@.subrange(start as int, end as int);
    if end == start {
        Some(Op::Eq)
    } else if end - start == 1 {
        assert(t[0] == chars[start as int]);
        let c = chars[start];
        if c == '=' {
            Some(Op::Eq)
        } else if c == '>' {
            Some(Op::Gt)
        } else if c == '<' {
            Some(Op::Lt)
        } else if c == '~' {
            Some(Op::Tilde)
        } else if c == '^' {
            Some(Op::Caret)
        } else {
            None
        }
    } else if end - start == 2 && chars[start + 1] == '=' {
        assert(t[0] == chars[start as int]);
        assert(t[1] == chars[start + 1]);
        let c = chars[start];
        if c == '=' {
            Some(Op::Eq)
        } else if c == '!' {
            Some(Op::Ne)
        } else if c == '>' {
            Some(Op::Ge)
        } else if c == '<' {
            Some(Op::Le)
        } else {
            None
        }
    } else {
        assert(end - start == 2 ==> t[1] == chars[start + 1]);
        None
    }
}

impl Op {
    /// Reads an operator that stands alone. The empty text is the operator
    /// that admits the named version.
    pub fn from_str(op: &str) -> (result: Result<Self, ParseError>)
        ensures
            result == (match op_of_text(op@) {
                Some(o) => Ok::<Op, ParseError>(o),
                None => Err(ParseError::Range),
            }),
    {
        let chars = to_chars(op);
        assert(chars@.subrange(0, chars.len() as int) =~= op@);
        match op_of_chars(&chars, 0, chars.len()) {
            Some(o) => Ok(o),
            None => Err(ParseError::Range),
        }
    }
}

} // verus!
