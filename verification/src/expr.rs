//! The tag of an expression: a kind of eight bits above a value of 24.

use vstd::prelude::*;

verus! {

/// The largest value a tag can carry.
pub const MAX_VALUE: u32 = 0xff_ffff;

/// The kind of an expression.
#[derive(Debug, Clone, Copy, PartialEq, Eq, Structural)]
pub enum ExprKind {
    Id,
    Number,
    Func,
    Unary,
    Binary,
}

/// A kind and a value packed into 32 bits.
#[derive(Debug, Clone, Copy, PartialEq, Eq, Structural)]
pub struct ExprTag(u32);

impl ExprTag {
    /// The kind that was packed.
    pub closed spec fn spec_kind(&self) -> ExprKind {
        let code = self.0 >> 24;
        if code == 1 {
            ExprKind::Number
        } else if code == 2 {
            ExprKind::Func
        } else if code == 3 {
            ExprKind::Unary
        } else if code == 4 {
            ExprKind::Binary
        } else {
            ExprKind::Id
        }
    }

    /// The value that was packed.
    pub closed spec fn spec_value(&self) -> u32 {
        self.0 & 0xff_ffff
    }

    /// Packs `kind` and `value`.
    pub fn new(kind: ExprKind, value: u32) -> (tag: Self)
        requires
            value <= MAX_VALUE,
        ensures
            tag.spec_kind() == kind,
            tag.spec_value() == value,
    {
        let code: u32 = match kind {
            ExprKind::Id => 0,
            ExprKind::Number => 1,
            ExprKind::Func => 2,
            ExprKind::Unary => 3,
            ExprKind::Binary => 4,
        };
        proof {
            assert(code <= 4 && value <= 0xff_ffff ==> ((code << 24) | value) >> 24 == code && ((code
                << 24) | value) & 0xff_ffff == value) by (bit_vector);
        }
        ExprTag((code << 24) | value)
    }

    /// The kind of the expression.
    pub fn kind(&self) -> (kind: ExprKind)
        ensures
            kind == self.spec_kind(),
    {
        let code: u32 = self.0 >> 24;
        if code == 1 {
            ExprKind::Number
        } else if code == 2 {
            ExprKind::Func
        } else if code == 3 {
            ExprKind::Unary
        } else if code == 4 {
            ExprKind::Binary
        } else {
            ExprKind::Id
        }
    }

    /// The value of the expression.
    pub fn value(&self) -> (value: u32)
        ensures
            value == self.spec_value(),
    {
        self.0 & 0xff_ffff
    }
}

} // verus!
