//! The values a formula is made of: decimal literals, the four operators,
//! and the tree that a formula denotes.

use vstd::prelude::*;

verus! {

/// One of the four arithmetic operators.
#[derive(Clone, Copy, Debug, PartialEq, Eq, Structural)]
pub enum Operator {
    Add,
    Sub,
    Mul,
    Div,
}

/// A signed decimal numeral, as the mathematical object a literal denotes:
/// a sign, the digits before the point and the digits after it, most
/// significant digit first.
pub struct Decimal {
    pub negative: bool,
    pub integer: Seq<u8>,
    pub fraction: Seq<u8>,
}

impl Decimal {
    /// The shape every literal of a formula has: decimal digits only, at
    /// least one before the point, and no redundant leading zero.
    pub open spec fn well_formed(self) -> bool {
        &&& self.integer.len() >= 1
        &&& self.integer.len() > 1 ==> self.integer[0] != 0
        &&& forall|i: int| 0 <= i < self.integer.len() ==> #[trigger] self.integer[i] <= 9
        &&& forall|i: int| 0 <= i < self.fraction.len() ==> #[trigger] self.fraction[i] <= 9
    }
}

/// What a formula denotes: a literal, or an operator applied to two
/// formulas.  Parentheses leave no node of their own.
pub enum Tree {
    Number(Decimal),
    Binary(Operator, Box<Tree>, Box<Tree>),
}

impl Tree {
    /// Every literal in the tree is well formed.
    pub open spec fn well_formed(self) -> bool
        decreases self,
    {
        match self {
            Tree::Number(d) => d.well_formed(),
            Tree::Binary(_, left, right) => left.well_formed() && right.well_formed(),
        }
    }
}

/// A decimal literal as it stands in a formula.  The digits are kept one
/// by one, so a literal of any length is held exactly.
#[derive(Debug, PartialEq, Eq)]
pub struct Literal {
    /// Whether a minus sign precedes the digits.
    pub negative: bool,
    /// The digits before the decimal point, each in `0..=9`.
    pub integer: Vec<u8>,
    /// The digits after the decimal point; empty when there is no point.
    pub fraction: Vec<u8>,
}

impl View for Literal {
    type V = Decimal;

    open spec fn view(&self) -> Decimal {
        Decimal { negative: self.negative, integer: self.integer@, fraction: self.fraction@ }
    }
}

impl Clone for Literal {
    fn clone(&self) -> (copy: Self)
        ensures
            copy@ == self@,
    {
        let integer = self.integer.clone();
        let fraction = self.fraction.clone();
        Literal { negative: self.negative, integer, fraction }
    }
}

/// A parsed formula.  Parentheses leave no node of their own, and a chain
/// of operators of one rank nests to the left, one level for each
/// operator.
#[derive(Debug, PartialEq, Eq)]
pub enum Expr {
    /// A literal.
    Number(Literal),
    /// An operator with its left and right operand.
    Binary(Operator, Box<Expr>, Box<Expr>),
}

impl Expr {
    /// The tree that this formula denotes.
    pub open spec fn tree(self) -> Tree
        decreases self,
    {
        match self {
            Expr::Number(literal) => Tree::Number(literal@),
            Expr::Binary(op, left, right) => Tree::Binary(
                op,
                Box::new(left.tree()),
                Box::new(right.tree()),
            ),
        }
    }
}

impl Clone for Expr {
    fn clone(&self) -> (copy: Self)
        ensures
            copy@ == self@,
        decreases self,
    {
        match self {
            Expr::Number(literal) => Expr::Number(literal.clone()),
            Expr::Binary(op, left, right) => {
                let left_copy = (**left).clone();
                let right_copy = (**right).clone();
                Expr::Binary(*op, Box::new(left_copy), Box::new(right_copy))
            },
        }
    }
}

impl View for Expr {
    type V = Tree;

    open spec fn view(&self) -> Tree {
        self.tree()
    }
}

} // verus!
