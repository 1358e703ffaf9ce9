//! Scalar expressions of kernel source text.

use vstd::prelude::*;

verus! {

/// What stands at the head of an expression.
#[derive(Debug)]
pub enum WgpuOp {
    Add,
    Mul,
    Sin,
    /// A variable of the kernel, by name.
    Var(String),
}

impl WgpuOp {
    /// The operator as it is written in source text; for a variable, its
    /// name.
    pub open spec fn symbol(self) -> Seq<char> {
        match self {
            WgpuOp::Add => "+"@,
            WgpuOp::Mul => "*"@,
            WgpuOp::Sin => "sin"@,
            WgpuOp::Var(name) => name@,
        }
    }

    /// Whether the operator is written between its two operands.
    pub open spec fn is_infix(self) -> bool {
        self is Add || self is Mul
    }
}

/// An expression tree.
#[derive(Debug)]
pub struct WgpuExpr {
    pub op: WgpuOp,
    pub children: Vec<WgpuExpr>,
}

impl WgpuExpr {
    /// An infix operator has its two operands, here and in every
    /// subexpression.
    pub open spec fn wf(self) -> bool
        decreases self,
    {
        &&& self.op.is_infix() ==> self.children@.len() >= 2
        &&& forall|i: int| 0 <= i < self.children@.len() ==> (#[trigger] self.children@[i]).wf()
    }

    /// The texts of the first `upto` operands, separated by a comma and a
    /// space.
    pub open spec fn arguments(self, upto: int) -> Seq<char>
        decreases self, upto,
    {
        if upto <= 0 || upto > self.children@.len() {
            Seq::empty()
        } else if upto == 1 {
            self.children@[0].text()
        } else {
            self.arguments(upto - 1) + ", "@ + self.children@[upto - 1].text()
        }
    }

    /// The expression as source text: a variable is its name, a function is
    /// applied to its arguments in parentheses, and an infix operator stands
    /// between its first two operands, each in parentheses.
    pub open spec fn text(self) -> Seq<char>
        decreases self, self.children@.len() + 1,
    {
        match self.op {
            WgpuOp::Var(name) => name@,
            WgpuOp::Sin => self.op.symbol() + "("@ + self.arguments(self.children@.len() as int)
                + ")"@,
            _ => if self.children@.len() >= 2 {
                "("@ + self.children@[0].text() + ") "@ + self.op.symbol() + " ("@
                    + self.children@[1].text() + ")"@
            } else {
                Seq::empty()
            },
        }
    }

    /// The expression with `op` at its head and `children` as operands.
    pub fn new(op: WgpuOp, children: Vec<WgpuExpr>) -> (expr: WgpuExpr)
        ensures
            expr.op == op,
            expr.children == children,
    {
        WgpuExpr { op, children }
    }

    /// The variable called `name`.
    pub fn new_var(name: String) -> (expr: WgpuExpr)
        ensures
            expr.op == WgpuOp::Var(name),
            expr.children@ == Seq::<WgpuExpr>::empty(),
            expr.wf(),
            expr.text() == name@,
    {
        let expr = WgpuExpr { op: WgpuOp::Var(name), children: Vec::new() };
        assert(expr.children@ =~= Seq::<WgpuExpr>::empty());
        expr
    }

    /// The expression as source text.
    pub fn to_text(&self) -> (text: String)
        requires
            self.wf(),
        ensures
            text@ == self.text(),
        decreases self,
    {
        match &self.op {
            WgpuOp::Var(name) => name.clone(),
            WgpuOp::Sin => {
                let mut text = String::from_str("sin");
                text.append("(");
                let mut i: usize = 0;
                while i < self.children.len()
                    invariant
                        i <= self.children@.len(),
                        self.wf(),
                        text@ == "sin"@ + "("@ + self.arguments(i as int),
                    decreases self.children@.len() - i,
                {
                    if i > 0 {
                        text.append(", ");
                    }
                    let argument = self.children[i].to_text();
                    text.append(argument.as_str());
                    i = i + 1;
                }
                text.append(")");
                text
            },
            _ => {
                let mut text = String::from_str("(");
                let left = self.children[0].to_text();
                text.append(left.as_str());
                text.append(") ");
                match &self.op {
                    WgpuOp::Add => text.append("+"),
                    _ => text.append("*"),
                }
                text.append(" (");
                let right = self.children[1].to_text();
                text.append(right.as_str());
                text.append(")");
                text
            },
        }
    }
}

} // verus!
