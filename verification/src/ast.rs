//! The abstract syntax tree produced by the parser: values, operators,
//! expressions, statements and whole programs, together with the
//! mathematical models (`SpecValue`, `SpecExpr`, `SpecStmt`) that the
//! parser's specification builds.
//!
//! Every tree node is immutable once constructed and fully owned by its
//! parent. Equality on all of these types is deep structural equality,
//! which in contracts coincides with equality of the views.

use vstd::prelude::*;

verus! {

/// A literal value as it appears in source text.
///
/// A numeric literal keeps its source spelling (a run of digits,
/// optionally a `.` and a further run of digits). Decoding that spelling
/// into a machine float is the embedder's concern, not the grammar's, so
/// the tree stays exact for every literal, however long.
#[derive(Debug)]
pub enum Value {
    Nil,
    Bool(bool),
    Number(String),
    String(String),
}

/// Binary operators, arithmetic, comparison and logical alike. The
/// parser distinguishes them only by precedence tier; none are evaluated
/// here.
#[derive(Clone, Copy, Debug, PartialEq, Eq, Structural)]
pub enum BinaryOp {
    Add,
    Subtract,
    Multiply,
    Divide,
    Greater,
    GreaterEqual,
    Less,
    LessEqual,
    Equal,
    NotEqual,
    And,
    Or,
}

/// Unary operators.
#[derive(Clone, Copy, Debug, PartialEq, Eq, Structural)]
pub enum UnaryOp {
    Minus,
    Not,
}

/// An expression node. Children are owned, recursively; the tree has no
/// sharing and no cycles.
#[derive(Debug)]
pub enum Expr {
    /// A literal value.
    Literal(Value),
    /// A variable reference.
    Variable(String),
    /// A binary operation.
    Binary { left: Box<Expr>, operator: BinaryOp, right: Box<Expr> },
    /// A unary operation.
    Unary { operator: UnaryOp, operand: Box<Expr> },
    /// A parenthesized expression.
    Grouping(Box<Expr>),
    /// An assignment to a named variable.
    Assignment { name: String, value: Box<Expr> },
}

/// A statement node.
#[derive(Debug)]
pub enum Stmt {
    /// An expression followed by `;`.
    Expression(Expr),
    /// `print` expression `;`.
    Print(Expr),
    /// `var` name ( `=` initializer )? `;`.
    VarDeclaration { name: String, initializer: Option<Expr> },
}

/// A complete program: its statements in textual order. The order is
/// semantically significant and is exactly the order of the statements in
/// the source.
#[derive(Debug)]
pub struct Program {
    pub statements: Vec<Stmt>,
}

/// The model of a [`Value`]: the same shape over character sequences.
pub enum SpecValue {
    Nil,
    Bool(bool),
    Number(Seq<char>),
    Str(Seq<char>),
}

/// The model of an [`Expr`].
pub enum SpecExpr {
    Literal(SpecValue),
    Variable(Seq<char>),
    Binary { left: Box<SpecExpr>, operator: BinaryOp, right: Box<SpecExpr> },
    Unary { operator: UnaryOp, operand: Box<SpecExpr> },
    Grouping(Box<SpecExpr>),
    Assignment { name: Seq<char>, value: Box<SpecExpr> },
}

/// The model of a [`Stmt`].
pub enum SpecStmt {
    Expression(SpecExpr),
    Print(SpecExpr),
    VarDeclaration { name: Seq<char>, initializer: Option<SpecExpr> },
}

impl View for Value {
    type V = SpecValue;

    open spec fn view(&self) -> SpecValue {
        match self {
            Value::Nil => SpecValue::Nil,
            Value::Bool(b) => SpecValue::Bool(*b),
            Value::Number(t) => SpecValue::Number(t@),
            Value::String(s) => SpecValue::Str(s@),
        }
    }
}

impl View for Expr {
    type V = SpecExpr;

    open spec fn view(&self) -> SpecExpr
        decreases self,
    {
        match self {
            Expr::Literal(v) => SpecExpr::Literal(v@),
            Expr::Variable(n) => SpecExpr::Variable(n@),
            Expr::Binary { left, operator, right } => SpecExpr::Binary {
                left: Box::new((**left)@),
                operator: *operator,
                right: Box::new((**right)@),
            },
            Expr::Unary { operator, operand } => SpecExpr::Unary {
                operator: *operator,
                operand: Box::new((**operand)@),
            },
            Expr::Grouping(inner) => SpecExpr::Grouping(Box::new((**inner)@)),
            Expr::Assignment { name, value } => SpecExpr::Assignment {
                name: name@,
                value: Box::new((**value)@),
            },
        }
    }
}

impl View for Stmt {
    type V = SpecStmt;

    open spec fn view(&self) -> SpecStmt {
        match self {
            Stmt::Expression(e) => SpecStmt::Expression(e@),
            Stmt::Print(e) => SpecStmt::Print(e@),
            Stmt::VarDeclaration { name, initializer } => SpecStmt::VarDeclaration {
                name: name@,
                initializer: match initializer {
                    Some(e) => Some(e@),
                    None => None,
                },
            },
        }
    }
}

impl View for Program {
    type V = Seq<SpecStmt>;

    open spec fn view(&self) -> Seq<SpecStmt> {
        self.statements@.map_values(|s: Stmt| s@)
    }
}

impl PartialEq for Value {
    /// Deep structural equality; two numeric literals are equal exactly
    /// when they were spelled the same.
    fn eq(&self, other: &Value) -> (r: bool) {
        match (self, other) {
            (Value::Nil, Value::Nil) => true,
            (Value::Bool(a), Value::Bool(b)) => *a == *b,
            (Value::Number(a), Value::Number(b)) => *a == *b,
            (Value::String(a), Value::String(b)) => *a == *b,
            _ => false,
        }
    }
}

impl vstd::std_specs::cmp::PartialEqSpecImpl for Value {
    open spec fn obeys_eq_spec() -> bool {
        true
    }

    open spec fn eq_spec(&self, other: &Value) -> bool {
        self@ == other@
    }
}

impl PartialEq for Expr {
    /// Deep structural equality of expression trees.
    fn eq(&self, other: &Expr) -> (r: bool)
        decreases self,
    {
        match (self, other) {
            (Expr::Literal(a), Expr::Literal(b)) => *a == *b,
            (Expr::Variable(a), Expr::Variable(b)) => *a == *b,
            (
                Expr::Binary { left: la, operator: oa, right: ra },
                Expr::Binary { left: lb, operator: ob, right: rb },
            ) => *oa == *ob && **la == **lb && **ra == **rb,
            (
                Expr::Unary { operator: oa, operand: ea },
                Expr::Unary { operator: ob, operand: eb },
            ) => *oa == *ob && **ea == **eb,
            (Expr::Grouping(a), Expr::Grouping(b)) => **a == **b,
            (
                Expr::Assignment { name: na, value: va },
                Expr::Assignment { name: nb, value: vb },
            ) => *na == *nb && **va == **vb,
            _ => false,
        }
    }
}

impl vstd::std_specs::cmp::PartialEqSpecImpl for Expr {
    open spec fn obeys_eq_spec() -> bool {
        true
    }

    open spec fn eq_spec(&self, other: &Expr) -> bool {
        self@ == other@
    }
}

impl PartialEq for Stmt {
    /// Deep structural equality of statements.
    fn eq(&self, other: &Stmt) -> (r: bool) {
        match (self, other) {
            (Stmt::Expression(a), Stmt::Expression(b)) => *a == *b,
            (Stmt::Print(a), Stmt::Print(b)) => *a == *b,
            (
                Stmt::VarDeclaration { name: na, initializer: ia },
                Stmt::VarDeclaration { name: nb, initializer: ib },
            ) => *na == *nb && match (ia, ib) {
                (Some(a), Some(b)) => *a == *b,
                (None, None) => true,
                _ => false,
            },
            _ => false,
        }
    }
}

impl vstd::std_specs::cmp::PartialEqSpecImpl for Stmt {
    open spec fn obeys_eq_spec() -> bool {
        true
    }

    open spec fn eq_spec(&self, other: &Stmt) -> bool {
        self@ == other@
    }
}

impl PartialEq for Program {
    /// Deep structural equality: the same statements in the same order.
    fn eq(&self, other: &Program) -> (r: bool) {
        if self.statements.len() != other.statements.len() {
            proof {
                assert(self@.len() != other@.len());
            }
            return false;
        }
        let n = self.statements.len();
        let mut i: usize = 0;
        while i < n
            invariant
                n == self.statements@.len() == other.statements@.len(),
                i <= n,
                forall|k: int| 0 <= k < i ==> self.statements@[k]@ == other.statements@[k]@,
            decreases n - i,
        {
            if self.statements[i] != other.statements[i] {
                proof {
                    assert(self@[i as int] != other@[i as int]);
                }
                return false;
            }
            i += 1;
        }
        proof {
            assert(self@ =~= other@);
        }
        true
    }
}

impl vstd::std_specs::cmp::PartialEqSpecImpl for Program {
    open spec fn obeys_eq_spec() -> bool {
        true
    }

    open spec fn eq_spec(&self, other: &Program) -> bool {
        self@ == other@
    }
}

impl Program {
    /// Create a program from the given statements.
    pub fn new(statements: Vec<Stmt>) -> (p: Program)
        ensures
            p.statements == statements,
    {
        Program { statements }
    }

    /// The statements of this program, in textual order.
    pub fn statements(&self) -> (r: &[Stmt])
        ensures
            r@ == self.statements@,
    {
        self.statements.as_slice()
    }

    /// Append a statement at the end of this program.
    pub fn add_statement(&mut self, stmt: Stmt)
        ensures
            final(self).statements@ == old(self).statements@.push(stmt),
    {
        self.statements.push(stmt);
    }

    /// Whether the program has no statements.
    pub fn is_empty(&self) -> (r: bool)
        ensures
            r == (self.statements@.len() == 0),
    {
        self.statements.len() == 0
    }
}

/// The precedence tier of a binary operator, loosest first: `or` binds
/// loosest, then `and`, equality, comparison, additive and multiplicative
/// operators.
pub open spec fn op_level(op: BinaryOp) -> int {
    match op {
        BinaryOp::Or => 1,
        BinaryOp::And => 2,
        BinaryOp::Equal => 3,
        BinaryOp::NotEqual => 3,
        BinaryOp::Greater => 4,
        BinaryOp::GreaterEqual => 4,
        BinaryOp::Less => 4,
        BinaryOp::LessEqual => 4,
        BinaryOp::Add => 5,
        BinaryOp::Subtract => 5,
        BinaryOp::Multiply => 6,
        BinaryOp::Divide => 6,
    }
}

/// The precedence tier of an expression's outermost node: assignments
/// bind loosest (0), binary nodes sit at their operator's tier, unary
/// nodes at 7, and atoms (literals, variables, parenthesized groups) at 8.
pub open spec fn expr_level(e: SpecExpr) -> int {
    match e {
        SpecExpr::Assignment { .. } => 0,
        SpecExpr::Binary { left: _, operator, right: _ } => op_level(operator),
        SpecExpr::Unary { .. } => 7,
        SpecExpr::Literal(_) => 8,
        SpecExpr::Variable(_) => 8,
        SpecExpr::Grouping(_) => 8,
    }
}

/// The structural discipline that precedence and associativity impose on
/// a parse tree, at every node:
/// - a binary node's left operand sits at its own tier or tighter (the
///   same tier arises from the left-associative fold), and its right
///   operand sits strictly tighter — so `a - b - c` can only be
///   `(a - b) - c`, and a looser operator can only appear under a tighter
///   one inside explicit parentheses;
/// - a unary node's operand is again unary or an atom;
/// - grouping and assignment accept any expression beneath them.
pub open spec fn well_leveled(e: SpecExpr) -> bool
    decreases e,
{
    match e {
        SpecExpr::Literal(_) => true,
        SpecExpr::Variable(_) => true,
        SpecExpr::Binary { left, operator, right } => {
            &&& well_leveled(*left)
            &&& well_leveled(*right)
            &&& expr_level(*left) >= op_level(operator)
            &&& expr_level(*right) > op_level(operator)
        },
        SpecExpr::Unary { operator: _, operand } => {
            &&& well_leveled(*operand)
            &&& expr_level(*operand) >= 7
        },
        SpecExpr::Grouping(inner) => well_leveled(*inner),
        SpecExpr::Assignment { name: _, value } => well_leveled(*value),
    }
}

/// The same discipline over a statement's expressions.
pub open spec fn stmt_well_leveled(s: SpecStmt) -> bool {
    match s {
        SpecStmt::Expression(e) => well_leveled(e),
        SpecStmt::Print(e) => well_leveled(e),
        SpecStmt::VarDeclaration { name: _, initializer } => match initializer {
            Some(e) => well_leveled(e),
            None => true,
        },
    }
}

/// The rendering of a value back to text: numbers by their spelling,
/// strings re-quoted.
pub open spec fn value_text(v: SpecValue) -> Seq<char> {
    match v {
        SpecValue::Nil => "nil"@,
        SpecValue::Bool(b) => if b {
            "true"@
        } else {
            "false"@
        },
        SpecValue::Number(t) => t,
        SpecValue::Str(s) => "\""@ + s + "\""@,
    }
}

/// The symbol of each binary operator.
pub open spec fn binary_op_text(op: BinaryOp) -> Seq<char> {
    match op {
        BinaryOp::Add => "+"@,
        BinaryOp::Subtract => "-"@,
        BinaryOp::Multiply => "*"@,
        BinaryOp::Divide => "/"@,
        BinaryOp::Greater => ">"@,
        BinaryOp::GreaterEqual => ">="@,
        BinaryOp::Less => "<"@,
        BinaryOp::LessEqual => "<="@,
        BinaryOp::Equal => "=="@,
        BinaryOp::NotEqual => "!="@,
        BinaryOp::And => "and"@,
        BinaryOp::Or => "or"@,
    }
}

/// The symbol of each unary operator.
pub open spec fn unary_op_text(op: UnaryOp) -> Seq<char> {
    match op {
        UnaryOp::Minus => "-"@,
        UnaryOp::Not => "!"@,
    }
}

impl Value {
    /// The textual rendering of this value.
    pub fn text(&self) -> (r: String)
        ensures
            r@ == value_text(self@),
    {
        match self {
            Value::Nil => String::from_str("nil"),
            Value::Bool(b) => if *b {
                String::from_str("true")
            } else {
                String::from_str("false")
            },
            Value::Number(t) => t.clone(),
            Value::String(s) => {
                let mut r = String::from_str("\"");
                r.append(s.as_str());
                r.append("\"");
                r
            },
        }
    }
}

impl BinaryOp {
    /// The symbol of this operator.
    pub fn text(&self) -> (r: String)
        ensures
            r@ == binary_op_text(*self),
    {
        match self {
            BinaryOp::Add => String::from_str("+"),
            BinaryOp::Subtract => String::from_str("-"),
            BinaryOp::Multiply => String::from_str("*"),
            BinaryOp::Divide => String::from_str("/"),
            BinaryOp::Greater => String::from_str(">"),
            BinaryOp::GreaterEqual => String::from_str(">="),
            BinaryOp::Less => String::from_str("<"),
            BinaryOp::LessEqual => String::from_str("<="),
            BinaryOp::Equal => String::from_str("=="),
            BinaryOp::NotEqual => String::from_str("!="),
            BinaryOp::And => String::from_str("and"),
            BinaryOp::Or => String::from_str("or"),
        }
    }
}

impl UnaryOp {
    /// The symbol of this operator.
    pub fn text(&self) -> (r: String)
        ensures
            r@ == unary_op_text(*self),
    {
        match self {
            UnaryOp::Minus => String::from_str("-"),
            UnaryOp::Not => String::from_str("!"),
        }
    }
}

} // verus!
