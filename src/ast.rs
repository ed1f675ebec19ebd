//! The annotated syntax tree: spans, identifiers, literals, expressions,
//! binders and declarations.
use vstd::prelude::*;
use crate::text::{concat, i32_text, int_text, u32_text};

verus! {

/// A position in the source text.
#[derive(Debug, PartialEq, Eq, Structural, Copy, Clone, Hash)]
pub struct SourePos {
    pub line: u32,
    pub column: u32,
}

/// A range of source text; `(0,0)-(0,0)` marks a synthetic node.
#[derive(Debug, PartialEq, Eq, Structural, Copy, Clone, Hash)]
pub struct Span {
    pub start: SourePos,
    pub end: SourePos,
}

pub open spec fn synthetic_span() -> Span {
    Span { start: SourePos { line: 0, column: 0 }, end: SourePos { line: 0, column: 0 } }
}

impl Default for Span {
    fn default() -> (r: Span)
        ensures
            r == synthetic_span(),
    {
        Span { start: SourePos { line: 0, column: 0 }, end: SourePos { line: 0, column: 0 } }
    }
}

impl Span {
    /// The span as diagnostics show it: `line L, columns C1-C2` within one
    /// line, else `(line L1, column C1)-(line L2, column C2)`.
    pub open spec fn text(&self) -> Seq<char> {
        if self.start.line == self.end.line {
            "line "@ + int_text(self.start.line as int) + ", columns "@ + int_text(
                self.start.column as int,
            ) + "-"@ + int_text(self.end.column as int)
        } else {
            "(line "@ + int_text(self.start.line as int) + ", column "@ + int_text(
                self.start.column as int,
            ) + ")-(line "@ + int_text(self.end.line as int) + ", column "@ + int_text(
                self.end.column as int,
            ) + ")"@
        }
    }

    pub fn describe(&self) -> (r: String)
        ensures
            r@ == self.text(),
    {
        if self.start.line == self.end.line {
            let s = concat(String::new(), "line ");
            let s = concat(s, u32_text(self.start.line).as_str());
            let s = concat(s, ", columns ");
            let s = concat(s, u32_text(self.start.column).as_str());
            let s = concat(s, "-");
            concat(s, u32_text(self.end.column).as_str())
        } else {
            let s = concat(String::new(), "(line ");
            let s = concat(s, u32_text(self.start.line).as_str());
            let s = concat(s, ", column ");
            let s = concat(s, u32_text(self.start.column).as_str());
            let s = concat(s, ")-(line ");
            let s = concat(s, u32_text(self.end.line).as_str());
            let s = concat(s, ", column ");
            let s = concat(s, u32_text(self.end.column).as_str());
            concat(s, ")")
        }
    }
}

/// Things that know the span of source text they came from.
pub trait HasSourceLoc {
    spec fn loc(&self) -> Span;

    fn source_loc(&self) -> (r: Span)
        ensures
            r == self.loc(),
    ;
}

impl HasSourceLoc for Span {
    open spec fn loc(&self) -> Span {
        *self
    }

    fn source_loc(&self) -> (r: Span) {
        *self
    }
}

impl HasSourceLoc for Expr {
    open spec fn loc(&self) -> Span {
        self.ann_of()
    }

    fn source_loc(&self) -> (r: Span) {
        self.ann()
    }
}

/// An identifier of the language.
#[derive(Debug, PartialEq, Eq, Clone, Hash)]
pub struct Ident(pub String);

impl View for Ident {
    type V = Seq<char>;

    open spec fn view(&self) -> Seq<char> {
        self.0@
    }
}

impl Ident {
    pub fn new(s: &str) -> (r: Ident)
        ensures
            r@ == s@,
    {
        Ident(s.to_string())
    }

    pub fn as_str(&self) -> (r: &str)
        ensures
            r@ == self@,
    {
        self.0.as_str()
    }

    /// Whether two identifiers spell the same name.
    pub fn same(&self, other: &Ident) -> (r: bool)
        ensures
            r == (self@ == other@),
    {
        self.0 == other.0
    }

    pub fn copy(&self) -> (r: Ident)
        ensures
            r == *self,
    {
        Ident(self.0.clone())
    }
}

#[derive(Debug, PartialEq, Eq, Structural, Copy, Clone)]
pub enum Literal {
    Boolean(bool),
    Field(i32),
}

#[derive(Debug, PartialEq, Eq, Structural, Copy, Clone)]
pub enum Opcode {
    Add,
    Sub,
    Mul,
    Pow,
    And,
    Or,
    Eq,
}

#[derive(Debug, PartialEq, Eq, Structural, Copy, Clone)]
pub enum UOpcode {
    Neg,
}

/// Whether some occurrence in `s` has the name `x`.
pub open spec fn name_in(s: Seq<(Ident, Span)>, x: Seq<char>) -> bool {
    exists|i: int| 0 <= i < s.len() && s[i].0@ == x
}

pub proof fn lemma_name_in_concat(s1: Seq<(Ident, Span)>, s2: Seq<(Ident, Span)>, x: Seq<char>)
    ensures
        name_in(s1 + s2, x) == (name_in(s1, x) || name_in(s2, x)),
{
    if name_in(s1 + s2, x) {
        let i = choose|i: int| 0 <= i < (s1 + s2).len() && (s1 + s2)[i].0@ == x;
        if i >= s1.len() {
            assert(s2[i - s1.len()] == (s1 + s2)[i]);
        }
    }
    if name_in(s1, x) {
        let i = choose|i: int| 0 <= i < s1.len() && s1[i].0@ == x;
        assert((s1 + s2)[i] == s1[i]);
    }
    if name_in(s2, x) {
        let i = choose|i: int| 0 <= i < s2.len() && s2[i].0@ == x;
        assert((s1 + s2)[i + s1.len()] == s2[i]);
    }
}

/// An expression; every node carries the span it came from.
#[derive(Debug, PartialEq, Eq)]
pub enum Expr {
    Literal { ann: Span, value: Literal },
    Variable { ann: Span, value: Ident },
    UnaryOp { ann: Span, op: UOpcode, expr: Box<Expr> },
    BinOp { ann: Span, lhs: Box<Expr>, op: Opcode, rhs: Box<Expr> },
    IfThenElse { ann: Span, cond: Box<Expr>, _then: Box<Expr>, _else: Box<Expr> },
}

pub open spec fn literal_text(l: Literal) -> Seq<char> {
    match l {
        Literal::Field(n) => int_text(n as int),
        Literal::Boolean(b) => if b {
            "true"@
        } else {
            "false"@
        },
    }
}

pub open spec fn opcode_text(op: Opcode) -> Seq<char> {
    match op {
        Opcode::Add => " + "@,
        Opcode::Sub => " - "@,
        Opcode::Mul => " * "@,
        Opcode::Pow => " ^ "@,
        Opcode::And => " && "@,
        Opcode::Or => " || "@,
        Opcode::Eq => " == "@,
    }
}

fn opcode_str(op: Opcode) -> (r: &'static str)
    ensures
        r@ == opcode_text(op),
{
    match op {
        Opcode::Add => " + ",
        Opcode::Sub => " - ",
        Opcode::Mul => " * ",
        Opcode::Pow => " ^ ",
        Opcode::And => " && ",
        Opcode::Or => " || ",
        Opcode::Eq => " == ",
    }
}

impl Clone for Expr {
    fn clone(&self) -> (r: Expr)
        ensures
            r == *self,
    {
        self.copy()
    }
}

impl Expr {
    pub open spec fn ann_of(&self) -> Span {
        match self {
            Expr::Literal { ann, .. } => *ann,
            Expr::Variable { ann, .. } => *ann,
            Expr::UnaryOp { ann, .. } => *ann,
            Expr::BinOp { ann, .. } => *ann,
            Expr::IfThenElse { ann, .. } => *ann,
        }
    }

    /// Every occurrence of a variable, left to right, with its span.
    pub open spec fn occurrences(&self) -> Seq<(Ident, Span)>
        decreases self,
    {
        match self {
            Expr::Literal { .. } => seq![],
            Expr::Variable { ann, value } => seq![(*value, *ann)],
            Expr::UnaryOp { expr, .. } => expr.occurrences(),
            Expr::BinOp { lhs, rhs, .. } => lhs.occurrences() + rhs.occurrences(),
            Expr::IfThenElse { cond, _then, _else, .. } => cond.occurrences()
                + _then.occurrences() + _else.occurrences(),
        }
    }

    /// The names of the free variables.
    pub open spec fn free_vars(&self) -> Set<Seq<char>>
        decreases self,
    {
        match self {
            Expr::Literal { .. } => Set::empty(),
            Expr::Variable { value, .. } => set![value@],
            Expr::UnaryOp { expr, .. } => expr.free_vars(),
            Expr::BinOp { lhs, rhs, .. } => lhs.free_vars() + rhs.free_vars(),
            Expr::IfThenElse { cond, _then, _else, .. } => cond.free_vars() + _then.free_vars()
                + _else.free_vars(),
        }
    }

    /// The same tree with every span made synthetic.
    pub open spec fn cleared(&self) -> Expr
        decreases self,
    {
        match self {
            Expr::Literal { value, .. } => Expr::Literal { ann: synthetic_span(), value: *value },
            Expr::Variable { value, .. } => Expr::Variable { ann: synthetic_span(), value: *value },
            Expr::UnaryOp { op, expr, .. } => Expr::UnaryOp {
                ann: synthetic_span(),
                op: *op,
                expr: Box::new(expr.cleared()),
            },
            Expr::BinOp { lhs, op, rhs, .. } => Expr::BinOp {
                ann: synthetic_span(),
                lhs: Box::new(lhs.cleared()),
                op: *op,
                rhs: Box::new(rhs.cleared()),
            },
            Expr::IfThenElse { cond, _then, _else, .. } => Expr::IfThenElse {
                ann: synthetic_span(),
                cond: Box::new(cond.cleared()),
                _then: Box::new(_then.cleared()),
                _else: Box::new(_else.cleared()),
            },
        }
    }

    /// A name is free exactly when some occurrence carries it.
    pub proof fn lemma_free_vars_occurrences(&self)
        ensures
            forall|x: Seq<char>|
                #![trigger self.free_vars().contains(x)]
                #![trigger name_in(self.occurrences(), x)]
                self.free_vars().contains(x) == name_in(self.occurrences(), x),
        decreases self,
    {
        match self {
            Expr::Literal { .. } => {
                assert forall|x: Seq<char>|
                    #![trigger self.free_vars().contains(x)]
                    #![trigger name_in(self.occurrences(), x)]
                    self.free_vars().contains(x) == name_in(self.occurrences(), x) by {
                    assert(self.occurrences().len() == 0);
                    assert(self.free_vars() =~= Set::<Seq<char>>::empty());
                }
            },
            Expr::Variable { ann, value } => {
                assert forall|x: Seq<char>|
                    #![trigger self.free_vars().contains(x)]
                    #![trigger name_in(self.occurrences(), x)]
                    self.free_vars().contains(x) == name_in(self.occurrences(), x) by {
                    if name_in(self.occurrences(), x) {
                        let i = choose|i: int| 0 <= i < self.occurrences().len() && self.occurrences()[i].0@ == x;
                        assert(i == 0);
                    }
                    if self.free_vars().contains(x) {
                        assert(self.occurrences()[0].0@ == x);
                    }
                }
            },
            Expr::UnaryOp { expr, .. } => {
                expr.lemma_free_vars_occurrences();
                assert forall|x: Seq<char>|
                    #![trigger self.free_vars().contains(x)]
                    #![trigger name_in(self.occurrences(), x)]
                    self.free_vars().contains(x) == name_in(self.occurrences(), x) by {
                    assert(self.free_vars() == expr.free_vars());
                    assert(self.occurrences() == expr.occurrences());
                    assert(expr.free_vars().contains(x) == name_in(expr.occurrences(), x));
                }
            },
            Expr::BinOp { lhs, rhs, .. } => {
                lhs.lemma_free_vars_occurrences();
                rhs.lemma_free_vars_occurrences();
                assert forall|x: Seq<char>|
                    #![trigger self.free_vars().contains(x)]
                    #![trigger name_in(self.occurrences(), x)]
                    self.free_vars().contains(x) == name_in(self.occurrences(), x) by {
                    lemma_name_in_concat(lhs.occurrences(), rhs.occurrences(), x);
                    assert(self.free_vars() == lhs.free_vars() + rhs.free_vars());
                    assert(self.occurrences() == lhs.occurrences() + rhs.occurrences());
                    assert(lhs.free_vars().contains(x) == name_in(lhs.occurrences(), x));
                    assert(rhs.free_vars().contains(x) == name_in(rhs.occurrences(), x));
                }
            },
            Expr::IfThenElse { cond, _then, _else, .. } => {
                cond.lemma_free_vars_occurrences();
                _then.lemma_free_vars_occurrences();
                _else.lemma_free_vars_occurrences();
                assert forall|x: Seq<char>|
                    #![trigger self.free_vars().contains(x)]
                    #![trigger name_in(self.occurrences(), x)]
                    self.free_vars().contains(x) == name_in(self.occurrences(), x) by {
                    lemma_name_in_concat(cond.occurrences(), _then.occurrences(), x);
                    lemma_name_in_concat(
                        cond.occurrences() + _then.occurrences(),
                        _else.occurrences(),
                        x,
                    );
                    assert(self.free_vars() == cond.free_vars() + _then.free_vars()
                        + _else.free_vars());
                    assert(self.occurrences() == cond.occurrences() + _then.occurrences()
                        + _else.occurrences());
                    assert(cond.free_vars().contains(x) == name_in(cond.occurrences(), x));
                    assert(_then.free_vars().contains(x) == name_in(_then.occurrences(), x));
                    assert(_else.free_vars().contains(x) == name_in(_else.occurrences(), x));
                }
            },
        }
    }

    /// The expression as fully parenthesised text.
    pub open spec fn text(&self) -> Seq<char>
        decreases self,
    {
        match self {
            Expr::Literal { value, .. } => literal_text(*value),
            Expr::Variable { value, .. } => value@,
            Expr::UnaryOp { expr, .. } => "-("@ + expr.text() + ")"@,
            Expr::BinOp { lhs, op, rhs, .. } => "("@ + lhs.text() + opcode_text(*op) + rhs.text()
                + ")"@,
            Expr::IfThenElse { cond, _then, _else, .. } => "(if "@ + cond.text() + " then "@
                + _then.text() + " else "@ + _else.text() + ")"@,
        }
    }

    /// The expression as fully parenthesised text, as [`Expr::text`] states.
    pub fn format(&self) -> (r: String)
        ensures
            r@ == self.text(),
        decreases self,
    {
        match self {
            Expr::Literal { value, .. } => match value {
                Literal::Field(n) => i32_text(*n),
                Literal::Boolean(b) => if *b {
                    concat(String::new(), "true")
                } else {
                    concat(String::new(), "false")
                },
            },
            Expr::Variable { value, .. } => value.0.clone(),
            Expr::UnaryOp { expr, .. } => {
                let s = concat(String::new(), "-(");
                let s = concat(s, expr.format().as_str());
                concat(s, ")")
            },
            Expr::BinOp { lhs, op, rhs, .. } => {
                let s = concat(String::new(), "(");
                let s = concat(s, lhs.format().as_str());
                let s = concat(s, opcode_str(*op));
                let s = concat(s, rhs.format().as_str());
                concat(s, ")")
            },
            Expr::IfThenElse { cond, _then, _else, .. } => {
                let s = concat(String::new(), "(if ");
                let s = concat(s, cond.format().as_str());
                let s = concat(s, " then ");
                let s = concat(s, _then.format().as_str());
                let s = concat(s, " else ");
                let s = concat(s, _else.format().as_str());
                concat(s, ")")
            },
        }
    }

    pub fn ann(&self) -> (r: Span)
        ensures
            r == self.ann_of(),
    {
        match self {
            Expr::Literal { ann, .. } => *ann,
            Expr::Variable { ann, .. } => *ann,
            Expr::UnaryOp { ann, .. } => *ann,
            Expr::BinOp { ann, .. } => *ann,
            Expr::IfThenElse { ann, .. } => *ann,
        }
    }

    /// A deep copy of the tree.
    pub fn copy(&self) -> (r: Expr)
        ensures
            r == *self,
        decreases self,
    {
        match self {
            Expr::Literal { ann, value } => Expr::Literal { ann: *ann, value: *value },
            Expr::Variable { ann, value } => Expr::Variable { ann: *ann, value: value.copy() },
            Expr::UnaryOp { ann, op, expr } => Expr::UnaryOp {
                ann: *ann,
                op: *op,
                expr: Box::new(expr.copy()),
            },
            Expr::BinOp { ann, lhs, op, rhs } => Expr::BinOp {
                ann: *ann,
                lhs: Box::new(lhs.copy()),
                op: *op,
                rhs: Box::new(rhs.copy()),
            },
            Expr::IfThenElse { ann, cond, _then, _else } => Expr::IfThenElse {
                ann: *ann,
                cond: Box::new(cond.copy()),
                _then: Box::new(_then.copy()),
                _else: Box::new(_else.copy()),
            },
        }
    }

    /// Every occurrence of a variable, left to right, with its span.
    pub fn variables(&self) -> (r: Vec<(Ident, Span)>)
        ensures
            r@ == self.occurrences(),
        decreases self,
    {
        match self {
            Expr::Literal { .. } => Vec::new(),
            Expr::Variable { ann, value } => {
                let mut v = Vec::new();
                v.push((value.copy(), *ann));
                proof {
                    assert(v@ =~= seq![(*value, *ann)]);
                }
                v
            },
            Expr::UnaryOp { expr, .. } => expr.variables(),
            Expr::BinOp { lhs, rhs, .. } => {
                let mut deps = lhs.variables();
                let mut more = rhs.variables();
                deps.append(&mut more);
                deps
            },
            Expr::IfThenElse { cond, _then, _else, .. } => {
                let mut deps = cond.variables();
                let mut more = _then.variables();
                deps.append(&mut more);
                let mut rest = _else.variables();
                deps.append(&mut rest);
                deps
            },
        }
    }

    /// The same tree with every span made synthetic.
    pub fn clear_annotations(self) -> (r: Expr)
        ensures
            r == self.cleared(),
        decreases self,
    {
        match self {
            Expr::Literal { value, .. } => Expr::Literal { ann: Span::default(), value },
            Expr::Variable { value, .. } => Expr::Variable { ann: Span::default(), value },
            Expr::UnaryOp { op, expr, .. } => Expr::UnaryOp {
                ann: Span::default(),
                op,
                expr: Box::new(expr.clear_annotations()),
            },
            Expr::BinOp { lhs, op, rhs, .. } => Expr::BinOp {
                ann: Span::default(),
                lhs: Box::new(lhs.clear_annotations()),
                op,
                rhs: Box::new(rhs.clear_annotations()),
            },
            Expr::IfThenElse { cond, _then, _else, .. } => Expr::IfThenElse {
                ann: Span::default(),
                cond: Box::new(cond.clear_annotations()),
                _then: Box::new(_then.clear_annotations()),
                _else: Box::new(_else.clear_annotations()),
            },
        }
    }

    pub fn field_default(value: i32) -> (r: Expr)
        ensures
            r == (Expr::Literal { ann: synthetic_span(), value: Literal::Field(value) }),
    {
        Expr::Literal { ann: Span::default(), value: Literal::Field(value) }
    }

    pub fn bool_default(value: bool) -> (r: Expr)
        ensures
            r == (Expr::Literal { ann: synthetic_span(), value: Literal::Boolean(value) }),
    {
        Expr::Literal { ann: Span::default(), value: Literal::Boolean(value) }
    }

    pub fn variable_default(value: Ident) -> (r: Expr)
        ensures
            r == (Expr::Variable { ann: synthetic_span(), value }),
    {
        Expr::Variable { ann: Span::default(), value }
    }

    pub fn unary_op_default(op: UOpcode, expr: Expr) -> (r: Expr)
        ensures
            r == (Expr::UnaryOp { ann: synthetic_span(), op, expr: Box::new(expr) }),
    {
        Expr::UnaryOp { ann: Span::default(), op, expr: Box::new(expr) }
    }

    pub fn binary_op_default(lhs: Expr, op: Opcode, rhs: Expr) -> (r: Expr)
        ensures
            r == (Expr::BinOp {
                ann: synthetic_span(),
                lhs: Box::new(lhs),
                op,
                rhs: Box::new(rhs),
            }),
    {
        Expr::BinOp { ann: Span::default(), lhs: Box::new(lhs), op, rhs: Box::new(rhs) }
    }
}

} // verus!
