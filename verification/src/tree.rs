//! The syntax tree that the grammar's rules build, and the mathematical view of each node.

use vstd::prelude::*;

verus! {

/// An additive operator.
#[derive(Clone, Copy, Debug, PartialEq, Eq)]
pub enum AddOp {
    Add,
    Sub,
}

/// A multiplicative operator.
#[derive(Clone, Copy, Debug, PartialEq, Eq)]
pub enum MulOp {
    Mul,
    Div,
    Mod,
}

/// A prefix operator.
#[derive(Clone, Copy, Debug, PartialEq, Eq)]
pub enum UnaOp {
    Pos,
    Neg,
}

/// A boolean literal.
#[derive(Clone, Copy, Debug, PartialEq, Eq)]
pub enum Boolean {
    True,
    False,
}

/// The base in which an integer literal is written.
#[derive(Clone, Copy, Debug, PartialEq, Eq)]
pub enum Base {
    Base16,
    Base10,
    Base8,
    Base2,
}

/// An identifier.
#[derive(Debug, PartialEq, Eq)]
pub struct Name {
    pub text: Vec<char>,
}

/// An integer literal: its base and its digits, without the base's prefix.
#[derive(Debug, PartialEq, Eq)]
pub struct Integer {
    pub base: Base,
    pub digits: Vec<char>,
}

/// A decimal literal: the digits before and after the point.
#[derive(Debug, PartialEq, Eq)]
pub struct Decimal {
    pub whole: Vec<char>,
    pub frac: Vec<char>,
}

/// A name, possibly qualified: `a`, `a::b`, `a::b::c`.
#[derive(Debug, PartialEq, Eq)]
pub enum Namespace {
    Space { ns: Box<Namespace>, name: Name },
    Name(Name),
}

/// A qualified name followed by any number of calls `()` and member accesses `.name`.
#[derive(Debug, PartialEq, Eq)]
pub enum Evaluation {
    Call { ident: Box<Evaluation> },
    Member { ident: Box<Evaluation>, member: Name },
    Namespace(Namespace),
}

/// An operand.
#[derive(Debug, PartialEq, Eq)]
pub enum Primary {
    Boolean(Boolean),
    Evaluation(Evaluation),
    Decimal(Decimal),
    Integer(Integer),
}

/// An operand under any number of prefix operators.
#[derive(Debug, PartialEq, Eq)]
pub enum Unary {
    Unary { op: UnaOp, inner: Box<Unary> },
    Primary(Primary),
}

/// A product, nested to the left.
#[derive(Debug, PartialEq, Eq)]
pub enum Multiplicity {
    Multiplicity { lhs: Box<Multiplicity>, op: MulOp, rhs: Unary },
    Unary(Unary),
}

/// A sum, nested to the left.
#[derive(Debug, PartialEq, Eq)]
pub enum Additive {
    Additive { lhs: Box<Additive>, op: AddOp, rhs: Multiplicity },
    Multiplicity(Multiplicity),
}

/// What an [`Integer`] is: base and digits.
pub ghost struct IntegerView {
    pub base: Base,
    pub digits: Seq<char>,
}

/// What a [`Decimal`] is.
pub ghost struct DecimalView {
    pub whole: Seq<char>,
    pub frac: Seq<char>,
}

/// What a [`Namespace`] is.
pub ghost enum NamespaceView {
    Space { ns: Box<NamespaceView>, name: Seq<char> },
    Name(Seq<char>),
}

/// What an [`Evaluation`] is.
pub ghost enum EvaluationView {
    Call { ident: Box<EvaluationView> },
    Member { ident: Box<EvaluationView>, member: Seq<char> },
    Namespace(NamespaceView),
}

/// What a [`Primary`] is.
pub ghost enum PrimaryView {
    Boolean(Boolean),
    Evaluation(EvaluationView),
    Decimal(DecimalView),
    Integer(IntegerView),
}

/// What a [`Unary`] is.
pub ghost enum UnaryView {
    Unary { op: UnaOp, inner: Box<UnaryView> },
    Primary(PrimaryView),
}

/// What a [`Multiplicity`] is.
pub ghost enum MultiplicityView {
    Multiplicity { lhs: Box<MultiplicityView>, op: MulOp, rhs: UnaryView },
    Unary(UnaryView),
}

/// What an [`Additive`] is.
pub ghost enum AdditiveView {
    Additive { lhs: Box<AdditiveView>, op: AddOp, rhs: MultiplicityView },
    Multiplicity(MultiplicityView),
}

impl View for Name {
    type V = Seq<char>;

    open spec fn view(&self) -> Seq<char> {
        self.text@
    }
}

impl View for Integer {
    type V = IntegerView;

    open spec fn view(&self) -> IntegerView {
        IntegerView { base: self.base, digits: self.digits@ }
    }
}

impl View for Decimal {
    type V = DecimalView;

    open spec fn view(&self) -> DecimalView {
        DecimalView { whole: self.whole@, frac: self.frac@ }
    }
}

impl Namespace {
    /// The tree that this node stands for, text as sequences of characters.
    pub open spec fn shape(&self) -> NamespaceView
        decreases self,
    {
        match self {
            Namespace::Space { ns, name } => NamespaceView::Space {
                ns: Box::new(ns.shape()),
                name: name@,
            },
            Namespace::Name(name) => NamespaceView::Name(name@),
        }
    }
}

impl View for Namespace {
    type V = NamespaceView;

    open spec fn view(&self) -> NamespaceView {
        self.shape()
    }
}

impl Evaluation {
    /// The tree that this node stands for, text as sequences of characters.
    pub open spec fn shape(&self) -> EvaluationView
        decreases self,
    {
        match self {
            Evaluation::Call { ident } => EvaluationView::Call { ident: Box::new(ident.shape()) },
            Evaluation::Member { ident, member } => EvaluationView::Member {
                ident: Box::new(ident.shape()),
                member: member@,
            },
            Evaluation::Namespace(ns) => EvaluationView::Namespace(ns@),
        }
    }
}

impl View for Evaluation {
    type V = EvaluationView;

    open spec fn view(&self) -> EvaluationView {
        self.shape()
    }
}

impl View for Primary {
    type V = PrimaryView;

    open spec fn view(&self) -> PrimaryView {
        match self {
            Primary::Boolean(b) => PrimaryView::Boolean(*b),
            Primary::Evaluation(e) => PrimaryView::Evaluation(e@),
            Primary::Decimal(d) => PrimaryView::Decimal(d@),
            Primary::Integer(i) => PrimaryView::Integer(i@),
        }
    }
}

impl Unary {
    /// The tree that this node stands for, text as sequences of characters.
    pub open spec fn shape(&self) -> UnaryView
        decreases self,
    {
        match self {
            Unary::Unary { op, inner } => UnaryView::Unary { op: *op, inner: Box::new(inner.shape()) },
            Unary::Primary(p) => UnaryView::Primary(p@),
        }
    }
}

impl View for Unary {
    type V = UnaryView;

    open spec fn view(&self) -> UnaryView {
        self.shape()
    }
}

impl Multiplicity {
    /// The tree that this node stands for, text as sequences of characters.
    pub open spec fn shape(&self) -> MultiplicityView
        decreases self,
    {
        match self {
            Multiplicity::Multiplicity { lhs, op, rhs } => MultiplicityView::Multiplicity {
                lhs: Box::new(lhs.shape()),
                op: *op,
                rhs: rhs@,
            },
            Multiplicity::Unary(u) => MultiplicityView::Unary(u@),
        }
    }
}

impl View for Multiplicity {
    type V = MultiplicityView;

    open spec fn view(&self) -> MultiplicityView {
        self.shape()
    }
}

impl Additive {
    /// The tree that this node stands for, text as sequences of characters.
    pub open spec fn shape(&self) -> AdditiveView
        decreases self,
    {
        match self {
            Additive::Additive { lhs, op, rhs } => AdditiveView::Additive {
                lhs: Box::new(lhs.shape()),
                op: *op,
                rhs: rhs@,
            },
            Additive::Multiplicity(m) => AdditiveView::Multiplicity(m@),
        }
    }
}

impl View for Additive {
    type V = AdditiveView;

    open spec fn view(&self) -> AdditiveView {
        self.shape()
    }
}

/// A copy of `v`, character by character.
pub fn copy_chars(v: &Vec<char>) -> (r: Vec<char>)
    ensures
        r@ == v@,
{
    let mut r: Vec<char> = Vec::new();
    let mut i: usize = 0;
    while i < v.len()
        invariant
            i <= v.len(),
            r@ == v@.take(i as int),
        decreases v.len() - i,
    {
        r.push(v[i]);
        i += 1;
    }
    r
}

impl Clone for Name {
    fn clone(&self) -> (r: Self)
        ensures
            r@ == self@,
    {
        Name { text: copy_chars(&self.text) }
    }
}

impl Clone for Integer {
    fn clone(&self) -> (r: Self)
        ensures
            r@ == self@,
    {
        Integer { base: self.base, digits: copy_chars(&self.digits) }
    }
}

impl Clone for Decimal {
    fn clone(&self) -> (r: Self)
        ensures
            r@ == self@,
    {
        Decimal { whole: copy_chars(&self.whole), frac: copy_chars(&self.frac) }
    }
}

impl Clone for Namespace {
    fn clone(&self) -> (r: Self)
        ensures
            r@ == self@,
        decreases self,
    {
        match self {
            Namespace::Space { ns, name } => Namespace::Space {
                ns: Box::new((&**ns).clone()),
                name: name.clone(),
            },
            Namespace::Name(name) => Namespace::Name(name.clone()),
        }
    }
}

impl Clone for Evaluation {
    fn clone(&self) -> (r: Self)
        ensures
            r@ == self@,
        decreases self,
    {
        match self {
            Evaluation::Call { ident } => Evaluation::Call { ident: Box::new((&**ident).clone()) },
            Evaluation::Member { ident, member } => Evaluation::Member {
                ident: Box::new((&**ident).clone()),
                member: member.clone(),
            },
            Evaluation::Namespace(ns) => Evaluation::Namespace(ns.clone()),
        }
    }
}

impl Clone for Primary {
    fn clone(&self) -> (r: Self)
        ensures
            r@ == self@,
    {
        match self {
            Primary::Boolean(b) => Primary::Boolean(*b),
            Primary::Evaluation(e) => Primary::Evaluation(e.clone()),
            Primary::Decimal(d) => Primary::Decimal(d.clone()),
            Primary::Integer(i) => Primary::Integer(i.clone()),
        }
    }
}

impl Clone for Unary {
    fn clone(&self) -> (r: Self)
        ensures
            r@ == self@,
        decreases self,
    {
        match self {
            Unary::Unary { op, inner } => Unary::Unary {
                op: *op,
                inner: Box::new((&**inner).clone()),
            },
            Unary::Primary(p) => Unary::Primary(p.clone()),
        }
    }
}

impl Clone for Multiplicity {
    fn clone(&self) -> (r: Self)
        ensures
            r@ == self@,
        decreases self,
    {
        match self {
            Multiplicity::Multiplicity { lhs, op, rhs } => Multiplicity::Multiplicity {
                lhs: Box::new((&**lhs).clone()),
                op: *op,
                rhs: rhs.clone(),
            },
            Multiplicity::Unary(u) => Multiplicity::Unary(u.clone()),
        }
    }
}

impl Clone for Additive {
    fn clone(&self) -> (r: Self)
        ensures
            r@ == self@,
        decreases self,
    {
        match self {
            Additive::Additive { lhs, op, rhs } => Additive::Additive {
                lhs: Box::new((&**lhs).clone()),
                op: *op,
                rhs: rhs.clone(),
            },
            Additive::Multiplicity(m) => Additive::Multiplicity(m.clone()),
        }
    }
}

} // verus!
