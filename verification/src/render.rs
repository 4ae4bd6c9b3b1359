//! Source text for a tree: each node written out as the grammar reads it, with a space on
//! either side of a binary operator.

use crate::grammar::base_prefix;
use crate::tree::{
    AddOp, Additive, AdditiveView, Base, Boolean, Decimal, DecimalView, Evaluation,
    EvaluationView, Integer, IntegerView, MulOp, Multiplicity, MultiplicityView, Name, Namespace,
    NamespaceView, Primary, PrimaryView, UnaOp, Unary, UnaryView,
};
use vstd::prelude::*;
use vstd::string::StrSliceExecFns;

verus! {

/// Appends the characters of `s` to `out`.
pub fn push_text(out: &mut Vec<char>, s: &str)
    ensures
        final(out)@ == old(out)@ + s@,
{
    let n: usize = s.unicode_len();
    let mut i: usize = 0;
    while i < n
        invariant
            n == s@.len(),
            i <= n,
            out@ == old(out)@ + s@.take(i as int),
        decreases n - i,
    {
        out.push(s.get_char(i));
        assert(s@.take(i + 1) =~= s@.take(i as int).push(s@[i as int]));
        i += 1;
    }
    assert(s@.take(n as int) =~= s@);
}

/// Appends the characters of `v` to `out`.
pub fn push_chars(out: &mut Vec<char>, v: &Vec<char>)
    ensures
        final(out)@ == old(out)@ + v@,
{
    let mut i: usize = 0;
    while i < v.len()
        invariant
            i <= v.len(),
            out@ == old(out)@ + v@.take(i as int),
        decreases v.len() - i,
    {
        out.push(v[i]);
        assert(v@.take(i + 1) =~= v@.take(i as int).push(v@[i as int]));
        i += 1;
    }
    assert(v@.take(v.len() as int) =~= v@);
}

impl AddOp {
    /// The operator as it is written.
    pub open spec fn text(self) -> Seq<char> {
        match self {
            AddOp::Add => "+"@,
            AddOp::Sub => "-"@,
        }
    }

    /// The operator as it is written.
    pub fn symbol(self) -> (s: &'static str)
        ensures
            s@ == self.text(),
    {
        match self {
            AddOp::Add => "+",
            AddOp::Sub => "-",
        }
    }
}

impl MulOp {
    /// The operator as it is written.
    pub open spec fn text(self) -> Seq<char> {
        match self {
            MulOp::Mul => "*"@,
            MulOp::Div => "/"@,
            MulOp::Mod => "%"@,
        }
    }

    /// The operator as it is written.
    pub fn symbol(self) -> (s: &'static str)
        ensures
            s@ == self.text(),
    {
        match self {
            MulOp::Mul => "*",
            MulOp::Div => "/",
            MulOp::Mod => "%",
        }
    }
}

impl UnaOp {
    /// The operator as it is written.
    pub open spec fn text(self) -> Seq<char> {
        match self {
            UnaOp::Pos => "+"@,
            UnaOp::Neg => "-"@,
        }
    }

    /// The operator as it is written.
    pub fn symbol(self) -> (s: &'static str)
        ensures
            s@ == self.text(),
    {
        match self {
            UnaOp::Pos => "+",
            UnaOp::Neg => "-",
        }
    }
}

impl Boolean {
    /// The literal as it is written.
    pub open spec fn text(self) -> Seq<char> {
        match self {
            Boolean::True => "true"@,
            Boolean::False => "false"@,
        }
    }

    /// The literal as it is written.
    pub fn symbol(self) -> (s: &'static str)
        ensures
            s@ == self.text(),
    {
        match self {
            Boolean::True => "true",
            Boolean::False => "false",
        }
    }
}

impl Base {
    /// The characters that announce an integer literal of the base; none for base ten.
    pub fn prefix(self) -> (s: &'static str)
        ensures
            s@ == base_prefix(self),
    {
        proof {
            reveal_strlit("0x");
            reveal_strlit("0o");
            reveal_strlit("0b");
            reveal_strlit("");
            assert("0x"@ =~= seq!['0', 'x']);
            assert("0o"@ =~= seq!['0', 'o']);
            assert("0b"@ =~= seq!['0', 'b']);
            assert(""@ =~= Seq::<char>::empty());
        }
        match self {
            Base::Base16 => "0x",
            Base::Base10 => "",
            Base::Base8 => "0o",
            Base::Base2 => "0b",
        }
    }
}

impl IntegerView {
    /// The literal as it is written: the base's prefix and the digits.
    pub open spec fn text(self) -> Seq<char> {
        base_prefix(self.base) + self.digits
    }
}

impl DecimalView {
    /// The literal as it is written: the digits around the point.
    pub open spec fn text(self) -> Seq<char> {
        self.whole + "."@ + self.frac
    }
}

impl NamespaceView {
    /// The name as it is written, qualifiers joined by `::`.
    pub open spec fn text(self) -> Seq<char>
        decreases self,
    {
        match self {
            NamespaceView::Space { ns, name } => ns.text() + "::"@ + name,
            NamespaceView::Name(name) => name,
        }
    }
}

impl EvaluationView {
    /// The evaluation as it is written: `()` after what is called, `.` before a member.
    pub open spec fn text(self) -> Seq<char>
        decreases self,
    {
        match self {
            EvaluationView::Call { ident } => ident.text() + "()"@,
            EvaluationView::Member { ident, member } => ident.text() + "."@ + member,
            EvaluationView::Namespace(ns) => ns.text(),
        }
    }
}

impl PrimaryView {
    /// The operand as it is written.
    pub open spec fn text(self) -> Seq<char> {
        match self {
            PrimaryView::Boolean(b) => b.text(),
            PrimaryView::Evaluation(e) => e.text(),
            PrimaryView::Decimal(d) => d.text(),
            PrimaryView::Integer(i) => i.text(),
        }
    }
}

impl UnaryView {
    /// The operand as it is written, each prefix operator directly before what it applies to.
    pub open spec fn text(self) -> Seq<char>
        decreases self,
    {
        match self {
            UnaryView::Unary { op, inner } => op.text() + inner.text(),
            UnaryView::Primary(p) => p.text(),
        }
    }
}

impl MultiplicityView {
    /// The product as it is written, a space on either side of each operator.
    pub open spec fn text(self) -> Seq<char>
        decreases self,
    {
        match self {
            MultiplicityView::Multiplicity { lhs, op, rhs } => lhs.text() + " "@ + op.text() + " "@
                + rhs.text(),
            MultiplicityView::Unary(u) => u.text(),
        }
    }
}

impl AdditiveView {
    /// The sum as it is written, a space on either side of each operator.
    pub open spec fn text(self) -> Seq<char>
        decreases self,
    {
        match self {
            AdditiveView::Additive { lhs, op, rhs } => lhs.text() + " "@ + op.text() + " "@
                + rhs.text(),
            AdditiveView::Multiplicity(m) => m.text(),
        }
    }
}

impl Name {
    /// Appends the identifier to `out`.
    pub fn write_to(&self, out: &mut Vec<char>)
        ensures
            final(out)@ == old(out)@ + self@,
    {
        push_chars(out, &self.text);
    }

    /// The identifier.
    pub fn to_text(&self) -> (r: Vec<char>)
        ensures
            r@ == self@,
    {
        let mut r: Vec<char> = Vec::new();
        self.write_to(&mut r);
        assert(r@ =~= self@);
        r
    }
}

impl Integer {
    /// Appends the literal as it is written to `out`.
    pub fn write_to(&self, out: &mut Vec<char>)
        ensures
            final(out)@ == old(out)@ + self@.text(),
    {
        push_text(out, self.base.prefix());
        push_chars(out, &self.digits);
        assert(out@ =~= old(out)@ + self@.text());
    }

    /// The literal as it is written.
    pub fn to_text(&self) -> (r: Vec<char>)
        ensures
            r@ == self@.text(),
    {
        let mut r: Vec<char> = Vec::new();
        self.write_to(&mut r);
        assert(r@ =~= self@.text());
        r
    }
}

impl Decimal {
    /// Appends the literal as it is written to `out`.
    pub fn write_to(&self, out: &mut Vec<char>)
        ensures
            final(out)@ == old(out)@ + self@.text(),
    {
        push_chars(out, &self.whole);
        push_text(out, ".");
        push_chars(out, &self.frac);
        assert(out@ =~= old(out)@ + self@.text());
    }

    /// The literal as it is written.
    pub fn to_text(&self) -> (r: Vec<char>)
        ensures
            r@ == self@.text(),
    {
        let mut r: Vec<char> = Vec::new();
        self.write_to(&mut r);
        assert(r@ =~= self@.text());
        r
    }
}

impl Namespace {
    /// Appends the name as it is written to `out`.
    pub fn write_to(&self, out: &mut Vec<char>)
        ensures
            final(out)@ == old(out)@ + self@.text(),
        decreases self,
    {
        match self {
            Namespace::Space { ns, name } => {
                (&**ns).write_to(out);
                push_text(out, "::");
                name.write_to(out);
            },
            Namespace::Name(name) => {
                name.write_to(out);
            },
        }
        assert(out@ =~= old(out)@ + self@.text());
    }

    /// The name as it is written.
    pub fn to_text(&self) -> (r: Vec<char>)
        ensures
            r@ == self@.text(),
    {
        let mut r: Vec<char> = Vec::new();
        self.write_to(&mut r);
        assert(r@ =~= self@.text());
        r
    }
}

impl Evaluation {
    /// Appends the evaluation as it is written to `out`.
    pub fn write_to(&self, out: &mut Vec<char>)
        ensures
            final(out)@ == old(out)@ + self@.text(),
        decreases self,
    {
        match self {
            Evaluation::Call { ident } => {
                (&**ident).write_to(out);
                push_text(out, "()");
            },
            Evaluation::Member { ident, member } => {
                (&**ident).write_to(out);
                push_text(out, ".");
                member.write_to(out);
            },
            Evaluation::Namespace(ns) => {
                ns.write_to(out);
            },
        }
        assert(out@ =~= old(out)@ + self@.text());
    }

    /// The evaluation as it is written.
    pub fn to_text(&self) -> (r: Vec<char>)
        ensures
            r@ == self@.text(),
    {
        let mut r: Vec<char> = Vec::new();
        self.write_to(&mut r);
        assert(r@ =~= self@.text());
        r
    }
}

impl Primary {
    /// Appends the operand as it is written to `out`.
    pub fn write_to(&self, out: &mut Vec<char>)
        ensures
            final(out)@ == old(out)@ + self@.text(),
    {
        match self {
            Primary::Boolean(b) => {
                push_text(out, b.symbol());
            },
            Primary::Evaluation(e) => {
                e.write_to(out);
            },
            Primary::Decimal(d) => {
                d.write_to(out);
            },
            Primary::Integer(i) => {
                i.write_to(out);
            },
        }
    }

    /// The operand as it is written.
    pub fn to_text(&self) -> (r: Vec<char>)
        ensures
            r@ == self@.text(),
    {
        let mut r: Vec<char> = Vec::new();
        self.write_to(&mut r);
        assert(r@ =~= self@.text());
        r
    }
}

impl Unary {
    /// Appends the operand and its prefix operators as they are written to `out`.
    pub fn write_to(&self, out: &mut Vec<char>)
        ensures
            final(out)@ == old(out)@ + self@.text(),
        decreases self,
    {
        match self {
            Unary::Unary { op, inner } => {
                push_text(out, op.symbol());
                (&**inner).write_to(out);
            },
            Unary::Primary(p) => {
                p.write_to(out);
            },
        }
        assert(out@ =~= old(out)@ + self@.text());
    }

    /// The operand and its prefix operators as they are written.
    pub fn to_text(&self) -> (r: Vec<char>)
        ensures
            r@ == self@.text(),
    {
        let mut r: Vec<char> = Vec::new();
        self.write_to(&mut r);
        assert(r@ =~= self@.text());
        r
    }
}

impl Multiplicity {
    /// Appends the product as it is written to `out`.
    pub fn write_to(&self, out: &mut Vec<char>)
        ensures
            final(out)@ == old(out)@ + self@.text(),
        decreases self,
    {
        match self {
            Multiplicity::Multiplicity { lhs, op, rhs } => {
                (&**lhs).write_to(out);
                push_text(out, " ");
                push_text(out, op.symbol());
                push_text(out, " ");
                rhs.write_to(out);
            },
            Multiplicity::Unary(u) => {
                u.write_to(out);
            },
        }
        assert(out@ =~= old(out)@ + self@.text());
    }

    /// The product as it is written.
    pub fn to_text(&self) -> (r: Vec<char>)
        ensures
            r@ == self@.text(),
    {
        let mut r: Vec<char> = Vec::new();
        self.write_to(&mut r);
        assert(r@ =~= self@.text());
        r
    }
}

impl Additive {
    /// Appends the sum as it is written to `out`.
    pub fn write_to(&self, out: &mut Vec<char>)
        ensures
            final(out)@ == old(out)@ + self@.text(),
        decreases self,
    {
        match self {
            Additive::Additive { lhs, op, rhs } => {
                (&**lhs).write_to(out);
                push_text(out, " ");
                push_text(out, op.symbol());
                push_text(out, " ");
                rhs.write_to(out);
            },
            Additive::Multiplicity(m) => {
                m.write_to(out);
            },
        }
        assert(out@ =~= old(out)@ + self@.text());
    }

    /// The sum as it is written.
    pub fn to_text(&self) -> (r: Vec<char>)
        ensures
            r@ == self@.text(),
    {
        let mut r: Vec<char> = Vec::new();
        self.write_to(&mut r);
        assert(r@ =~= self@.text());
        r
    }
}

} // verus!
