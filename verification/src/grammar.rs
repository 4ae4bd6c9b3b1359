//! What the grammar means: for each rule, the node it builds at a position of an input and
//! where it ends, stated on sequences of characters with no cache and no cursor.
//!
//! ```text
//! additive     <- additive '+' multiplicity / additive '-' multiplicity / multiplicity
//! multiplicity <- multiplicity '*' unary / multiplicity '/' unary / multiplicity '%' unary / unary
//! unary        <- '+' unary / '-' unary / primary
//! primary      <- boolean / evaluation / decimal / integer
//! evaluation   <- evaluation '(' ^ ')' / evaluation '.' ^ name / namespace
//! namespace    <- namespace '::' name / name
//! boolean      <- 'true' / 'false'
//! decimal      <- [0-9]+ '.' [0-9]+
//! integer      <- '0x' [0-9a-fA-F]+ / '0o' [0-7]+ / '0b' [01]+ / [0-9]+
//! name         <- [A-Za-z_] [A-Za-z0-9_]*
//! ```
//!
//! Alternatives are tried in order and the first that matches wins. After `^` an alternative
//! is committed: if it then fails, the rule fails without trying the alternatives after it.
//! A rule whose alternative starts with the rule itself is left-recursive; it means what
//! growing a seed gives: the rule's body is read with the rule's own latest result in the
//! place of the leading self-reference, starting from failure, for as long as the result
//! ends further right.

use crate::cache::{CacheResultView, CacheType};
use crate::stream::char_at;
use crate::tree::{
    AddOp, AdditiveView, Base, Boolean, DecimalView, EvaluationView, IntegerView, MulOp,
    MultiplicityView, NamespaceView, PrimaryView, UnaOp, UnaryView,
};
use vstd::prelude::*;

verus! {

/// A node and the position after it, or `None` where the rule does not match.
pub type Parsed<T> = Option<(T, nat)>;

/// End position and result of a rule, as the cache holds them. A failure ends where it began.
pub type Outcome = (nat, CacheResultView);

/// Whether `lit` stands in `input` at `pos`, character for character.
pub open spec fn matches_at(input: Seq<char>, pos: nat, lit: Seq<char>) -> bool {
    forall|i: int| 0 <= i < lit.len() ==> char_at(input, (pos + i) as nat) == Some(#[trigger] lit[i])
}

/// A set of characters that a terminal is made of.
#[derive(Clone, Copy, Debug, PartialEq, Eq)]
pub enum CharClass {
    /// A digit of the base.
    Digit(Base),
    /// A letter or `_`.
    NameStart,
    /// A letter, a decimal digit or `_`.
    NamePart,
}

/// Whether `c` is one of `0` to `9`.
pub open spec fn is_decimal_digit(c: char) -> bool {
    '0' <= c <= '9'
}

/// Whether `c` is one of `a` to `z` or `A` to `Z`.
pub open spec fn is_letter(c: char) -> bool {
    'a' <= c <= 'z' || 'A' <= c <= 'Z'
}

impl CharClass {
    /// Whether `c` belongs to the class.
    pub open spec fn holds(self, c: char) -> bool {
        match self {
            CharClass::Digit(Base::Base2) => c == '0' || c == '1',
            CharClass::Digit(Base::Base8) => '0' <= c <= '7',
            CharClass::Digit(Base::Base10) => is_decimal_digit(c),
            CharClass::Digit(Base::Base16) => is_decimal_digit(c) || 'a' <= c <= 'f' || 'A' <= c
                <= 'F',
            CharClass::NameStart => is_letter(c) || c == '_',
            CharClass::NamePart => is_letter(c) || is_decimal_digit(c) || c == '_',
        }
    }
}

/// How many characters are left at `pos`.
pub open spec fn room(input: Seq<char>, pos: nat) -> nat {
    if pos <= input.len() {
        (input.len() - pos) as nat
    } else {
        0
    }
}

/// Where the longest run of characters of `class` that starts at `pos` ends.
pub open spec fn run_end(input: Seq<char>, pos: nat, class: CharClass) -> nat
    decreases room(input, pos),
{
    if pos < input.len() && class.holds(input[pos as int]) {
        run_end(input, pos + 1, class)
    } else {
        pos
    }
}

/// One or more digits of `base`, as many as there are.
pub open spec fn digits_at(input: Seq<char>, pos: nat, base: Base) -> Parsed<Seq<char>> {
    let end = run_end(input, pos, CharClass::Digit(base));
    if end > pos {
        Some((input.subrange(pos as int, end as int), end))
    } else {
        None
    }
}

/// `name <- [A-Za-z_] [A-Za-z0-9_]*`
pub open spec fn name_at(input: Seq<char>, pos: nat) -> Parsed<Seq<char>> {
    if pos < input.len() && CharClass::NameStart.holds(input[pos as int]) {
        let end = run_end(input, pos + 1, CharClass::NamePart);
        Some((input.subrange(pos as int, end as int), end))
    } else {
        None
    }
}

/// `boolean <- 'true' / 'false'`
pub open spec fn boolean_at(input: Seq<char>, pos: nat) -> Parsed<Boolean> {
    if matches_at(input, pos, seq!['t', 'r', 'u', 'e']) {
        Some((Boolean::True, pos + 4))
    } else if matches_at(input, pos, seq!['f', 'a', 'l', 's', 'e']) {
        Some((Boolean::False, pos + 5))
    } else {
        None
    }
}

/// The two characters that announce an integer literal of `base`; none for base ten.
pub open spec fn base_prefix(base: Base) -> Seq<char> {
    match base {
        Base::Base16 => seq!['0', 'x'],
        Base::Base10 => seq![],
        Base::Base8 => seq!['0', 'o'],
        Base::Base2 => seq!['0', 'b'],
    }
}

/// The prefix of `base` and then one or more of its digits.
pub open spec fn based_at(input: Seq<char>, pos: nat, base: Base) -> Parsed<IntegerView> {
    if matches_at(input, pos, base_prefix(base)) {
        match digits_at(input, pos + base_prefix(base).len(), base) {
            Some((digits, end)) => Some((IntegerView { base, digits }, end)),
            None => None,
        }
    } else {
        None
    }
}

/// `integer <- '0x' [0-9a-fA-F]+ / '0o' [0-7]+ / '0b' [01]+ / [0-9]+`
pub open spec fn integer_at(input: Seq<char>, pos: nat) -> Parsed<IntegerView> {
    if based_at(input, pos, Base::Base16) is Some {
        based_at(input, pos, Base::Base16)
    } else if based_at(input, pos, Base::Base8) is Some {
        based_at(input, pos, Base::Base8)
    } else if based_at(input, pos, Base::Base2) is Some {
        based_at(input, pos, Base::Base2)
    } else {
        based_at(input, pos, Base::Base10)
    }
}

/// `decimal <- [0-9]+ '.' [0-9]+`
pub open spec fn decimal_at(input: Seq<char>, pos: nat) -> Parsed<DecimalView> {
    match digits_at(input, pos, Base::Base10) {
        Some((whole, dot)) => if char_at(input, dot) == Some('.') {
            match digits_at(input, dot + 1, Base::Base10) {
                Some((frac, end)) => Some((DecimalView { whole, frac }, end)),
                None => None,
            }
        } else {
            None
        },
        None => None,
    }
}

/// Whether the rule is left-recursive, so that its result is grown from a seed.
pub open spec fn grows(tag: CacheType) -> bool {
    tag != CacheType::Unary && tag != CacheType::Primary
}

impl CacheType {
    /// Whether the rule is left-recursive.
    pub fn is_left_recursive(self) -> (b: bool)
        ensures
            b == grows(self),
    {
        match self {
            CacheType::Unary => false,
            CacheType::Primary => false,
            _ => true,
        }
    }
}

/// The outcome that stands for "no match at `pos`".
pub open spec fn failure_at(pos: nat) -> Outcome {
    (pos, CacheResultView::Failure)
}

/// What the cache holds for a qualified name parsed at `pos`, or for none.
pub open spec fn namespace_outcome(r: Parsed<NamespaceView>, pos: nat) -> Outcome {
    match r {
        Some((t, end)) => (end, CacheResultView::Namespace(t)),
        None => failure_at(pos),
    }
}

/// What the cache holds for a evaluation parsed at `pos`, or for none.
pub open spec fn evaluation_outcome(r: Parsed<EvaluationView>, pos: nat) -> Outcome {
    match r {
        Some((t, end)) => (end, CacheResultView::Evaluation(t)),
        None => failure_at(pos),
    }
}

/// What the cache holds for a operand parsed at `pos`, or for none.
pub open spec fn primary_outcome(r: Parsed<PrimaryView>, pos: nat) -> Outcome {
    match r {
        Some((t, end)) => (end, CacheResultView::Primary(t)),
        None => failure_at(pos),
    }
}

/// What the cache holds for a prefixed operand parsed at `pos`, or for none.
pub open spec fn unary_outcome(r: Parsed<UnaryView>, pos: nat) -> Outcome {
    match r {
        Some((t, end)) => (end, CacheResultView::Unary(t)),
        None => failure_at(pos),
    }
}

/// What the cache holds for a product parsed at `pos`, or for none.
pub open spec fn multiplicity_outcome(r: Parsed<MultiplicityView>, pos: nat) -> Outcome {
    match r {
        Some((t, end)) => (end, CacheResultView::Multiplicity(t)),
        None => failure_at(pos),
    }
}

/// What the cache holds for a sum parsed at `pos`, or for none.
pub open spec fn additive_outcome(r: Parsed<AdditiveView>, pos: nat) -> Outcome {
    match r {
        Some((t, end)) => (end, CacheResultView::Additive(t)),
        None => failure_at(pos),
    }
}

/// The qualified name that an outcome holds and its end, if it holds one.
pub open spec fn outcome_namespace(o: Outcome) -> Parsed<NamespaceView> {
    match o.1 {
        CacheResultView::Namespace(t) => Some((t, o.0)),
        _ => None,
    }
}

/// The evaluation that an outcome holds and its end, if it holds one.
pub open spec fn outcome_evaluation(o: Outcome) -> Parsed<EvaluationView> {
    match o.1 {
        CacheResultView::Evaluation(t) => Some((t, o.0)),
        _ => None,
    }
}

/// The operand that an outcome holds and its end, if it holds one.
pub open spec fn outcome_primary(o: Outcome) -> Parsed<PrimaryView> {
    match o.1 {
        CacheResultView::Primary(t) => Some((t, o.0)),
        _ => None,
    }
}

/// The prefixed operand that an outcome holds and its end, if it holds one.
pub open spec fn outcome_unary(o: Outcome) -> Parsed<UnaryView> {
    match o.1 {
        CacheResultView::Unary(t) => Some((t, o.0)),
        _ => None,
    }
}

/// The product that an outcome holds and its end, if it holds one.
pub open spec fn outcome_multiplicity(o: Outcome) -> Parsed<MultiplicityView> {
    match o.1 {
        CacheResultView::Multiplicity(t) => Some((t, o.0)),
        _ => None,
    }
}

/// The sum that an outcome holds and its end, if it holds one.
pub open spec fn outcome_additive(o: Outcome) -> Parsed<AdditiveView> {
    match o.1 {
        CacheResultView::Additive(t) => Some((t, o.0)),
        _ => None,
    }
}

/// How far a seed can still grow: a failure can become any success, a success can only
/// end further right.
pub open spec fn growth_left(input: Seq<char>, seed: Outcome) -> nat {
    if seed.1 is Failure {
        input.len() + 1
    } else {
        room(input, seed.0)
    }
}

/// Whether a pass that gave `next` improved on `seed`: it matched, and the seed had not
/// or ended less far right.
pub open spec fn improves(input: Seq<char>, seed: Outcome, next: Outcome) -> bool {
    &&& !(next.1 is Failure)
    &&& next.0 <= input.len()
    &&& seed.1 is Failure || seed.0 < next.0
}

/// What the rule `tag` gives at `pos`.
pub open spec fn rule_at(tag: CacheType, input: Seq<char>, pos: nat) -> Outcome
    decreases tag.rank(), room(input, pos), 3nat, 0nat,
{
    if grows(tag) {
        grown(tag, input, pos, failure_at(pos))
    } else {
        pass_of(tag, input, pos, failure_at(pos))
    }
}

/// What growing `seed` gives: passes are made for as long as each improves on the last.
pub open spec fn grown(tag: CacheType, input: Seq<char>, pos: nat, seed: Outcome) -> Outcome
    decreases tag.rank(), room(input, pos), 2nat, growth_left(input, seed),
{
    let next = pass_of(tag, input, pos, seed);
    if improves(input, seed, next) {
        grown(tag, input, pos, next)
    } else {
        seed
    }
}

/// One pass over the body of the rule `tag` at `pos`, with `seed` in the place of the
/// rule's leading reference to itself.
pub open spec fn pass_of(tag: CacheType, input: Seq<char>, pos: nat, seed: Outcome) -> Outcome
    decreases tag.rank(), room(input, pos), 1nat, 0nat,
{
    match tag {
        CacheType::Namespace => namespace_outcome(
            namespace_pass(input, pos, outcome_namespace(seed)),
            pos,
        ),
        CacheType::Evaluation => evaluation_outcome(
            evaluation_pass(input, pos, outcome_evaluation(seed)),
            pos,
        ),
        CacheType::Primary => primary_outcome(primary_pass(input, pos), pos),
        CacheType::Unary => unary_outcome(unary_pass(input, pos), pos),
        CacheType::Multiplicity => multiplicity_outcome(
            multiplicity_pass(input, pos, outcome_multiplicity(seed)),
            pos,
        ),
        CacheType::Additive => additive_outcome(
            additive_pass(input, pos, outcome_additive(seed)),
            pos,
        ),
    }
}

/// `namespace <- namespace '::' name / name`
pub open spec fn namespace_at(input: Seq<char>, pos: nat) -> Parsed<NamespaceView>
    decreases 0nat, room(input, pos), 4nat, 0nat,
{
    outcome_namespace(rule_at(CacheType::Namespace, input, pos))
}

/// `evaluation <- evaluation '(' ^ ')' / evaluation '.' ^ name / namespace`
pub open spec fn evaluation_at(input: Seq<char>, pos: nat) -> Parsed<EvaluationView>
    decreases 1nat, room(input, pos), 4nat, 0nat,
{
    outcome_evaluation(rule_at(CacheType::Evaluation, input, pos))
}

/// `primary <- boolean / evaluation / decimal / integer`
pub open spec fn primary_at(input: Seq<char>, pos: nat) -> Parsed<PrimaryView>
    decreases 2nat, room(input, pos), 4nat, 0nat,
{
    outcome_primary(rule_at(CacheType::Primary, input, pos))
}

/// `unary <- '+' unary / '-' unary / primary`
pub open spec fn unary_at(input: Seq<char>, pos: nat) -> Parsed<UnaryView>
    decreases 3nat, room(input, pos), 4nat, 0nat,
{
    outcome_unary(rule_at(CacheType::Unary, input, pos))
}

/// `multiplicity <- multiplicity '*' unary / multiplicity '/' unary / multiplicity '%' unary / unary`
pub open spec fn multiplicity_at(input: Seq<char>, pos: nat) -> Parsed<MultiplicityView>
    decreases 4nat, room(input, pos), 4nat, 0nat,
{
    outcome_multiplicity(rule_at(CacheType::Multiplicity, input, pos))
}

/// `additive <- additive '+' multiplicity / additive '-' multiplicity / multiplicity`
pub open spec fn additive_at(input: Seq<char>, pos: nat) -> Parsed<AdditiveView> {
    outcome_additive(rule_at(CacheType::Additive, input, pos))
}

/// The left-recursive alternative of `namespace`: the seed, `::` and a name.
pub open spec fn namespace_qualified(input: Seq<char>, seed: Parsed<NamespaceView>) -> Parsed<
    NamespaceView,
> {
    match seed {
        Some((ns, end)) => if matches_at(input, end, seq![':', ':']) {
            match name_at(input, end + 2) {
                Some((name, after)) => Some(
                    (NamespaceView::Space { ns: Box::new(ns), name }, after),
                ),
                None => None,
            }
        } else {
            None
        },
        None => None,
    }
}

/// One pass over `namespace` at `pos`.
pub open spec fn namespace_pass(
    input: Seq<char>,
    pos: nat,
    seed: Parsed<NamespaceView>,
) -> Parsed<NamespaceView>
    decreases 0nat, room(input, pos), 0nat, 0nat,
{
    if namespace_qualified(input, seed) is Some {
        namespace_qualified(input, seed)
    } else {
        match name_at(input, pos) {
            Some((name, end)) => Some((NamespaceView::Name(name), end)),
            None => None,
        }
    }
}

/// The first alternative of `evaluation`, a call: the seed, `(`, and from there on
/// committed, `)`. The flag tells whether the alternative committed.
pub open spec fn evaluation_call(input: Seq<char>, seed: Parsed<EvaluationView>) -> (
    Parsed<EvaluationView>,
    bool,
) {
    match seed {
        Some((ident, end)) => if char_at(input, end) == Some('(') {
            if char_at(input, end + 1) == Some(')') {
                (Some((EvaluationView::Call { ident: Box::new(ident) }, end + 2)), true)
            } else {
                (None, true)
            }
        } else {
            (None, false)
        },
        None => (None, false),
    }
}

/// The second alternative of `evaluation`, a member access: the seed, `.`, and from
/// there on committed, a name. The flag tells whether the alternative committed.
pub open spec fn evaluation_member(input: Seq<char>, seed: Parsed<EvaluationView>) -> (
    Parsed<EvaluationView>,
    bool,
) {
    match seed {
        Some((ident, end)) => if char_at(input, end) == Some('.') {
            match name_at(input, end + 1) {
                Some((member, after)) => (
                    Some((EvaluationView::Member { ident: Box::new(ident), member }, after)),
                    true,
                ),
                None => (None, true),
            }
        } else {
            (None, false)
        },
        None => (None, false),
    }
}

/// One pass over `evaluation` at `pos`. An alternative that committed and then failed
/// fails the pass: the alternatives after it are not tried.
pub open spec fn evaluation_pass(
    input: Seq<char>,
    pos: nat,
    seed: Parsed<EvaluationView>,
) -> Parsed<EvaluationView>
    decreases 1nat, room(input, pos), 0nat, 0nat,
{
    let call = evaluation_call(input, seed);
    let member = evaluation_member(input, seed);
    if call.0 is Some {
        call.0
    } else if call.1 {
        None
    } else if member.0 is Some {
        member.0
    } else if member.1 {
        None
    } else {
        match namespace_at(input, pos) {
            Some((ns, end)) => Some((EvaluationView::Namespace(ns), end)),
            None => None,
        }
    }
}

/// The body of `primary` at `pos`.
pub open spec fn primary_pass(input: Seq<char>, pos: nat) -> Parsed<PrimaryView>
    decreases 2nat, room(input, pos), 0nat, 0nat,
{
    if let Some((b, end)) = boolean_at(input, pos) {
        Some((PrimaryView::Boolean(b), end))
    } else if let Some((e, end)) = evaluation_at(input, pos) {
        Some((PrimaryView::Evaluation(e), end))
    } else if let Some((d, end)) = decimal_at(input, pos) {
        Some((PrimaryView::Decimal(d), end))
    } else if let Some((i, end)) = integer_at(input, pos) {
        Some((PrimaryView::Integer(i), end))
    } else {
        None
    }
}

/// An alternative of `unary` that starts with an operator: `sign`, then `unary`.
pub open spec fn unary_signed(input: Seq<char>, pos: nat, sign: char, op: UnaOp) -> Parsed<
    UnaryView,
>
    decreases 3nat, room(input, pos), 0nat, 0nat,
{
    if char_at(input, pos) == Some(sign) {
        match unary_at(input, pos + 1) {
            Some((inner, end)) => Some((UnaryView::Unary { op, inner: Box::new(inner) }, end)),
            None => None,
        }
    } else {
        None
    }
}

/// The body of `unary` at `pos`.
pub open spec fn unary_pass(input: Seq<char>, pos: nat) -> Parsed<UnaryView>
    decreases 3nat, room(input, pos), 0nat, 1nat,
{
    if unary_signed(input, pos, '+', UnaOp::Pos) is Some {
        unary_signed(input, pos, '+', UnaOp::Pos)
    } else if unary_signed(input, pos, '-', UnaOp::Neg) is Some {
        unary_signed(input, pos, '-', UnaOp::Neg)
    } else {
        match primary_at(input, pos) {
            Some((p, end)) => Some((UnaryView::Primary(p), end)),
            None => None,
        }
    }
}

/// A left-recursive alternative of `multiplicity`: the seed, `sign`, and a `unary`.
pub open spec fn multiplicity_step(
    input: Seq<char>,
    pos: nat,
    seed: Parsed<MultiplicityView>,
    sign: char,
    op: MulOp,
) -> Parsed<MultiplicityView>
    decreases 4nat, room(input, pos), 0nat, 0nat,
{
    match seed {
        Some((lhs, end)) => if char_at(input, end) == Some(sign) {
            match unary_at(input, end + 1) {
                Some((rhs, after)) => Some(
                    (MultiplicityView::Multiplicity { lhs: Box::new(lhs), op, rhs }, after),
                ),
                None => None,
            }
        } else {
            None
        },
        None => None,
    }
}

/// One pass over `multiplicity` at `pos`.
pub open spec fn multiplicity_pass(
    input: Seq<char>,
    pos: nat,
    seed: Parsed<MultiplicityView>,
) -> Parsed<MultiplicityView>
    decreases 4nat, room(input, pos), 0nat, 1nat,
{
    if multiplicity_step(input, pos, seed, '*', MulOp::Mul) is Some {
        multiplicity_step(input, pos, seed, '*', MulOp::Mul)
    } else if multiplicity_step(input, pos, seed, '/', MulOp::Div) is Some {
        multiplicity_step(input, pos, seed, '/', MulOp::Div)
    } else if multiplicity_step(input, pos, seed, '%', MulOp::Mod) is Some {
        multiplicity_step(input, pos, seed, '%', MulOp::Mod)
    } else {
        match unary_at(input, pos) {
            Some((u, end)) => Some((MultiplicityView::Unary(u), end)),
            None => None,
        }
    }
}

/// A left-recursive alternative of `additive`: the seed, `sign`, and a `multiplicity`.
pub open spec fn additive_step(
    input: Seq<char>,
    pos: nat,
    seed: Parsed<AdditiveView>,
    sign: char,
    op: AddOp,
) -> Parsed<AdditiveView>
    decreases 5nat, room(input, pos), 0nat, 0nat,
{
    match seed {
        Some((lhs, end)) => if char_at(input, end) == Some(sign) {
            match multiplicity_at(input, end + 1) {
                Some((rhs, after)) => Some(
                    (AdditiveView::Additive { lhs: Box::new(lhs), op, rhs }, after),
                ),
                None => None,
            }
        } else {
            None
        },
        None => None,
    }
}

/// One pass over `additive` at `pos`.
pub open spec fn additive_pass(
    input: Seq<char>,
    pos: nat,
    seed: Parsed<AdditiveView>,
) -> Parsed<AdditiveView>
    decreases 5nat, room(input, pos), 0nat, 1nat,
{
    if additive_step(input, pos, seed, '+', AddOp::Add) is Some {
        additive_step(input, pos, seed, '+', AddOp::Add)
    } else if additive_step(input, pos, seed, '-', AddOp::Sub) is Some {
        additive_step(input, pos, seed, '-', AddOp::Sub)
    } else {
        match multiplicity_at(input, pos) {
            Some((m, end)) => Some((AdditiveView::Multiplicity(m), end)),
            None => None,
        }
    }
}

impl CharClass {
    /// Whether `c` belongs to the class.
    pub fn test(self, c: char) -> (b: bool)
        ensures
            b == self.holds(c),
    {
        let decimal = '0' <= c && c <= '9';
        let letter = ('a' <= c && c <= 'z') || ('A' <= c && c <= 'Z');
        match self {
            CharClass::Digit(Base::Base2) => c == '0' || c == '1',
            CharClass::Digit(Base::Base8) => '0' <= c && c <= '7',
            CharClass::Digit(Base::Base10) => decimal,
            CharClass::Digit(Base::Base16) => decimal || ('a' <= c && c <= 'f') || ('A' <= c && c
                <= 'F'),
            CharClass::NameStart => letter || c == '_',
            CharClass::NamePart => letter || decimal || c == '_',
        }
    }
}

/// A run ends at or after its start and within the input, holds only characters of the
/// class, and stops at the end of the input or before a character outside the class.
pub proof fn lemma_run_end(input: Seq<char>, pos: nat, class: CharClass)
    ensures
        pos <= run_end(input, pos, class),
        pos <= input.len() ==> run_end(input, pos, class) <= input.len(),
        forall|i: int| pos <= i < run_end(input, pos, class) ==> class.holds(#[trigger] input[i]),
        run_end(input, pos, class) < input.len() ==> !class.holds(
            input[run_end(input, pos, class) as int],
        ),
    decreases room(input, pos),
{
    if pos < input.len() && class.holds(input[pos as int]) {
        lemma_run_end(input, pos + 1, class);
    }
}

/// A literal of one character stands at `pos` exactly if that character is there.
pub proof fn lemma_matches_one(input: Seq<char>, pos: nat, c: char)
    ensures
        matches_at(input, pos, seq![c]) <==> char_at(input, pos) == Some(c),
{
    assert(seq![c][0] == c);
}

/// Whether a match that began at `pos` ends further right and within the input.
pub open spec fn advances<T>(input: Seq<char>, pos: nat, r: Parsed<T>) -> bool {
    match r {
        Some((_, end)) => pos < end <= input.len(),
        None => true,
    }
}

/// Every terminal that matches reads at least one character and stays within the input.
pub proof fn lemma_terminals_advance(input: Seq<char>, pos: nat)
    ensures
        advances(input, pos, name_at(input, pos)),
        advances(input, pos, boolean_at(input, pos)),
        advances(input, pos, decimal_at(input, pos)),
        advances(input, pos, integer_at(input, pos)),
        forall|base: Base| advances(input, pos, #[trigger] digits_at(input, pos, base)),
        forall|base: Base| advances(input, pos, #[trigger] based_at(input, pos, base)),
{
    lemma_run_end(input, pos + 1, CharClass::NamePart);
    assert forall|base: Base| advances(input, pos, #[trigger] digits_at(input, pos, base)) by {
        lemma_run_end(input, pos, CharClass::Digit(base));
    }
    assert forall|base: Base| advances(input, pos, #[trigger] based_at(input, pos, base)) by {
        let from = pos + base_prefix(base).len();
        lemma_run_end(input, from, CharClass::Digit(base));
    }
    if matches_at(input, pos, seq!['t', 'r', 'u', 'e']) {
        assert(char_at(input, pos + 3) == Some(seq!['t', 'r', 'u', 'e'][3]));
    }
    if matches_at(input, pos, seq!['f', 'a', 'l', 's', 'e']) {
        assert(char_at(input, pos + 4) == Some(seq!['f', 'a', 'l', 's', 'e'][4]));
    }
    if let Some((_, dot)) = digits_at(input, pos, Base::Base10) {
        lemma_run_end(input, pos, CharClass::Digit(Base::Base10));
        lemma_run_end(input, dot + 1, CharClass::Digit(Base::Base10));
    }
}

/// Whether `o` is an outcome that the rule `tag` can have at `pos`: a failure that ends at
/// `pos`, or a node of that rule that ends further right and within the input.
pub open spec fn sound_outcome(tag: CacheType, input: Seq<char>, pos: nat, o: Outcome) -> bool {
    &&& o.1.fits(tag)
    &&& if o.1 is Failure {
        o.0 == pos
    } else {
        pos < o.0 <= input.len()
    }
}

/// A rule fails without moving, or builds a node of its own kind from at least one
/// character of the input.
pub proof fn lemma_rule_sound(tag: CacheType, input: Seq<char>, pos: nat)
    ensures
        sound_outcome(tag, input, pos, rule_at(tag, input, pos)),
    decreases tag.rank(), room(input, pos), 3nat, 0nat,
{
    if grows(tag) {
        lemma_grown_sound(tag, input, pos, failure_at(pos));
    } else {
        lemma_pass_sound(tag, input, pos, failure_at(pos));
    }
}

/// Growing a sound seed gives a sound outcome.
pub proof fn lemma_grown_sound(tag: CacheType, input: Seq<char>, pos: nat, seed: Outcome)
    requires
        sound_outcome(tag, input, pos, seed),
    ensures
        sound_outcome(tag, input, pos, grown(tag, input, pos, seed)),
    decreases tag.rank(), room(input, pos), 2nat, growth_left(input, seed),
{
    let next = pass_of(tag, input, pos, seed);
    lemma_pass_sound(tag, input, pos, seed);
    if improves(input, seed, next) {
        lemma_grown_sound(tag, input, pos, next);
    }
}

/// A pass over a sound seed gives a sound outcome.
pub proof fn lemma_pass_sound(tag: CacheType, input: Seq<char>, pos: nat, seed: Outcome)
    requires
        sound_outcome(tag, input, pos, seed),
    ensures
        sound_outcome(tag, input, pos, pass_of(tag, input, pos, seed)),
    decreases tag.rank(), room(input, pos), 1nat, 0nat,
{
    lemma_terminals_advance(input, pos);
    match tag {
        CacheType::Namespace => {
            if let Some((_, end)) = outcome_namespace(seed) {
                lemma_terminals_advance(input, end + 2);
            }
        },
        CacheType::Evaluation => {
            if let Some((_, end)) = outcome_evaluation(seed) {
                lemma_terminals_advance(input, end + 1);
            }
            lemma_rule_sound(CacheType::Namespace, input, pos);
        },
        CacheType::Primary => {
            lemma_rule_sound(CacheType::Evaluation, input, pos);
        },
        CacheType::Unary => {
            if pos < input.len() {
                lemma_rule_sound(CacheType::Unary, input, pos + 1);
            }
            lemma_rule_sound(CacheType::Primary, input, pos);
        },
        CacheType::Multiplicity => {
            if let Some((_, end)) = outcome_multiplicity(seed) {
                lemma_rule_sound(CacheType::Unary, input, end + 1);
            }
            lemma_rule_sound(CacheType::Unary, input, pos);
        },
        CacheType::Additive => {
            if let Some((_, end)) = outcome_additive(seed) {
                lemma_rule_sound(CacheType::Multiplicity, input, end + 1);
            }
            lemma_rule_sound(CacheType::Multiplicity, input, pos);
        },
    }
}

} // verus!
