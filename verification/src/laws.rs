//! What holds of the grammar and of every parse, proved from the definitions.

use crate::cache::{CacheResultView, CacheType};
use crate::grammar::{
    additive_at, base_prefix, boolean_at, decimal_at, digits_at, evaluation_pass, failure_at, grown, growth_left, grows, improves,
    integer_at, lemma_pass_sound, lemma_rule_sound, lemma_terminals_advance, matches_at, name_at,
    outcome_evaluation, outcome_namespace, pass_of, room, rule_at,
    sound_outcome, unary_at, unary_signed, Outcome,
};
use crate::stream::{char_at, rest_from};
use crate::tree::{Base, EvaluationView, NamespaceView, UnaOp};
use crate::{program_at, tree_of, Parsing};
use vstd::prelude::*;

verus! {

/// Two parses of one text give the same tree, or both none, and leave the same text unread.
pub proof fn law_parse_deterministic(code: Seq<char>, a: Parsing, b: Parsing)
    requires
        a.is_parse_of(code),
        b.is_parse_of(code),
    ensures
        tree_of(a.tree) == tree_of(b.tree),
        a.leftover@ == b.leftover@,
{
}

/// A call that is opened and not closed fails the pass over `evaluation`: once `(` has
/// been read after the seed, no later alternative is tried.
pub proof fn law_cut_after_open(input: Seq<char>, pos: nat, ident: EvaluationView, end: nat)
    requires
        char_at(input, end) == Some('('),
        char_at(input, end + 1) != Some(')'),
    ensures
        evaluation_pass(input, pos, Some((ident, end))).is_none(),
{
}

/// A member access without a name fails the pass over `evaluation`: once `.` has been
/// read after the seed, no later alternative is tried.
pub proof fn law_cut_after_dot(input: Seq<char>, pos: nat, ident: EvaluationView, end: nat)
    requires
        char_at(input, end) == Some('.'),
        name_at(input, end + 1).is_none(),
    ensures
        evaluation_pass(input, pos, Some((ident, end))).is_none(),
{
}

/// A program has a tree exactly if the expression at its start ends where the input ends.
pub proof fn law_full_consumption(input: Seq<char>, pos: nat)
    ensures
        program_at(input, pos).0.is_some() <==> additive_at(input, pos).is_some() && additive_at(
            input,
            pos,
        ).unwrap().1 == input.len(),
        program_at(input, pos).0.is_some() ==> rest_from(input, program_at(input, pos).1).len()
            == 0,
{
    lemma_rule_sound(CacheType::Additive, input, pos);
}

/// What a parse reads and what it leaves unread make up the text, in this order.
pub proof fn law_leftover_is_the_rest(code: Seq<char>)
    ensures
        program_at(code, 0).1 <= code.len(),
        code == code.take(program_at(code, 0).1 as int) + rest_from(code, program_at(code, 0).1),
{
    lemma_rule_sound(CacheType::Additive, code, 0);
    let end = program_at(code, 0).1;
    assert(code =~= code.take(end as int) + rest_from(code, end));
}

/// Growing a seed ends where one more pass would not improve on what has grown.
pub proof fn law_grown_is_fixed(tag: CacheType, input: Seq<char>, pos: nat, seed: Outcome)
    ensures
        !improves(
            input,
            grown(tag, input, pos, seed),
            pass_of(tag, input, pos, grown(tag, input, pos, seed)),
        ),
    decreases growth_left(input, seed),
{
    let next = pass_of(tag, input, pos, seed);
    if improves(input, seed, next) {
        law_grown_is_fixed(tag, input, pos, next);
    }
}

/// What a left-recursive rule gives is a fixed point of its body: one more pass with the
/// result as the seed does not end further right.
pub proof fn law_rule_is_fixed(tag: CacheType, input: Seq<char>, pos: nat)
    requires
        grows(tag),
    ensures
        !improves(
            input,
            rule_at(tag, input, pos),
            pass_of(tag, input, pos, rule_at(tag, input, pos)),
        ),
{
    law_grown_is_fixed(tag, input, pos, failure_at(pos));
}

/// Growing never loses ground: what has grown from a sound seed that matched ends at or
/// after the seed's end, and a seed that matched stays a match.
pub proof fn law_growth_is_monotone(tag: CacheType, input: Seq<char>, pos: nat, seed: Outcome)
    requires
        sound_outcome(tag, input, pos, seed),
    ensures
        !(seed.1 is Failure) ==> !(grown(tag, input, pos, seed).1 is Failure) && seed.0 <= grown(
            tag,
            input,
            pos,
            seed,
        ).0,
    decreases growth_left(input, seed),
{
    let next = pass_of(tag, input, pos, seed);
    if improves(input, seed, next) {
        lemma_pass_sound(tag, input, pos, seed);
        law_growth_is_monotone(tag, input, pos, next);
    }
}

/// Past the end of the input no rule matches.
pub proof fn law_nothing_past_the_end(tag: CacheType, input: Seq<char>, pos: nat)
    requires
        pos >= input.len(),
    ensures
        rule_at(tag, input, pos) == failure_at(pos),
{
    lemma_rule_sound(tag, input, pos);
    assert(room(input, pos) == 0);
}

/// The source text of the node that an outcome holds; nothing for a failure.
pub open spec fn outcome_text(o: Outcome) -> Seq<char> {
    match o.1 {
        CacheResultView::Failure => Seq::empty(),
        CacheResultView::Additive(t) => t.text(),
        CacheResultView::Multiplicity(t) => t.text(),
        CacheResultView::Unary(t) => t.text(),
        CacheResultView::Primary(t) => t.text(),
        CacheResultView::Evaluation(t) => t.text(),
        CacheResultView::Namespace(t) => t.text(),
    }
}

/// Whether the node of `o`, if there is one, is written exactly as the input reads from
/// `pos` to where `o` ends.
pub open spec fn written_as_read(input: Seq<char>, pos: nat, o: Outcome) -> bool {
    !(o.1 is Failure) ==> pos <= o.0 <= input.len() && outcome_text(o) == input.subrange(
        pos as int,
        o.0 as int,
    )
}

/// A literal that stands at `pos` is the input's text there.
pub proof fn lemma_matched_text(input: Seq<char>, pos: nat, lit: Seq<char>)
    requires
        matches_at(input, pos, lit),
        lit.len() > 0,
    ensures
        pos + lit.len() <= input.len(),
        input.subrange(pos as int, (pos + lit.len()) as int) == lit,
{
    assert(char_at(input, (pos + (lit.len() - 1)) as nat) == Some(lit[lit.len() - 1]));
    assert forall|i: int| 0 <= i < lit.len() implies input[pos + i] == lit[i] by {
        assert(char_at(input, (pos + i) as nat) == Some(lit[i]));
    }
    assert(input.subrange(pos as int, (pos + lit.len()) as int) =~= lit);
}

/// A literal is written as it was read.
proof fn lemma_terminals_written(input: Seq<char>, pos: nat)
    ensures
        boolean_at(input, pos) matches Some((b, end)) ==> b.text() == input.subrange(
            pos as int,
            end as int,
        ),
        decimal_at(input, pos) matches Some((d, end)) ==> d.text() == input.subrange(
            pos as int,
            end as int,
        ),
        integer_at(input, pos) matches Some((i, end)) ==> i.text() == input.subrange(
            pos as int,
            end as int,
        ),
{
    reveal_strlit("true");
    reveal_strlit("false");
    reveal_strlit(".");
    lemma_terminals_advance(input, pos);
    if let Some((b, end)) = boolean_at(input, pos) {
        assert("true"@ =~= seq!['t', 'r', 'u', 'e']);
        assert("false"@ =~= seq!['f', 'a', 'l', 's', 'e']);
        if matches_at(input, pos, seq!['t', 'r', 'u', 'e']) {
            lemma_matched_text(input, pos, seq!['t', 'r', 'u', 'e']);
        } else {
            lemma_matched_text(input, pos, seq!['f', 'a', 'l', 's', 'e']);
        }
    }
    if let Some((d, end)) = decimal_at(input, pos) {
        let dot = digits_at(input, pos, Base::Base10).unwrap().1;
        lemma_terminals_advance(input, dot + 1);
        assert("."@ =~= seq!['.']);
        assert(d.text() =~= input.subrange(pos as int, end as int));
    }
    if let Some((i, end)) = integer_at(input, pos) {
        let prefix = base_prefix(i.base);
        if prefix.len() > 0 {
            lemma_matched_text(input, pos, prefix);
        }
        lemma_terminals_advance(input, pos + prefix.len());
        assert(i.text() =~= input.subrange(pos as int, end as int));
    }
}

/// A pass over `namespace` keeps to the input's text.
proof fn lemma_namespace_written(input: Seq<char>, pos: nat, seed: Outcome)
    requires
        sound_outcome(CacheType::Namespace, input, pos, seed),
        written_as_read(input, pos, seed),
    ensures
        written_as_read(input, pos, pass_of(CacheType::Namespace, input, pos, seed)),
{
    reveal_strlit("::");
    assert("::"@ =~= seq![':', ':']);
    lemma_terminals_advance(input, pos);
    if let Some((ns, end)) = outcome_namespace(seed) {
        if matches_at(input, end, seq![':', ':']) {
            if let Some((name, after)) = name_at(input, end + 2) {
                lemma_matched_text(input, end, seq![':', ':']);
                lemma_terminals_advance(input, end + 2);
                let t = NamespaceView::Space { ns: Box::new(ns), name };
                assert(t.text() == ns.text() + "::"@ + name);
                assert(t.text() =~= input.subrange(pos as int, after as int));
            }
        }
    }
}

/// A pass over `evaluation` keeps to the input's text.
proof fn lemma_evaluation_written(input: Seq<char>, pos: nat, seed: Outcome)
    requires
        sound_outcome(CacheType::Evaluation, input, pos, seed),
        written_as_read(input, pos, seed),
    ensures
        written_as_read(input, pos, pass_of(CacheType::Evaluation, input, pos, seed)),
    decreases 1nat, room(input, pos), 1nat, 0nat,
{
    reveal_strlit("()");
    reveal_strlit(".");
    assert("()"@ =~= seq!['(', ')']);
    assert("."@ =~= seq!['.']);
    lemma_rule_written(CacheType::Namespace, input, pos);
    lemma_rule_sound(CacheType::Namespace, input, pos);
    if let Some((ident, end)) = outcome_evaluation(seed) {
        if char_at(input, end) == Some('(') {
            if char_at(input, end + 1) == Some(')') {
                let t = EvaluationView::Call { ident: Box::new(ident) };
                assert(t.text() == ident.text() + "()"@);
                assert(t.text() =~= input.subrange(pos as int, (end + 2) as int));
            }
        } else if char_at(input, end) == Some('.') {
            if let Some((member, after)) = name_at(input, end + 1) {
                lemma_terminals_advance(input, end + 1);
                let t = EvaluationView::Member { ident: Box::new(ident), member };
                assert(t.text() == ident.text() + "."@ + member);
                assert(t.text() =~= input.subrange(pos as int, after as int));
            }
        }
    }
}

/// The body of `unary` keeps to the input's text.
proof fn lemma_unary_written(input: Seq<char>, pos: nat)
    ensures
        written_as_read(
            input,
            pos,
            pass_of(CacheType::Unary, input, pos, failure_at(pos)),
        ),
    decreases 3nat, room(input, pos), 1nat, 0nat,
{
    reveal_strlit("+");
    reveal_strlit("-");
    assert("+"@ =~= seq!['+']);
    assert("-"@ =~= seq!['-']);
    lemma_rule_written(CacheType::Primary, input, pos);
    lemma_rule_sound(CacheType::Primary, input, pos);
    if pos < input.len() {
        lemma_rule_written(CacheType::Unary, input, pos + 1);
        lemma_rule_sound(CacheType::Unary, input, pos + 1);
        if let Some((t, end)) = unary_signed(input, pos, '+', UnaOp::Pos) {
            let inner = unary_at(input, pos + 1).unwrap().0;
            assert(t.text() == UnaOp::Pos.text() + inner.text());
            assert(t.text() =~= input.subrange(pos as int, end as int));
        } else if let Some((t, end)) = unary_signed(input, pos, '-', UnaOp::Neg) {
            let inner = unary_at(input, pos + 1).unwrap().0;
            assert(t.text() == UnaOp::Neg.text() + inner.text());
            assert(t.text() =~= input.subrange(pos as int, end as int));
        }
    }
}

/// A pass over a seed that is written as it was read gives a node that is, too, for the
/// rules below the products.
proof fn lemma_pass_written(tag: CacheType, input: Seq<char>, pos: nat, seed: Outcome)
    requires
        tag.rank() <= 3,
        sound_outcome(tag, input, pos, seed),
        written_as_read(input, pos, seed),
    ensures
        written_as_read(input, pos, pass_of(tag, input, pos, seed)),
    decreases tag.rank(), room(input, pos), 2nat, 0nat,
{
    match tag {
        CacheType::Namespace => {
            lemma_namespace_written(input, pos, seed);
        },
        CacheType::Evaluation => {
            lemma_evaluation_written(input, pos, seed);
        },
        CacheType::Primary => {
            lemma_rule_written(CacheType::Evaluation, input, pos);
            lemma_rule_sound(CacheType::Evaluation, input, pos);
            lemma_terminals_written(input, pos);
            lemma_terminals_advance(input, pos);
        },
        CacheType::Unary => {
            lemma_unary_written(input, pos);
        },
        _ => {},
    }
}

/// Growing a seed that is written as it was read gives a node that is, too.
proof fn lemma_grown_written(tag: CacheType, input: Seq<char>, pos: nat, seed: Outcome)
    requires
        tag.rank() <= 3,
        sound_outcome(tag, input, pos, seed),
        written_as_read(input, pos, seed),
    ensures
        written_as_read(input, pos, grown(tag, input, pos, seed)),
    decreases tag.rank(), room(input, pos), 3nat, growth_left(input, seed),
{
    let next = pass_of(tag, input, pos, seed);
    lemma_pass_sound(tag, input, pos, seed);
    lemma_pass_written(tag, input, pos, seed);
    if improves(input, seed, next) {
        lemma_grown_written(tag, input, pos, next);
    }
}

/// What a rule below the products builds is written exactly as it was read.
proof fn lemma_rule_written(tag: CacheType, input: Seq<char>, pos: nat)
    requires
        tag.rank() <= 3,
    ensures
        written_as_read(input, pos, rule_at(tag, input, pos)),
    decreases tag.rank(), room(input, pos), 4nat, 0nat,
{
    if grows(tag) {
        lemma_grown_written(tag, input, pos, failure_at(pos));
    } else {
        lemma_pass_written(tag, input, pos, failure_at(pos));
    }
}

/// A qualified name, an evaluation, an operand and a prefixed operand are written exactly
/// as the input reads where they were parsed. (Sums and products are written with spaces
/// around their operators, which the input does not have.)
pub proof fn law_written_as_read(tag: CacheType, input: Seq<char>, pos: nat)
    requires
        tag != CacheType::Additive,
        tag != CacheType::Multiplicity,
    ensures
        written_as_read(input, pos, rule_at(tag, input, pos)),
{
    lemma_rule_written(tag, input, pos);
}

} // verus!
