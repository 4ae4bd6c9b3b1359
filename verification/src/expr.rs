//! The grammar's rules, run against the cache.
//!
//! A rule first looks itself up in the cache at the cursor. On a hit it moves the cursor to
//! the entry's end and returns the entry's result. On a miss a rule that is not
//! left-recursive runs its body once and stores what the body gave; a left-recursive rule
//! stores a failure as its seed and runs its body for as long as each pass improves on the
//! seed, storing each improvement in the seed's place.

use crate::cache::{CacheResult, CacheType, TraceEventView, TraceKind};
use crate::grammar::{
    additive_at, additive_pass, additive_step, evaluation_at, evaluation_call, evaluation_member,
    evaluation_pass, failure_at, grown, growth_left, grows, improves, lemma_matches_one,
    lemma_pass_sound, lemma_rule_sound, multiplicity_at, multiplicity_pass, multiplicity_step,
    namespace_at, namespace_pass, namespace_qualified, outcome_additive, outcome_evaluation,
    outcome_multiplicity, outcome_namespace, outcome_primary, outcome_unary, pass_of, primary_at,
    primary_pass, room, rule_at, sound_outcome, unary_at, unary_pass, unary_signed, Outcome,
};
use crate::parser::{agrees, reading, Parser};
use crate::stream::char_at;
use crate::tree::{
    AddOp, Additive, Evaluation, MulOp, Multiplicity, Namespace, Primary, UnaOp, Unary,
};
use vstd::prelude::*;

verus! {

/// The cache's entries: from position and rule to the outcome stored there.
pub type Entries = Map<(nat, CacheType), Outcome>;

/// Whether the entry of `tag` at `pos`, if there is one, is what the rule gives there.
pub open spec fn settled(entries: Entries, input: Seq<char>, pos: nat, tag: CacheType) -> bool {
    entries.contains_key((pos, tag)) ==> entries[(pos, tag)] == rule_at(tag, input, pos)
}

/// Whether every entry is what its rule gives at its position.
pub open spec fn all_settled(entries: Entries, input: Seq<char>) -> bool {
    forall|p: nat, t: CacheType| #[trigger] settled(entries, input, p, t)
}

/// Whether every entry of `tag` and of the rules below it is settled, but for the entry of
/// `tag` at `at`, which may hold a seed that is still growing.
pub open spec fn settled_but(entries: Entries, input: Seq<char>, tag: CacheType, at: nat) -> bool {
    forall|p: nat, t: CacheType|
        t.rank() <= tag.rank() && !(p == at && t == tag) ==> #[trigger] settled(entries, input, p, t)
}

/// Whether `after` holds all of `before` unchanged, and beyond it only settled entries of
/// `tag` and of the rules below it, at positions from `from` on.
pub open spec fn extends(
    after: Entries,
    before: Entries,
    input: Seq<char>,
    tag: CacheType,
    from: nat,
) -> bool {
    &&& forall|p: nat, t: CacheType| #[trigger]
        before.contains_key((p, t)) ==> after.contains_key((p, t)) && after[(p, t)] == before[(
            p,
            t,
        )]
    &&& forall|p: nat, t: CacheType| #[trigger]
        after.contains_key((p, t)) && !before.contains_key((p, t)) ==> t.rank() <= tag.rank()
            && from <= p && settled(after, input, p, t)
}

/// Whether the trace `after` continues the trace `before`, and is the same where nothing
/// is traced.
pub open spec fn continues<E>(after: Seq<E>, before: Seq<E>, verbose: bool) -> bool {
    &&& before.is_prefix_of(after)
    &&& !verbose ==> after == before
}

impl Parser {
    /// Whether the entry of `tag` at `pos`, if there is one, is what the rule gives there.
    pub open spec fn settled(&self, pos: nat, tag: CacheType) -> bool {
        settled(self.cache@, self.input(), pos, tag)
    }

    /// Whether the cache holds only what the rules give: the state between two calls.
    pub open spec fn sound(&self) -> bool {
        self.cache.wf() && all_settled(self.cache@, self.input())
    }

    /// Whether the rule `tag` can be entered at `at`: what it may look up is settled, but
    /// for its own entry at `at`.
    pub open spec fn ready(&self, tag: CacheType, at: nat) -> bool {
        self.cache.wf() && settled_but(self.cache@, self.input(), tag, at)
    }

    /// Whether this state came from `before` by running the rule `tag` from `from`: the
    /// input is the same, the cache has kept what it held and gained only settled entries,
    /// and the trace has gone on.
    pub open spec fn grew_from(&self, before: Parser, tag: CacheType, from: nat) -> bool {
        &&& self.input() == before.input()
        &&& self.cache.wf()
        &&& self.cache.verbose() == before.cache.verbose()
        &&& continues(self.cache.trace(), before.cache.trace(), self.cache.verbose())
        &&& extends(self.cache@, before.cache@, self.input(), tag, from)
    }
}

/// Extending twice is extending once, by the looser rule and from the earlier position.
pub proof fn lemma_extends_trans(
    a: Entries,
    b: Entries,
    c: Entries,
    input: Seq<char>,
    t1: CacheType,
    f1: nat,
    t2: CacheType,
    f2: nat,
    tag: CacheType,
    from: nat,
)
    requires
        extends(b, a, input, t1, f1),
        extends(c, b, input, t2, f2),
        t1.rank() <= tag.rank(),
        t2.rank() <= tag.rank(),
        from <= f1,
        from <= f2,
    ensures
        extends(c, a, input, tag, from),
{
    assert forall|p: nat, t: CacheType| #[trigger] a.contains_key((p, t)) implies c.contains_key(
        (p, t),
    ) && c[(p, t)] == a[(p, t)] by {
        assert(b.contains_key((p, t)));
    }
    assert forall|p: nat, t: CacheType| #[trigger]
        c.contains_key((p, t)) && !a.contains_key((p, t)) implies t.rank() <= tag.rank() && from
        <= p && settled(c, input, p, t) by {
        if b.contains_key((p, t)) {
            assert(settled(b, input, p, t));
        }
    }
}

/// What was settled stays settled when the cache is extended.
pub proof fn lemma_settled_kept(
    a: Entries,
    b: Entries,
    input: Seq<char>,
    called: CacheType,
    from: nat,
    tag: CacheType,
    at: nat,
)
    requires
        extends(b, a, input, called, from),
    ensures
        settled_but(a, input, tag, at) ==> settled_but(b, input, tag, at),
        all_settled(a, input) ==> all_settled(b, input),
{
    if settled_but(a, input, tag, at) {
        assert forall|p: nat, t: CacheType|
            t.rank() <= tag.rank() && !(p == at && t == tag) implies #[trigger] settled(
            b,
            input,
            p,
            t,
        ) by {
            assert(settled(a, input, p, t));
            if b.contains_key((p, t)) && !a.contains_key((p, t)) {
            }
        }
    }
    if all_settled(a, input) {
        assert forall|p: nat, t: CacheType| #[trigger] settled(b, input, p, t) by {
            assert(settled(a, input, p, t));
            if b.contains_key((p, t)) && !a.contains_key((p, t)) {
            }
        }
    }
}

/// One trace after another continues the first.
pub proof fn lemma_continues_trans<E>(a: Seq<E>, b: Seq<E>, c: Seq<E>, verbose: bool)
    requires
        continues(b, a, verbose),
        continues(c, b, verbose),
    ensures
        continues(c, a, verbose),
{
}

/// Whether `after` extends `before` as [`extends`] says, but for the entry of `tag` at `at`,
/// which may be new and not settled: the seed of a growth in progress.
pub open spec fn extends_but(
    after: Entries,
    before: Entries,
    input: Seq<char>,
    tag: CacheType,
    at: nat,
) -> bool {
    &&& forall|p: nat, t: CacheType| #[trigger]
        before.contains_key((p, t)) ==> after.contains_key((p, t)) && after[(p, t)] == before[(
            p,
            t,
        )]
    &&& forall|p: nat, t: CacheType| #[trigger]
        after.contains_key((p, t)) && !before.contains_key((p, t)) && !(p == at && t == tag)
            ==> t.rank() <= tag.rank() && at <= p && settled(after, input, p, t)
}

/// A growth in progress goes on through an extension that leaves its seed alone.
proof fn lemma_extends_but_trans(
    a: Entries,
    b: Entries,
    c: Entries,
    input: Seq<char>,
    tag: CacheType,
    at: nat,
    from: nat,
)
    requires
        extends_but(b, a, input, tag, at),
        extends(c, b, input, tag, from),
        at <= from,
    ensures
        extends_but(c, a, input, tag, at),
{
    assert forall|p: nat, t: CacheType| #[trigger] a.contains_key((p, t)) implies c.contains_key(
        (p, t),
    ) && c[(p, t)] == a[(p, t)] by {
        assert(b.contains_key((p, t)));
    }
    assert forall|p: nat, t: CacheType| #[trigger]
        c.contains_key((p, t)) && !a.contains_key((p, t)) && !(p == at && t == tag) implies t.rank()
        <= tag.rank() && at <= p && settled(c, input, p, t) by {
        if b.contains_key((p, t)) {
            assert(settled(b, input, p, t));
        }
    }
}

/// Writing the entry of `tag` at `at` leaves a growth in progress at that key as it was.
proof fn lemma_seed_written(
    a: Entries,
    b: Entries,
    base: Entries,
    input: Seq<char>,
    tag: CacheType,
    at: nat,
    o: Outcome,
)
    requires
        b == a.insert((at, tag), o),
        !base.contains_key((at, tag)),
        extends_but(a, base, input, tag, at),
        settled_but(a, input, tag, at),
    ensures
        extends_but(b, base, input, tag, at),
        settled_but(b, input, tag, at),
{
    assert forall|p: nat, t: CacheType|
        t.rank() <= tag.rank() && !(p == at && t == tag) implies #[trigger] settled(
        b,
        input,
        p,
        t,
    ) by {
        assert(settled(a, input, p, t));
    }
    assert forall|p: nat, t: CacheType| #[trigger]
        b.contains_key((p, t)) && !base.contains_key((p, t)) && !(p == at && t == tag) implies t.rank()
        <= tag.rank() && at <= p && settled(b, input, p, t) by {
        assert(a.contains_key((p, t)));
        assert(settled(a, input, p, t));
    }
    assert forall|p: nat, t: CacheType| #[trigger] base.contains_key((p, t)) implies b.contains_key(
        (p, t),
    ) && b[(p, t)] == base[(p, t)] by {
        assert(a.contains_key((p, t)));
    }
}

/// A growth that has ended with its seed settled has extended the cache.
proof fn lemma_growth_done(
    a: Entries,
    base: Entries,
    input: Seq<char>,
    tag: CacheType,
    at: nat,
)
    requires
        extends_but(a, base, input, tag, at),
        settled(a, input, at, tag),
    ensures
        extends(a, base, input, tag, at),
{
}

/// A call of the rule `called` from the state `b`, while running the rule `tag` from `at`,
/// leaves the cache extended since the start `a`, and what was ready is ready still.
proof fn lemma_call(a: Parser, b: Parser, c: Parser, called: CacheType, tag: CacheType, at: nat)
    requires
        b.grew_from(a, tag, at),
        c.grew_from(b, called, b.pos()),
        called.rank() <= tag.rank(),
        at <= b.pos(),
        b.ready(tag, at),
    ensures
        c.grew_from(a, tag, at),
        c.ready(tag, at),
{
    lemma_extends_trans(
        a.cache@,
        b.cache@,
        c.cache@,
        a.input(),
        tag,
        at,
        called,
        b.pos(),
        tag,
        at,
    );
    lemma_settled_kept(b.cache@, c.cache@, a.input(), called, b.pos(), tag, at);
}

impl Parser {
    /// Whether the body of the rule `tag` can be entered at the cursor: the rule is ready,
    /// and a left-recursive rule, and no other, has its seed in the cache.
    pub open spec fn entered(&self, tag: CacheType) -> bool {
        &&& self.ready(tag, self.pos())
        &&& grows(tag) <==> self.cache@.contains_key((self.pos(), tag))
        &&& grows(tag) ==> sound_outcome(tag, self.input(), self.pos(), self.seed(tag))
    }

    /// The seed of `tag` at the cursor: the entry that the rule's growth keeps there.
    pub open spec fn seed(&self, tag: CacheType) -> Outcome {
        if grows(tag) {
            self.cache@[(self.pos(), tag)]
        } else {
            failure_at(self.pos())
        }
    }

    /// Whether this state came from `before` by a part of the body of the rule `tag`: the
    /// cache has grown around the rule's own entry, which is as it was, and every lookup
    /// that missed has been followed by a write.
    pub open spec fn passed(&self, before: Parser, tag: CacheType) -> bool {
        &&& self.grew_from(before, tag, before.pos())
        &&& self.ready(tag, before.pos())
        &&& self.cache.pending() == before.cache.pending()
        &&& self.cache@.contains_key((before.pos(), tag)) == before.cache@.contains_key(
            (before.pos(), tag),
        )
        &&& grows(tag) ==> self.cache@[(before.pos(), tag)] == before.cache@[(before.pos(), tag)]
    }

    /// Whether this state came from `before` by a call of the rule `tag` that the cache
    /// answered: the cursor is at the entry's end, the cache holds what it held, and one
    /// lookup, one hit and, where events are traced, the hit's event have been added.
    pub open spec fn answered(&self, before: Parser, tag: CacheType) -> bool {
        &&& self.pos() == before.cache@[(before.pos(), tag)].0
        &&& self.cache@ == before.cache@
        &&& self.cache.len() == before.cache.len()
        &&& self.cache.lookups() == before.cache.lookups() + 1
        &&& self.cache.hits() == before.cache.hits() + 1
        &&& self.cache.trace() == before.cache.traced(
            before.cache.trace(),
            TraceEventView {
                kind: TraceKind::Hit,
                start: before.pos(),
                end: self.pos(),
                rule: tag,
                outcome: before.cache@[(before.pos(), tag)].1,
            },
        )
    }

    /// Whether a call of the rule `tag` on the state `before` gave this state and `outcome`:
    /// the cache has grown, the rule's entry at the start is there, and it is the outcome.
    pub open spec fn ran(&self, before: Parser, tag: CacheType, outcome: Outcome) -> bool {
        &&& self.grew_from(before, tag, before.pos())
        &&& self.cache.pending() == before.cache.pending()
        &&& self.cache@.contains_key((before.pos(), tag))
        &&& self.cache@[(before.pos(), tag)] == outcome
        &&& self.pos() == outcome.0
        &&& before.cache@.contains_key((before.pos(), tag)) ==> self.answered(before, tag)
    }

    /// Reads the literal `s`, which is one character long.
    fn sign(&mut self, s: &'static str) -> (b: bool)
        requires
            s@.len() == 1,
        ensures
            final(self).input() == old(self).input(),
            final(self).cache == old(self).cache,
            b == (char_at(old(self).input(), old(self).pos()) == Some(s@[0])),
            final(self).pos() == old(self).pos() + (if b { 1nat } else { 0nat }),
    {
        proof {
            assert(s@ =~= seq![s@[0]]);
            lemma_matches_one(self.input(), self.pos(), s@[0]);
        }
        self.expect(s).is_some()
    }

    /// The rule `tag` at the cursor: from the cache if it is there, else run and stored.
    pub fn rule(&mut self, tag: CacheType) -> (r: CacheResult)
        requires
            old(self).ready(tag, old(self).pos()),
        ensures
            final(self).ran(*old(self), tag, (final(self).pos(), r@)),
        decreases
            tag.rank(),
            room(old(self).input(), old(self).pos()),
            (if old(self).cache@.contains_key((old(self).pos(), tag)) { 0nat } else { 6nat }),
    {
        let pos = self.stream.mark();
        match self.cache.get(pos, tag) {
            Some((end, cr)) => {
                self.stream.reset(end);
                cr
            },
            None => {
                if tag.is_left_recursive() {
                    self.resolve(tag)
                } else {
                    self.once(tag)
                }
            },
        }
    }

    /// A rule that is not left-recursive, on a miss: its body is run once and what it gave
    /// is stored.
    fn once(&mut self, tag: CacheType) -> (r: CacheResult)
        requires
            old(self).entered(tag),
            !grows(tag),
        ensures
            final(self).grew_from(*old(self), tag, old(self).pos()),
            final(self).cache.pending() == old(self).cache.pending() - 1,
            final(self).cache@.contains_key((old(self).pos(), tag)),
            final(self).cache@[(old(self).pos(), tag)] == (final(self).pos(), r@),
        decreases tag.rank(), room(old(self).input(), old(self).pos()), 5nat,
    {
        let pos = self.stream.mark();
        let r = self.body(tag);
        let end = self.stream.mark();
        let ghost mid = *self;
        self.cache.insert(pos, tag, end, r.clone());
        proof {
            let input = self.input();
            assert(extends(self.cache@, mid.cache@, input, tag, pos as nat));
            lemma_extends_trans(
                old(self).cache@,
                mid.cache@,
                self.cache@,
                input,
                tag,
                pos as nat,
                tag,
                pos as nat,
                tag,
                pos as nat,
            );
        }
        r
    }

    /// A left-recursive rule, on a miss: a failure is stored as the seed, and the body is
    /// run for as long as each pass improves on the seed, which each improvement replaces.
    fn resolve(&mut self, tag: CacheType) -> (r: CacheResult)
        requires
            old(self).ready(tag, old(self).pos()),
            grows(tag),
            !old(self).cache@.contains_key((old(self).pos(), tag)),
        ensures
            final(self).grew_from(*old(self), tag, old(self).pos()),
            final(self).cache.pending() == old(self).cache.pending() - 1,
            final(self).cache@.contains_key((old(self).pos(), tag)),
            final(self).cache@[(old(self).pos(), tag)] == (final(self).pos(), r@),
        decreases tag.rank(), room(old(self).input(), old(self).pos()), 5nat,
    {
        let pos = self.stream.mark();
        let ghost input = self.input();
        let ghost base = self.cache@;
        self.cache.insert(pos, tag, pos, CacheResult::Failure);
        proof {
            lemma_seed_written(base, self.cache@, base, input, tag, pos as nat, failure_at(pos as nat));
        }
        let mut end: usize = pos;
        let mut seed = CacheResult::Failure;
        let mut growing = true;
        while growing
            invariant
                self.input() == input,
                input == old(self).input(),
                pos == old(self).pos(),
                base == old(self).cache@,
                grows(tag),
                self.cache.wf(),
                self.cache.verbose() == old(self).cache.verbose(),
                continues(self.cache.trace(), old(self).cache.trace(), self.cache.verbose()),
                self.cache.pending() == old(self).cache.pending() - 1,
                !base.contains_key((pos as nat, tag)),
                self.cache@.contains_key((pos as nat, tag)),
                self.cache@[(pos as nat, tag)] == (end as nat, seed@),
                settled_but(self.cache@, input, tag, pos as nat),
                extends_but(self.cache@, base, input, tag, pos as nat),
                sound_outcome(tag, input, pos as nat, (end as nat, seed@)),
                grown(tag, input, pos as nat, (end as nat, seed@)) == rule_at(tag, input, pos as nat),
                !growing ==> !improves(
                    input,
                    (end as nat, seed@),
                    pass_of(tag, input, pos as nat, (end as nat, seed@)),
                ),
            decreases growth_left(input, (end as nat, seed@)) + (if growing { 1nat } else { 0nat }),
        {
            self.stream.reset(pos);
            let ghost before = *self;
            let r = self.body(tag);
            let e = self.stream.mark();
            proof {
                lemma_pass_sound(tag, input, pos as nat, (end as nat, seed@));
                lemma_extends_but_trans(
                    base,
                    before.cache@,
                    self.cache@,
                    input,
                    tag,
                    pos as nat,
                    pos as nat,
                );
                lemma_continues_trans(
                    old(self).cache.trace(),
                    before.cache.trace(),
                    self.cache.trace(),
                    self.cache.verbose(),
                );
            }
            if r.is_success() && (!seed.is_success() || e > end) {
                let ghost mid = self.cache@;
                self.cache.grow(pos, tag, e, r.clone());
                proof {
                    lemma_seed_written(mid, self.cache@, base, input, tag, pos as nat, (e as nat, r@));
                }
                seed = r;
                end = e;
            } else {
                growing = false;
            }
        }
        self.stream.reset(end);
        proof {
            lemma_growth_done(self.cache@, base, input, tag, pos as nat);
        }
        seed
    }

    /// One pass over the body of the rule `tag` at the cursor.
    fn body(&mut self, tag: CacheType) -> (r: CacheResult)
        requires
            old(self).entered(tag),
        ensures
            final(self).passed(*old(self), tag),
            (final(self).pos(), r@) == pass_of(
                tag,
                old(self).input(),
                old(self).pos(),
                old(self).seed(tag),
            ),
        decreases tag.rank(), room(old(self).input(), old(self).pos()), 4nat,
    {
        match tag {
            CacheType::Namespace => match self.namespace_body() {
                Some(t) => CacheResult::Namespace(t),
                None => CacheResult::Failure,
            },
            CacheType::Evaluation => match self.evaluation_body() {
                Some(t) => CacheResult::Evaluation(t),
                None => CacheResult::Failure,
            },
            CacheType::Primary => match self.primary_body() {
                Some(t) => CacheResult::Primary(t),
                None => CacheResult::Failure,
            },
            CacheType::Unary => match self.unary_body() {
                Some(t) => CacheResult::Unary(t),
                None => CacheResult::Failure,
            },
            CacheType::Multiplicity => match self.multiplicity_body() {
                Some(t) => CacheResult::Multiplicity(t),
                None => CacheResult::Failure,
            },
            CacheType::Additive => match self.additive_body() {
                Some(t) => CacheResult::Additive(t),
                None => CacheResult::Failure,
            },
        }
    }
}

/// A state has grown from itself.
proof fn lemma_start(a: Parser, tag: CacheType, at: nat)
    requires
        a.cache.wf(),
    ensures
        a.grew_from(a, tag, at),
{
}

impl Parser {
    /// `namespace <- namespace '::' name / name`
    ///
    /// The rule at the cursor, through the cache. Where the cache held only what the rules
    /// give, the result is what the grammar says, the cursor is after it, or where it was
    /// if there is no match, and the cache holds only what the rules give still.
    pub fn namespace(&mut self) -> (r: Option<Namespace>)
        requires
            old(self).ready(CacheType::Namespace, old(self).pos()),
        ensures
            final(self).grew_from(*old(self), CacheType::Namespace, old(self).pos()),
            final(self).cache.pending() == old(self).cache.pending(),
            old(self).cache@.contains_key((old(self).pos(), CacheType::Namespace)) ==> final(self).answered(
                *old(self),
                CacheType::Namespace,
            ),
            final(self).cache@.contains_key((old(self).pos(), CacheType::Namespace)),
            final(self).pos() == final(self).cache@[(old(self).pos(), CacheType::Namespace)].0,
            reading(r, final(self).pos()) == outcome_namespace(
                final(self).cache@[(old(self).pos(), CacheType::Namespace)],
            ),
            old(self).settled(old(self).pos(), CacheType::Namespace) ==> agrees(
                r,
                final(self).pos(),
                old(self).pos(),
                namespace_at(old(self).input(), old(self).pos()),
            ),
            old(self).sound() ==> final(self).sound(),
        decreases
            0nat,
            room(old(self).input(), old(self).pos()),
            (if old(self).cache@.contains_key((old(self).pos(), CacheType::Namespace)) {
                1nat
            } else {
                7nat
            }),
    {
        let r = self.rule(CacheType::Namespace);
        proof {
            lemma_rule_sound(CacheType::Namespace, self.input(), old(self).pos());
            lemma_settled_kept(
                old(self).cache@,
                self.cache@,
                self.input(),
                CacheType::Namespace,
                old(self).pos(),
                CacheType::Namespace,
                old(self).pos(),
            );
        }
        r.into_namespace()
    }

    /// `evaluation <- evaluation '(' ^ ')' / evaluation '.' ^ name / namespace`
    ///
    /// The rule at the cursor, through the cache. Where the cache held only what the rules
    /// give, the result is what the grammar says, the cursor is after it, or where it was
    /// if there is no match, and the cache holds only what the rules give still.
    pub fn evaluation(&mut self) -> (r: Option<Evaluation>)
        requires
            old(self).ready(CacheType::Evaluation, old(self).pos()),
        ensures
            final(self).grew_from(*old(self), CacheType::Evaluation, old(self).pos()),
            final(self).cache.pending() == old(self).cache.pending(),
            old(self).cache@.contains_key((old(self).pos(), CacheType::Evaluation)) ==> final(self).answered(
                *old(self),
                CacheType::Evaluation,
            ),
            final(self).cache@.contains_key((old(self).pos(), CacheType::Evaluation)),
            final(self).pos() == final(self).cache@[(old(self).pos(), CacheType::Evaluation)].0,
            reading(r, final(self).pos()) == outcome_evaluation(
                final(self).cache@[(old(self).pos(), CacheType::Evaluation)],
            ),
            old(self).settled(old(self).pos(), CacheType::Evaluation) ==> agrees(
                r,
                final(self).pos(),
                old(self).pos(),
                evaluation_at(old(self).input(), old(self).pos()),
            ),
            old(self).sound() ==> final(self).sound(),
        decreases
            1nat,
            room(old(self).input(), old(self).pos()),
            (if old(self).cache@.contains_key((old(self).pos(), CacheType::Evaluation)) {
                1nat
            } else {
                7nat
            }),
    {
        let r = self.rule(CacheType::Evaluation);
        proof {
            lemma_rule_sound(CacheType::Evaluation, self.input(), old(self).pos());
            lemma_settled_kept(
                old(self).cache@,
                self.cache@,
                self.input(),
                CacheType::Evaluation,
                old(self).pos(),
                CacheType::Evaluation,
                old(self).pos(),
            );
        }
        r.into_evaluation()
    }

    /// `primary <- boolean / evaluation / decimal / integer`
    ///
    /// The rule at the cursor, through the cache. Where the cache held only what the rules
    /// give, the result is what the grammar says, the cursor is after it, or where it was
    /// if there is no match, and the cache holds only what the rules give still.
    pub fn primary(&mut self) -> (r: Option<Primary>)
        requires
            old(self).ready(CacheType::Primary, old(self).pos()),
        ensures
            final(self).grew_from(*old(self), CacheType::Primary, old(self).pos()),
            final(self).cache.pending() == old(self).cache.pending(),
            old(self).cache@.contains_key((old(self).pos(), CacheType::Primary)) ==> final(self).answered(
                *old(self),
                CacheType::Primary,
            ),
            final(self).cache@.contains_key((old(self).pos(), CacheType::Primary)),
            final(self).pos() == final(self).cache@[(old(self).pos(), CacheType::Primary)].0,
            reading(r, final(self).pos()) == outcome_primary(
                final(self).cache@[(old(self).pos(), CacheType::Primary)],
            ),
            old(self).settled(old(self).pos(), CacheType::Primary) ==> agrees(
                r,
                final(self).pos(),
                old(self).pos(),
                primary_at(old(self).input(), old(self).pos()),
            ),
            old(self).sound() ==> final(self).sound(),
        decreases
            2nat,
            room(old(self).input(), old(self).pos()),
            (if old(self).cache@.contains_key((old(self).pos(), CacheType::Primary)) {
                1nat
            } else {
                7nat
            }),
    {
        let r = self.rule(CacheType::Primary);
        proof {
            lemma_rule_sound(CacheType::Primary, self.input(), old(self).pos());
            lemma_settled_kept(
                old(self).cache@,
                self.cache@,
                self.input(),
                CacheType::Primary,
                old(self).pos(),
                CacheType::Primary,
                old(self).pos(),
            );
        }
        r.into_primary()
    }

    /// `unary <- '+' unary / '-' unary / primary`
    ///
    /// The rule at the cursor, through the cache. Where the cache held only what the rules
    /// give, the result is what the grammar says, the cursor is after it, or where it was
    /// if there is no match, and the cache holds only what the rules give still.
    pub fn unary(&mut self) -> (r: Option<Unary>)
        requires
            old(self).ready(CacheType::Unary, old(self).pos()),
        ensures
            final(self).grew_from(*old(self), CacheType::Unary, old(self).pos()),
            final(self).cache.pending() == old(self).cache.pending(),
            old(self).cache@.contains_key((old(self).pos(), CacheType::Unary)) ==> final(self).answered(
                *old(self),
                CacheType::Unary,
            ),
            final(self).cache@.contains_key((old(self).pos(), CacheType::Unary)),
            final(self).pos() == final(self).cache@[(old(self).pos(), CacheType::Unary)].0,
            reading(r, final(self).pos()) == outcome_unary(
                final(self).cache@[(old(self).pos(), CacheType::Unary)],
            ),
            old(self).settled(old(self).pos(), CacheType::Unary) ==> agrees(
                r,
                final(self).pos(),
                old(self).pos(),
                unary_at(old(self).input(), old(self).pos()),
            ),
            old(self).sound() ==> final(self).sound(),
        decreases
            3nat,
            room(old(self).input(), old(self).pos()),
            (if old(self).cache@.contains_key((old(self).pos(), CacheType::Unary)) {
                1nat
            } else {
                7nat
            }),
    {
        let r = self.rule(CacheType::Unary);
        proof {
            lemma_rule_sound(CacheType::Unary, self.input(), old(self).pos());
            lemma_settled_kept(
                old(self).cache@,
                self.cache@,
                self.input(),
                CacheType::Unary,
                old(self).pos(),
                CacheType::Unary,
                old(self).pos(),
            );
        }
        r.into_unary()
    }

    /// `multiplicity <- multiplicity '*' unary / multiplicity '/' unary / multiplicity '%' unary / unary`
    ///
    /// The rule at the cursor, through the cache. Where the cache held only what the rules
    /// give, the result is what the grammar says, the cursor is after it, or where it was
    /// if there is no match, and the cache holds only what the rules give still.
    pub fn multiplicity(&mut self) -> (r: Option<Multiplicity>)
        requires
            old(self).ready(CacheType::Multiplicity, old(self).pos()),
        ensures
            final(self).grew_from(*old(self), CacheType::Multiplicity, old(self).pos()),
            final(self).cache.pending() == old(self).cache.pending(),
            old(self).cache@.contains_key((old(self).pos(), CacheType::Multiplicity)) ==> final(self).answered(
                *old(self),
                CacheType::Multiplicity,
            ),
            final(self).cache@.contains_key((old(self).pos(), CacheType::Multiplicity)),
            final(self).pos() == final(self).cache@[(old(self).pos(), CacheType::Multiplicity)].0,
            reading(r, final(self).pos()) == outcome_multiplicity(
                final(self).cache@[(old(self).pos(), CacheType::Multiplicity)],
            ),
            old(self).settled(old(self).pos(), CacheType::Multiplicity) ==> agrees(
                r,
                final(self).pos(),
                old(self).pos(),
                multiplicity_at(old(self).input(), old(self).pos()),
            ),
            old(self).sound() ==> final(self).sound(),
        decreases
            4nat,
            room(old(self).input(), old(self).pos()),
            (if old(self).cache@.contains_key((old(self).pos(), CacheType::Multiplicity)) {
                1nat
            } else {
                7nat
            }),
    {
        let r = self.rule(CacheType::Multiplicity);
        proof {
            lemma_rule_sound(CacheType::Multiplicity, self.input(), old(self).pos());
            lemma_settled_kept(
                old(self).cache@,
                self.cache@,
                self.input(),
                CacheType::Multiplicity,
                old(self).pos(),
                CacheType::Multiplicity,
                old(self).pos(),
            );
        }
        r.into_multiplicity()
    }

    /// `additive <- additive '+' multiplicity / additive '-' multiplicity / multiplicity`
    ///
    /// The rule at the cursor, through the cache. Where the cache held only what the rules
    /// give, the result is what the grammar says, the cursor is after it, or where it was
    /// if there is no match, and the cache holds only what the rules give still.
    pub fn additive(&mut self) -> (r: Option<Additive>)
        requires
            old(self).ready(CacheType::Additive, old(self).pos()),
        ensures
            final(self).grew_from(*old(self), CacheType::Additive, old(self).pos()),
            final(self).cache.pending() == old(self).cache.pending(),
            old(self).cache@.contains_key((old(self).pos(), CacheType::Additive)) ==> final(self).answered(
                *old(self),
                CacheType::Additive,
            ),
            final(self).cache@.contains_key((old(self).pos(), CacheType::Additive)),
            final(self).pos() == final(self).cache@[(old(self).pos(), CacheType::Additive)].0,
            reading(r, final(self).pos()) == outcome_additive(
                final(self).cache@[(old(self).pos(), CacheType::Additive)],
            ),
            old(self).settled(old(self).pos(), CacheType::Additive) ==> agrees(
                r,
                final(self).pos(),
                old(self).pos(),
                additive_at(old(self).input(), old(self).pos()),
            ),
            old(self).sound() ==> final(self).sound(),
        decreases
            5nat,
            room(old(self).input(), old(self).pos()),
            (if old(self).cache@.contains_key((old(self).pos(), CacheType::Additive)) {
                1nat
            } else {
                7nat
            }),
    {
        let r = self.rule(CacheType::Additive);
        proof {
            lemma_rule_sound(CacheType::Additive, self.input(), old(self).pos());
            lemma_settled_kept(
                old(self).cache@,
                self.cache@,
                self.input(),
                CacheType::Additive,
                old(self).pos(),
                CacheType::Additive,
                old(self).pos(),
            );
        }
        r.into_additive()
    }

    /// The body of `namespace`: one pass over its alternatives, in order.
    pub fn namespace_body(&mut self) -> (r: Option<Namespace>)
        requires
            old(self).entered(CacheType::Namespace),
        ensures
            final(self).passed(*old(self), CacheType::Namespace),
            agrees(
                r,
                final(self).pos(),
                old(self).pos(),
                namespace_pass(
                    old(self).input(),
                    old(self).pos(),
                    outcome_namespace(old(self).seed(CacheType::Namespace)),
                ),
            ),
        decreases 0nat, room(old(self).input(), old(self).pos()), 3nat,
    {
        let pos = self.stream.mark();
        match self.namespace_qualified() {
            Some(t) => {
                return Some(t);
            },
            None => {
                self.stream.reset(pos);
            },
        }
        match self.name() {
            Some(name) => Some(Namespace::Name(name)),
            None => {
                self.stream.reset(pos);
                None
            },
        }
    }

    /// The left-recursive alternative of `namespace`: `namespace '::' name`.
    fn namespace_qualified(&mut self) -> (r: Option<Namespace>)
        requires
            old(self).entered(CacheType::Namespace),
        ensures
            final(self).passed(*old(self), CacheType::Namespace),
            reading(r, final(self).pos()) == namespace_qualified(
                old(self).input(),
                outcome_namespace(old(self).seed(CacheType::Namespace)),
            ),
        decreases 0nat, room(old(self).input(), old(self).pos()), 2nat,
    {
        proof {
            reveal_strlit("::");
            assert("::"@ =~= seq![':', ':']);
            lemma_start(*self, CacheType::Namespace, self.pos());
        }
        let ghost start = *self;
        let ns = match self.namespace() {
            Some(ns) => ns,
            None => {
                proof {
                    lemma_call(start, start, *self, CacheType::Namespace, CacheType::Namespace, start.pos());
                }
                return None;
            },
        };
        proof {
            lemma_call(start, start, *self, CacheType::Namespace, CacheType::Namespace, start.pos());
        }
        if self.expect("::").is_none() {
            return None;
        }
        match self.name() {
            Some(name) => Some(Namespace::Space { ns: Box::new(ns), name }),
            None => None,
        }
    }

    /// The body of `evaluation`: one pass over its alternatives, in order. An alternative
    /// that committed and then failed fails the pass.
    pub fn evaluation_body(&mut self) -> (r: Option<Evaluation>)
        requires
            old(self).entered(CacheType::Evaluation),
        ensures
            final(self).passed(*old(self), CacheType::Evaluation),
            agrees(
                r,
                final(self).pos(),
                old(self).pos(),
                evaluation_pass(
                    old(self).input(),
                    old(self).pos(),
                    outcome_evaluation(old(self).seed(CacheType::Evaluation)),
                ),
            ),
        decreases 1nat, room(old(self).input(), old(self).pos()), 3nat,
    {
        let pos = self.stream.mark();
        let ghost start = *self;
        let mut cut = false;
        match self.evaluation_call(&mut cut) {
            Some(t) => {
                return Some(t);
            },
            None => {
                self.stream.reset(pos);
            },
        }
        if cut {
            return None;
        }
        match self.evaluation_member(&mut cut) {
            Some(t) => {
                return Some(t);
            },
            None => {
                self.stream.reset(pos);
            },
        }
        if cut {
            return None;
        }
        let ghost before = *self;
        let r = self.namespace();
        proof {
            lemma_call(start, before, *self, CacheType::Namespace, CacheType::Evaluation, start.pos());
        }
        match r {
            Some(ns) => Some(Evaluation::Namespace(ns)),
            None => {
                self.stream.reset(pos);
                None
            },
        }
    }

    /// The first alternative of `evaluation`: `evaluation '(' ^ ')'`. Sets `cut` once `(`
    /// has been read.
    fn evaluation_call(&mut self, cut: &mut bool) -> (r: Option<Evaluation>)
        requires
            old(self).entered(CacheType::Evaluation),
            !*old(cut),
        ensures
            final(self).passed(*old(self), CacheType::Evaluation),
            (reading(r, final(self).pos()), *final(cut)) == evaluation_call(
                old(self).input(),
                outcome_evaluation(old(self).seed(CacheType::Evaluation)),
            ),
        decreases 1nat, room(old(self).input(), old(self).pos()), 2nat,
    {
        proof {
            reveal_strlit("(");
            reveal_strlit(")");
            lemma_start(*self, CacheType::Evaluation, self.pos());
        }
        let ghost start = *self;
        let r = self.evaluation();
        proof {
            lemma_call(start, start, *self, CacheType::Evaluation, CacheType::Evaluation, start.pos());
        }
        let ident = match r {
            Some(t) => t,
            None => {
                return None;
            },
        };
        if !self.sign("(") {
            return None;
        }
        *cut = true;
        if !self.sign(")") {
            return None;
        }
        Some(Evaluation::Call { ident: Box::new(ident) })
    }

    /// The second alternative of `evaluation`: `evaluation '.' ^ name`. Sets `cut` once `.`
    /// has been read.
    fn evaluation_member(&mut self, cut: &mut bool) -> (r: Option<Evaluation>)
        requires
            old(self).entered(CacheType::Evaluation),
            !*old(cut),
        ensures
            final(self).passed(*old(self), CacheType::Evaluation),
            (reading(r, final(self).pos()), *final(cut)) == evaluation_member(
                old(self).input(),
                outcome_evaluation(old(self).seed(CacheType::Evaluation)),
            ),
        decreases 1nat, room(old(self).input(), old(self).pos()), 2nat,
    {
        proof {
            reveal_strlit(".");
            lemma_start(*self, CacheType::Evaluation, self.pos());
        }
        let ghost start = *self;
        let r = self.evaluation();
        proof {
            lemma_call(start, start, *self, CacheType::Evaluation, CacheType::Evaluation, start.pos());
        }
        let ident = match r {
            Some(t) => t,
            None => {
                return None;
            },
        };
        if !self.sign(".") {
            return None;
        }
        *cut = true;
        match self.name() {
            Some(member) => Some(Evaluation::Member { ident: Box::new(ident), member }),
            None => None,
        }
    }

    /// The body of `primary`: its alternatives, in order.
    pub fn primary_body(&mut self) -> (r: Option<Primary>)
        requires
            old(self).entered(CacheType::Primary),
        ensures
            final(self).passed(*old(self), CacheType::Primary),
            agrees(
                r,
                final(self).pos(),
                old(self).pos(),
                primary_pass(old(self).input(), old(self).pos()),
            ),
        decreases 2nat, room(old(self).input(), old(self).pos()), 3nat,
    {
        let pos = self.stream.mark();
        proof {
            lemma_start(*self, CacheType::Primary, self.pos());
        }
        let ghost start = *self;
        match self.boolean() {
            Some(b) => {
                return Some(Primary::Boolean(b));
            },
            None => {
                self.stream.reset(pos);
            },
        }
        let ghost before = *self;
        let e = self.evaluation();
        proof {
            lemma_call(start, before, *self, CacheType::Evaluation, CacheType::Primary, start.pos());
        }
        match e {
            Some(t) => {
                return Some(Primary::Evaluation(t));
            },
            None => {
                self.stream.reset(pos);
            },
        }
        match self.decimal() {
            Some(d) => {
                return Some(Primary::Decimal(d));
            },
            None => {
                self.stream.reset(pos);
            },
        }
        match self.integer() {
            Some(i) => Some(Primary::Integer(i)),
            None => {
                self.stream.reset(pos);
                None
            },
        }
    }

    /// The body of `unary`: its alternatives, in order.
    pub fn unary_body(&mut self) -> (r: Option<Unary>)
        requires
            old(self).entered(CacheType::Unary),
        ensures
            final(self).passed(*old(self), CacheType::Unary),
            agrees(
                r,
                final(self).pos(),
                old(self).pos(),
                unary_pass(old(self).input(), old(self).pos()),
            ),
        decreases 3nat, room(old(self).input(), old(self).pos()), 3nat,
    {
        proof {
            reveal_strlit("+");
            reveal_strlit("-");
        }
        let pos = self.stream.mark();
        let ghost start = *self;
        match self.unary_signed("+", UnaOp::Pos) {
            Some(t) => {
                return Some(t);
            },
            None => {
                self.stream.reset(pos);
            },
        }
        match self.unary_signed("-", UnaOp::Neg) {
            Some(t) => {
                return Some(t);
            },
            None => {
                self.stream.reset(pos);
            },
        }
        let ghost before = *self;
        let p = self.primary();
        proof {
            lemma_call(start, before, *self, CacheType::Primary, CacheType::Unary, start.pos());
        }
        match p {
            Some(t) => Some(Unary::Primary(t)),
            None => {
                self.stream.reset(pos);
                None
            },
        }
    }

    /// An alternative of `unary` that starts with an operator: `sign unary`.
    fn unary_signed(&mut self, sign: &'static str, op: UnaOp) -> (r: Option<Unary>)
        requires
            old(self).entered(CacheType::Unary),
            sign@.len() == 1,
        ensures
            final(self).passed(*old(self), CacheType::Unary),
            reading(r, final(self).pos()) == unary_signed(
                old(self).input(),
                old(self).pos(),
                sign@[0],
                op,
            ),
        decreases 3nat, room(old(self).input(), old(self).pos()), 2nat,
    {
        proof {
            lemma_start(*self, CacheType::Unary, self.pos());
        }
        let ghost start = *self;
        if !self.sign(sign) {
            return None;
        }
        let ghost before = *self;
        let r = self.unary();
        proof {
            lemma_call(start, before, *self, CacheType::Unary, CacheType::Unary, start.pos());
        }
        match r {
            Some(inner) => Some(Unary::Unary { op, inner: Box::new(inner) }),
            None => None,
        }
    }

    /// The body of `multiplicity`: one pass over its alternatives, in order.
    pub fn multiplicity_body(&mut self) -> (r: Option<Multiplicity>)
        requires
            old(self).entered(CacheType::Multiplicity),
        ensures
            final(self).passed(*old(self), CacheType::Multiplicity),
            agrees(
                r,
                final(self).pos(),
                old(self).pos(),
                multiplicity_pass(
                    old(self).input(),
                    old(self).pos(),
                    outcome_multiplicity(old(self).seed(CacheType::Multiplicity)),
                ),
            ),
        decreases 4nat, room(old(self).input(), old(self).pos()), 3nat,
    {
        proof {
            reveal_strlit("*");
            reveal_strlit("/");
            reveal_strlit("%");
        }
        let pos = self.stream.mark();
        let ghost start = *self;
        match self.multiplicity_step("*", MulOp::Mul) {
            Some(t) => {
                return Some(t);
            },
            None => {
                self.stream.reset(pos);
            },
        }
        match self.multiplicity_step("/", MulOp::Div) {
            Some(t) => {
                return Some(t);
            },
            None => {
                self.stream.reset(pos);
            },
        }
        match self.multiplicity_step("%", MulOp::Mod) {
            Some(t) => {
                return Some(t);
            },
            None => {
                self.stream.reset(pos);
            },
        }
        let ghost before = *self;
        let u = self.unary();
        proof {
            lemma_call(start, before, *self, CacheType::Unary, CacheType::Multiplicity, start.pos());
        }
        match u {
            Some(t) => Some(Multiplicity::Unary(t)),
            None => {
                self.stream.reset(pos);
                None
            },
        }
    }

    /// A left-recursive alternative of `multiplicity`: `multiplicity sign unary`.
    fn multiplicity_step(&mut self, sign: &'static str, op: MulOp) -> (r: Option<Multiplicity>)
        requires
            old(self).entered(CacheType::Multiplicity),
            sign@.len() == 1,
        ensures
            final(self).passed(*old(self), CacheType::Multiplicity),
            reading(r, final(self).pos()) == multiplicity_step(
                old(self).input(),
                old(self).pos(),
                outcome_multiplicity(old(self).seed(CacheType::Multiplicity)),
                sign@[0],
                op,
            ),
        decreases 4nat, room(old(self).input(), old(self).pos()), 2nat,
    {
        proof {
            lemma_start(*self, CacheType::Multiplicity, self.pos());
        }
        let ghost start = *self;
        let l = self.multiplicity();
        proof {
            lemma_call(start, start, *self, CacheType::Multiplicity, CacheType::Multiplicity, start.pos());
        }
        let lhs = match l {
            Some(t) => t,
            None => {
                return None;
            },
        };
        if !self.sign(sign) {
            return None;
        }
        let ghost before = *self;
        let u = self.unary();
        proof {
            lemma_call(start, before, *self, CacheType::Unary, CacheType::Multiplicity, start.pos());
        }
        match u {
            Some(rhs) => Some(Multiplicity::Multiplicity { lhs: Box::new(lhs), op, rhs }),
            None => None,
        }
    }

    /// The body of `additive`: one pass over its alternatives, in order.
    pub fn additive_body(&mut self) -> (r: Option<Additive>)
        requires
            old(self).entered(CacheType::Additive),
        ensures
            final(self).passed(*old(self), CacheType::Additive),
            agrees(
                r,
                final(self).pos(),
                old(self).pos(),
                additive_pass(
                    old(self).input(),
                    old(self).pos(),
                    outcome_additive(old(self).seed(CacheType::Additive)),
                ),
            ),
        decreases 5nat, room(old(self).input(), old(self).pos()), 3nat,
    {
        proof {
            reveal_strlit("+");
            reveal_strlit("-");
        }
        let pos = self.stream.mark();
        let ghost start = *self;
        match self.additive_step("+", AddOp::Add) {
            Some(t) => {
                return Some(t);
            },
            None => {
                self.stream.reset(pos);
            },
        }
        match self.additive_step("-", AddOp::Sub) {
            Some(t) => {
                return Some(t);
            },
            None => {
                self.stream.reset(pos);
            },
        }
        let ghost before = *self;
        let m = self.multiplicity();
        proof {
            lemma_call(start, before, *self, CacheType::Multiplicity, CacheType::Additive, start.pos());
        }
        match m {
            Some(t) => Some(Additive::Multiplicity(t)),
            None => {
                self.stream.reset(pos);
                None
            },
        }
    }

    /// A left-recursive alternative of `additive`: `additive sign multiplicity`.
    fn additive_step(&mut self, sign: &'static str, op: AddOp) -> (r: Option<Additive>)
        requires
            old(self).entered(CacheType::Additive),
            sign@.len() == 1,
        ensures
            final(self).passed(*old(self), CacheType::Additive),
            reading(r, final(self).pos()) == additive_step(
                old(self).input(),
                old(self).pos(),
                outcome_additive(old(self).seed(CacheType::Additive)),
                sign@[0],
                op,
            ),
        decreases 5nat, room(old(self).input(), old(self).pos()), 2nat,
    {
        proof {
            lemma_start(*self, CacheType::Additive, self.pos());
        }
        let ghost start = *self;
        let l = self.additive();
        proof {
            lemma_call(start, start, *self, CacheType::Additive, CacheType::Additive, start.pos());
        }
        let lhs = match l {
            Some(t) => t,
            None => {
                return None;
            },
        };
        if !self.sign(sign) {
            return None;
        }
        let ghost before = *self;
        let m = self.multiplicity();
        proof {
            lemma_call(start, before, *self, CacheType::Multiplicity, CacheType::Additive, start.pos());
        }
        match m {
            Some(rhs) => Some(Additive::Additive { lhs: Box::new(lhs), op, rhs }),
            None => None,
        }
    }
}

} // verus!
