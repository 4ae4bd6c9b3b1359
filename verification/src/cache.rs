//! The memoization cache: what each rule gave at each position, written once per key.

use crate::tree::{
    Additive, AdditiveView, Evaluation, EvaluationView, Multiplicity, MultiplicityView, Namespace,
    NamespaceView, Primary, PrimaryView, Unary, UnaryView,
};
use std::collections::HashMap;
use vstd::prelude::*;

verus! {

/// The memoized rules of the grammar, one tag per rule.
#[derive(Clone, Copy, Debug, PartialEq, Eq, Hash)]
pub enum CacheType {
    Additive,
    Multiplicity,
    Unary,
    Primary,
    Evaluation,
    Namespace,
}

impl CacheType {
    /// How loosely the rule binds. A rule calls only itself and rules of lower rank.
    pub open spec fn rank(self) -> nat {
        match self {
            CacheType::Namespace => 0,
            CacheType::Evaluation => 1,
            CacheType::Primary => 2,
            CacheType::Unary => 3,
            CacheType::Multiplicity => 4,
            CacheType::Additive => 5,
        }
    }

    /// The rank as a machine integer.
    pub fn index(self) -> (i: u8)
        ensures
            i == self.rank(),
    {
        match self {
            CacheType::Namespace => 0,
            CacheType::Evaluation => 1,
            CacheType::Primary => 2,
            CacheType::Unary => 3,
            CacheType::Multiplicity => 4,
            CacheType::Additive => 5,
        }
    }
}

/// What a rule gave: the node it built, or a failure.
#[derive(Debug, PartialEq, Eq)]
pub enum CacheResult {
    Failure,
    Additive(Additive),
    Multiplicity(Multiplicity),
    Unary(Unary),
    Primary(Primary),
    Evaluation(Evaluation),
    Namespace(Namespace),
}

/// What a [`CacheResult`] is.
pub ghost enum CacheResultView {
    Failure,
    Additive(AdditiveView),
    Multiplicity(MultiplicityView),
    Unary(UnaryView),
    Primary(PrimaryView),
    Evaluation(EvaluationView),
    Namespace(NamespaceView),
}

impl CacheResultView {
    /// Whether this is a failure or a node of the rule `tag`.
    pub open spec fn fits(self, tag: CacheType) -> bool {
        match self {
            CacheResultView::Failure => true,
            CacheResultView::Additive(_) => tag == CacheType::Additive,
            CacheResultView::Multiplicity(_) => tag == CacheType::Multiplicity,
            CacheResultView::Unary(_) => tag == CacheType::Unary,
            CacheResultView::Primary(_) => tag == CacheType::Primary,
            CacheResultView::Evaluation(_) => tag == CacheType::Evaluation,
            CacheResultView::Namespace(_) => tag == CacheType::Namespace,
        }
    }
}

impl View for CacheResult {
    type V = CacheResultView;

    open spec fn view(&self) -> CacheResultView {
        match self {
            CacheResult::Failure => CacheResultView::Failure,
            CacheResult::Additive(t) => CacheResultView::Additive(t@),
            CacheResult::Multiplicity(t) => CacheResultView::Multiplicity(t@),
            CacheResult::Unary(t) => CacheResultView::Unary(t@),
            CacheResult::Primary(t) => CacheResultView::Primary(t@),
            CacheResult::Evaluation(t) => CacheResultView::Evaluation(t@),
            CacheResult::Namespace(t) => CacheResultView::Namespace(t@),
        }
    }
}

impl Clone for CacheResult {
    fn clone(&self) -> (r: Self)
        ensures
            r@ == self@,
    {
        match self {
            CacheResult::Failure => CacheResult::Failure,
            CacheResult::Additive(t) => CacheResult::Additive(t.clone()),
            CacheResult::Multiplicity(t) => CacheResult::Multiplicity(t.clone()),
            CacheResult::Unary(t) => CacheResult::Unary(t.clone()),
            CacheResult::Primary(t) => CacheResult::Primary(t.clone()),
            CacheResult::Evaluation(t) => CacheResult::Evaluation(t.clone()),
            CacheResult::Namespace(t) => CacheResult::Namespace(t.clone()),
        }
    }
}

impl CacheResult {
    /// Whether a node was built.
    pub fn is_success(&self) -> (b: bool)
        ensures
            b == !(self@ is Failure),
    {
        match self {
            CacheResult::Failure => false,
            _ => true,
        }
    }

    /// The sum that was built, if one was.
    pub fn into_additive(self) -> (r: Option<Additive>)
        ensures
            match r {
                Some(t) => self@ == CacheResultView::Additive(t@),
                None => !(self@ is Additive),
            },
    {
        match self {
            CacheResult::Additive(t) => Some(t),
            _ => None,
        }
    }

    /// The product that was built, if one was.
    pub fn into_multiplicity(self) -> (r: Option<Multiplicity>)
        ensures
            match r {
                Some(t) => self@ == CacheResultView::Multiplicity(t@),
                None => !(self@ is Multiplicity),
            },
    {
        match self {
            CacheResult::Multiplicity(t) => Some(t),
            _ => None,
        }
    }

    /// The prefixed operand that was built, if one was.
    pub fn into_unary(self) -> (r: Option<Unary>)
        ensures
            match r {
                Some(t) => self@ == CacheResultView::Unary(t@),
                None => !(self@ is Unary),
            },
    {
        match self {
            CacheResult::Unary(t) => Some(t),
            _ => None,
        }
    }

    /// The operand that was built, if one was.
    pub fn into_primary(self) -> (r: Option<Primary>)
        ensures
            match r {
                Some(t) => self@ == CacheResultView::Primary(t@),
                None => !(self@ is Primary),
            },
    {
        match self {
            CacheResult::Primary(t) => Some(t),
            _ => None,
        }
    }

    /// The evaluation that was built, if one was.
    pub fn into_evaluation(self) -> (r: Option<Evaluation>)
        ensures
            match r {
                Some(t) => self@ == CacheResultView::Evaluation(t@),
                None => !(self@ is Evaluation),
            },
    {
        match self {
            CacheResult::Evaluation(t) => Some(t),
            _ => None,
        }
    }

    /// The qualified name that was built, if one was.
    pub fn into_namespace(self) -> (r: Option<Namespace>)
        ensures
            match r {
                Some(t) => self@ == CacheResultView::Namespace(t@),
                None => !(self@ is Namespace),
            },
    {
        match self {
            CacheResult::Namespace(t) => Some(t),
            _ => None,
        }
    }
}

/// Whether a traced event was a lookup that hit or a write.
#[derive(Clone, Copy, Debug, PartialEq, Eq)]
pub enum TraceKind {
    Hit,
    Store,
}

/// One line of the trace: a hit or a write, with the key and the entry.
#[derive(Debug, PartialEq, Eq)]
pub struct TraceEvent {
    pub kind: TraceKind,
    pub start: usize,
    pub end: usize,
    pub rule: CacheType,
    pub outcome: CacheResult,
}

/// What a [`TraceEvent`] is.
pub ghost struct TraceEventView {
    pub kind: TraceKind,
    pub start: nat,
    pub end: nat,
    pub rule: CacheType,
    pub outcome: CacheResultView,
}

impl View for TraceEvent {
    type V = TraceEventView;

    open spec fn view(&self) -> TraceEventView {
        TraceEventView {
            kind: self.kind,
            start: self.start as nat,
            end: self.end as nat,
            rule: self.rule,
            outcome: self.outcome@,
        }
    }
}

/// The views of a run of events, in order.
pub open spec fn event_views(events: Seq<TraceEvent>) -> Seq<TraceEventView> {
    events.map_values(|e: TraceEvent| e@)
}

/// A refused write: the key already held an entry.
#[derive(Clone, Copy, Debug, PartialEq, Eq)]
pub struct Conflict {
    pub pos: usize,
    pub rule: CacheType,
}

/// The number under which the entry of `tag` at `pos` is stored.
spec fn slot(pos: nat, tag: CacheType) -> u128 {
    (pos * 8 + tag.rank()) as u128
}

/// Different keys have different slots.
proof fn lemma_slot_injective(p: nat, s: CacheType, q: nat, t: CacheType)
    requires
        p <= usize::MAX,
        q <= usize::MAX,
    ensures
        slot(p, s) == slot(q, t) <==> p == q && s == t,
{
}

/// The cache of one parse.
pub struct Cache {
    body: HashMap<u128, (usize, CacheResult)>,
    verbose: bool,
    hit: usize,
    lookup: usize,
    trace: Vec<TraceEvent>,
    lookups: Ghost<nat>,
    hits: Ghost<nat>,
}

/// A count as a `usize` holds it: exact up to the largest `usize`, and that from there on.
pub open spec fn capped(n: nat) -> nat {
    if n <= usize::MAX {
        n
    } else {
        usize::MAX as nat
    }
}

impl View for Cache {
    type V = Map<(nat, CacheType), (nat, CacheResultView)>;

    /// The entries: from position and rule to end position and outcome.
    closed spec fn view(&self) -> Map<(nat, CacheType), (nat, CacheResultView)> {
        Map::new(
            |k: (nat, CacheType)| k.0 <= usize::MAX && self.body@.contains_key(slot(k.0, k.1)),
            |k: (nat, CacheType)|
                (self.body@[slot(k.0, k.1)].0 as nat, self.body@[slot(k.0, k.1)].1@),
        )
    }
}

impl Cache {
    /// The stored counters agree with the numbers of lookups and hits.
    pub closed spec fn wf(&self) -> bool {
        &&& self.hit as nat == capped(self.hits@)
        &&& self.lookup as nat == capped(self.lookups@)
    }

    /// How many entries are stored.
    pub closed spec fn len(&self) -> nat {
        self.body@.len()
    }

    /// How many lookups there have been.
    pub closed spec fn lookups(&self) -> nat {
        self.lookups@
    }

    /// How many lookups found an entry.
    pub closed spec fn hits(&self) -> nat {
        self.hits@
    }

    /// How many lookups found nothing and have not been followed by the write of an entry.
    pub open spec fn pending(&self) -> int {
        self.lookups() - self.hits() - self.len()
    }

    /// Whether hits and writes are traced.
    pub closed spec fn verbose(&self) -> bool {
        self.verbose
    }

    /// The events traced so far, oldest first.
    pub closed spec fn trace(&self) -> Seq<TraceEventView> {
        event_views(self.trace@)
    }

    /// The trace after `event`, given the trace `before` it: one longer if events are traced.
    pub open spec fn traced(&self, before: Seq<TraceEventView>, event: TraceEventView) -> Seq<
        TraceEventView,
    > {
        if self.verbose() {
            before.push(event)
        } else {
            before
        }
    }

    /// An empty cache.
    pub fn new(verbose: bool) -> (c: Cache)
        ensures
            c.wf(),
            c@ == Map::<(nat, CacheType), (nat, CacheResultView)>::empty(),
            c.len() == 0,
            c.lookups() == 0,
            c.hits() == 0,
            c.verbose() == verbose,
            c.trace() == Seq::<TraceEventView>::empty(),
    {
        let c = Cache {
            body: HashMap::new(),
            verbose,
            hit: 0,
            lookup: 0,
            trace: Vec::new(),
            lookups: Ghost(0),
            hits: Ghost(0),
        };
        assert(c@ =~= Map::<(nat, CacheType), (nat, CacheResultView)>::empty());
        assert(c.trace() =~= Seq::<TraceEventView>::empty());
        c
    }

    fn key(pos: usize, ct: CacheType) -> (k: u128)
        ensures
            k == slot(pos as nat, ct),
    {
        (pos as u128) * 8 + (ct.index() as u128)
    }

    fn note(&mut self, kind: TraceKind, start: usize, end: usize, rule: CacheType, cr: &CacheResult)
        ensures
            final(self).body == old(self).body,
            final(self).hit == old(self).hit,
            final(self).lookup == old(self).lookup,
            final(self).hits == old(self).hits,
            final(self).lookups == old(self).lookups,
            final(self).verbose == old(self).verbose,
            final(self).trace() == old(self).traced(
                old(self).trace(),
                TraceEventView { kind, start: start as nat, end: end as nat, rule, outcome: cr@ },
            ),
    {
        if self.verbose {
            let event = TraceEvent { kind, start, end, rule, outcome: cr.clone() };
            self.trace.push(event);
            assert(self.trace() =~= old(self).trace().push(event@));
        }
    }

    /// Looks up the entry of `ct` at `pos` and counts the lookup, and the hit if there is one.
    pub fn get(&mut self, pos: usize, ct: CacheType) -> (r: Option<(usize, CacheResult)>)
        requires
            old(self).wf(),
        ensures
            final(self).wf(),
            final(self)@ == old(self)@,
            final(self).len() == old(self).len(),
            final(self).verbose() == old(self).verbose(),
            final(self).lookups() == old(self).lookups() + 1,
            match r {
                Some((end, cr)) => {
                    &&& old(self)@.contains_key((pos as nat, ct))
                    &&& old(self)@[(pos as nat, ct)] == (end as nat, cr@)
                    &&& final(self).hits() == old(self).hits() + 1
                    &&& final(self).trace() == old(self).traced(
                        old(self).trace(),
                        TraceEventView {
                            kind: TraceKind::Hit,
                            start: pos as nat,
                            end: end as nat,
                            rule: ct,
                            outcome: cr@,
                        },
                    )
                },
                None => {
                    &&& !old(self)@.contains_key((pos as nat, ct))
                    &&& final(self).hits() == old(self).hits()
                    &&& final(self).trace() == old(self).trace()
                },
            },
    {
        let k = Self::key(pos, ct);
        if self.lookup < usize::MAX {
            self.lookup += 1;
        }
        self.lookups = Ghost((self.lookups@ + 1) as nat);
        let found = match self.body.get(&k) {
            Some(res) => Some((res.0, res.1.clone())),
            None => None,
        };
        match found {
            Some((end, cr)) => {
                if self.hit < usize::MAX {
                    self.hit += 1;
                }
                self.hits = Ghost((self.hits@ + 1) as nat);
                self.note(TraceKind::Hit, pos, end, ct, &cr);
                Some((end, cr))
            },
            None => None,
        }
    }

    /// Stores the entry of `ct` at `pos`. The key must be free: an entry is written once.
    /// A caller that cannot show that the key is free uses [`Cache::try_insert`].
    pub fn insert(&mut self, pos: usize, ct: CacheType, end: usize, cr: CacheResult)
        requires
            old(self).wf(),
            !old(self)@.contains_key((pos as nat, ct)),
        ensures
            final(self).wf(),
            final(self)@ == old(self)@.insert((pos as nat, ct), (end as nat, cr@)),
            final(self).len() == old(self).len() + 1,
            final(self).verbose() == old(self).verbose(),
            final(self).lookups() == old(self).lookups(),
            final(self).hits() == old(self).hits(),
            final(self).trace() == old(self).traced(
                old(self).trace(),
                TraceEventView {
                    kind: TraceKind::Store,
                    start: pos as nat,
                    end: end as nat,
                    rule: ct,
                    outcome: cr@,
                },
            ),
    {
        self.note(TraceKind::Store, pos, end, ct, &cr);
        let k = Self::key(pos, ct);
        let ghost view = cr@;
        self.body.insert(k, (end, cr));
        proof {
            assert forall|q: (nat, CacheType)| q.0 <= usize::MAX implies (#[trigger] slot(q.0, q.1)
                == k <==> q == (pos as nat, ct)) by {
                lemma_slot_injective(q.0, q.1, pos as nat, ct);
            }
            assert(self@ =~= old(self)@.insert((pos as nat, ct), (end as nat, view)));
        }
    }

    /// Stores the entry of `ct` at `pos` if the key is free, and refuses if it is not:
    /// a second write under one key is a fault of the caller, reported with the key.
    pub fn try_insert(&mut self, pos: usize, ct: CacheType, end: usize, cr: CacheResult) -> (r:
        Result<(), Conflict>)
        requires
            old(self).wf(),
        ensures
            final(self).wf(),
            final(self).verbose() == old(self).verbose(),
            final(self).lookups() == old(self).lookups(),
            final(self).hits() == old(self).hits(),
            match r {
                Ok(_) => {
                    &&& !old(self)@.contains_key((pos as nat, ct))
                    &&& final(self)@ == old(self)@.insert((pos as nat, ct), (end as nat, cr@))
                    &&& final(self).len() == old(self).len() + 1
                    &&& final(self).trace() == old(self).traced(
                        old(self).trace(),
                        TraceEventView {
                    kind: TraceKind::Store,
                    start: pos as nat,
                    end: end as nat,
                    rule: ct,
                    outcome: cr@,
                },
                    )
                },
                Err(c) => {
                    &&& old(self)@.contains_key((pos as nat, ct))
                    &&& c == (Conflict { pos, rule: ct })
                    &&& final(self)@ == old(self)@
                    &&& final(self).len() == old(self).len()
                    &&& final(self).trace() == old(self).trace()
                },
            },
    {
        let k = Self::key(pos, ct);
        if self.body.contains_key(&k) {
            Err(Conflict { pos, rule: ct })
        } else {
            self.insert(pos, ct, end, cr);
            Ok(())
        }
    }

    /// Replaces the entry of `ct` at `pos`, which must exist. Only the growth of a
    /// left-recursive rule's own seed does this.
    pub(crate) fn grow(&mut self, pos: usize, ct: CacheType, end: usize, cr: CacheResult)
        requires
            old(self).wf(),
            old(self)@.contains_key((pos as nat, ct)),
        ensures
            final(self).wf(),
            final(self)@ == old(self)@.insert((pos as nat, ct), (end as nat, cr@)),
            final(self).len() == old(self).len(),
            final(self).verbose() == old(self).verbose(),
            final(self).lookups() == old(self).lookups(),
            final(self).hits() == old(self).hits(),
            final(self).trace() == old(self).traced(
                old(self).trace(),
                TraceEventView {
                    kind: TraceKind::Store,
                    start: pos as nat,
                    end: end as nat,
                    rule: ct,
                    outcome: cr@,
                },
            ),
    {
        self.note(TraceKind::Store, pos, end, ct, &cr);
        let k = Self::key(pos, ct);
        let ghost view = cr@;
        self.body.insert(k, (end, cr));
        proof {
            assert forall|q: (nat, CacheType)| q.0 <= usize::MAX implies (#[trigger] slot(q.0, q.1)
                == k <==> q == (pos as nat, ct)) by {
                lemma_slot_injective(q.0, q.1, pos as nat, ct);
            }
            assert(self@ =~= old(self)@.insert((pos as nat, ct), (end as nat, view)));
            assert(self.body@.dom() =~= old(self).body@.dom());
        }
    }

    /// The number of entries.
    pub fn entries(&self) -> (n: usize)
        ensures
            n == self.len(),
    {
        self.body.len()
    }

    /// The number of lookups; it stops counting at the largest `usize`.
    pub fn lookup_count(&self) -> (n: usize)
        requires
            self.wf(),
        ensures
            n == capped(self.lookups()),
    {
        self.lookup
    }

    /// The number of hits; it stops counting at the largest `usize`.
    pub fn hit_count(&self) -> (n: usize)
        requires
            self.wf(),
        ensures
            n == capped(self.hits()),
    {
        self.hit
    }

    /// Whether hits and writes are traced.
    pub fn is_verbose(&self) -> (b: bool)
        ensures
            b == self.verbose(),
    {
        self.verbose
    }

    /// The events traced so far, oldest first.
    pub fn events(&self) -> (r: &Vec<TraceEvent>)
        ensures
            event_views(r@) == self.trace(),
    {
        &self.trace
    }

    /// Gives up the cache for the events it traced, oldest first.
    pub fn into_events(self) -> (r: Vec<TraceEvent>)
        ensures
            event_views(r@) == self.trace(),
    {
        self.trace
    }
}

impl Default for Cache {
    /// An empty cache that traces nothing.
    fn default() -> (c: Cache)
        ensures
            c.wf(),
            c@ == Map::<(nat, CacheType), (nat, CacheResultView)>::empty(),
            c.len() == 0,
            c.lookups() == 0,
            c.hits() == 0,
            !c.verbose(),
            c.trace() == Seq::<TraceEventView>::empty(),
    {
        Cache::new(false)
    }
}

} // verus!
