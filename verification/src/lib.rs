//! A packrat parsing engine for ordered-choice grammars with direct left recursion.
//!
//! [`parse`] runs the grammar of [`grammar`] on a text. [`parser::Parser`] holds the state
//! of a parse: the cursor of [`stream`] and the cache of [`cache`]. The rules themselves
//! are in [`expr`], the nodes they build in [`tree`], their source text in [`render`],
//! and what holds of them all in [`laws`].

pub mod cache;
pub mod expr;
pub mod grammar;
pub mod laws;
pub mod parser;
pub mod render;
pub mod stream;
pub mod tree;

use crate::cache::{CacheType, TraceEvent};
use crate::grammar::additive_at;
use crate::parser::Parser;
use crate::stream::{char_at, rest_from};
use crate::tree::{Additive, AdditiveView};
use vstd::prelude::*;

verus! {

/// The view of the node in `r`, if there is one.
pub open spec fn tree_of<T: View>(r: Option<T>) -> Option<T::V> {
    match r {
        Some(t) => Some(t@),
        None => None,
    }
}

/// What a whole program at `pos` is: the expression there if the input ends with it, and
/// where the cursor is left: after the expression if there is one, else at `pos`.
pub open spec fn program_at(input: Seq<char>, pos: nat) -> (Option<AdditiveView>, nat) {
    match additive_at(input, pos) {
        Some((t, end)) => if char_at(input, end).is_none() {
            (Some(t), end)
        } else {
            (None, end)
        },
        None => (None, pos),
    }
}

/// What a parse gave.
pub struct Parsing {
    /// The tree, if the whole text is an expression.
    pub tree: Option<Additive>,
    /// What was left unread: the text after the longest expression that the text starts
    /// with; the whole text if it starts with none.
    pub leftover: Vec<char>,
    /// How many entries the cache held in the end.
    pub cached: usize,
    /// How many times the cache was asked.
    pub lookups: usize,
    /// How many times it had the answer.
    pub hits: usize,
    /// The hits and writes of the cache in order, if they were traced.
    pub trace: Vec<TraceEvent>,
}

impl Parsing {
    /// Whether this is what parsing `code` gives: the tree and what was left unread.
    pub open spec fn is_parse_of(&self, code: Seq<char>) -> bool {
        &&& tree_of(self.tree) == program_at(code, 0).0
        &&& self.leftover@ == rest_from(code, program_at(code, 0).1)
    }
}

impl Parser {
    /// The grammar's top rule.
    pub fn expression(&mut self) -> (r: Option<Additive>)
        requires
            old(self).sound(),
        ensures
            final(self).sound(),
            final(self).grew_from(*old(self), CacheType::Additive, old(self).pos()),
            final(self).cache.pending() == old(self).cache.pending(),
            crate::parser::agrees(
                r,
                final(self).pos(),
                old(self).pos(),
                additive_at(old(self).input(), old(self).pos()),
            ),
    {
        self.additive()
    }

    /// A whole program: an expression and then the end of the input. If more input
    /// follows the expression there is no tree, and the cursor is left after the expression.
    pub fn program(&mut self) -> (r: Option<Additive>)
        requires
            old(self).sound(),
        ensures
            final(self).sound(),
            final(self).grew_from(*old(self), CacheType::Additive, old(self).pos()),
            final(self).cache.pending() == old(self).cache.pending(),
            (tree_of(r), final(self).pos()) == program_at(old(self).input(), old(self).pos()),
    {
        let body = match self.expression() {
            Some(t) => t,
            None => {
                return None;
            },
        };
        let pos = self.stream.mark();
        if self.stream.next().is_none() {
            Some(body)
        } else {
            self.stream.reset(pos);
            None
        }
    }
}

/// Parses `code` from its start with an empty cache.
pub fn parse(code: String, verbose: bool) -> (p: Parsing)
    ensures
        p.is_parse_of(code@),
        p.lookups < usize::MAX ==> p.lookups - p.hits == p.cached,
        !verbose ==> p.trace@.len() == 0,
{
    let mut parser = Parser::new(code.as_str(), verbose);
    let tree = parser.program();
    let leftover = parser.stream.collect();
    let cached = parser.cache.entries();
    let lookups = parser.cache.lookup_count();
    let hits = parser.cache.hit_count();
    let trace = parser.cache.into_events();
    Parsing { tree, leftover, cached, lookups, hits, trace }
}

} // verus!
