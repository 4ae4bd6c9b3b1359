//! The parser's state and its primitives: literals, lookahead and the grammar's terminals.
//! Each either matches and leaves the cursor after what it read, or fails and leaves the
//! cursor where it was. None of them touches the cache.

use crate::cache::{Cache, CacheResultView, CacheType, TraceEventView};
use crate::grammar::{
    based_at, boolean_at, decimal_at, digits_at, integer_at, lemma_matches_one, matches_at, name_at,
    room, run_end,
    CharClass, Parsed,
};
use crate::stream::{char_at, Stream};
use crate::tree::{Base, Boolean, Decimal, Integer, Name};
use vstd::prelude::*;
use vstd::string::StrSliceExecFns;

verus! {

/// A parse in progress: the cursor over the input and the cache of rule results.
pub struct Parser {
    pub stream: Stream,
    pub cache: Cache,
}

/// Whether a primitive or rule that began at `start`, returned `r` and left the cursor at
/// `now` did what `expected` says: the same node and end, or no match and no move.
pub open spec fn agrees<T: View>(r: Option<T>, now: nat, start: nat, expected: Parsed<T::V>) -> bool {
    match r {
        Some(t) => expected == Some((t@, now)),
        None => expected is None && now == start,
    }
}

/// What `r` and the cursor `now` after it say was parsed.
pub open spec fn reading<T: View>(r: Option<T>, now: nat) -> Parsed<T::V> {
    match r {
        Some(t) => Some((t@, now)),
        None => None,
    }
}

impl Parser {
    /// The input being parsed.
    pub open spec fn input(&self) -> Seq<char> {
        self.stream.text()
    }

    /// The current position.
    pub open spec fn pos(&self) -> nat {
        self.stream.pos()
    }

    /// A parser at the start of `code` with an empty cache.
    pub fn new(code: &str, verbose: bool) -> (p: Parser)
        ensures
            p.input() == code@,
            p.pos() == 0,
            p.cache.wf(),
            p.cache@ == Map::<(nat, CacheType), (nat, CacheResultView)>::empty(),
            p.cache.len() == 0,
            p.cache.lookups() == 0,
            p.cache.hits() == 0,
            p.cache.verbose() == verbose,
            p.cache.trace() == Seq::<TraceEventView>::empty(),
            p.sound(),
    {
        Parser { stream: Stream::new(code), cache: Cache::new(verbose) }
    }

    /// Reads the literal `s`. If the input holds it at the cursor, the cursor moves past
    /// it; if not, the cursor stays.
    pub fn expect(&mut self, s: &'static str) -> (r: Option<&'static str>)
        ensures
            final(self).input() == old(self).input(),
            final(self).cache == old(self).cache,
            r.is_some() <==> matches_at(old(self).input(), old(self).pos(), s@),
            r.is_some() ==> r == Some(s),
            final(self).pos() == old(self).pos() + (if r.is_some() { s@.len() } else { 0 }),
    {
        let pos = self.stream.mark();
        let n: usize = s.unicode_len();
        let mut i: usize = 0;
        while i < n
            invariant
                n == s@.len(),
                i <= n,
                self.cache == old(self).cache,
                self.input() == old(self).input(),
                pos == old(self).pos(),
                self.pos() == pos + i,
                forall|j: int|
                    0 <= j < i ==> char_at(self.input(), (pos + j) as nat) == Some(#[trigger] s@[j]),
            decreases n - i,
        {
            let ch = s.get_char(i);
            let sn = self.stream.next();
            let same = match sn {
                Some(d) => d == ch,
                None => false,
            };
            if !same {
                self.stream.reset(pos);
                assert(char_at(self.input(), (pos + i) as nat) != Some(s@[i as int]));
                return None;
            }
            i += 1;
        }
        Some(s)
    }

    /// Positive lookahead: the character under the cursor if it is `ch`. The cursor stays.
    pub fn pla(&mut self, ch: char) -> (r: Option<char>)
        ensures
            final(self).input() == old(self).input(),
            final(self).pos() == old(self).pos(),
            final(self).cache == old(self).cache,
            r == if char_at(old(self).input(), old(self).pos()) == Some(ch) {
                Some(ch)
            } else {
                None
            },
    {
        let pos = self.stream.mark();
        let saw = self.stream.next();
        self.stream.reset(pos);
        match saw {
            Some(d) => if d == ch {
                saw
            } else {
                None
            },
            None => None,
        }
    }

    /// Negative lookahead: the character under the cursor if there is one and it is not
    /// `ch`. The cursor stays.
    pub fn nla(&mut self, ch: char) -> (r: Option<char>)
        ensures
            final(self).input() == old(self).input(),
            final(self).pos() == old(self).pos(),
            final(self).cache == old(self).cache,
            r == if char_at(old(self).input(), old(self).pos()) == Some(ch) {
                None
            } else {
                char_at(old(self).input(), old(self).pos())
            },
    {
        let pos = self.stream.mark();
        let saw = self.stream.next();
        self.stream.reset(pos);
        match saw {
            Some(d) => if d == ch {
                None
            } else {
                saw
            },
            None => None,
        }
    }

    /// Reads the longest run of characters of `class` at the cursor and appends it to `out`.
    fn scan(&mut self, class: CharClass, out: &mut Vec<char>)
        ensures
            final(self).input() == old(self).input(),
            final(self).cache == old(self).cache,
            final(self).pos() == run_end(old(self).input(), old(self).pos(), class),
            final(out)@.len() == old(out)@.len() + final(self).pos() - old(self).pos(),
            forall|j: int| 0 <= j < old(out)@.len() ==> final(out)@[j] == old(out)@[j],
            forall|j: int|
                #![trigger final(out)@[j]]
                old(out)@.len() <= j < final(out)@.len() ==> final(out)@[j] == old(self).input()[old(
                    self,
                ).pos() + j - old(out)@.len()],
            final(self).pos() > old(self).pos() ==> final(self).pos() <= old(self).input().len(),
    {
        let ghost start = self.pos();
        let ghost input = self.input();
        let ghost base = out@;
        let mut more = true;
        while more
            invariant
                self.input() == input,
                self.cache == old(self).cache,
                start == old(self).pos(),
                start <= self.pos(),
                run_end(input, self.pos(), class) == run_end(input, start, class),
                more || self.pos() == run_end(input, start, class),
                out@.len() == base.len() + self.pos() - start,
                forall|j: int| 0 <= j < base.len() ==> out@[j] == base[j],
                forall|j: int|
                    #![trigger out@[j]]
                    base.len() <= j < out@.len() ==> out@[j] == input[start + j - base.len()],
                self.pos() > start ==> self.pos() <= input.len(),
            decreases room(input, self.pos()) + (if more { 1nat } else { 0nat }),
        {
            let here = self.stream.mark();
            match self.stream.next() {
                Some(c) => {
                    if class.test(c) {
                        out.push(c);
                    } else {
                        self.stream.reset(here);
                        more = false;
                    }
                },
                None => {
                    more = false;
                },
            }
        }
    }

    /// `name <- [A-Za-z_] [A-Za-z0-9_]*`
    pub fn name(&mut self) -> (r: Option<Name>)
        ensures
            final(self).input() == old(self).input(),
            final(self).cache == old(self).cache,
            agrees(r, final(self).pos(), old(self).pos(), name_at(old(self).input(), old(self).pos())),
    {
        let start = self.stream.mark();
        let first = match self.stream.next() {
            Some(c) => if CharClass::NameStart.test(c) {
                Some(c)
            } else {
                None
            },
            None => None,
        };
        match first {
            Some(c) => {
                let mut text: Vec<char> = Vec::new();
                text.push(c);
                self.scan(CharClass::NamePart, &mut text);
                assert(text@ =~= self.input().subrange(start as int, self.pos() as int));
                Some(Name { text })
            },
            None => {
                self.stream.reset(start);
                None
            },
        }
    }

    /// `boolean <- 'true' / 'false'`
    pub fn boolean(&mut self) -> (r: Option<Boolean>)
        ensures
            final(self).input() == old(self).input(),
            final(self).cache == old(self).cache,
            match r {
                Some(b) => boolean_at(old(self).input(), old(self).pos()) == Some(
                    (b, final(self).pos()),
                ),
                None => boolean_at(old(self).input(), old(self).pos()).is_none() && final(self).pos()
                    == old(self).pos(),
            },
    {
        proof {
            reveal_strlit("true");
            reveal_strlit("false");
            assert("true"@ =~= seq!['t', 'r', 'u', 'e']);
            assert("false"@ =~= seq!['f', 'a', 'l', 's', 'e']);
        }
        if self.expect("true").is_some() {
            Some(Boolean::True)
        } else if self.expect("false").is_some() {
            Some(Boolean::False)
        } else {
            None
        }
    }

    /// One or more digits of `base`, as many as there are.
    pub fn digits(&mut self, base: Base) -> (r: Option<Vec<char>>)
        ensures
            final(self).input() == old(self).input(),
            final(self).cache == old(self).cache,
            agrees(r, final(self).pos(), old(self).pos(), digits_at(old(self).input(), old(self).pos(), base)),
    {
        let start = self.stream.mark();
        let mut text: Vec<char> = Vec::new();
        self.scan(CharClass::Digit(base), &mut text);
        if text.len() > 0 {
            assert(text@ =~= self.input().subrange(start as int, self.pos() as int));
            Some(text)
        } else {
            None
        }
    }

    /// An integer literal of `base`: the base's prefix and then one or more of its digits.
    pub fn based(&mut self, base: Base) -> (r: Option<Integer>)
        ensures
            final(self).input() == old(self).input(),
            final(self).cache == old(self).cache,
            agrees(r, final(self).pos(), old(self).pos(), based_at(old(self).input(), old(self).pos(), base)),
    {
        proof {
            reveal_strlit("0x");
            reveal_strlit("0o");
            reveal_strlit("0b");
            reveal_strlit("");
            assert("0x"@ =~= seq!['0', 'x']);
            assert("0o"@ =~= seq!['0', 'o']);
            assert("0b"@ =~= seq!['0', 'b']);
            assert(""@ =~= Seq::<char>::empty());
        }
        let start = self.stream.mark();
        let prefix: &'static str = match base {
            Base::Base16 => "0x",
            Base::Base10 => "",
            Base::Base8 => "0o",
            Base::Base2 => "0b",
        };
        if self.expect(prefix).is_none() {
            return None;
        }
        match self.digits(base) {
            Some(digits) => Some(Integer { base, digits }),
            None => {
                self.stream.reset(start);
                None
            },
        }
    }

    /// `integer <- '0x' [0-9a-fA-F]+ / '0o' [0-7]+ / '0b' [01]+ / [0-9]+`
    pub fn integer(&mut self) -> (r: Option<Integer>)
        ensures
            final(self).input() == old(self).input(),
            final(self).cache == old(self).cache,
            agrees(r, final(self).pos(), old(self).pos(), integer_at(old(self).input(), old(self).pos())),
    {
        if let Some(i) = self.based(Base::Base16) {
            return Some(i);
        }
        if let Some(i) = self.based(Base::Base8) {
            return Some(i);
        }
        if let Some(i) = self.based(Base::Base2) {
            return Some(i);
        }
        self.based(Base::Base10)
    }

    /// `decimal <- [0-9]+ '.' [0-9]+`
    pub fn decimal(&mut self) -> (r: Option<Decimal>)
        ensures
            final(self).input() == old(self).input(),
            final(self).cache == old(self).cache,
            agrees(r, final(self).pos(), old(self).pos(), decimal_at(old(self).input(), old(self).pos())),
    {
        proof {
            reveal_strlit(".");
            assert("."@ =~= seq!['.']);
        }
        let start = self.stream.mark();
        let whole = match self.digits(Base::Base10) {
            Some(w) => w,
            None => {
                return None;
            },
        };
        proof {
            lemma_matches_one(self.input(), self.pos(), '.');
        }
        if self.expect(".").is_none() {
            self.stream.reset(start);
            return None;
        }
        match self.digits(Base::Base10) {
            Some(frac) => Some(Decimal { whole, frac }),
            None => {
                self.stream.reset(start);
                None
            },
        }
    }
}

impl Default for Parser {
    /// A parser over the empty text, with an empty cache that traces nothing.
    fn default() -> (p: Parser)
        ensures
            p.input() == Seq::<char>::empty(),
            p.pos() == 0,
            p.cache.len() == 0,
            p.cache.lookups() == 0,
            p.cache.hits() == 0,
            !p.cache.verbose(),
            p.sound(),
    {
        Parser { stream: Stream::default(), cache: Cache::default() }
    }
}

} // verus!
