use pegcore::cache::{Cache, CacheResult, CacheType, Conflict, TraceKind};
use pegcore::parse;
use pegcore::parser::Parser;
use pegcore::stream::Stream;
use pegcore::tree::{Evaluation, Name, Namespace};

fn chars(s: &str) -> Vec<char> {
    s.chars().collect()
}

fn name(s: &str) -> Name {
    Name { text: chars(s) }
}

#[test]
fn test() {
    let p = parse("a(1,2,3(s))".to_string(), true);
    assert_eq!(p.tree, None);
    assert_eq!(p.leftover, chars("(1,2,3(s))"));
}

#[test]
fn stream_reads_characters_in_order() {
    let mut s = Stream::new("héé");
    assert_eq!(s.mark(), 0);
    assert_eq!(s.next(), Some('h'));
    assert_eq!(s.next(), Some('é'));
    assert_eq!(s.mark(), 2);
    assert_eq!(s.next(), Some('é'));
    assert_eq!(s.mark(), 3);
}

#[test]
fn stream_end_of_input_does_not_advance() {
    let mut s = Stream::new("a");
    assert_eq!(s.next(), Some('a'));
    assert_eq!(s.next(), None);
    assert_eq!(s.mark(), 1);
    assert_eq!(s.next(), None);
    assert_eq!(s.mark(), 1);
}

#[test]
fn stream_reset_is_unconditional() {
    let mut s = Stream::new("abc");
    s.next();
    s.next();
    let m = s.mark();
    s.reset(0);
    assert_eq!(s.next(), Some('a'));
    s.reset(m);
    assert_eq!(s.next(), Some('c'));
    s.reset(17);
    assert_eq!(s.mark(), 17);
    assert_eq!(s.next(), None);
    assert_eq!(s.mark(), 17);
}

#[test]
fn stream_collect_gives_the_rest() {
    let mut s = Stream::new("abc");
    s.next();
    assert_eq!(s.collect(), chars("bc"));
    assert_eq!(s.mark(), 3);
    assert_eq!(s.collect(), chars(""));
    s.reset(9);
    assert_eq!(s.collect(), chars(""));
    assert_eq!(s.mark(), 9);
}

#[test]
fn expect_consumes_a_literal() {
    let mut p = Parser::new("::x", false);
    assert_eq!(p.expect("::"), Some("::"));
    assert_eq!(p.stream.mark(), 2);
}

#[test]
fn expect_resets_on_mismatch() {
    let mut p = Parser::new("truth", false);
    assert_eq!(p.expect("true"), None);
    assert_eq!(p.stream.mark(), 0);
    assert_eq!(p.expect("tru"), Some("tru"));
    assert_eq!(p.stream.mark(), 3);
    assert_eq!(p.expect("thx"), None);
    assert_eq!(p.stream.mark(), 3);
}

#[test]
fn expect_fails_at_end_of_input() {
    let mut p = Parser::new("ab", false);
    assert_eq!(p.expect("abc"), None);
    assert_eq!(p.stream.mark(), 0);
    assert_eq!(p.expect(""), Some(""));
    assert_eq!(p.stream.mark(), 0);
}

#[test]
fn positive_lookahead_is_zero_width() {
    let mut p = Parser::new("xy", false);
    assert_eq!(p.pla('x'), Some('x'));
    assert_eq!(p.stream.mark(), 0);
    assert_eq!(p.pla('y'), None);
    assert_eq!(p.stream.mark(), 0);
    p.stream.reset(2);
    assert_eq!(p.pla('x'), None);
    assert_eq!(p.stream.mark(), 2);
}

#[test]
fn negative_lookahead_is_zero_width() {
    let mut p = Parser::new("xy", false);
    assert_eq!(p.nla('x'), None);
    assert_eq!(p.stream.mark(), 0);
    assert_eq!(p.nla('y'), Some('x'));
    assert_eq!(p.stream.mark(), 0);
    p.stream.reset(2);
    assert_eq!(p.nla('x'), None);
    assert_eq!(p.stream.mark(), 2);
}

#[test]
fn cache_get_counts_lookups_and_hits() {
    let mut c = Cache::new(false);
    assert_eq!(c.get(3, CacheType::Unary), None);
    assert_eq!(c.lookup_count(), 1);
    assert_eq!(c.hit_count(), 0);
    c.insert(3, CacheType::Unary, 3, CacheResult::Failure);
    assert_eq!(c.entries(), 1);
    assert_eq!(c.get(3, CacheType::Unary), Some((3, CacheResult::Failure)));
    assert_eq!(c.get(3, CacheType::Primary), None);
    assert_eq!(c.get(4, CacheType::Unary), None);
    assert_eq!(c.lookup_count(), 4);
    assert_eq!(c.hit_count(), 1);
}

#[test]
fn cache_keys_differ_by_position_and_rule() {
    let mut c = Cache::new(false);
    let ns = CacheResult::Namespace(Namespace::Name(name("a")));
    c.insert(0, CacheType::Namespace, 1, ns.clone());
    c.insert(0, CacheType::Evaluation, 0, CacheResult::Failure);
    c.insert(1, CacheType::Namespace, 1, CacheResult::Failure);
    assert_eq!(c.entries(), 3);
    assert_eq!(c.get(0, CacheType::Namespace), Some((1, ns)));
    assert_eq!(c.get(0, CacheType::Evaluation), Some((0, CacheResult::Failure)));
    assert_eq!(c.get(1, CacheType::Namespace), Some((1, CacheResult::Failure)));
}

#[test]
fn second_write_under_one_key_is_refused() {
    let mut c = Cache::new(false);
    let first = CacheResult::Namespace(Namespace::Name(name("a")));
    assert_eq!(c.try_insert(2, CacheType::Namespace, 3, first.clone()), Ok(()));
    assert_eq!(
        c.try_insert(2, CacheType::Namespace, 2, CacheResult::Failure),
        Err(Conflict { pos: 2, rule: CacheType::Namespace })
    );
    assert_eq!(c.entries(), 1);
    assert_eq!(c.get(2, CacheType::Namespace), Some((3, first)));
}

#[test]
fn cache_traces_hits_and_writes_when_verbose() {
    let mut c = Cache::new(true);
    assert!(c.is_verbose());
    c.insert(0, CacheType::Primary, 0, CacheResult::Failure);
    c.get(1, CacheType::Primary);
    c.get(0, CacheType::Primary);
    let events = c.events();
    assert_eq!(events.len(), 2);
    assert_eq!(events[0].kind, TraceKind::Store);
    assert_eq!(events[0].start, 0);
    assert_eq!(events[0].end, 0);
    assert_eq!(events[0].rule, CacheType::Primary);
    assert_eq!(events[0].outcome, CacheResult::Failure);
    assert_eq!(events[1].kind, TraceKind::Hit);
    assert_eq!(c.into_events().len(), 2);
}

#[test]
fn cache_does_not_trace_when_quiet() {
    let mut c = Cache::new(false);
    c.insert(0, CacheType::Primary, 0, CacheResult::Failure);
    c.get(0, CacheType::Primary);
    assert_eq!(c.events().len(), 0);
}

#[test]
fn cut_suppresses_fallback() {
    let seed = CacheResult::Evaluation(Evaluation::Namespace(Namespace::Name(name("f"))));
    let mut p = Parser::new("f(", false);
    assert_eq!(p.cache.try_insert(0, CacheType::Evaluation, 1, seed.clone()), Ok(()));
    assert_eq!(p.evaluation_body(), None);
    assert_eq!(p.stream.mark(), 0);

    let mut p = Parser::new("f.", false);
    assert_eq!(p.cache.try_insert(0, CacheType::Evaluation, 1, seed.clone()), Ok(()));
    assert_eq!(p.evaluation_body(), None);
    assert_eq!(p.stream.mark(), 0);
}

#[test]
fn without_commit_the_later_alternative_is_tried() {
    let seed = CacheResult::Evaluation(Evaluation::Namespace(Namespace::Name(name("f"))));
    let mut p = Parser::new("f+", false);
    assert_eq!(p.cache.try_insert(0, CacheType::Evaluation, 1, seed), Ok(()));
    assert_eq!(p.evaluation_body(), Some(Evaluation::Namespace(Namespace::Name(name("f")))));
    assert_eq!(p.stream.mark(), 1);
}

#[test]
fn unclosed_call_is_left_unread() {
    let mut p = Parser::new("f(", false);
    assert_eq!(p.evaluation(), Some(Evaluation::Namespace(Namespace::Name(name("f")))));
    assert_eq!(p.stream.mark(), 1);
    let r = parse("f(".to_string(), false);
    assert_eq!(r.tree, None);
    assert_eq!(r.leftover, chars("("));
}
