use pegcore::cache::{CacheResult, CacheType, TraceKind};
use pegcore::parse;
use pegcore::parser::Parser;
use pegcore::tree::{
    AddOp, Additive, Base, Boolean, Decimal, Evaluation, Integer, MulOp, Multiplicity, Name,
    Namespace, Primary, UnaOp, Unary,
};

fn chars(s: &str) -> Vec<char> {
    s.chars().collect()
}

fn name(s: &str) -> Name {
    Name { text: chars(s) }
}

fn num(s: &str) -> Primary {
    Primary::Integer(Integer { base: Base::Base10, digits: chars(s) })
}

fn un(p: Primary) -> Unary {
    Unary::Primary(p)
}

fn mul(p: Primary) -> Multiplicity {
    Multiplicity::Unary(un(p))
}

fn add(p: Primary) -> Additive {
    Additive::Multiplicity(mul(p))
}

fn plain(s: &str) -> Evaluation {
    Evaluation::Namespace(Namespace::Name(name(s)))
}

#[test]
fn left_recursion_is_left_associative() {
    let p = parse("1+2+3".to_string(), false);
    let one_two = Additive::Additive { lhs: Box::new(add(num("1"))), op: AddOp::Add, rhs: mul(num("2")) };
    let all = Additive::Additive { lhs: Box::new(one_two), op: AddOp::Add, rhs: mul(num("3")) };
    assert_eq!(p.tree, Some(all));
    assert_eq!(p.leftover, chars(""));
}

#[test]
fn subtraction_and_addition_nest_left() {
    let p = parse("9-4+2".to_string(), false);
    let first = Additive::Additive { lhs: Box::new(add(num("9"))), op: AddOp::Sub, rhs: mul(num("4")) };
    let all = Additive::Additive { lhs: Box::new(first), op: AddOp::Add, rhs: mul(num("2")) };
    assert_eq!(p.tree, Some(all));
}

#[test]
fn multiplication_binds_tighter_than_addition() {
    let p = parse("1+2*3".to_string(), false);
    let product = Multiplicity::Multiplicity {
        lhs: Box::new(mul(num("2"))),
        op: MulOp::Mul,
        rhs: un(num("3")),
    };
    let all = Additive::Additive { lhs: Box::new(add(num("1"))), op: AddOp::Add, rhs: product };
    assert_eq!(p.tree, Some(all));
}

#[test]
fn products_nest_left() {
    let p = parse("8/4%3".to_string(), false);
    let first = Multiplicity::Multiplicity {
        lhs: Box::new(mul(num("8"))),
        op: MulOp::Div,
        rhs: un(num("4")),
    };
    let all = Multiplicity::Multiplicity { lhs: Box::new(first), op: MulOp::Mod, rhs: un(num("3")) };
    assert_eq!(p.tree, Some(Additive::Multiplicity(all)));
}

#[test]
fn prefix_operators_nest_right() {
    let p = parse("-+1".to_string(), false);
    let inner = Unary::Unary { op: UnaOp::Pos, inner: Box::new(un(num("1"))) };
    let all = Unary::Unary { op: UnaOp::Neg, inner: Box::new(inner) };
    assert_eq!(p.tree, Some(Additive::Multiplicity(Multiplicity::Unary(all))));
}

#[test]
fn binary_minus_then_unary_minus() {
    let p = parse("1--2".to_string(), false);
    let neg = Unary::Unary { op: UnaOp::Neg, inner: Box::new(un(num("2"))) };
    let all = Additive::Additive {
        lhs: Box::new(add(num("1"))),
        op: AddOp::Sub,
        rhs: Multiplicity::Unary(neg),
    };
    assert_eq!(p.tree, Some(all));
}

#[test]
fn calls_and_members_chain_left() {
    let p = parse("a.b().c".to_string(), false);
    let ab = Evaluation::Member { ident: Box::new(plain("a")), member: name("b") };
    let call = Evaluation::Call { ident: Box::new(ab) };
    let all = Evaluation::Member { ident: Box::new(call), member: name("c") };
    assert_eq!(p.tree, Some(add(Primary::Evaluation(all))));
}

#[test]
fn namespaces_nest_left() {
    let mut p = Parser::new("a::b::c", false);
    let ab = Namespace::Space { ns: Box::new(Namespace::Name(name("a"))), name: name("b") };
    let abc = Namespace::Space { ns: Box::new(ab), name: name("c") };
    assert_eq!(p.namespace(), Some(abc));
    assert_eq!(p.stream.mark(), 7);
}

#[test]
fn namespace_stops_before_a_dangling_qualifier() {
    let mut p = Parser::new("a::", false);
    assert_eq!(p.namespace(), Some(Namespace::Name(name("a"))));
    assert_eq!(p.stream.mark(), 1);
}

#[test]
fn rules_fail_without_moving() {
    let mut p = Parser::new("*", false);
    assert_eq!(p.additive(), None);
    assert_eq!(p.stream.mark(), 0);
    assert_eq!(p.multiplicity(), None);
    assert_eq!(p.unary(), None);
    assert_eq!(p.primary(), None);
    assert_eq!(p.evaluation(), None);
    assert_eq!(p.namespace(), None);
    assert_eq!(p.stream.mark(), 0);
}

#[test]
fn rules_fail_on_empty_input() {
    let p = parse("".to_string(), false);
    assert_eq!(p.tree, None);
    assert_eq!(p.leftover, chars(""));
}

#[test]
fn full_consumption_gate() {
    let p = parse("a()".to_string(), false);
    assert_eq!(p.tree, Some(add(Primary::Evaluation(Evaluation::Call { ident: Box::new(plain("a")) }))));
    assert_eq!(p.leftover, chars(""));
    let p = parse("a() extra".to_string(), false);
    assert_eq!(p.tree, None);
    assert_eq!(p.leftover, chars(" extra"));
    let p = parse("a(1,2,3(s)) extra".to_string(), false);
    assert_eq!(p.tree, None);
    assert_eq!(p.leftover, chars("(1,2,3(s)) extra"));
}

#[test]
fn program_leaves_the_cursor_after_the_expression() {
    let mut p = Parser::new("1+2)", false);
    assert_eq!(p.program(), None);
    assert_eq!(p.stream.mark(), 3);
    let mut p = Parser::new("1+2", false);
    assert!(p.program().is_some());
    assert_eq!(p.stream.mark(), 3);
    let mut p = Parser::new(")", false);
    assert_eq!(p.program(), None);
    assert_eq!(p.stream.mark(), 0);
}

#[test]
fn expression_is_the_top_rule() {
    let mut p = Parser::new("7 ", false);
    assert_eq!(p.expression(), Some(add(num("7"))));
    assert_eq!(p.stream.mark(), 1);
}

#[test]
fn parsing_is_deterministic() {
    for text in ["1+2*3-x::y.z()", "a(", "", "0x1f%0b10", "-", "1.5+true"] {
        let a = parse(text.to_string(), true);
        let b = parse(text.to_string(), true);
        assert_eq!(a.tree, b.tree);
        assert_eq!(a.leftover, b.leftover);
        assert_eq!(a.cached, b.cached);
        assert_eq!(a.hits, b.hits);
        assert_eq!(a.trace, b.trace);
    }
}

#[test]
fn every_miss_is_followed_by_one_write() {
    for text in ["1+2*3-x::y.z()", "a(", "", "0x1f%0b10", "-", "1.5+true", "1+2+3+4+5+6"] {
        let p = parse(text.to_string(), false);
        assert_eq!(p.lookups - p.hits, p.cached);
        assert!(p.trace.is_empty());
    }
}

#[test]
fn counters_of_a_small_parse() {
    let p = parse("1".to_string(), false);
    assert_eq!(p.cached, 6);
    assert_eq!(p.lookups - p.hits, 6);
}

#[test]
fn repeated_rule_is_answered_from_the_cache() {
    let mut p = Parser::new("x+1", false);
    let first = p.additive();
    let entries = p.cache.entries();
    let hits = p.cache.hit_count();
    p.stream.reset(0);
    let second = p.additive();
    assert_eq!(first, second);
    assert_eq!(p.stream.mark(), 3);
    assert_eq!(p.cache.entries(), entries);
    assert_eq!(p.cache.hit_count(), hits + 1);
}

#[test]
fn trace_lists_hits_and_writes() {
    let p = parse("1+2".to_string(), true);
    let hits = p.trace.iter().filter(|e| e.kind == TraceKind::Hit).count();
    let stores = p.trace.iter().filter(|e| e.kind == TraceKind::Store).count();
    assert_eq!(hits, p.hits);
    assert!(stores >= p.cached);
    assert_eq!(p.trace[0].kind, TraceKind::Store);
    assert_eq!(p.trace[0].rule, CacheType::Additive);
    assert_eq!(p.trace[0].start, 0);
    assert_eq!(p.trace[0].end, 0);
}

#[test]
fn name_is_the_longest_identifier() {
    let mut p = Parser::new("_a1b-c", false);
    assert_eq!(p.name(), Some(name("_a1b")));
    assert_eq!(p.stream.mark(), 4);
    assert_eq!(p.name(), None);
    assert_eq!(p.stream.mark(), 4);
    let mut p = Parser::new("1a", false);
    assert_eq!(p.name(), None);
    assert_eq!(p.stream.mark(), 0);
}

#[test]
fn boolean_literals() {
    let mut p = Parser::new("truefalsetru", false);
    assert_eq!(p.boolean(), Some(Boolean::True));
    assert_eq!(p.boolean(), Some(Boolean::False));
    assert_eq!(p.stream.mark(), 9);
    assert_eq!(p.boolean(), None);
    assert_eq!(p.stream.mark(), 9);
}

#[test]
fn integer_literals_in_four_bases() {
    let mut p = Parser::new("0x1F", false);
    assert_eq!(p.integer(), Some(Integer { base: Base::Base16, digits: chars("1F") }));
    let mut p = Parser::new("0o17", false);
    assert_eq!(p.integer(), Some(Integer { base: Base::Base8, digits: chars("17") }));
    let mut p = Parser::new("0b101", false);
    assert_eq!(p.integer(), Some(Integer { base: Base::Base2, digits: chars("101") }));
    let mut p = Parser::new("1289", false);
    assert_eq!(p.integer(), Some(Integer { base: Base::Base10, digits: chars("1289") }));
    assert_eq!(p.stream.mark(), 4);
}

#[test]
fn integer_prefix_without_digits_is_a_zero() {
    let mut p = Parser::new("0xg", false);
    assert_eq!(p.integer(), Some(Integer { base: Base::Base10, digits: chars("0") }));
    assert_eq!(p.stream.mark(), 1);
    let mut p = Parser::new("0b2", false);
    assert_eq!(p.based(Base::Base2), None);
    assert_eq!(p.stream.mark(), 0);
    let mut p = Parser::new("0o78", false);
    assert_eq!(p.integer(), Some(Integer { base: Base::Base8, digits: chars("7") }));
    assert_eq!(p.stream.mark(), 3);
}

#[test]
fn digits_need_at_least_one() {
    let mut p = Parser::new("x1", false);
    assert_eq!(p.digits(Base::Base10), None);
    assert_eq!(p.stream.mark(), 0);
    p.stream.reset(1);
    assert_eq!(p.digits(Base::Base10), Some(chars("1")));
    assert_eq!(p.stream.mark(), 2);
    assert_eq!(p.digits(Base::Base10), None);
}

#[test]
fn decimal_literals() {
    let mut p = Parser::new("12.50x", false);
    assert_eq!(p.decimal(), Some(Decimal { whole: chars("12"), frac: chars("50") }));
    assert_eq!(p.stream.mark(), 5);
    let mut p = Parser::new("12.x", false);
    assert_eq!(p.decimal(), None);
    assert_eq!(p.stream.mark(), 0);
    let mut p = Parser::new("12", false);
    assert_eq!(p.decimal(), None);
    assert_eq!(p.stream.mark(), 0);
}

#[test]
fn primary_tries_its_alternatives_in_order() {
    let mut p = Parser::new("true", false);
    assert_eq!(p.primary(), Some(Primary::Boolean(Boolean::True)));
    let mut p = Parser::new("tru", false);
    assert_eq!(p.primary(), Some(Primary::Evaluation(plain("tru"))));
    let mut p = Parser::new("1.5", false);
    assert_eq!(p.primary(), Some(Primary::Decimal(Decimal { whole: chars("1"), frac: chars("5") })));
    let mut p = Parser::new("1.x", false);
    assert_eq!(p.primary(), Some(num("1")));
    assert_eq!(p.stream.mark(), 1);
}

#[test]
fn bodies_read_the_seed() {
    let mut p = Parser::new("1+2", false);
    assert_eq!(p.cache.try_insert(0, CacheType::Additive, 0, CacheResult::Failure), Ok(()));
    assert_eq!(p.additive_body(), Some(add(num("1"))));
    assert_eq!(p.stream.mark(), 1);
    let mut p = Parser::new("1+2", false);
    assert_eq!(p.cache.try_insert(0, CacheType::Additive, 1, CacheResult::Additive(add(num("1")))), Ok(()));
    let grown = Additive::Additive { lhs: Box::new(add(num("1"))), op: AddOp::Add, rhs: mul(num("2")) };
    assert_eq!(p.additive_body(), Some(grown));
    assert_eq!(p.stream.mark(), 3);
}

#[test]
fn clones_are_equal() {
    let p = parse("-a::b.c()*0x1f+2.5-true".to_string(), false);
    let tree = p.tree.expect("an expression");
    assert_eq!(tree.clone(), tree);
}

#[test]
fn rule_by_tag_is_the_rule() {
    let mut p = Parser::new("a::b*-1", false);
    let ab = Namespace::Space { ns: Box::new(Namespace::Name(name("a"))), name: name("b") };
    assert_eq!(p.rule(CacheType::Namespace), CacheResult::Namespace(ab));
    assert_eq!(p.stream.mark(), 4);
    assert_eq!(p.rule(CacheType::Unary), CacheResult::Failure);
    assert_eq!(p.stream.mark(), 4);
    p.stream.reset(5);
    let minus_one = Unary::Unary { op: UnaOp::Neg, inner: Box::new(un(num("1"))) };
    assert_eq!(
        p.rule(CacheType::Additive),
        CacheResult::Additive(Additive::Multiplicity(Multiplicity::Unary(minus_one)))
    );
    assert_eq!(p.stream.mark(), 7);
}
