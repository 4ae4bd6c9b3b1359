use pegcore::parse;
use pegcore::parser::Parser;
use pegcore::render::{push_chars, push_text};
use pegcore::tree::{AddOp, Base, Boolean, Decimal, Integer, MulOp, Name, UnaOp};

fn chars(s: &str) -> Vec<char> {
    s.chars().collect()
}

fn shown(text: &str) -> String {
    let p = parse(text.to_string(), false);
    p.tree.expect("an expression").to_text().into_iter().collect()
}

#[test]
fn binary_operators_get_spaces() {
    assert_eq!(shown("1+2-3"), "1 + 2 - 3");
    assert_eq!(shown("1*2/3%4"), "1 * 2 / 3 % 4");
    assert_eq!(shown("1+2*3"), "1 + 2 * 3");
}

#[test]
fn prefix_operators_get_none() {
    assert_eq!(shown("-+1"), "-+1");
    assert_eq!(shown("1--2"), "1 - -2");
}

#[test]
fn evaluations_are_written_as_read() {
    assert_eq!(shown("a::b.c().d()()"), "a::b.c().d()()");
}

#[test]
fn literals_are_written_as_read() {
    assert_eq!(shown("0x1F+0o17+0b1+42"), "0x1F + 0o17 + 0b1 + 42");
    assert_eq!(shown("3.25*true"), "3.25 * true");
    assert_eq!(shown("false"), "false");
}

#[test]
fn nodes_render_alone() {
    assert_eq!(Name { text: chars("x1") }.to_text(), chars("x1"));
    assert_eq!(Integer { base: Base::Base16, digits: chars("ff") }.to_text(), chars("0xff"));
    assert_eq!(Integer { base: Base::Base10, digits: chars("10") }.to_text(), chars("10"));
    assert_eq!(Integer { base: Base::Base8, digits: chars("7") }.to_text(), chars("0o7"));
    assert_eq!(Integer { base: Base::Base2, digits: chars("1") }.to_text(), chars("0b1"));
    assert_eq!(Decimal { whole: chars("0"), frac: chars("5") }.to_text(), chars("0.5"));
    assert_eq!(AddOp::Add.symbol(), "+");
    assert_eq!(AddOp::Sub.symbol(), "-");
    assert_eq!(MulOp::Mul.symbol(), "*");
    assert_eq!(MulOp::Div.symbol(), "/");
    assert_eq!(MulOp::Mod.symbol(), "%");
    assert_eq!(UnaOp::Pos.symbol(), "+");
    assert_eq!(UnaOp::Neg.symbol(), "-");
    assert_eq!(Boolean::True.symbol(), "true");
    assert_eq!(Boolean::False.symbol(), "false");
    assert_eq!(Base::Base10.prefix(), "");
}

#[test]
fn rule_results_render() {
    let mut p = Parser::new("a::b", false);
    assert_eq!(p.namespace().expect("a name").to_text(), chars("a::b"));
    let mut p = Parser::new("a.b()", false);
    assert_eq!(p.evaluation().expect("an evaluation").to_text(), chars("a.b()"));
    let mut p = Parser::new("1.5", false);
    assert_eq!(p.primary().expect("an operand").to_text(), chars("1.5"));
    let mut p = Parser::new("-x", false);
    assert_eq!(p.unary().expect("an operand").to_text(), chars("-x"));
    let mut p = Parser::new("2*x", false);
    assert_eq!(p.multiplicity().expect("a product").to_text(), chars("2 * x"));
}

#[test]
fn writing_appends() {
    let mut out = chars("ab");
    push_text(&mut out, "cd");
    push_chars(&mut out, &chars("é"));
    assert_eq!(out, chars("abcdé"));
    Name { text: chars("n") }.write_to(&mut out);
    assert_eq!(out, chars("abcdén"));
}
