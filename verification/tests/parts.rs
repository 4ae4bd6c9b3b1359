use pegcore::cache::{Cache, CacheResult, CacheType};
use pegcore::grammar::CharClass;
use pegcore::parser::Parser;
use pegcore::stream::Stream;
use pegcore::tree::{copy_chars, Base, Boolean, Name, Namespace, Primary, Unary};

fn chars(s: &str) -> Vec<char> {
    s.chars().collect()
}

#[test]
fn defaults_are_empty() {
    let mut s = Stream::default();
    assert_eq!(s.mark(), 0);
    assert_eq!(s.next(), None);
    let c = Cache::default();
    assert_eq!(c.entries(), 0);
    assert_eq!(c.hit_count(), 0);
    assert_eq!(c.lookup_count(), 0);
    assert!(!c.is_verbose());
    let mut p = Parser::default();
    assert_eq!(p.additive(), None);
    assert_eq!(p.stream.mark(), 0);
}

#[test]
fn ranks_order_the_rules() {
    assert_eq!(CacheType::Namespace.index(), 0);
    assert_eq!(CacheType::Evaluation.index(), 1);
    assert_eq!(CacheType::Primary.index(), 2);
    assert_eq!(CacheType::Unary.index(), 3);
    assert_eq!(CacheType::Multiplicity.index(), 4);
    assert_eq!(CacheType::Additive.index(), 5);
}

#[test]
fn left_recursive_rules() {
    assert!(CacheType::Namespace.is_left_recursive());
    assert!(CacheType::Evaluation.is_left_recursive());
    assert!(!CacheType::Primary.is_left_recursive());
    assert!(!CacheType::Unary.is_left_recursive());
    assert!(CacheType::Multiplicity.is_left_recursive());
    assert!(CacheType::Additive.is_left_recursive());
}

#[test]
fn character_classes() {
    assert!(CharClass::Digit(Base::Base2).test('1'));
    assert!(!CharClass::Digit(Base::Base2).test('2'));
    assert!(CharClass::Digit(Base::Base8).test('7'));
    assert!(!CharClass::Digit(Base::Base8).test('8'));
    assert!(CharClass::Digit(Base::Base10).test('9'));
    assert!(!CharClass::Digit(Base::Base10).test('a'));
    assert!(CharClass::Digit(Base::Base16).test('f'));
    assert!(CharClass::Digit(Base::Base16).test('F'));
    assert!(!CharClass::Digit(Base::Base16).test('g'));
    assert!(CharClass::NameStart.test('_'));
    assert!(CharClass::NameStart.test('Z'));
    assert!(!CharClass::NameStart.test('0'));
    assert!(CharClass::NamePart.test('0'));
    assert!(!CharClass::NamePart.test('-'));
    assert!(!CharClass::NamePart.test('é'));
}

#[test]
fn results_convert_to_their_own_node_only() {
    let leaf = Namespace::Name(Name { text: chars("n") });
    let r = CacheResult::Namespace(leaf.clone());
    assert!(r.is_success());
    assert_eq!(r.clone().into_namespace(), Some(leaf));
    assert_eq!(r.clone().into_evaluation(), None);
    assert_eq!(r.clone().into_additive(), None);
    assert_eq!(r.clone().into_multiplicity(), None);
    let t = Primary::Boolean(Boolean::True);
    assert_eq!(CacheResult::Primary(t.clone()).into_primary(), Some(t.clone()));
    assert_eq!(CacheResult::Unary(Unary::Primary(t.clone())).into_unary(), Some(Unary::Primary(t)));
    assert!(!CacheResult::Failure.is_success());
    assert_eq!(CacheResult::Failure.into_unary(), None);
    assert_eq!(CacheResult::Failure.into_primary(), None);
}

#[test]
fn copies_are_equal() {
    assert_eq!(copy_chars(&chars("añb")), chars("añb"));
    assert_eq!(copy_chars(&chars("")), chars(""));
}

#[test]
fn growth_replaces_only_the_seed() {
    let mut p = Parser::new("1+2+3", false);
    p.additive();
    let after_first = p.cache.entries();
    assert_eq!(p.cache.get(0, CacheType::Additive).map(|e| e.0), Some(5));
    assert_eq!(p.cache.get(0, CacheType::Multiplicity).map(|e| e.0), Some(1));
    assert_eq!(p.cache.get(2, CacheType::Multiplicity).map(|e| e.0), Some(3));
    assert_eq!(p.cache.get(4, CacheType::Multiplicity).map(|e| e.0), Some(5));
    assert_eq!(p.cache.get(2, CacheType::Additive), None);
    assert_eq!(p.cache.entries(), after_first);
}
