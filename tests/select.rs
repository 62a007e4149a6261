use ion_shell::select::{parse_index_range, parse_isize, select, Index, Key, Range, Select};

fn letters() -> Vec<char> {
    vec!['a', 'b', 'c', 'd', 'e']
}

#[test]
fn select_from_str() {
    assert_eq!(Select::All, Select::from_str(".."));
    assert_eq!(Select::Index(Index::new(3)), Select::from_str("3"));
    assert_eq!(Select::Index(Index::new(-1)), Select::from_str("-1"));
    assert_eq!(Select::Key(Key::new("name".to_string())), Select::from_str("name"));
    assert_eq!(
        Select::Range(Range::new(Index::new(1), Index::new(3), false)),
        Select::from_str("1..3")
    );
}

#[test]
fn key_keeps_its_text() {
    let key = Key::new("home".to_string());
    assert_eq!("home", key.get());
}

#[test]
fn integers() {
    assert_eq!(Some(42), parse_isize("42"));
    assert_eq!(Some(-7), parse_isize("-7"));
    assert_eq!(Some(5), parse_isize("+5"));
    assert_eq!(Some(isize::MAX), parse_isize("9223372036854775807"));
    assert_eq!(Some(isize::MIN), parse_isize("-9223372036854775808"));
    assert_eq!(None, parse_isize("9223372036854775808"));
    assert_eq!(None, parse_isize("-"));
    assert_eq!(None, parse_isize(""));
    assert_eq!(None, parse_isize("1a"));
}

#[test]
fn range_forms() {
    assert_eq!(Some(Range::new(Index::new(2), Index::new(5), false)), parse_index_range("2..5"));
    assert_eq!(Some(Range::new(Index::new(0), Index::new(3), false)), parse_index_range("..3"));
    assert_eq!(Some(Range::new(Index::new(1), Index::new(4), true)), parse_index_range("1...4"));
    assert_eq!(Some(Range::new(Index::new(1), Index::new(4), true)), parse_index_range("1..=4"));
    assert_eq!(Some(Range::new(Index::new(3), Index::new(-1), true)), parse_index_range("3.."));
    assert_eq!(Some(Range::new(Index::new(-3), Index::new(-1), false)), parse_index_range("-3..-1"));
    assert_eq!(None, parse_index_range("3..="));
    assert_eq!(None, parse_index_range("a..b"));
    assert_eq!(None, parse_index_range("1.2"));
    assert_eq!(None, parse_index_range("12"));
}

#[test]
fn select_nothing_all_and_key() {
    assert_eq!(Vec::<char>::new(), select(letters(), &Select::Nothing, 5));
    assert_eq!(letters(), select(letters(), &Select::All, 5));
    assert_eq!(Vec::<char>::new(), select(letters(), &Select::from_str("key"), 5));
}

#[test]
fn select_by_index() {
    assert_eq!(vec!['a'], select(letters(), &Select::from_str("0"), 5));
    assert_eq!(vec!['d'], select(letters(), &Select::from_str("3"), 5));
    assert_eq!(Vec::<char>::new(), select(letters(), &Select::from_str("5"), 5));
    assert_eq!(vec!['e'], select(letters(), &Select::from_str("-1"), 5));
    assert_eq!(vec!['a'], select(letters(), &Select::from_str("-5"), 5));
    assert_eq!(Vec::<char>::new(), select(letters(), &Select::from_str("-6"), 5));
}

#[test]
fn select_by_range() {
    assert_eq!(vec!['b', 'c'], select(letters(), &Select::from_str("1..3"), 5));
    assert_eq!(vec!['b', 'c', 'd'], select(letters(), &Select::from_str("1...3"), 5));
    assert_eq!(vec!['c', 'd', 'e'], select(letters(), &Select::from_str("2.."), 5));
    assert_eq!(vec!['a', 'b'], select(letters(), &Select::from_str("..2"), 5));
    assert_eq!(vec!['d', 'e'], select(letters(), &Select::from_str("-2..5"), 5));
    assert_eq!(Vec::<char>::new(), select(letters(), &Select::from_str("2..2"), 5));
    assert_eq!(Vec::<char>::new(), select(letters(), &Select::from_str("3..1"), 5));
    assert_eq!(Vec::<char>::new(), select(letters(), &Select::from_str("1..9"), 5));
    assert_eq!(Vec::<char>::new(), select(letters(), &Select::from_str("-9..2"), 5));
}

#[test]
fn bounds_and_resolve() {
    assert_eq!(Some(4), Index::new(-1).resolve(5));
    assert_eq!(None, Index::new(-6).resolve(5));
    assert_eq!(Some((1, 2)), Range::new(Index::new(1), Index::new(3), false).bounds(5));
    assert_eq!(Some((1, 3)), Range::new(Index::new(1), Index::new(3), true).bounds(5));
    assert_eq!(None, Range::new(Index::new(0), Index::new(5), true).bounds(5));
}
