use kindelia_ws_events::FilterSet;
use std::cell::Cell;
use std::str::FromStr;

#[derive(Clone, Copy, Debug, PartialEq, Eq)]
enum Kind {
    A,
    B,
    C,
}

impl FromStr for Kind {
    type Err = String;

    fn from_str(tag: &str) -> Result<Self, String> {
        match tag {
            "A" => Ok(Kind::A),
            "B" => Ok(Kind::B),
            "C" => Ok(Kind::C),
            other => Err(format!("unknown tag `{}`", other)),
        }
    }
}

fn parse_kind(tag: &String) -> Result<Kind, String> {
    Kind::from_str(tag)
}

fn strings(tags: &[&str]) -> Vec<String> {
    tags.iter().map(|tag| tag.to_string()).collect()
}

#[test]
fn empty_list_parses_to_the_wildcard() {
    let filter = FilterSet::parse(&Vec::new(), parse_kind).unwrap();
    assert!(filter.is_wildcard());
    assert_eq!(filter.len(), 0);
}

#[test]
fn known_tags_parse() {
    let filter = FilterSet::parse(&strings(&["A", "B"]), parse_kind).unwrap();
    assert!(!filter.is_wildcard());
    assert_eq!(filter.len(), 2);
    assert!(filter.admits(&Kind::A));
    assert!(filter.admits(&Kind::B));
    assert!(!filter.admits(&Kind::C));
}

#[test]
fn a_tag_named_twice_is_no_fault() {
    let filter = FilterSet::parse(&strings(&["B", "B"]), parse_kind).unwrap();
    assert_eq!(filter.len(), 2);
    assert!(filter.admits(&Kind::B));
    assert!(!filter.admits(&Kind::A));
}

#[test]
fn one_unknown_tag_fails_the_whole_list() {
    let r = FilterSet::parse(&strings(&["A", "Z", "B"]), parse_kind);
    assert_eq!(r.err(), Some("unknown tag `Z`".to_string()));
    let r = FilterSet::parse(&strings(&["Z"]), parse_kind);
    assert_eq!(r.err(), Some("unknown tag `Z`".to_string()));
    let r = FilterSet::parse(&strings(&["A", "B", ""]), parse_kind);
    assert_eq!(r.err(), Some("unknown tag ``".to_string()));
}

#[test]
fn the_first_unknown_tag_gives_the_reason() {
    let r = FilterSet::parse(&strings(&["A", "X", "Y"]), parse_kind);
    assert_eq!(r.err(), Some("unknown tag `X`".to_string()));
}

#[test]
fn parsing_stops_at_the_first_unknown_tag() {
    let calls = Cell::new(0);
    let r = FilterSet::parse(&strings(&["A", "Z", "B", "C"]), |tag: &String| {
        calls.set(calls.get() + 1);
        Kind::from_str(tag)
    });
    assert!(r.is_err());
    assert_eq!(calls.get(), 2);
}

#[test]
fn every_tag_is_parsed_once_and_in_order() {
    let seen = std::cell::RefCell::new(Vec::new());
    let r = FilterSet::parse(&strings(&["C", "A", "B"]), |tag: &String| {
        seen.borrow_mut().push(tag.clone());
        Kind::from_str(tag)
    });
    assert!(r.is_ok());
    assert_eq!(seen.into_inner(), strings(&["C", "A", "B"]));
}

#[test]
fn the_wildcard_admits_everything() {
    let filter: FilterSet<Kind> = FilterSet::wildcard();
    assert!(filter.is_wildcard());
    assert!(filter.admits(&Kind::A));
    assert!(filter.admits(&Kind::B));
    assert!(filter.admits(&Kind::C));
}

#[test]
fn a_filter_admits_what_it_lists_and_nothing_else() {
    let filter = FilterSet::from_tags(vec![Kind::C]);
    assert_eq!(filter.len(), 1);
    assert!(!filter.is_wildcard());
    assert!(filter.admits(&Kind::C));
    assert!(!filter.admits(&Kind::A));
    assert!(!filter.admits(&Kind::B));
}

#[test]
fn a_filter_built_from_no_tags_is_the_wildcard() {
    let filter: FilterSet<Kind> = FilterSet::from_tags(Vec::new());
    assert!(filter.is_wildcard());
    assert!(filter.admits(&Kind::A));
}
