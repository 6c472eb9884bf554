use nippo::tags::{join_tags, parse_tags};

#[test]
fn parse_two_tags() {
    let tags = parse_tags("a,b");
    assert_eq!(tags, vec!["a".to_string(), "b".to_string()]);
}

#[test]
fn parse_normalizes_case() {
    // the case-normalization is not the identity on mixed-case input
    let tags = parse_tags("Rust,WEB");
    assert_eq!(tags, vec!["rust".to_string(), "web".to_string()]);
}

#[test]
fn parse_drops_empty_pieces_and_duplicates() {
    let tags = parse_tags(",a,,A,b,");
    assert_eq!(tags, vec!["a".to_string(), "b".to_string()]);
}

#[test]
fn parse_empty_string_gives_no_tags() {
    let tags = parse_tags("");
    assert!(tags.is_empty());
}

#[test]
fn join_rebuilds_the_edit_form_string() {
    assert_eq!(join_tags(&vec!["a".to_string(), "b".to_string()]), "a,b");
    assert_eq!(join_tags(&vec!["solo".to_string()]), "solo");
    assert_eq!(join_tags(&Vec::new()), "");
}

#[test]
fn join_then_parse_round_trips_normalized_tags() {
    let tags = parse_tags("Rust,,web,rust");
    let joined = join_tags(&tags);
    assert_eq!(parse_tags(&joined), tags);
}
