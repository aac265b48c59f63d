use repo_archiver::errors::ParseError;
use repo_archiver::link::LinkHeader;

#[test]
fn test_create_link_header() {
    let header = LinkHeader::create("<http://foo.bar/baz>; rel=\"next\"").unwrap();
    if let Some(rel) = header.find_rel("next") {
        println!("url={} rel={}", rel.url, rel.rel);
    }
}

#[test]
fn parses_single_item() {
    let header = LinkHeader::create("<http://foo.bar/baz>; rel=\"next\"").unwrap();
    assert_eq!(header.items.len(), 1);
    assert_eq!(header.items[0].url, "http://foo.bar/baz");
    assert_eq!(header.items[0].rel, "next");
}

#[test]
fn parses_multi_item_header_in_order() {
    let raw = "<https://api.example.com/repos?page=2>; rel=\"next\", \
               <https://api.example.com/repos?page=34>; rel=\"last\"";
    let header = LinkHeader::create(raw).unwrap();
    assert_eq!(header.items.len(), 2);
    assert_eq!(header.items[0].url, "https://api.example.com/repos?page=2");
    assert_eq!(header.items[0].rel, "next");
    assert_eq!(header.items[1].url, "https://api.example.com/repos?page=34");
    assert_eq!(header.items[1].rel, "last");
}

#[test]
fn parses_unquoted_rel_value() {
    let header = LinkHeader::create("<http://foo.bar/baz>; rel=next").unwrap();
    assert_eq!(header.items[0].rel, "next");
}

#[test]
fn find_rel_returns_first_match_among_duplicates() {
    let raw = "<http://a>; rel=\"next\", <http://b>; rel=\"next\"";
    let header = LinkHeader::create(raw).unwrap();
    let found = header.find_rel("next").unwrap();
    assert_eq!(found.url, "http://a");
}

#[test]
fn find_rel_absent_relation_is_none_not_error() {
    let header = LinkHeader::create("<http://a>; rel=\"prev\"").unwrap();
    assert!(header.find_rel("next").is_none());
    assert!(header.find_rel("NEXT").is_none(), "matching is case-sensitive");
}

#[test]
fn missing_url_fails_with_malformed_link() {
    let r = LinkHeader::create("http://no.brackets; rel=\"next\"");
    assert_eq!(r.unwrap_err(), ParseError::MalformedLink);
}

#[test]
fn missing_url_on_any_item_rejects_whole_header() {
    let raw = "<http://a>; rel=\"next\", http://no.brackets; rel=\"prev\"";
    let r = LinkHeader::create(raw);
    assert_eq!(r.unwrap_err(), ParseError::MalformedLink);
}

#[test]
fn missing_rel_fails_with_missing_relation() {
    let r = LinkHeader::create("<http://a>");
    assert_eq!(r.unwrap_err(), ParseError::MissingRelation);

    let r = LinkHeader::create("<http://a>; title=\"x\"");
    assert_eq!(r.unwrap_err(), ParseError::MissingRelation);
}

#[test]
fn missing_rel_on_any_item_rejects_whole_header() {
    let raw = "<http://a>; rel=\"next\", <http://b>; type=\"text\"";
    let r = LinkHeader::create(raw);
    assert_eq!(r.unwrap_err(), ParseError::MissingRelation);
}

#[test]
fn empty_header_is_malformed() {
    assert_eq!(LinkHeader::create("").unwrap_err(), ParseError::MalformedLink);
}

#[test]
fn empty_angle_brackets_are_malformed() {
    assert_eq!(
        LinkHeader::create("<>; rel=\"next\"").unwrap_err(),
        ParseError::MalformedLink
    );
}

#[test]
fn empty_quoted_rel_value_is_missing_relation() {
    assert_eq!(
        LinkHeader::create("<http://a>; rel=\"\"").unwrap_err(),
        ParseError::MissingRelation
    );
}
