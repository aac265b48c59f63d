use repo_archiver::errors::FetchError;
use repo_archiver::pagination::Paginator;

fn page(items: &[&str]) -> Vec<String> {
    items.iter().map(|s| s.to_string()).collect()
}

#[test]
fn three_pages_concatenate_in_arrival_order() {
    let mut p: Paginator<String> = Paginator::begin("http://api/repos?page=1".to_string());
    assert_eq!(p.current_url().unwrap(), "http://api/repos?page=1");

    p.on_page(
        Some("<http://api/repos?page=2>; rel=\"next\""),
        page(&["a1", "a2"]),
    )
    .unwrap();
    assert_eq!(p.current_url().unwrap(), "http://api/repos?page=2");

    p.on_page(
        Some("<http://api/repos?page=3>; rel=\"next\""),
        page(&["b1", "b2"]),
    )
    .unwrap();
    assert_eq!(p.current_url().unwrap(), "http://api/repos?page=3");

    p.on_page(None, page(&["c1"])).unwrap();
    assert!(p.is_done());
    assert_eq!(p.pages(), 3, "exactly one request per page");
    assert_eq!(p.into_results(), page(&["a1", "a2", "b1", "b2", "c1"]));
}

#[test]
fn single_page_without_link_header_is_complete() {
    let mut p: Paginator<String> = Paginator::begin("http://api/repos".to_string());
    p.on_page(None, page(&["only1", "only2"])).unwrap();
    assert!(p.is_done());
    assert_eq!(p.pages(), 1, "exactly one request");
    assert_eq!(p.into_results(), page(&["only1", "only2"]));
}

#[test]
fn unparseable_link_header_aborts_with_bad_pagination() {
    let mut p: Paginator<String> = Paginator::begin("http://api/repos".to_string());
    let r = p.on_page(Some("this is not a link header"), page(&["x"]));
    assert_eq!(r.unwrap_err(), FetchError::BadPagination);
    assert!(p.is_done(), "the fetch stops; the page is not treated as final");
    assert_eq!(
        p.into_results(),
        Vec::<String>::new(),
        "no partial results survive a pagination failure"
    );
}

#[test]
fn link_header_without_next_relation_ends_after_this_page() {
    let mut p: Paginator<String> = Paginator::begin("http://api/repos?page=9".to_string());
    p.on_page(Some("<http://api/repos?page=8>; rel=\"prev\""), page(&["z"]))
        .unwrap();
    assert!(p.is_done());
    assert_eq!(p.into_results(), page(&["z"]));
}

#[test]
fn next_relation_first_match_decides_the_cursor() {
    let mut p: Paginator<String> = Paginator::begin("http://api/repos".to_string());
    p.on_page(
        Some("<http://api/a>; rel=\"next\", <http://api/b>; rel=\"next\""),
        page(&[]),
    )
    .unwrap();
    assert_eq!(p.current_url().unwrap(), "http://api/a");
}
