use comick::url::get_search_url;

fn s(text: &str) -> String {
    String::from(text)
}

fn list(items: &[&str]) -> Vec<String> {
    items.iter().map(|t| String::from(*t)).collect()
}

#[test]
fn search_with_empty_filters_is_the_bare_head() {
    let url = get_search_url(
        s("https://api.x"),
        s(""),
        vec![],
        vec![],
        vec![],
        s(""),
        s(""),
        s(""),
        1,
    );
    assert_eq!(url, "https://api.x/v1.0/search?page=1&tachiyomi=true");
}

#[test]
fn search_escapes_spaces_in_the_query() {
    let url = get_search_url(
        s("https://api.x"),
        s("one piece"),
        vec![],
        vec![],
        vec![],
        s(""),
        s(""),
        s(""),
        2,
    );
    assert_eq!(
        url,
        "https://api.x/v1.0/search?page=2&tachiyomi=true&t=true&q=one%20piece"
    );
}

#[test]
fn search_with_included_and_excluded_tags() {
    let url = get_search_url(
        s("https://api.x"),
        s(""),
        list(&["action", "drama"]),
        list(&["ecchi"]),
        vec![],
        s("jp"),
        s("view"),
        s("true"),
        1,
    );
    assert_eq!(
        url,
        "https://api.x/v1.0/search?page=1&tachiyomi=true&genres=action&genres=drama&excludes=ecchi&sort=view&country=jp&completed=true"
    );
}

#[test]
fn search_with_only_included_tags() {
    let url = get_search_url(
        s("b"),
        s(""),
        list(&["action", "drama"]),
        vec![],
        vec![],
        s(""),
        s(""),
        s(""),
        7,
    );
    assert_eq!(url, "b/v1.0/search?page=7&tachiyomi=true&genres=action&genres=drama");
}

#[test]
fn search_with_only_excluded_tags() {
    let url = get_search_url(
        s("b"),
        s(""),
        vec![],
        list(&["ecchi", "gore"]),
        vec![],
        s(""),
        s(""),
        s(""),
        7,
    );
    assert_eq!(url, "b/v1.0/search?page=7&tachiyomi=true&excludes=ecchi&excludes=gore");
}

#[test]
fn search_with_every_fragment_keeps_the_canonical_order() {
    let url = get_search_url(
        s("https://api.x"),
        s("a b  c"),
        list(&["g1", "g2"]),
        list(&["e1"]),
        list(&["d1", "d2"]),
        s("kr"),
        s("rating"),
        s("false"),
        12,
    );
    assert_eq!(
        url,
        "https://api.x/v1.0/search?page=12&tachiyomi=true&t=true&q=a%20b%20%20c&demographic=d1&demographic=d2&genres=g1&genres=g2&excludes=e1&sort=rating&country=kr&completed=false"
    );
    let markers = [
        "&t=",
        "&demographic=",
        "&genres=",
        "&excludes=",
        "&sort=",
        "&country=",
        "&completed=",
    ];
    let mut last = 0usize;
    for m in markers {
        let at = url.find(m).unwrap();
        assert!(at > last);
        last = at;
    }
}

#[test]
fn search_is_the_same_on_every_call() {
    let make = || {
        get_search_url(
            s("https://api.x"),
            s("one piece"),
            list(&["action"]),
            list(&["ecchi"]),
            list(&["shounen"]),
            s("jp"),
            s("view"),
            s("true"),
            3,
        )
    };
    assert_eq!(make(), make());
}

#[test]
fn search_starts_with_base_and_page() {
    let url = get_search_url(
        s("https://api.x"),
        s("q"),
        list(&["a"]),
        vec![],
        vec![],
        s(""),
        s("s"),
        s(""),
        40,
    );
    assert!(url.starts_with("https://api.x/v1.0/search?page=40&tachiyomi=true"));
}

#[test]
fn search_writes_page_numbers_in_decimal() {
    let url = |page: i32| {
        get_search_url(s(""), s(""), vec![], vec![], vec![], s(""), s(""), s(""), page)
    };
    assert_eq!(url(0), "/v1.0/search?page=0&tachiyomi=true");
    assert_eq!(url(9), "/v1.0/search?page=9&tachiyomi=true");
    assert_eq!(url(10), "/v1.0/search?page=10&tachiyomi=true");
    assert_eq!(url(1090), "/v1.0/search?page=1090&tachiyomi=true");
    assert_eq!(url(i32::MAX), "/v1.0/search?page=2147483647&tachiyomi=true");
    assert_eq!(url(-5), "/v1.0/search?page=-5&tachiyomi=true");
    assert_eq!(url(i32::MIN), "/v1.0/search?page=-2147483648&tachiyomi=true");
}

#[test]
fn search_escapes_nothing_but_spaces() {
    let url = get_search_url(
        s("b"),
        s(" a&b\tc é "),
        vec![],
        vec![],
        vec![],
        s(""),
        s(""),
        s(""),
        1,
    );
    assert_eq!(url, "b/v1.0/search?page=1&tachiyomi=true&t=true&q=%20a&b\tc%20é%20");
}
