use delta_routes::path::{
    bind_parameters, check_prefix, matches_request, more_specific, parse_segments, qualify,
    render_segments, segment_is_parameter, segment_parameter_name,
};

fn strings(items: &[&str]) -> Vec<String> {
    items.iter().map(|s| s.to_string()).collect()
}

#[test]
fn segments_are_the_nonempty_pieces() {
    assert_eq!(parse_segments("/users/{id}"), strings(&["users", "{id}"]));
    assert_eq!(parse_segments("users/{id}/"), strings(&["users", "{id}"]));
    assert_eq!(parse_segments("//users//{id}"), strings(&["users", "{id}"]));
    assert_eq!(parse_segments("/"), strings(&[]));
    assert_eq!(parse_segments(""), strings(&[]));
    assert_eq!(parse_segments("ping"), strings(&["ping"]));
}

#[test]
fn segments_keep_characters_beyond_ascii() {
    assert_eq!(parse_segments("/caf\u{e9}/\u{1f600}"), strings(&["caf\u{e9}", "\u{1f600}"]));
}

#[test]
fn render_writes_the_canonical_path() {
    assert_eq!(render_segments(&strings(&[])), "/");
    assert_eq!(render_segments(&strings(&["users"])), "/users");
    assert_eq!(render_segments(&strings(&["users", "@me"])), "/users/@me");
}

#[test]
fn render_then_parse_is_the_identity() {
    let segments = strings(&["auth", "account", "{token}"]);
    assert_eq!(parse_segments(&render_segments(&segments)), segments);
}

#[test]
fn qualify_joins_prefix_and_path() {
    assert_eq!(qualify("/users", "/{id}"), "/users/{id}");
    assert_eq!(qualify("/", "/"), "/");
    assert_eq!(qualify("/", "/ping"), "/ping");
    assert_eq!(qualify("/auth/account", "/create"), "/auth/account/create");
    assert_eq!(qualify("/users", "/"), "/users");
    assert_eq!(qualify("", "ping"), "/ping");
    assert_eq!(qualify("/a/", "//b/"), "/a/b");
}

#[test]
fn qualify_is_canonical() {
    let full = qualify("/users", "{id}/dm/");
    assert_eq!(qualify("/", &full), full);
}

#[test]
fn prefixes_that_are_valid() {
    assert!(check_prefix("/"));
    assert!(check_prefix("/users"));
    assert!(check_prefix("/auth/account"));
    assert!(check_prefix("/{}"));
}

#[test]
fn prefixes_that_are_invalid() {
    assert!(!check_prefix(""));
    assert!(!check_prefix("users"));
    assert!(!check_prefix("/users/"));
    assert!(!check_prefix("//"));
    assert!(!check_prefix("/auth//account"));
    assert!(!check_prefix("/{id}"));
    assert!(!check_prefix("/users/{id}"));
}

#[test]
fn parameter_segments() {
    assert!(segment_is_parameter("{id}"));
    assert!(segment_is_parameter("{a}"));
    assert!(!segment_is_parameter("{}"));
    assert!(!segment_is_parameter("id"));
    assert!(!segment_is_parameter("{id"));
    assert!(!segment_is_parameter("id}"));
    assert!(!segment_is_parameter("@me"));
    assert_eq!(segment_parameter_name("{id}").as_deref(), Some("id"));
    assert_eq!(segment_parameter_name("{target}").as_deref(), Some("target"));
    assert_eq!(segment_parameter_name("target"), None);
    assert_eq!(segment_parameter_name("{}"), None);
}

#[test]
fn patterns_match_segment_by_segment() {
    assert!(matches_request(&strings(&["users", "{id}"]), &strings(&["users", "abc"])));
    assert!(matches_request(&strings(&["users", "@me"]), &strings(&["users", "@me"])));
    assert!(!matches_request(&strings(&["users", "@me"]), &strings(&["users", "abc"])));
    assert!(!matches_request(&strings(&["users", "{id}"]), &strings(&["users"])));
    assert!(!matches_request(&strings(&["users"]), &strings(&["users", "abc"])));
    assert!(matches_request(&strings(&[]), &strings(&[])));
}

#[test]
fn specificity_goes_by_the_first_difference() {
    let literal = strings(&["users", "@me"]);
    let parameter = strings(&["users", "{id}"]);
    assert!(more_specific(&literal, &parameter));
    assert!(!more_specific(&parameter, &literal));
    assert!(!more_specific(&parameter, &strings(&["users", "{name}"])));
    assert!(!more_specific(&literal, &literal));
    // the earlier position decides
    assert!(more_specific(&strings(&["y", "{b}"]), &strings(&["{a}", "x"])));
    assert!(!more_specific(&strings(&["{a}", "x"]), &strings(&["y", "{b}"])));
}

#[test]
fn parameters_are_bound_in_path_order() {
    let bound = bind_parameters(
        &strings(&["servers", "{server}", "members", "{member}"]),
        &strings(&["servers", "s1", "members", "m2"]),
    );
    assert_eq!(bound.len(), 2);
    assert_eq!(bound[0].name, "server");
    assert_eq!(bound[0].value, "s1");
    assert_eq!(bound[1].name, "member");
    assert_eq!(bound[1].value, "m2");
    assert!(bind_parameters(&strings(&["ping"]), &strings(&["ping"])).is_empty());
}
