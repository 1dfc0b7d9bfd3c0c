use delta_routes::composer::{
    check_taxonomy, compose, documentation_gaps, find_tag, order_tags, qualified_operations,
};
use delta_routes::config::custom_openapi_spec;
use delta_routes::error::RouteError;
use delta_routes::model::{
    Extension, GlobalMeta, Info, Method, OperationDescriptor, RouteGroup, Server, TagDescriptor,
    TagGroup,
};

fn meta() -> GlobalMeta {
    GlobalMeta {
        info: Info {
            title: "Test API".to_string(),
            description: None,
            terms_of_service: None,
            contact: None,
            license: None,
            version: "1.0".to_string(),
        },
        servers: vec![Server { url: "https://example.org".to_string(), description: None }],
        external_docs: None,
        extensions: vec![Extension { key: "x-a".to_string(), value: "1".to_string() }],
    }
}

fn tag(name: &str) -> TagDescriptor {
    TagDescriptor { name: name.to_string(), description: format!("about {}", name) }
}

fn group(name: &str, members: &[&str]) -> TagGroup {
    TagGroup {
        group_name: name.to_string(),
        member_tag_names: members.iter().map(|m| m.to_string()).collect(),
    }
}

fn op(method: Method, path: &str, handler: u64, tag: &str) -> OperationDescriptor {
    OperationDescriptor::new(method, path, handler, "").with_tag(tag)
}

fn names(tags: &[TagDescriptor]) -> Vec<String> {
    tags.iter().map(|t| t.name.clone()).collect()
}

fn sample_mounts() -> Vec<(String, RouteGroup)> {
    vec![
        (
            "/".to_string(),
            RouteGroup::new(
                "/",
                vec![op(Method::Get, "/", 1, "Core"), op(Method::Get, "/ping", 2, "Core")],
            ),
        ),
        (
            "/users".to_string(),
            RouteGroup::new(
                "/users",
                vec![
                    op(Method::Get, "/{id}", 3, "Users"),
                    op(Method::Patch, "/{id}", 4, "Users"),
                    op(Method::Get, "/@me", 5, "Users"),
                ],
            ),
        ),
        ("/ping".to_string(), RouteGroup::new("/ping", vec![op(Method::Post, "/", 6, "Core")])),
    ]
}

#[test]
fn compose_documents_every_operation_once() {
    let tags = vec![tag("Core"), tag("Users")];
    let document = compose(&meta(), &tags, &vec![], &sample_mounts()).unwrap();
    let paths = document.paths();
    let listed: Vec<&str> = paths.iter().map(|p| p.path.as_str()).collect();
    assert_eq!(listed, vec!["/", "/ping", "/users/{id}", "/users/@me"]);
    let count: usize = paths.iter().map(|p| p.operations.len()).sum();
    assert_eq!(count, 6);
    let mut keys: Vec<(String, Method)> = Vec::new();
    for item in paths {
        for operation in &item.operations {
            assert_eq!(operation.path, item.path);
            let key = (item.path.clone(), operation.method);
            assert!(!keys.contains(&key));
            keys.push(key);
        }
    }
    assert_eq!(keys.len(), 6);
    let ping: Vec<u64> = paths[1].operations.iter().map(|o| o.handler).collect();
    assert_eq!(ping, vec![2, 6]);
    let user: Vec<Method> = paths[2].operations.iter().map(|o| o.method).collect();
    assert_eq!(user, vec![Method::Get, Method::Patch]);
}

#[test]
fn compose_looks_operations_up_by_path_and_method() {
    let tags = vec![tag("Core"), tag("Users")];
    let document = compose(&meta(), &tags, &vec![], &sample_mounts()).unwrap();
    assert_eq!(document.operation("/users/{id}", Method::Patch).unwrap().handler, 4);
    assert_eq!(document.operation("/ping", Method::Post).unwrap().handler, 6);
    assert_eq!(document.operation("/ping", Method::Get).unwrap().handler, 2);
    assert!(document.operation("/ping", Method::Delete).is_none());
    assert!(document.operation("/users", Method::Get).is_none());
}

#[test]
fn compose_carries_the_metadata() {
    let tags = vec![tag("Core"), tag("Users")];
    let groups = vec![group("All", &["Users", "Core"])];
    let document = compose(&meta(), &tags, &groups, &sample_mounts()).unwrap();
    assert_eq!(document.openapi(), "3.0.0");
    assert_eq!(document.info(), &meta().info);
    assert_eq!(document.servers(), &meta().servers);
    assert_eq!(document.external_docs(), &None);
    assert_eq!(document.extensions(), &meta().extensions);
    assert_eq!(document.tag_groups(), &groups);
    assert_eq!(names(document.tags()), vec!["Users".to_string(), "Core".to_string()]);
}

#[test]
fn compose_is_deterministic() {
    let tags = vec![tag("Core"), tag("Users")];
    let groups = vec![group("All", &["Users"])];
    let first = compose(&meta(), &tags, &groups, &sample_mounts());
    let second = compose(&meta(), &tags, &groups, &sample_mounts());
    assert!(first.is_ok());
    assert_eq!(first, second);
    let failing = vec![tag("Core")];
    assert_eq!(
        compose(&meta(), &failing, &groups, &sample_mounts()),
        compose(&meta(), &failing, &groups, &sample_mounts())
    );
}

#[test]
fn compose_of_nothing_is_an_empty_document() {
    let document = compose(&meta(), &vec![], &vec![], &vec![]).unwrap();
    assert!(document.paths().is_empty());
    assert!(document.tags().is_empty());
    assert_eq!(document.info().title, "Test API");
}

#[test]
fn unknown_tag_fails_composition() {
    let tags = vec![tag("Core")];
    assert_eq!(compose(&meta(), &tags, &vec![], &sample_mounts()), Err(RouteError::UnknownTag));
    let untagged = vec![(
        "/".to_string(),
        RouteGroup::new("/", vec![OperationDescriptor::new(Method::Get, "/", 1, "")]),
    )];
    assert!(compose(&meta(), &vec![], &vec![], &untagged).is_ok());
}

#[test]
fn tag_named_by_a_group_only_is_still_unknown() {
    let tags = vec![tag("Core")];
    let groups = vec![group("People", &["Users"])];
    assert_eq!(compose(&meta(), &tags, &groups, &sample_mounts()), Err(RouteError::UnknownTag));
}

#[test]
fn duplicate_path_fails_composition() {
    let tags = vec![tag("Core")];
    let mounts = vec![
        ("/a".to_string(), RouteGroup::new("/a", vec![op(Method::Get, "/b", 1, "Core")])),
        ("/".to_string(), RouteGroup::new("/", vec![op(Method::Get, "/a/b/", 2, "Core")])),
    ];
    assert_eq!(compose(&meta(), &tags, &vec![], &mounts), Err(RouteError::DuplicatePath));
}

#[test]
fn first_failing_operation_decides_the_error() {
    let tags = vec![tag("Core")];
    let duplicate_first = vec![(
        "/".to_string(),
        RouteGroup::new(
            "/",
            vec![
                op(Method::Get, "/x", 1, "Core"),
                op(Method::Get, "/x", 2, "Core"),
                op(Method::Get, "/y", 3, "Nope"),
            ],
        ),
    )];
    assert_eq!(
        compose(&meta(), &tags, &vec![], &duplicate_first),
        Err(RouteError::DuplicatePath)
    );
    let both_at_once = vec![(
        "/".to_string(),
        RouteGroup::new(
            "/",
            vec![op(Method::Get, "/x", 1, "Core"), op(Method::Get, "/x", 2, "Nope")],
        ),
    )];
    assert_eq!(compose(&meta(), &tags, &vec![], &both_at_once), Err(RouteError::UnknownTag));
}

#[test]
fn compose_takes_any_prefix_as_segments() {
    let tags = vec![tag("Core")];
    let mounts =
        vec![("users/".to_string(), RouteGroup::new("", vec![op(Method::Get, "x", 1, "Core")]))];
    let document = compose(&meta(), &tags, &vec![], &mounts).unwrap();
    assert_eq!(document.paths()[0].path, "/users/x");
}

#[test]
fn tags_follow_the_groups_then_the_configured_order() {
    let tags = vec![tag("A"), tag("B"), tag("C"), tag("D")];
    let groups = vec![group("Second", &["C"]), group("First", &["B", "A"])];
    assert_eq!(names(&order_tags(&tags, &groups)), vec!["C", "B", "A", "D"]);
}

#[test]
fn tags_outside_every_group_are_appended_in_first_seen_order() {
    let tags = vec![tag("Z"), tag("Y"), tag("X")];
    assert_eq!(names(&order_tags(&tags, &vec![])), vec!["Z", "Y", "X"]);
    let groups = vec![group("G", &["Y"])];
    assert_eq!(names(&order_tags(&tags, &groups)), vec!["Y", "Z", "X"]);
}

#[test]
fn tags_are_listed_once_and_unknown_members_stand_for_nothing() {
    let mut first = tag("A");
    first.description = "first".to_string();
    let mut second = tag("A");
    second.description = "second".to_string();
    let tags = vec![first.clone(), tag("B"), second];
    let groups = vec![group("G", &["B", "Missing", "B"]), group("H", &["B"])];
    let ordered = order_tags(&tags, &groups);
    assert_eq!(names(&ordered), vec!["B", "A"]);
    assert_eq!(ordered[1], first);
}

#[test]
fn tag_outside_every_group_is_a_gap_and_no_failure() {
    let tags = vec![tag("Core"), tag("Users")];
    let groups = vec![group("Node", &["Core"])];
    let document = compose(&meta(), &tags, &groups, &sample_mounts()).unwrap();
    assert_eq!(names(document.tags()), vec!["Core".to_string(), "Users".to_string()]);
    let all = qualified_operations(&sample_mounts());
    assert_eq!(documentation_gaps(&all, &groups), vec!["Users".to_string()]);
    assert_eq!(
        documentation_gaps(&all, &vec![]),
        vec!["Core".to_string(), "Users".to_string()]
    );
    let complete = vec![group("Node", &["Core"]), group("People", &["Users"])];
    assert!(documentation_gaps(&all, &complete).is_empty());
    assert!(documentation_gaps(&vec![], &groups).is_empty());
}

#[test]
fn find_tag_gives_the_first_of_a_name() {
    let tags = vec![tag("A"), tag("B"), tag("A")];
    assert_eq!(find_tag(&tags, &"A".to_string()), Some(0));
    assert_eq!(find_tag(&tags, &"B".to_string()), Some(1));
    assert_eq!(find_tag(&tags, &"C".to_string()), None);
}

#[test]
fn taxonomy_check() {
    let tags = vec![tag("A"), tag("B"), tag("C")];
    assert!(check_taxonomy(&tags, &vec![]));
    assert!(check_taxonomy(&tags, &vec![group("G", &["B"]), group("H", &["A"])]));
    assert!(!check_taxonomy(&tags, &vec![group("G", &["B", "Missing"])]));
    assert!(!check_taxonomy(&tags, &vec![group("G", &["B"]), group("H", &["B"])]));
    assert!(!check_taxonomy(&tags, &vec![group("G", &["A", "A"])]));
    assert!(!check_taxonomy(&vec![tag("A"), tag("A")], &vec![]));
}

#[test]
fn qualified_operations_are_flattened_in_mount_order() {
    let all = qualified_operations(&sample_mounts());
    let seen: Vec<(u64, &str)> = all.iter().map(|o| (o.handler, o.path.as_str())).collect();
    assert_eq!(
        seen,
        vec![
            (1, "/"),
            (2, "/ping"),
            (3, "/users/{id}"),
            (4, "/users/{id}"),
            (5, "/users/@me"),
            (6, "/ping"),
        ]
    );
}

#[test]
fn configured_document_composes() {
    let config = custom_openapi_spec();
    let mounts = vec![(
        "/".to_string(),
        RouteGroup::new("/", vec![op(Method::Get, "/", 1, "Core")]),
    )];
    let document =
        compose(&config.global_meta, &config.tag_descriptors, &config.tag_groups, &mounts)
            .unwrap();
    assert_eq!(document.tags(), &config.tag_descriptors);
    assert_eq!(document.tag_groups(), &config.tag_groups);
    assert_eq!(document.info().title, "Revolt API");
}
