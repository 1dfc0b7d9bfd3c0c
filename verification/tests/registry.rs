use delta_routes::error::RouteError;
use delta_routes::model::{Method, OperationDescriptor, ResponseSchema, RouteGroup};
use delta_routes::registry::MountRegistry;

fn op(method: Method, path: &str, handler: u64) -> OperationDescriptor {
    OperationDescriptor::new(method, path, handler, "")
}

fn root_group() -> RouteGroup {
    RouteGroup::new(
        "/",
        vec![
            OperationDescriptor::new(Method::Get, "/", 1, "Query Node"),
            OperationDescriptor::new(Method::Get, "/ping", 2, "Ping"),
        ],
    )
}

fn users_group() -> RouteGroup {
    RouteGroup::new(
        "/users",
        vec![OperationDescriptor::new(Method::Get, "/{id}", 3, "Fetch User")],
    )
}

#[test]
fn end_to_end_dispatch() {
    let mut registry = MountRegistry::new();
    assert_eq!(registry.register("/", &root_group()), Ok(()));
    assert_eq!(registry.register("/users", &users_group()), Ok(()));
    assert_eq!(registry.len(), 3);

    let ping = registry.dispatch(Method::Get, "/ping").unwrap();
    assert_eq!(ping.handler, 2);
    assert_eq!(ping.route, 1);
    assert!(ping.parameters.is_empty());

    let user = registry.dispatch(Method::Get, "/users/abc").unwrap();
    assert_eq!(user.handler, 3);
    assert_eq!(user.parameters.len(), 1);
    assert_eq!(user.parameters[0].name, "id");
    assert_eq!(user.parameters[0].value, "abc");
    assert_eq!(registry.operation(user.route).unwrap().path, "/users/{id}");

    assert_eq!(registry.dispatch(Method::Get, "/unknown"), Err(RouteError::NotFound));
}

#[test]
fn root_path_resolves() {
    let mut registry = MountRegistry::new();
    registry.register("/", &root_group()).unwrap();
    assert_eq!(registry.dispatch(Method::Get, "/").unwrap().handler, 1);
    assert_eq!(registry.dispatch(Method::Get, "").unwrap().handler, 1);
}

#[test]
fn dispatch_reads_paths_by_their_segments() {
    let mut registry = MountRegistry::new();
    registry.register("/users", &users_group()).unwrap();
    assert_eq!(registry.dispatch(Method::Get, "/users/abc/").unwrap().handler, 3);
    assert_eq!(registry.dispatch(Method::Get, "//users//abc").unwrap().handler, 3);
    assert_eq!(registry.dispatch(Method::Get, "/users"), Err(RouteError::NotFound));
    assert_eq!(registry.dispatch(Method::Get, "/users/abc/def"), Err(RouteError::NotFound));
}

#[test]
fn dispatch_goes_by_method() {
    let mut registry = MountRegistry::new();
    let group = RouteGroup::new(
        "/bots",
        vec![op(Method::Get, "/{id}", 10), op(Method::Delete, "/{id}", 11)],
    );
    registry.register("/bots", &group).unwrap();
    assert_eq!(registry.dispatch(Method::Get, "/bots/b").unwrap().handler, 10);
    assert_eq!(registry.dispatch(Method::Delete, "/bots/b").unwrap().handler, 11);
    assert_eq!(registry.dispatch(Method::Patch, "/bots/b"), Err(RouteError::NotFound));
}

#[test]
fn literal_beats_parameter_when_registered_first() {
    let mut registry = MountRegistry::new();
    let group = RouteGroup::new(
        "/users",
        vec![op(Method::Get, "/@me", 1), op(Method::Get, "/{id}", 2)],
    );
    registry.register("/users", &group).unwrap();
    assert_eq!(registry.dispatch(Method::Get, "/users/@me").unwrap().handler, 1);
    assert_eq!(registry.dispatch(Method::Get, "/users/other").unwrap().handler, 2);
}

#[test]
fn literal_beats_parameter_when_registered_last() {
    let mut registry = MountRegistry::new();
    let group = RouteGroup::new(
        "/users",
        vec![op(Method::Get, "/{id}", 2), op(Method::Get, "/@me", 1)],
    );
    registry.register("/users", &group).unwrap();
    let me = registry.dispatch(Method::Get, "/users/@me").unwrap();
    assert_eq!(me.handler, 1);
    assert!(me.parameters.is_empty());
    assert_eq!(registry.dispatch(Method::Get, "/users/other").unwrap().handler, 2);
}

#[test]
fn earlier_literal_position_decides() {
    let mut registry = MountRegistry::new();
    let group = RouteGroup::new(
        "/",
        vec![op(Method::Get, "/{a}/x", 1), op(Method::Get, "/y/{b}", 2)],
    );
    registry.register("/", &group).unwrap();
    let hit = registry.dispatch(Method::Get, "/y/x").unwrap();
    assert_eq!(hit.handler, 2);
    assert_eq!(hit.parameters[0].name, "b");
    assert_eq!(hit.parameters[0].value, "x");
}

#[test]
fn first_registered_wins_among_equals() {
    let mut registry = MountRegistry::new();
    let first = RouteGroup::new("/users", vec![op(Method::Get, "/{id}", 1)]);
    let second = RouteGroup::new("/users", vec![op(Method::Get, "/{name}", 2)]);
    registry.register("/users", &first).unwrap();
    registry.register("/users", &second).unwrap();
    let hit = registry.dispatch(Method::Get, "/users/abc").unwrap();
    assert_eq!(hit.handler, 1);
    assert_eq!(hit.route, 0);
    assert_eq!(hit.parameters[0].name, "id");

    let mut reversed = MountRegistry::new();
    reversed.register("/users", &second).unwrap();
    reversed.register("/users", &first).unwrap();
    assert_eq!(reversed.dispatch(Method::Get, "/users/abc").unwrap().handler, 2);
}

#[test]
fn same_key_in_two_groups_collides() {
    let mut registry = MountRegistry::new();
    let one = RouteGroup::new("/users", vec![op(Method::Get, "/@me", 1)]);
    let two = RouteGroup::new("/", vec![op(Method::Post, "/x", 2), op(Method::Get, "/users/@me", 3)]);
    assert_eq!(registry.register("/users", &one), Ok(()));
    let before = registry.clone();
    assert_eq!(registry.register("/", &two), Err(RouteError::Collision));
    assert_eq!(registry, before);
    assert_eq!(registry.len(), 1);
    assert_eq!(registry.dispatch(Method::Post, "/x"), Err(RouteError::NotFound));
}

#[test]
fn same_key_within_one_group_collides() {
    let mut registry = MountRegistry::new();
    let group = RouteGroup::new(
        "/sync",
        vec![op(Method::Get, "/settings", 1), op(Method::Get, "settings/", 2)],
    );
    assert_eq!(registry.register("/sync", &group), Err(RouteError::Collision));
    assert_eq!(registry.len(), 0);
}

#[test]
fn same_path_with_another_method_does_not_collide() {
    let mut registry = MountRegistry::new();
    let group = RouteGroup::new(
        "/sync",
        vec![op(Method::Get, "/settings", 1), op(Method::Post, "/settings", 2)],
    );
    assert_eq!(registry.register("/sync", &group), Ok(()));
    assert!(registry.contains(Method::Post, "/sync/settings"));
    assert!(!registry.contains(Method::Put, "/sync/settings"));
    assert!(!registry.contains(Method::Post, "/settings"));
}

#[test]
fn invalid_prefix_is_rejected() {
    let mut registry = MountRegistry::new();
    let group = users_group();
    assert_eq!(registry.register("", &group), Err(RouteError::InvalidPrefix));
    assert_eq!(registry.register("users", &group), Err(RouteError::InvalidPrefix));
    assert_eq!(registry.register("/users/", &group), Err(RouteError::InvalidPrefix));
    assert_eq!(registry.register("/{id}", &group), Err(RouteError::InvalidPrefix));
    assert_eq!(registry.len(), 0);
}

#[test]
fn invalid_prefix_is_reported_before_a_collision() {
    let mut registry = MountRegistry::new();
    registry.register("/users", &users_group()).unwrap();
    let again = RouteGroup::new("/users/", vec![op(Method::Get, "/{id}", 9)]);
    assert_eq!(registry.register("/users/", &again), Err(RouteError::InvalidPrefix));
}

#[test]
fn registered_operations_keep_their_documentation() {
    let mut described = OperationDescriptor::new(Method::Post, "/create", 5, "Create Bot")
        .with_tag("Bots");
    described.request_schema = Some("DataCreateBot".to_string());
    described.response_schemas = vec![
        ResponseSchema { status: 200, schema: "Bot".to_string() },
        ResponseSchema { status: 400, schema: "Error".to_string() },
        ResponseSchema { status: 200, schema: "Shadowed".to_string() },
    ];
    let mut registry = MountRegistry::new();
    registry.register("/bots", &RouteGroup::new("/bots", vec![described.clone()])).unwrap();
    let mounted = registry.operation(0).unwrap();
    assert_eq!(mounted.path, "/bots/create");
    assert_eq!(mounted.summary, "Create Bot");
    assert_eq!(mounted.tags, vec!["Bots".to_string()]);
    assert_eq!(mounted.request_schema, described.request_schema);
    assert_eq!(mounted.response_schemas, described.response_schemas);
    assert_eq!(mounted.response_schema(200), Some(&"Bot".to_string()));
    assert_eq!(mounted.response_schema(400), Some(&"Error".to_string()));
    assert_eq!(mounted.response_schema(404), None);
    assert!(registry.operation(1).is_none());
}

#[test]
fn errors_describe_themselves() {
    assert!(RouteError::InvalidPrefix.is_startup_fatal());
    assert!(RouteError::Collision.is_startup_fatal());
    assert!(RouteError::DuplicatePath.is_startup_fatal());
    assert!(RouteError::UnknownTag.is_startup_fatal());
    assert!(!RouteError::NotFound.is_startup_fatal());
    assert_eq!(RouteError::InvalidPrefix.message(), "invalid mount prefix");
    assert_eq!(RouteError::Collision.message(), "method and path are already mounted");
    assert_eq!(RouteError::DuplicatePath.message(), "path and method are already documented");
    assert_eq!(RouteError::UnknownTag.message(), "operation uses an unknown tag");
    assert_eq!(RouteError::NotFound.message(), "no route matches");
}
