use delta_routes::config::{custom_openapi_spec, mount_prefixes};
use delta_routes::error::RouteError;
use delta_routes::model::{Method, OperationDescriptor, RouteGroup};
use delta_routes::publisher::DocumentPublisher;
use delta_routes::service::{mount, Phase, RouteService, Step};

fn op(method: Method, path: &str, handler: u64, tag: &str) -> OperationDescriptor {
    OperationDescriptor::new(method, path, handler, "").with_tag(tag)
}

fn root() -> RouteGroup {
    RouteGroup::new(
        "/",
        vec![op(Method::Get, "/", 1, "Core"), op(Method::Get, "/ping", 2, "Core")],
    )
}

fn users() -> RouteGroup {
    RouteGroup::new("/users", vec![op(Method::Get, "/{id}", 3, "User Information")])
}

#[test]
fn mount_end_to_end() {
    let config = custom_openapi_spec();
    let service = mount(
        &config.global_meta,
        &config.tag_descriptors,
        &config.tag_groups,
        &vec![root(), users()],
    )
    .unwrap();
    assert_eq!(service.phase(), Phase::Ready);
    let registry = service.registry();
    assert_eq!(registry.dispatch(Method::Get, "/ping").unwrap().handler, 2);
    let user = registry.dispatch(Method::Get, "/users/abc").unwrap();
    assert_eq!(user.handler, 3);
    assert_eq!(user.parameters[0].name, "id");
    assert_eq!(user.parameters[0].value, "abc");
    assert_eq!(registry.dispatch(Method::Get, "/unknown"), Err(RouteError::NotFound));

    let document = service.publisher().unwrap().document();
    let paths: Vec<&str> = document.paths().iter().map(|p| p.path.as_str()).collect();
    assert_eq!(paths, vec!["/", "/ping", "/users/{id}"]);
    assert_eq!(document.tags().len(), 20);
}

#[test]
fn mounted_table_and_document_agree() {
    let config = custom_openapi_spec();
    let service = mount(
        &config.global_meta,
        &config.tag_descriptors,
        &config.tag_groups,
        &vec![root(), users()],
    )
    .unwrap();
    let registry = service.registry();
    let document = service.publisher().unwrap().document();
    let documented: usize = document.paths().iter().map(|p| p.operations.len()).sum();
    assert_eq!(documented, registry.len());
    for route in 0..registry.len() {
        let mounted = registry.operation(route).unwrap();
        assert_eq!(document.operation(&mounted.path, mounted.method), Some(mounted));
    }
}

#[test]
fn mount_reports_the_first_error() {
    let config = custom_openapi_spec();
    let run = |groups: Vec<RouteGroup>| {
        mount(&config.global_meta, &config.tag_descriptors, &config.tag_groups, &groups)
            .map(|_| ())
    };
    let bad_prefix = RouteGroup::new("users", vec![op(Method::Get, "/x", 7, "Core")]);
    let collides = RouteGroup::new("/", vec![op(Method::Get, "/users/{id}", 8, "Core")]);
    let unknown = RouteGroup::new("/bots", vec![op(Method::Get, "/x", 9, "No Such Tag")]);
    assert_eq!(run(vec![root(), bad_prefix.clone()]), Err(RouteError::InvalidPrefix));
    assert_eq!(run(vec![users(), collides.clone()]), Err(RouteError::Collision));
    assert_eq!(run(vec![root(), unknown.clone()]), Err(RouteError::UnknownTag));
    assert_eq!(run(vec![unknown.clone(), bad_prefix.clone()]), Err(RouteError::InvalidPrefix));
    assert_eq!(run(vec![users(), collides, bad_prefix]), Err(RouteError::Collision));
    assert_eq!(run(vec![]), Ok(()));
}

#[test]
fn mount_takes_the_standard_prefixes_in_order() {
    let config = custom_openapi_spec();
    let groups: Vec<RouteGroup> = mount_prefixes()
        .iter()
        .enumerate()
        .map(|(i, prefix)| {
            RouteGroup::new(prefix, vec![op(Method::Get, "/{id}", i as u64, "Core")])
        })
        .collect();
    let service =
        mount(&config.global_meta, &config.tag_descriptors, &config.tag_groups, &groups).unwrap();
    let registry = service.registry();
    assert_eq!(registry.len(), 11);
    assert_eq!(registry.dispatch(Method::Get, "/x").unwrap().handler, 0);
    assert_eq!(registry.dispatch(Method::Get, "/users/x").unwrap().handler, 1);
    assert_eq!(registry.dispatch(Method::Get, "/auth/account/x").unwrap().handler, 6);
    assert_eq!(registry.dispatch(Method::Get, "/auth/session/x").unwrap().handler, 7);
    assert_eq!(registry.dispatch(Method::Get, "/sync/x").unwrap().handler, 10);
}

#[test]
fn phases_follow_one_another() {
    assert_eq!(Phase::Uninitialized.advance(Step::Begin), Some(Phase::Mounting));
    assert_eq!(Phase::Mounting.advance(Step::Register), Some(Phase::Mounting));
    assert_eq!(Phase::Mounting.advance(Step::Compose), Some(Phase::Composing));
    assert_eq!(Phase::Composing.advance(Step::Publish), Some(Phase::Ready));
    for step in [Step::Begin, Step::Register, Step::Compose, Step::Publish] {
        assert_eq!(Phase::Ready.advance(step), None);
    }
    assert_eq!(Phase::Uninitialized.advance(Step::Register), None);
    assert_eq!(Phase::Uninitialized.advance(Step::Compose), None);
    assert_eq!(Phase::Mounting.advance(Step::Publish), None);
    assert_eq!(Phase::Composing.advance(Step::Register), None);
}

#[test]
fn service_walks_through_its_phases() {
    let config = custom_openapi_spec();
    let mut service = RouteService::new();
    assert_eq!(service.phase(), Phase::Uninitialized);
    assert!(service.publisher().is_none());
    service.begin();
    assert_eq!(service.phase(), Phase::Mounting);
    assert_eq!(service.register("/", &root()), Ok(()));
    assert_eq!(service.register("/", &root()), Err(RouteError::Collision));
    assert_eq!(service.phase(), Phase::Mounting);
    assert_eq!(service.registry().len(), 2);
    assert_eq!(service.register("/users", &users()), Ok(()));
    assert!(service.publisher().is_none());
    assert_eq!(
        service.compose(&config.global_meta, &config.tag_descriptors, &config.tag_groups),
        Ok(())
    );
    assert_eq!(service.phase(), Phase::Ready);
    assert_eq!(service.publisher().unwrap().document().paths().len(), 3);
}

#[test]
fn failed_composition_leaves_the_service_composing() {
    let config = custom_openapi_spec();
    let mut service = RouteService::new();
    service.begin();
    let unknown = RouteGroup::new("/bots", vec![op(Method::Get, "/x", 9, "No Such Tag")]);
    assert_eq!(service.register("/bots", &unknown), Ok(()));
    assert_eq!(
        service.compose(&config.global_meta, &config.tag_descriptors, &config.tag_groups),
        Err(RouteError::UnknownTag)
    );
    assert_eq!(service.phase(), Phase::Composing);
    assert!(service.publisher().is_none());
}

#[test]
fn publisher_serves_the_document_at_its_path() {
    let config = custom_openapi_spec();
    let service = mount(
        &config.global_meta,
        &config.tag_descriptors,
        &config.tag_groups,
        &vec![root()],
    )
    .unwrap();
    let publisher = service.publisher().unwrap();
    assert_eq!(publisher.path(), "/openapi.json");
    assert_eq!(publisher.fetch(Method::Get, "/openapi.json"), Ok(publisher.document()));
    assert_eq!(publisher.fetch(Method::Get, "openapi.json/"), Ok(publisher.document()));
    assert_eq!(publisher.fetch(Method::Post, "/openapi.json"), Err(RouteError::NotFound));
    assert_eq!(publisher.fetch(Method::Get, "/swagger.json"), Err(RouteError::NotFound));
    assert_eq!(publisher.fetch(Method::Get, "/"), Err(RouteError::NotFound));
}

#[test]
fn publisher_swaps_documents_whole() {
    let config = custom_openapi_spec();
    let compose_for = |groups: Vec<RouteGroup>| {
        mount(&config.global_meta, &config.tag_descriptors, &config.tag_groups, &groups)
            .unwrap()
            .publisher()
            .unwrap()
            .document()
            .clone()
    };
    let old = compose_for(vec![root()]);
    let new = compose_for(vec![root(), users()]);
    let mut publisher = DocumentPublisher::serve(old.clone());
    assert_eq!(publisher.document(), &old);
    let previous = publisher.swap(new.clone());
    assert_eq!(previous, old);
    assert_eq!(publisher.document(), &new);
    assert_eq!(publisher.path(), "/openapi.json");
}
