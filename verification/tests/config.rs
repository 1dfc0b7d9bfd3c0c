use delta_routes::composer::{check_taxonomy, order_tags};
use delta_routes::config::{
    custom_openapi_spec, global_meta, mount_prefixes, tag_descriptors, tag_groups,
};
use delta_routes::path::check_prefix;

#[test]
fn configured_metadata() {
    let meta = global_meta();
    assert_eq!(meta.info.title, "Revolt API");
    assert_eq!(
        meta.info.description.as_deref(),
        Some("User-first privacy focused chat platform.")
    );
    assert_eq!(meta.info.terms_of_service.as_deref(), Some("https://revolt.chat/terms"));
    assert_eq!(meta.info.version, "0.5.3-rc.1");
    let contact = meta.info.contact.unwrap();
    assert_eq!(contact.name.as_deref(), Some("Revolt Support"));
    assert_eq!(contact.url.as_deref(), Some("https://revolt.chat"));
    assert_eq!(contact.email.as_deref(), Some("contact@revolt.chat"));
    let license = meta.info.license.unwrap();
    assert_eq!(license.name, "AGPLv3");
    assert_eq!(
        license.url.as_deref(),
        Some("https://github.com/revoltchat/delta/blob/master/LICENSE")
    );
    assert_eq!(meta.servers.len(), 2);
    assert_eq!(meta.servers[0].url, "https://api.revolt.chat");
    assert_eq!(meta.servers[0].description.as_deref(), Some("Revolt API"));
    assert_eq!(meta.servers[1].url, "http://local.revolt.chat:8000");
    assert_eq!(meta.servers[1].description.as_deref(), Some("Local Revolt Environment"));
    let docs = meta.external_docs.unwrap();
    assert_eq!(docs.url, "https://developers.revolt.chat");
    assert_eq!(docs.description.as_deref(), Some("Revolt Developer Documentation"));
    assert_eq!(meta.extensions.len(), 1);
    assert_eq!(meta.extensions[0].key, "x-logo");
    assert_eq!(
        meta.extensions[0].value,
        "{\"url\":\"https://revolt.chat/header.png\",\"altText\":\"Revolt Header\"}"
    );
}

#[test]
fn configured_tags() {
    let tags = tag_descriptors();
    assert_eq!(tags.len(), 20);
    assert_eq!(tags[0].name, "Core");
    assert_eq!(
        tags[0].description,
        "Use in your applications to determine information about the Revolt node"
    );
    assert_eq!(tags[4].name, "Bots");
    assert_eq!(tags[4].description, "Create and edit bots");
    assert_eq!(tags[10].name, "Voice");
    assert_eq!(tags[19].name, "Web Push");
    assert_eq!(
        tags[19].description,
        "Subscribe to and receive Revolt push notifications while offline"
    );
}

#[test]
fn configured_tag_groups() {
    let groups = tag_groups();
    let listed: Vec<(&str, Vec<&str>)> = groups
        .iter()
        .map(|g| (g.group_name.as_str(), g.member_tag_names.iter().map(|m| m.as_str()).collect()))
        .collect();
    assert_eq!(
        listed,
        vec![
            ("Revolt", vec!["Core"]),
            ("Users", vec!["User Information", "Direct Messaging", "Relationships"]),
            ("Bots", vec!["Bots"]),
            (
                "Channels",
                vec![
                    "Channel Information",
                    "Channel Invites",
                    "Channel Permissions",
                    "Messaging",
                    "Groups",
                    "Voice",
                ],
            ),
            ("Servers", vec!["Server Information", "Server Members", "Server Permissions"]),
            ("Invites", vec!["Invites"]),
            ("Authentication", vec!["Account", "Session", "Onboarding"]),
            ("Miscellaneous", vec!["Sync", "Web Push"]),
        ]
    );
}

#[test]
fn configured_taxonomy_is_consistent() {
    let config = custom_openapi_spec();
    assert!(check_taxonomy(&config.tag_descriptors, &config.tag_groups));
    let grouped: usize = config.tag_groups.iter().map(|g| g.member_tag_names.len()).sum();
    assert_eq!(grouped, config.tag_descriptors.len());
    assert_eq!(
        order_tags(&config.tag_descriptors, &config.tag_groups),
        config.tag_descriptors
    );
}

#[test]
fn configured_prefixes_are_valid_and_ordered() {
    let prefixes = mount_prefixes();
    assert_eq!(
        prefixes,
        vec![
            "/",
            "/users",
            "/bots",
            "/channels",
            "/servers",
            "/invites",
            "/auth/account",
            "/auth/session",
            "/onboard",
            "/push",
            "/sync",
        ]
    );
    for prefix in &prefixes {
        assert!(check_prefix(prefix));
    }
}
