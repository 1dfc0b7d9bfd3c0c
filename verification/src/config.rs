//! The static configuration of the Revolt API document: its metadata, its
//! tags and the groups the tags are shown under, and the prefixes that the
//! feature modules are mounted at. All of it is data, held in tables.

use crate::model::{
    views, Contact, ContactSpec, Extension, ExtensionSpec, ExternalDocs,
    ExternalDocsSpec, GlobalMeta, GlobalMetaSpec, Info, InfoSpec, License, LicenseSpec, Server,
    ServerSpec, TagDescriptor, TagGroup, TagGroupSpec, TagSpec,
};
use crate::text::texts;
use vstd::prelude::*;

verus! {

pub const API_TITLE: &'static str = "Revolt API";

pub const API_DESCRIPTION: &'static str = "User-first privacy focused chat platform.";

pub const API_TERMS_OF_SERVICE: &'static str = "https://revolt.chat/terms";

pub const API_VERSION: &'static str = "0.5.3-rc.1";

pub const CONTACT_NAME: &'static str = "Revolt Support";

pub const CONTACT_URL: &'static str = "https://revolt.chat";

pub const CONTACT_EMAIL: &'static str = "contact@revolt.chat";

pub const LICENSE_NAME: &'static str = "AGPLv3";

pub const LICENSE_URL: &'static str = "https://github.com/revoltchat/delta/blob/master/LICENSE";

pub const EXTERNAL_DOCS_URL: &'static str = "https://developers.revolt.chat";

pub const EXTERNAL_DOCS_DESCRIPTION: &'static str = "Revolt Developer Documentation";

/// The key of the logo extension and its value as JSON text.
pub const LOGO_KEY: &'static str = "x-logo";

pub const LOGO_VALUE: &'static str =
    "{\"url\":\"https://revolt.chat/header.png\",\"altText\":\"Revolt Header\"}";

/// The servers: base URL and description.
pub const SERVERS: [(&'static str, &'static str); 2] = [
    ("https://api.revolt.chat", "Revolt API"),
    ("http://local.revolt.chat:8000", "Local Revolt Environment"),
];

/// The tags: name and description, in documentation order.
pub const TAGS: [(&'static str, &'static str); 20] = [
    ("Core", "Use in your applications to determine information about the Revolt node"),
    ("User Information", "Query and fetch users on Revolt"),
    ("Direct Messaging", "Direct message other users on Revolt"),
    ("Relationships", "Manage your friendships and block list on the platform"),
    ("Bots", "Create and edit bots"),
    ("Channel Information", "Query and fetch channels on Revolt"),
    ("Channel Invites", "Create and manage invites for channels"),
    ("Channel Permissions", "Manage permissions for channels"),
    ("Messaging", "Send and manipulate messages"),
    ("Groups", "Create, invite users and manipulate groups"),
    ("Voice", "Join and talk with other users"),
    ("Server Information", "Query and fetch servers on Revolt"),
    ("Server Members", "Find and edit server members"),
    ("Server Permissions", "Manage permissions for servers"),
    ("Invites", "View, join and delete invites"),
    ("Account", "Manage your account"),
    ("Session", "Create and manage sessions"),
    ("Onboarding", "After signing up to Revolt, users must pick a unique username"),
    ("Sync", "Upload and retrieve any JSON data between clients"),
    ("Web Push", "Subscribe to and receive Revolt push notifications while offline"),
];

/// The tag groups: name, position of the group's first tag in `TAGS`, and
/// number of tags. A group holds that many consecutive tags.
pub const TAG_GROUPS: [(&'static str, usize, usize); 8] = [
    ("Revolt", 0, 1),
    ("Users", 1, 3),
    ("Bots", 4, 1),
    ("Channels", 5, 6),
    ("Servers", 11, 3),
    ("Invites", 14, 1),
    ("Authentication", 15, 3),
    ("Miscellaneous", 18, 2),
];

/// The prefixes of the feature modules, in the order they are mounted:
/// root, users, bots, channels, servers, invites, account, session,
/// onboarding, push, sync.
pub const MOUNT_PREFIXES: [&'static str; 11] = [
    "/",
    "/users",
    "/bots",
    "/channels",
    "/servers",
    "/invites",
    "/auth/account",
    "/auth/session",
    "/onboard",
    "/push",
    "/sync",
];

pub open spec fn configured_tag(i: int) -> TagSpec {
    TagSpec { name: TAGS[i].0@, description: TAGS[i].1@ }
}

/// The configured tags, as the table lists them.
pub open spec fn configured_tags() -> Seq<TagSpec> {
    Seq::new(20, |i: int| configured_tag(i))
}

/// The tag names of the `k`th group: the names of its run of `TAGS`.
pub open spec fn configured_members(k: int) -> Seq<Seq<char>> {
    Seq::new(TAG_GROUPS[k].2 as nat, |j: int| TAGS[TAG_GROUPS[k].1 + j].0@)
}

pub open spec fn configured_group(k: int) -> TagGroupSpec {
    TagGroupSpec { group_name: TAG_GROUPS[k].0@, member_tag_names: configured_members(k) }
}

/// The configured tag groups, as the table lists them.
pub open spec fn configured_tag_groups() -> Seq<TagGroupSpec> {
    Seq::new(8, |k: int| configured_group(k))
}

pub open spec fn configured_server(i: int) -> ServerSpec {
    ServerSpec { url: SERVERS[i].0@, description: Some(SERVERS[i].1@) }
}

/// The configured metadata.
pub open spec fn configured_meta() -> GlobalMetaSpec {
    GlobalMetaSpec {
        info: InfoSpec {
            title: API_TITLE@,
            description: Some(API_DESCRIPTION@),
            terms_of_service: Some(API_TERMS_OF_SERVICE@),
            contact: Some(
                ContactSpec {
                    name: Some(CONTACT_NAME@),
                    url: Some(CONTACT_URL@),
                    email: Some(CONTACT_EMAIL@),
                },
            ),
            license: Some(LicenseSpec { name: LICENSE_NAME@, url: Some(LICENSE_URL@) }),
            version: API_VERSION@,
        },
        servers: Seq::new(2, |i: int| configured_server(i)),
        external_docs: Some(
            ExternalDocsSpec {
                url: EXTERNAL_DOCS_URL@,
                description: Some(EXTERNAL_DOCS_DESCRIPTION@),
            },
        ),
        extensions: seq![ExtensionSpec { key: LOGO_KEY@, value: LOGO_VALUE@ }],
    }
}

/// The mount prefixes, as the table lists them.
pub open spec fn configured_prefixes() -> Seq<Seq<char>> {
    Seq::new(11, |i: int| MOUNT_PREFIXES[i]@)
}

/// Everything the composer is configured with.
#[derive(Clone, Debug, PartialEq, Eq)]
pub struct DocumentConfig {
    pub global_meta: GlobalMeta,
    pub tag_descriptors: Vec<TagDescriptor>,
    pub tag_groups: Vec<TagGroup>,
}

/// The configured tags.
pub fn tag_descriptors() -> (tags: Vec<TagDescriptor>)
    ensures
        views(tags@) == configured_tags(),
{
    let mut out: Vec<TagDescriptor> = Vec::new();
    let mut i: usize = 0;
    while i < 20
        invariant
            i <= 20,
            out.len() == i,
            forall|j: int| 0 <= j < i ==> (#[trigger] out[j])@ == configured_tag(j),
        decreases 20 - i,
    {
        out.push(TagDescriptor { name: TAGS[i].0.to_owned(), description: TAGS[i].1.to_owned() });
        i += 1;
    }
    assert(views(out@) =~= configured_tags());
    out
}

/// The configured tag groups.
pub fn tag_groups() -> (groups: Vec<TagGroup>)
    ensures
        views(groups@) == configured_tag_groups(),
{
    let mut out: Vec<TagGroup> = Vec::new();
    let mut k: usize = 0;
    while k < 8
        invariant
            k <= 8,
            out.len() == k,
            forall|g: int| 0 <= g < k ==> (#[trigger] out[g])@ == configured_group(g),
        decreases 8 - k,
    {
        let first: usize = TAG_GROUPS[k].1;
        let count: usize = TAG_GROUPS[k].2;
        assert(first + count <= 20) by {
            assert(k == 0 || k == 1 || k == 2 || k == 3 || k == 4 || k == 5 || k == 6 || k == 7);
        }
        let mut members: Vec<String> = Vec::new();
        let mut j: usize = 0;
        while j < count
            invariant
                j <= count,
                first + count <= 20,
                members.len() == j,
                forall|m: int| 0 <= m < j ==> (#[trigger] members[m])@ == TAGS[first + m].0@,
            decreases count - j,
        {
            members.push(TAGS[first + j].0.to_owned());
            j += 1;
        }
        let group = TagGroup { group_name: TAG_GROUPS[k].0.to_owned(), member_tag_names: members };
        assert(group@.member_tag_names =~= configured_members(k as int));
        out.push(group);
        k += 1;
    }
    assert(views(out@) =~= configured_tag_groups());
    out
}

/// The configured metadata.
pub fn global_meta() -> (meta: GlobalMeta)
    ensures
        meta@ == configured_meta(),
{
    let mut servers: Vec<Server> = Vec::new();
    let mut i: usize = 0;
    while i < 2
        invariant
            i <= 2,
            servers.len() == i,
            forall|j: int| 0 <= j < i ==> (#[trigger] servers[j])@ == configured_server(j),
        decreases 2 - i,
    {
        servers.push(
            Server { url: SERVERS[i].0.to_owned(), description: Some(SERVERS[i].1.to_owned()) },
        );
        i += 1;
    }
    let mut extensions: Vec<Extension> = Vec::new();
    extensions.push(Extension { key: LOGO_KEY.to_owned(), value: LOGO_VALUE.to_owned() });
    let meta = GlobalMeta {
        info: Info {
            title: API_TITLE.to_owned(),
            description: Some(API_DESCRIPTION.to_owned()),
            terms_of_service: Some(API_TERMS_OF_SERVICE.to_owned()),
            contact: Some(
                Contact {
                    name: Some(CONTACT_NAME.to_owned()),
                    url: Some(CONTACT_URL.to_owned()),
                    email: Some(CONTACT_EMAIL.to_owned()),
                },
            ),
            license: Some(
                License { name: LICENSE_NAME.to_owned(), url: Some(LICENSE_URL.to_owned()) },
            ),
            version: API_VERSION.to_owned(),
        },
        servers,
        external_docs: Some(
            ExternalDocs {
                url: EXTERNAL_DOCS_URL.to_owned(),
                description: Some(EXTERNAL_DOCS_DESCRIPTION.to_owned()),
            },
        ),
        extensions,
    };
    assert(meta@.servers =~= configured_meta().servers);
    assert(meta@.extensions =~= configured_meta().extensions);
    meta
}

/// The whole configuration of the document: metadata, tags and tag groups.
pub fn custom_openapi_spec() -> (config: DocumentConfig)
    ensures
        config.global_meta@ == configured_meta(),
        views(config.tag_descriptors@) == configured_tags(),
        views(config.tag_groups@) == configured_tag_groups(),
{
    DocumentConfig {
        global_meta: global_meta(),
        tag_descriptors: tag_descriptors(),
        tag_groups: tag_groups(),
    }
}

/// The mount prefixes of the feature modules, in mount order.
pub fn mount_prefixes() -> (prefixes: Vec<String>)
    ensures
        texts(prefixes@) == configured_prefixes(),
{
    let mut out: Vec<String> = Vec::new();
    let mut i: usize = 0;
    while i < 11
        invariant
            i <= 11,
            out.len() == i,
            forall|j: int| 0 <= j < i ==> (#[trigger] out[j])@ == MOUNT_PREFIXES[j]@,
        decreases 11 - i,
    {
        out.push(MOUNT_PREFIXES[i].to_owned());
        i += 1;
    }
    assert(texts(out@) =~= configured_prefixes());
    out
}

} // verus!
