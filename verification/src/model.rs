//! The data that feature modules and static configuration hand to the
//! registry and the composer, each with its mathematical view.

use crate::path::{qualified_path, qualify};
use crate::text::{clone_opt_string, clone_strings, opt_text, texts};
use vstd::prelude::*;

verus! {

/// The views of a sequence of values, element by element.
pub open spec fn views<T: View>(s: Seq<T>) -> Seq<T::V> {
    Seq::new(s.len(), |i: int| s[i]@)
}

pub proof fn lemma_views_push<T: View>(s: Seq<T>, x: T)
    ensures
        views(s.push(x)) == views(s).push(x@),
{
    assert(views(s.push(x)) =~= views(s).push(x@));
}

pub proof fn lemma_views_add<T: View>(a: Seq<T>, b: Seq<T>)
    ensures
        views(a + b) == views(a) + views(b),
{
    assert(views(a + b) =~= views(a) + views(b));
}

/// A value that can be copied with its view preserved.
pub trait Duplicate: View + Sized {
    fn duplicate(&self) -> (r: Self)
        ensures
            r@ == self@,
    ;
}

/// Copies a list element by element.
pub fn duplicate_all<T: Duplicate>(v: &Vec<T>) -> (r: Vec<T>)
    ensures
        views(r@) == views(v@),
{
    let mut out: Vec<T> = Vec::new();
    let mut i: usize = 0;
    while i < v.len()
        invariant
            i <= v.len(),
            out.len() == i,
            forall|j: int| 0 <= j < i ==> out[j]@ == v[j]@,
        decreases v.len() - i,
    {
        out.push(v[i].duplicate());
        i += 1;
    }
    assert(views(out@) =~= views(v@));
    out
}

/// HTTP request methods.
#[derive(Clone, Copy, Debug, PartialEq, Eq, Structural)]
pub enum Method {
    Get,
    Put,
    Post,
    Delete,
    Options,
    Head,
    Patch,
    Trace,
    Connect,
}

/// The schema that documents the response with one status code.
#[derive(Clone, Debug, PartialEq, Eq)]
pub struct ResponseSchema {
    pub status: u16,
    pub schema: String,
}

pub struct ResponseSchemaSpec {
    pub status: u16,
    pub schema: Seq<char>,
}

impl View for ResponseSchema {
    type V = ResponseSchemaSpec;

    open spec fn view(&self) -> ResponseSchemaSpec {
        ResponseSchemaSpec { status: self.status, schema: self.schema@ }
    }
}

impl Duplicate for ResponseSchema {
    fn duplicate(&self) -> (r: Self) {
        ResponseSchema { status: self.status, schema: self.schema.clone() }
    }
}

/// One endpoint as its feature module declares it. `handler` is an opaque
/// reference chosen by the module; nothing here interprets it.
#[derive(Clone, Debug, PartialEq, Eq)]
pub struct OperationDescriptor {
    pub method: Method,
    pub path: String,
    pub handler: u64,
    pub summary: String,
    pub tags: Vec<String>,
    pub request_schema: Option<String>,
    pub response_schemas: Vec<ResponseSchema>,
}

pub struct OperationSpec {
    pub method: Method,
    pub path: Seq<char>,
    pub handler: u64,
    pub summary: Seq<char>,
    pub tags: Seq<Seq<char>>,
    pub request_schema: Option<Seq<char>>,
    pub response_schemas: Seq<ResponseSchemaSpec>,
}

impl View for OperationDescriptor {
    type V = OperationSpec;

    open spec fn view(&self) -> OperationSpec {
        OperationSpec {
            method: self.method,
            path: self.path@,
            handler: self.handler,
            summary: self.summary@,
            tags: texts(self.tags@),
            request_schema: opt_text(self.request_schema),
            response_schemas: views(self.response_schemas@),
        }
    }
}

impl Duplicate for OperationDescriptor {
    fn duplicate(&self) -> (r: Self) {
        OperationDescriptor {
            method: self.method,
            path: self.path.clone(),
            handler: self.handler,
            summary: self.summary.clone(),
            tags: clone_strings(&self.tags),
            request_schema: clone_opt_string(&self.request_schema),
            response_schemas: duplicate_all(&self.response_schemas),
        }
    }
}

/// The schema of the first response entry with the given status.
pub open spec fn response_schema_for(schemas: Seq<ResponseSchemaSpec>, status: u16) -> Option<
    Seq<char>,
>
    decreases schemas.len(),
{
    if schemas.len() == 0 {
        None
    } else if schemas[0].status == status {
        Some(schemas[0].schema)
    } else {
        response_schema_for(schemas.drop_first(), status)
    }
}

/// An operation as it stands once its group is mounted under `prefix`: the
/// same operation, its path fully qualified.
pub open spec fn qualified_operation(prefix: Seq<char>, op: OperationSpec) -> OperationSpec {
    OperationSpec { path: qualified_path(prefix, op.path), ..op }
}

/// The key under which an operation is mounted and documented.
pub open spec fn same_key(a: OperationSpec, b: OperationSpec) -> bool {
    a.method == b.method && a.path == b.path
}

impl OperationDescriptor {
    /// A descriptor with a summary and nothing else documented.
    pub fn new(method: Method, path: &str, handler: u64, summary: &str) -> (op: Self)
        ensures
            op@.method == method,
            op@.path == path@,
            op@.handler == handler,
            op@.summary == summary@,
            op@.tags == Seq::<Seq<char>>::empty(),
            op@.request_schema == None::<Seq<char>>,
            op@.response_schemas == Seq::<ResponseSchemaSpec>::empty(),
    {
        let op = OperationDescriptor {
            method,
            path: path.to_owned(),
            handler,
            summary: summary.to_owned(),
            tags: Vec::new(),
            request_schema: None,
            response_schemas: Vec::new(),
        };
        assert(op@.tags =~= Seq::<Seq<char>>::empty());
        assert(op@.response_schemas =~= Seq::<ResponseSchemaSpec>::empty());
        op
    }

    /// The same descriptor with one more tag.
    pub fn with_tag(self, tag: &str) -> (op: Self)
        ensures
            op@.tags == self@.tags.push(tag@),
            op@.method == self@.method,
            op@.path == self@.path,
            op@.handler == self@.handler,
            op@.summary == self@.summary,
            op@.request_schema == self@.request_schema,
            op@.response_schemas == self@.response_schemas,
    {
        let mut op = self;
        let tag = tag.to_owned();
        proof {
            crate::text::lemma_texts_push(op.tags@, tag);
        }
        op.tags.push(tag);
        op
    }

    /// The schema documented for a status code, if any: the first entry
    /// with that status.
    pub fn response_schema(&self, status: u16) -> (r: Option<&String>)
        ensures
            match r {
                Some(s) => response_schema_for(self@.response_schemas, status) == Some(s@),
                None => response_schema_for(self@.response_schemas, status) is None,
            },
    {
        let mut i: usize = 0;
        assert(self@.response_schemas.skip(0) =~= self@.response_schemas);
        while i < self.response_schemas.len()
            invariant
                i <= self.response_schemas.len(),
                response_schema_for(self@.response_schemas, status) == response_schema_for(
                    self@.response_schemas.skip(i as int),
                    status,
                ),
            decreases self.response_schemas.len() - i,
        {
            proof {
                let rest = self@.response_schemas.skip(i as int);
                assert(rest[0] == self.response_schemas[i as int]@);
                assert(rest.drop_first() =~= self@.response_schemas.skip(i + 1));
            }
            if self.response_schemas[i].status == status {
                return Some(&self.response_schemas[i].schema);
            }
            i += 1;
        }
        None
    }

    /// This operation with its path qualified by a mount prefix.
    pub fn qualified(&self, prefix: &str) -> (op: Self)
        ensures
            op@ == qualified_operation(prefix@, self@),
    {
        OperationDescriptor {
            method: self.method,
            path: qualify(prefix, self.path.as_str()),
            handler: self.handler,
            summary: self.summary.clone(),
            tags: clone_strings(&self.tags),
            request_schema: clone_opt_string(&self.request_schema),
            response_schemas: duplicate_all(&self.response_schemas),
        }
    }
}

/// The operations of one feature module, in the order the module declares
/// them, with the prefix it asks to be mounted under.
#[derive(Clone, Debug, PartialEq, Eq)]
pub struct RouteGroup {
    pub mount_prefix: String,
    pub operations: Vec<OperationDescriptor>,
}

pub struct RouteGroupSpec {
    pub mount_prefix: Seq<char>,
    pub operations: Seq<OperationSpec>,
}

impl View for RouteGroup {
    type V = RouteGroupSpec;

    open spec fn view(&self) -> RouteGroupSpec {
        RouteGroupSpec { mount_prefix: self.mount_prefix@, operations: views(self.operations@) }
    }
}

impl Duplicate for RouteGroup {
    fn duplicate(&self) -> (r: Self) {
        RouteGroup {
            mount_prefix: self.mount_prefix.clone(),
            operations: duplicate_all(&self.operations),
        }
    }
}

/// The operations of a group mounted under `prefix`, in declared order.
pub open spec fn mounted_operations(prefix: Seq<char>, operations: Seq<OperationSpec>) -> Seq<
    OperationSpec,
> {
    Seq::new(operations.len(), |i: int| qualified_operation(prefix, operations[i]))
}

impl RouteGroup {
    pub fn new(mount_prefix: &str, operations: Vec<OperationDescriptor>) -> (group: Self)
        ensures
            group@.mount_prefix == mount_prefix@,
            group@.operations == views(operations@),
    {
        RouteGroup { mount_prefix: mount_prefix.to_owned(), operations }
    }
}

/// A tag with the text that documents it.
#[derive(Clone, Debug, PartialEq, Eq)]
pub struct TagDescriptor {
    pub name: String,
    pub description: String,
}

pub struct TagSpec {
    pub name: Seq<char>,
    pub description: Seq<char>,
}

impl View for TagDescriptor {
    type V = TagSpec;

    open spec fn view(&self) -> TagSpec {
        TagSpec { name: self.name@, description: self.description@ }
    }
}

impl Duplicate for TagDescriptor {
    fn duplicate(&self) -> (r: Self) {
        TagDescriptor { name: self.name.clone(), description: self.description.clone() }
    }
}

/// A named group of tags: the upper level of the two-level taxonomy.
#[derive(Clone, Debug, PartialEq, Eq)]
pub struct TagGroup {
    pub group_name: String,
    pub member_tag_names: Vec<String>,
}

pub struct TagGroupSpec {
    pub group_name: Seq<char>,
    pub member_tag_names: Seq<Seq<char>>,
}

impl View for TagGroup {
    type V = TagGroupSpec;

    open spec fn view(&self) -> TagGroupSpec {
        TagGroupSpec {
            group_name: self.group_name@,
            member_tag_names: texts(self.member_tag_names@),
        }
    }
}

impl Duplicate for TagGroup {
    fn duplicate(&self) -> (r: Self) {
        TagGroup {
            group_name: self.group_name.clone(),
            member_tag_names: clone_strings(&self.member_tag_names),
        }
    }
}

/// Whom to contact about the API.
#[derive(Clone, Debug, PartialEq, Eq)]
pub struct Contact {
    pub name: Option<String>,
    pub url: Option<String>,
    pub email: Option<String>,
}

pub struct ContactSpec {
    pub name: Option<Seq<char>>,
    pub url: Option<Seq<char>>,
    pub email: Option<Seq<char>>,
}

impl View for Contact {
    type V = ContactSpec;

    open spec fn view(&self) -> ContactSpec {
        ContactSpec {
            name: opt_text(self.name),
            url: opt_text(self.url),
            email: opt_text(self.email),
        }
    }
}

impl Duplicate for Contact {
    fn duplicate(&self) -> (r: Self) {
        Contact {
            name: clone_opt_string(&self.name),
            url: clone_opt_string(&self.url),
            email: clone_opt_string(&self.email),
        }
    }
}

/// The license the API is offered under.
#[derive(Clone, Debug, PartialEq, Eq)]
pub struct License {
    pub name: String,
    pub url: Option<String>,
}

pub struct LicenseSpec {
    pub name: Seq<char>,
    pub url: Option<Seq<char>>,
}

impl View for License {
    type V = LicenseSpec;

    open spec fn view(&self) -> LicenseSpec {
        LicenseSpec { name: self.name@, url: opt_text(self.url) }
    }
}

impl Duplicate for License {
    fn duplicate(&self) -> (r: Self) {
        License { name: self.name.clone(), url: clone_opt_string(&self.url) }
    }
}

/// A base URL under which the API is served.
#[derive(Clone, Debug, PartialEq, Eq)]
pub struct Server {
    pub url: String,
    pub description: Option<String>,
}

pub struct ServerSpec {
    pub url: Seq<char>,
    pub description: Option<Seq<char>>,
}

impl View for Server {
    type V = ServerSpec;

    open spec fn view(&self) -> ServerSpec {
        ServerSpec { url: self.url@, description: opt_text(self.description) }
    }
}

impl Duplicate for Server {
    fn duplicate(&self) -> (r: Self) {
        Server { url: self.url.clone(), description: clone_opt_string(&self.description) }
    }
}

/// Where further documentation is found.
#[derive(Clone, Debug, PartialEq, Eq)]
pub struct ExternalDocs {
    pub url: String,
    pub description: Option<String>,
}

pub struct ExternalDocsSpec {
    pub url: Seq<char>,
    pub description: Option<Seq<char>>,
}

impl View for ExternalDocs {
    type V = ExternalDocsSpec;

    open spec fn view(&self) -> ExternalDocsSpec {
        ExternalDocsSpec { url: self.url@, description: opt_text(self.description) }
    }
}

impl Duplicate for ExternalDocs {
    fn duplicate(&self) -> (r: Self) {
        ExternalDocs { url: self.url.clone(), description: clone_opt_string(&self.description) }
    }
}

/// Title, version and the other descriptive metadata of the API.
#[derive(Clone, Debug, PartialEq, Eq)]
pub struct Info {
    pub title: String,
    pub description: Option<String>,
    pub terms_of_service: Option<String>,
    pub contact: Option<Contact>,
    pub license: Option<License>,
    pub version: String,
}

pub struct InfoSpec {
    pub title: Seq<char>,
    pub description: Option<Seq<char>>,
    pub terms_of_service: Option<Seq<char>>,
    pub contact: Option<ContactSpec>,
    pub license: Option<LicenseSpec>,
    pub version: Seq<char>,
}

/// The view of an optional value.
pub open spec fn opt_view<T: View>(o: Option<T>) -> Option<T::V> {
    match o {
        Some(x) => Some(x@),
        None => None,
    }
}

/// Copies an optional value.
pub fn duplicate_opt<T: Duplicate>(o: &Option<T>) -> (r: Option<T>)
    ensures
        opt_view(r) == opt_view(*o),
{
    match o {
        Some(x) => Some(x.duplicate()),
        None => None,
    }
}

impl View for Info {
    type V = InfoSpec;

    open spec fn view(&self) -> InfoSpec {
        InfoSpec {
            title: self.title@,
            description: opt_text(self.description),
            terms_of_service: opt_text(self.terms_of_service),
            contact: opt_view(self.contact),
            license: opt_view(self.license),
            version: self.version@,
        }
    }
}

impl Duplicate for Info {
    fn duplicate(&self) -> (r: Self) {
        Info {
            title: self.title.clone(),
            description: clone_opt_string(&self.description),
            terms_of_service: clone_opt_string(&self.terms_of_service),
            contact: duplicate_opt(&self.contact),
            license: duplicate_opt(&self.license),
            version: self.version.clone(),
        }
    }
}

/// A vendor extension of the document: a key and its value as JSON text.
/// The value is carried through unread.
#[derive(Clone, Debug, PartialEq, Eq)]
pub struct Extension {
    pub key: String,
    pub value: String,
}

pub struct ExtensionSpec {
    pub key: Seq<char>,
    pub value: Seq<char>,
}

impl View for Extension {
    type V = ExtensionSpec;

    open spec fn view(&self) -> ExtensionSpec {
        ExtensionSpec { key: self.key@, value: self.value@ }
    }
}

impl Duplicate for Extension {
    fn duplicate(&self) -> (r: Self) {
        Extension { key: self.key.clone(), value: self.value.clone() }
    }
}

/// The metadata that heads the document, whatever is mounted.
#[derive(Clone, Debug, PartialEq, Eq)]
pub struct GlobalMeta {
    pub info: Info,
    pub servers: Vec<Server>,
    pub external_docs: Option<ExternalDocs>,
    pub extensions: Vec<Extension>,
}

pub struct GlobalMetaSpec {
    pub info: InfoSpec,
    pub servers: Seq<ServerSpec>,
    pub external_docs: Option<ExternalDocsSpec>,
    pub extensions: Seq<ExtensionSpec>,
}

impl View for GlobalMeta {
    type V = GlobalMetaSpec;

    open spec fn view(&self) -> GlobalMetaSpec {
        GlobalMetaSpec {
            info: self.info@,
            servers: views(self.servers@),
            external_docs: opt_view(self.external_docs),
            extensions: views(self.extensions@),
        }
    }
}

impl Duplicate for GlobalMeta {
    fn duplicate(&self) -> (r: Self) {
        GlobalMeta {
            info: self.info.duplicate(),
            servers: duplicate_all(&self.servers),
            external_docs: duplicate_opt(&self.external_docs),
            extensions: duplicate_all(&self.extensions),
        }
    }
}

} // verus!
