//! The composite API document: the derived description of everything that
//! is mounted. It is built by the composer and read through accessors; it is
//! never edited.

use crate::model::{
    opt_view, views, Extension, ExtensionSpec, ExternalDocs, ExternalDocsSpec, Info, InfoSpec,
    Method, OperationDescriptor, OperationSpec, Server, ServerSpec, TagDescriptor, TagGroup,
    TagGroupSpec, TagSpec,
};
use vstd::prelude::*;

verus! {

/// The operations documented at one fully qualified path, one per method, in
/// the order they were mounted.
#[derive(Clone, Debug, PartialEq, Eq)]
pub struct PathItem {
    pub path: String,
    pub operations: Vec<OperationDescriptor>,
}

pub struct PathItemSpec {
    pub path: Seq<char>,
    pub operations: Seq<OperationSpec>,
}

impl View for PathItem {
    type V = PathItemSpec;

    open spec fn view(&self) -> PathItemSpec {
        PathItemSpec { path: self.path@, operations: views(self.operations@) }
    }
}

/// The operation of `item` with the given method: the first, if the item
/// should hold several.
pub open spec fn operation_in(operations: Seq<OperationSpec>, method: Method) -> Option<
    OperationSpec,
>
    decreases operations.len(),
{
    if operations.len() == 0 {
        None
    } else if operations[0].method == method {
        Some(operations[0])
    } else {
        operation_in(operations.drop_first(), method)
    }
}

/// The operation documented at a path and method, looked up in path order.
pub open spec fn operation_at(paths: Seq<PathItemSpec>, path: Seq<char>, method: Method) -> Option<
    OperationSpec,
>
    decreases paths.len(),
{
    if paths.len() == 0 {
        None
    } else if paths[0].path == path {
        operation_in(paths[0].operations, method)
    } else {
        operation_at(paths.drop_first(), path, method)
    }
}

pub struct DocumentSpec {
    pub openapi: Seq<char>,
    pub info: InfoSpec,
    pub servers: Seq<ServerSpec>,
    pub external_docs: Option<ExternalDocsSpec>,
    pub tags: Seq<TagSpec>,
    pub tag_groups: Seq<TagGroupSpec>,
    pub paths: Seq<PathItemSpec>,
    pub extensions: Seq<ExtensionSpec>,
}

/// The composite document.
#[derive(Clone, Debug, PartialEq, Eq)]
pub struct CompositeDocument {
    openapi: String,
    info: Info,
    servers: Vec<Server>,
    external_docs: Option<ExternalDocs>,
    tags: Vec<TagDescriptor>,
    tag_groups: Vec<TagGroup>,
    paths: Vec<PathItem>,
    extensions: Vec<Extension>,
}

impl View for CompositeDocument {
    type V = DocumentSpec;

    closed spec fn view(&self) -> DocumentSpec {
        DocumentSpec {
            openapi: self.openapi@,
            info: self.info@,
            servers: views(self.servers@),
            external_docs: opt_view(self.external_docs),
            tags: views(self.tags@),
            tag_groups: views(self.tag_groups@),
            paths: views(self.paths@),
            extensions: views(self.extensions@),
        }
    }
}

impl CompositeDocument {
    pub(crate) fn assemble(
        openapi: String,
        info: Info,
        servers: Vec<Server>,
        external_docs: Option<ExternalDocs>,
        tags: Vec<TagDescriptor>,
        tag_groups: Vec<TagGroup>,
        paths: Vec<PathItem>,
        extensions: Vec<Extension>,
    ) -> (doc: Self)
        ensures
            doc@.openapi == openapi@,
            doc@.info == info@,
            doc@.servers == views(servers@),
            doc@.external_docs == opt_view(external_docs),
            doc@.tags == views(tags@),
            doc@.tag_groups == views(tag_groups@),
            doc@.paths == views(paths@),
            doc@.extensions == views(extensions@),
    {
        CompositeDocument {
            openapi,
            info,
            servers,
            external_docs,
            tags,
            tag_groups,
            paths,
            extensions,
        }
    }

    /// The version of the document format.
    pub fn openapi(&self) -> (v: &String)
        ensures
            v@ == self@.openapi,
    {
        &self.openapi
    }

    pub fn info(&self) -> (info: &Info)
        ensures
            info@ == self@.info,
    {
        &self.info
    }

    pub fn servers(&self) -> (servers: &Vec<Server>)
        ensures
            views(servers@) == self@.servers,
    {
        &self.servers
    }

    pub fn external_docs(&self) -> (docs: &Option<ExternalDocs>)
        ensures
            opt_view(*docs) == self@.external_docs,
    {
        &self.external_docs
    }

    /// The top-level tag list, in documentation order.
    pub fn tags(&self) -> (tags: &Vec<TagDescriptor>)
        ensures
            views(tags@) == self@.tags,
    {
        &self.tags
    }

    pub fn tag_groups(&self) -> (groups: &Vec<TagGroup>)
        ensures
            views(groups@) == self@.tag_groups,
    {
        &self.tag_groups
    }

    /// The path items, in the order their paths were first mounted.
    pub fn paths(&self) -> (paths: &Vec<PathItem>)
        ensures
            views(paths@) == self@.paths,
    {
        &self.paths
    }

    pub fn extensions(&self) -> (extensions: &Vec<Extension>)
        ensures
            views(extensions@) == self@.extensions,
    {
        &self.extensions
    }

    /// The operation documented at a fully qualified path and method.
    pub fn operation(&self, path: &str, method: Method) -> (op: Option<&OperationDescriptor>)
        ensures
            match op {
                Some(o) => operation_at(self@.paths, path@, method) == Some(o@),
                None => operation_at(self@.paths, path@, method) is None,
            },
    {
        let wanted = path.to_owned();
        let ghost all = views(self.paths@);
        let mut i: usize = 0;
        assert(all.skip(0) =~= all);
        while i < self.paths.len()
            invariant
                i <= self.paths.len(),
                all == views(self.paths@),
                wanted@ == path@,
                operation_at(all, path@, method) == operation_at(all.skip(i as int), path@, method),
            decreases self.paths.len() - i,
        {
            proof {
                assert(all.skip(i as int)[0] == self.paths[i as int]@);
                assert(all.skip(i as int).drop_first() =~= all.skip(i + 1));
            }
            if self.paths[i].path == wanted {
                let item = &self.paths[i];
                let ghost ops = views(item.operations@);
                let mut k: usize = 0;
                assert(ops.skip(0) =~= ops);
                assert(operation_at(self@.paths, path@, method) == operation_in(ops, method));
                while k < item.operations.len()
                    invariant
                        k <= item.operations.len(),
                        ops == views(item.operations@),
                        operation_at(self@.paths, path@, method) == operation_in(ops, method),
                        operation_in(ops, method) == operation_in(ops.skip(k as int), method),
                    decreases item.operations.len() - k,
                {
                    proof {
                        assert(ops.skip(k as int)[0] == item.operations[k as int]@);
                        assert(ops.skip(k as int).drop_first() =~= ops.skip(k + 1));
                    }
                    if item.operations[k].method == method {
                        return Some(&item.operations[k]);
                    }
                    k += 1;
                }
                return None;
            }
            i += 1;
        }
        None
    }
}

} // verus!
