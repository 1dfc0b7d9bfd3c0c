//! The document publisher: holds the most recently composed document and
//! answers requests for it at one fixed path.

use crate::document::{CompositeDocument, DocumentSpec};
use crate::error::RouteError;
use crate::model::Method;
use crate::path::{qualified_path, qualify};
use vstd::prelude::*;

verus! {

/// The path at which the document is published.
pub open spec fn document_path() -> Seq<char> {
    "/openapi.json"@
}

/// The `json_path` of rocket_okapi's default `OpenApiSettings`. The
/// contract claims the constant that `OpenApiSettings::default` stores in
/// that field: `/openapi.json`.
#[verifier::external_body]
fn default_document_path() -> (path: String)
    ensures
        path@ == document_path(),
{
    rocket_okapi::settings::OpenApiSettings::default().json_path
}

/// A request asks for the published document: a `GET` whose path, read as
/// segments, is the publication path.
pub open spec fn asks_for_document(at: Seq<char>, method: Method, path: Seq<char>) -> bool {
    method == Method::Get && qualified_path(seq!['/'], path) == qualified_path(seq!['/'], at)
}

/// The publisher of one composed document.
#[derive(Clone, Debug, PartialEq, Eq)]
pub struct DocumentPublisher {
    path: String,
    document: CompositeDocument,
}

impl DocumentPublisher {
    /// The path the document is published at.
    pub closed spec fn path_view(&self) -> Seq<char> {
        self.path@
    }

    /// The document that is published.
    pub closed spec fn document_view(&self) -> DocumentSpec {
        self.document@
    }

    /// Publishes a document at the fixed path.
    pub fn serve(document: CompositeDocument) -> (publisher: Self)
        ensures
            publisher.path_view() == document_path(),
            publisher.document_view() == document@,
    {
        DocumentPublisher { path: default_document_path(), document }
    }

    pub fn path(&self) -> (path: &String)
        ensures
            path@ == self.path_view(),
    {
        &self.path
    }

    pub fn document(&self) -> (document: &CompositeDocument)
        ensures
            document@ == self.document_view(),
    {
        &self.document
    }

    /// Answers a request: the document for a `GET` at the publication
    /// path, `NotFound` for anything else.
    pub fn fetch(&self, method: Method, path: &str) -> (res: Result<&CompositeDocument, RouteError>)
        ensures
            match res {
                Ok(document) => {
                    &&& asks_for_document(self.path_view(), method, path@)
                    &&& document@ == self.document_view()
                },
                Err(e) => {
                    &&& e == RouteError::NotFound
                    &&& !asks_for_document(self.path_view(), method, path@)
                },
            },
    {
        proof {
            reveal_strlit("/");
            assert("/"@ =~= seq!['/']);
        }
        if method == Method::Get && qualify("/", path) == qualify("/", self.path.as_str()) {
            Ok(&self.document)
        } else {
            Err(RouteError::NotFound)
        }
    }

    /// Replaces the published document by a newly composed one, in one
    /// step, and hands back the one it replaces.
    pub fn swap(&mut self, document: CompositeDocument) -> (previous: CompositeDocument)
        ensures
            final(self).document_view() == document@,
            final(self).path_view() == old(self).path_view(),
            previous@ == old(self).document_view(),
    {
        let mut held = document;
        core::mem::swap(&mut self.document, &mut held);
        held
    }
}

} // verus!
