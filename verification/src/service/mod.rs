//! Answers HTTP requests: routing, document pages and errors.
use vstd::prelude::*;

use crate::document::{DocModel, Document};
use crate::store::{error_name, SequenceId, StoreError};

pub mod error;
pub mod request;
pub mod upgrade;

use crate::service::error::HttpError;

verus! {

/// The prefix of request paths that are served from the static files.
pub const STATIC_PREFIX: &'static str = "/_static/";

/// Who answers a request.
#[derive(Debug, PartialEq, Eq, Structural, Clone, Copy)]
pub enum Route {
    /// A file under the static path
    Static,
    /// A WebSocket session on the document at the request path
    WebSocket,
    /// The page of the document at the request path
    Document,
}

/// `prefix` starts `s`.
pub open spec fn starts_with(s: Seq<char>, prefix: Seq<char>) -> bool {
    prefix.len() <= s.len() && s.take(prefix.len() as int) == prefix
}

/// The route of a request: static files under "/_static/", then
/// WebSocket upgrades, then document pages.
pub open spec fn route_of(path: Seq<char>, upgrade: bool) -> Route {
    if starts_with(path, "/_static/"@) {
        Route::Static
    } else if upgrade {
        Route::WebSocket
    } else {
        Route::Document
    }
}

/// Whether `s` starts with `prefix`.
pub fn str_starts_with(s: &str, prefix: &str) -> (r: bool)
    ensures
        r == starts_with(s@, prefix@),
        r <==> prefix@.len() <= s@.len() && forall|i: int| 0 <= i < prefix@.len() ==> s@[i] == prefix@[i],
{
    let n = prefix.unicode_len();
    if n > s.unicode_len() {
        return false;
    }
    let mut i: usize = 0;
    while i < n
        invariant
            i <= n,
            n == prefix@.len(),
            n <= s@.len(),
            forall|j: int| 0 <= j < i ==> s@[j] == prefix@[j],
        decreases n - i,
    {
        if s.get_char(i) != prefix.get_char(i) {
            assert(s@.take(n as int)[i as int] != prefix@[i as int]);
            return false;
        }
        i = i + 1;
    }
    assert(s@.take(n as int) =~= prefix@);
    true
}

/// Chooses who answers a request for `path`; `is_upgrade` tells whether
/// the request asks for a WebSocket upgrade.
pub fn route(path: &str, is_upgrade: bool) -> (r: Route)
    ensures
        r == route_of(path@, is_upgrade),
{
    if str_starts_with(path, STATIC_PREFIX) {
        Route::Static
    } else if is_upgrade {
        Route::WebSocket
    } else {
        Route::Document
    }
}

/// `prefix` starts `s` exactly when `s` is at least as long and agrees
/// with `prefix` on each of its characters.
pub proof fn lemma_starts_with_chars(s: Seq<char>, prefix: Seq<char>)
    ensures
        starts_with(s, prefix) <==> prefix.len() <= s.len() && forall|i: int|
            0 <= i < prefix.len() ==> s[i] == prefix[i],
{
    if prefix.len() <= s.len() && forall|i: int| 0 <= i < prefix.len() ==> s[i] == prefix[i] {
        assert(s.take(prefix.len() as int) =~= prefix);
    }
    if starts_with(s, prefix) {
        assert forall|i: int| 0 <= i < prefix.len() implies s[i] == prefix[i] by {
            assert(s.take(prefix.len() as int)[i] == s[i]);
        }
    }
}

/// A request is served from the static files exactly when its path begins
/// with the nine characters "/_static/"; otherwise it is a WebSocket
/// session when it asks for an upgrade, and the document's page when not.
pub proof fn lemma_route_by_prefix(path: Seq<char>, upgrade: bool)
    ensures
        ({
            let is_static = path.len() >= 9 && path[0] == '/' && path[1] == '_' && path[2] == 's' && path[3] == 't'
                && path[4] == 'a' && path[5] == 't' && path[6] == 'i' && path[7] == 'c' && path[8] == '/';
            &&& route_of(path, upgrade) == Route::Static <==> is_static
            &&& route_of(path, upgrade) == Route::WebSocket <==> !is_static && upgrade
            &&& route_of(path, upgrade) == Route::Document <==> !is_static && !upgrade
        }),
{
    reveal_strlit("/_static/");
    lemma_starts_with_chars(path, "/_static/"@);
    let p = "/_static/"@;
    assert(p.len() == 9);
    assert(p[0] == '/' && p[1] == '_' && p[2] == 's' && p[3] == 't' && p[4] == 'a' && p[5] == 't' && p[6] == 'i'
        && p[7] == 'c' && p[8] == '/');
}

/// The template a document page is rendered with.
#[derive(Debug, PartialEq, Eq, Structural, Clone, Copy)]
pub enum PageTemplate {
    /// "document.html": a document as it reads
    Document,
    /// "editor.html": a document in the editor
    Editor,
    /// "new_document.html": the offer to create a missing document
    NewDocument,
}

impl PageTemplate {
    /// The template's file name.
    pub fn file_name(&self) -> (r: &'static str)
        ensures
            r@ == match self {
                PageTemplate::Document => "document.html"@,
                PageTemplate::Editor => "editor.html"@,
                PageTemplate::NewDocument => "new_document.html"@,
            },
    {
        match self {
            PageTemplate::Document => "document.html",
            PageTemplate::Editor => "editor.html",
            PageTemplate::NewDocument => "new_document.html",
        }
    }
}

/// What a document page shows: its status, template and title, and the
/// document with the sequence id it was read at, where it shows one.
#[derive(Debug, PartialEq)]
pub struct DocumentPage {
    pub status: u16,
    pub template: PageTemplate,
    pub title: String,
    pub document: Option<(SequenceId, Document)>,
}

/// The page of a document read at `seq`: "document.html", or
/// "editor.html" when asked to edit, titled "Document".
pub open spec fn found_page(p: DocumentPage, edit: bool, seq: SequenceId, doc: DocModel) -> bool {
    &&& p.status == 200
    &&& p.template == if edit {
        PageTemplate::Editor
    } else {
        PageTemplate::Document
    }
    &&& p.title@ == "Document"@
    &&& p.document matches Some((s, d)) && s == seq && d@ == doc
}

/// The "not found" page of a missing document: an empty document at
/// sequence id 0 in the editor, titled "Document (empty)", when asked to
/// edit; else "new_document.html" titled "Document".
pub open spec fn missing_page(p: DocumentPage, edit: bool) -> bool {
    &&& p.status == 404
    &&& if edit {
        &&& p.template == PageTemplate::Editor
        &&& p.title@ == "Document (empty)"@
        &&& p.document matches Some((s, d)) && s == 0 && d@ == (DocModel {
            content: Seq::empty(),
            cursors: Map::empty(),
        })
    } else {
        &&& p.template == PageTemplate::NewDocument
        &&& p.title@ == "Document"@
        &&& p.document is None
    }
}

/// A page of a document that was found shows that document at the
/// sequence id it was read at, whether it is shown as it reads or in the
/// editor: the two pages for one read differ only in their template, the
/// editor's being "editor.html".
pub proof fn lemma_found_pages_agree(
    shown: DocumentPage,
    edited: DocumentPage,
    seq: SequenceId,
    doc: DocModel,
)
    requires
        found_page(shown, false, seq, doc),
        found_page(edited, true, seq, doc),
    ensures
        shown.status == 200 && edited.status == 200,
        shown.document matches Some((s, d)) && s == seq && d@ == doc,
        edited.document matches Some((s, d)) && s == seq && d@ == doc,
        shown.title@ == edited.title@,
        shown.template == PageTemplate::Document,
        edited.template == PageTemplate::Editor,
{
}

/// The page for a document read from the store: the document itself
/// (in the editor when asked to edit), a "not found" page when the store
/// has no such document, and an internal error for any other failure.
pub fn document_page(edit: bool, content: Result<(SequenceId, Document), StoreError>) -> (r: Result<
    DocumentPage,
    HttpError,
>)
    ensures
        match content {
            Ok((seq, doc)) => r matches Ok(p) && found_page(p, edit, seq, doc@),
            Err(StoreError::NotFound) => r matches Ok(p) && missing_page(p, edit),
            Err(e) => r matches Err(HttpError::InternalServerError(m)) && m@ == error_name(e),
        },
        content matches Ok((seq, doc)) ==> r matches Ok(p) && p.document matches Some((s, d)) && s == seq && d@
            == doc@,
{
    match content {
        Ok((seq, doc)) => {
            let template = if edit {
                PageTemplate::Editor
            } else {
                PageTemplate::Document
            };
            Ok(DocumentPage {
                status: 200,
                template,
                title: String::from_str("Document"),
                document: Some((seq, doc)),
            })
        },
        Err(StoreError::NotFound) => {
            if edit {
                Ok(DocumentPage {
                    status: 404,
                    template: PageTemplate::Editor,
                    title: String::from_str("Document (empty)"),
                    document: Some((0, Document::default())),
                })
            } else {
                Ok(DocumentPage {
                    status: 404,
                    template: PageTemplate::NewDocument,
                    title: String::from_str("Document"),
                    document: None,
                })
            }
        },
        Err(e) => Err(HttpError::InternalServerError(String::from_str(e.message()))),
    }
}

/// What resolving a static file request found.
#[derive(Debug, PartialEq, Eq, Structural, Clone, Copy)]
pub enum StaticOutcome {
    /// The request was not a `GET` or `HEAD` request
    MethodNotMatched,
    /// The request URI was not just a path
    UriNotMatched,
    /// The requested file does not exist
    NotFound,
    /// The requested file could not be accessed
    PermissionDenied,
    /// A directory was requested as a file
    IsDirectory,
    /// The requested file was found
    Found,
}

/// Whether a static file request is answered with the file (or the
/// directory redirect), or with which error.
pub fn static_response(outcome: StaticOutcome) -> (r: Result<(), HttpError>)
    ensures
        match outcome {
            StaticOutcome::MethodNotMatched => r matches Err(HttpError::MethodNotAllowed),
            StaticOutcome::UriNotMatched => r matches Err(HttpError::BadRequest),
            StaticOutcome::NotFound => r matches Err(HttpError::NotFound),
            StaticOutcome::PermissionDenied => r matches Err(HttpError::Unauthorized),
            StaticOutcome::IsDirectory => r is Ok,
            StaticOutcome::Found => r is Ok,
        },
{
    match outcome {
        StaticOutcome::MethodNotMatched => Err(HttpError::MethodNotAllowed),
        StaticOutcome::UriNotMatched => Err(HttpError::BadRequest),
        StaticOutcome::NotFound => Err(HttpError::NotFound),
        StaticOutcome::PermissionDenied => Err(HttpError::Unauthorized),
        StaticOutcome::IsDirectory => Ok(()),
        StaticOutcome::Found => Ok(()),
    }
}

} // verus!
