//! Request dispatch decisions for the documentation server.
//!
//! The connection handling, the file reads and the canonicalization are
//! performed outside the library; they hand method, path, file text and
//! metadata outcomes in as plain values.  This module decides, and proves,
//! how each request is routed, how every file-system failure maps to a
//! status code, and what text an HTML response carries.

use vstd::prelude::*;

use crate::injector;
use crate::text::contains_seq;
use crate::paths;
use crate::text::eq_ignore_case;
use crate::text::rfind;
use crate::text::rfind_spec;
use crate::text::str_eq;
use crate::text::to_char_vec;

verus! {

/// The read-only state a server holds for its lifetime: the document root
/// as given, and its canonical, symlink-free form.
pub struct ServerState {
    pub doc_root: String,
    pub canonical_root: String,
}

impl ServerState {
    pub fn new(doc_root: String, canonical_root: String) -> (s: ServerState)
        ensures
            s.doc_root@ == doc_root@,
            s.canonical_root@ == canonical_root@,
    {
        ServerState { doc_root, canonical_root }
    }

    /// The on-disk path a request path names under the document root, or
    /// `None` when a segment is rejected.
    pub fn join(&self, uri_path: &str) -> (r: Option<String>)
        ensures
            match r {
                Some(s) => paths::join_spec(self.doc_root@, uri_path@) == Some(s@),
                None => paths::join_spec(self.doc_root@, uri_path@) is None,
            },
    {
        paths::join_under_root(self.doc_root.as_str(), uri_path)
    }

    /// Whether a canonicalized candidate path stays inside the canonical
    /// document root; a candidate that does not is never served.
    pub fn contains_canonical(&self, canonical: &str) -> (r: bool)
        ensures
            r == paths::path_within_root(canonical@, self.canonical_root@),
    {
        paths::path_contained(canonical, self.canonical_root.as_str())
    }
}

/// Where a request path is routed.
pub enum Route {
    Overview,
    ServiceWorker,
    Asset,
}

/// Routes a request path: the root, the root index and the generated
/// overview page show the live overview; the service-worker script is a
/// fixed asset; everything else resolves through the path resolver.
pub fn route(path: &str) -> (r: Route)
    ensures
        r is Overview <==> (path@ == "/"@ || path@ == "/index.html"@ || path@
            == "/cdv-crate-overview.html"@),
        r is ServiceWorker <==> path@ == "/cdv-sw.js"@,
{
    proof {
        reveal_strlit("/");
        reveal_strlit("/index.html");
        reveal_strlit("/cdv-crate-overview.html");
        reveal_strlit("/cdv-sw.js");
        assert("/"@.len() == 1);
        assert("/index.html"@.len() == 11);
        assert("/cdv-crate-overview.html"@.len() == 24);
        assert("/cdv-sw.js"@.len() == 10);
    }
    if str_eq(path, "/") || str_eq(path, "/index.html") || str_eq(path, "/cdv-crate-overview.html")
    {
        Route::Overview
    } else if str_eq(path, "/cdv-sw.js") {
        Route::ServiceWorker
    } else {
        Route::Asset
    }
}

/// Whether the method is one the server answers with content; any other
/// method receives `405`.
pub fn method_allowed(method: &str) -> (r: bool)
    ensures
        r <==> (method@ == "GET"@ || method@ == "HEAD"@),
{
    str_eq(method, "GET") || str_eq(method, "HEAD")
}

/// A failure while answering one request.  File-system errors arrive
/// already classified by kind; every reachable failure maps to exactly one
/// of `404`, `403` and `500`.
pub enum ServerError {
    NotFound,
    PermissionDenied,
    Failure(String),
}

impl ServerError {
    /// The status code and plain-text body of the failure's response.
    pub fn into_response(self) -> (r: (u16, String))
        ensures
            self is NotFound ==> r.0 == 404 && r.1@ == "Not Found"@,
            self is PermissionDenied ==> r.0 == 403 && r.1@ == "Permission Denied"@,
            self matches ServerError::Failure(m) ==> r.0 == 500 && r.1@ == m@,
    {
        match self {
            ServerError::NotFound => (404, "Not Found".to_owned()),
            ServerError::PermissionDenied => (403, "Permission Denied".to_owned()),
            ServerError::Failure(m) => (500, m),
        }
    }
}

/// The text an HTML response carries: the file's text with the enhancement
/// blocks spliced in on the fly, or unchanged when the transform has
/// nothing to add.  The file on disk is never written.
pub fn transformed_html(content: String) -> (r: String)
    ensures
        r@ == match injector::inject_spec(content@) {
            Some(m) => m,
            None => content@,
        },
{
    match injector::inject(content.as_str()) {
        Some(m) => m,
        None => content,
    }
}

/// An HTML response for a document that does not yet carry the
/// enhancement marker but offers a `</head>` anchor always shows the
/// marker: the text [`transformed_html`] serves for it is the enhanced
/// text, and the document it was built from is a value the serving path
/// never writes back.
pub proof fn lemma_served_html_enhanced(c: Seq<char>)
    requires
        !contains_seq(c, injector::marker()),
        contains_seq(c, injector::head_close()),
    ensures
        ({
            let served = match injector::inject_spec(c) {
                Some(m) => m,
                None => c,
            };
            contains_seq(served, injector::marker())
        }),
{
    injector::lemma_inject_plants_marker(c);
}

/// The final path component.
pub open spec fn file_name_spec(p: Seq<char>) -> Seq<char> {
    match rfind_spec(p, "/"@) {
        Some(i) => p.skip(i + 1),
        None => p,
    }
}

/// The extension of a file name: what follows the last dot, none when
/// there is no dot or the name starts with its only dot.
pub open spec fn extension_spec(name: Seq<char>) -> Option<Seq<char>> {
    match rfind_spec(name, "."@) {
        Some(i) => if i > 0 {
            Some(name.skip(i + 1))
        } else {
            None
        },
        None => None,
    }
}

/// Whether the path names an HTML file, by extension, without regard to
/// ASCII case.
pub open spec fn is_html_path(p: Seq<char>) -> bool {
    match extension_spec(file_name_spec(p)) {
        Some(e) => eq_ignore_case(e, "html"@),
        None => false,
    }
}

/// The extension of the path's file name, if any.
pub fn extension_of(path: &str) -> (r: Option<String>)
    ensures
        match r {
            Some(e) => extension_spec(file_name_spec(path@)) == Some(e@),
            None => extension_spec(file_name_spec(path@)) is None,
        },
{
    proof {
        reveal_strlit("/");
        reveal_strlit(".");
    }
    let v = to_char_vec(path);
    let n = v.len();
    let slash = to_char_vec("/");
    let name_start: usize = match rfind(&v, &slash) {
        Some(i) => {
            proof {
                crate::text::lemma_rfind_props(path@, "/"@);
            }
            i + 1
        },
        None => 0,
    };
    let name = path.substring_char(name_start, n);
    proof {
        assert(name@ =~= file_name_spec(path@));
    }
    let nv = to_char_vec(name);
    let dot = to_char_vec(".");
    match rfind(&nv, &dot) {
        Some(i) => {
            proof {
                crate::text::lemma_rfind_props(name@, "."@);
            }
            if i > 0 {
                let e = name.substring_char(i + 1, nv.len());
                proof {
                    assert(e@ =~= name@.skip(i + 1));
                }
                Some(e.to_owned())
            } else {
                None
            }
        },
        None => None,
    }
}

/// Whether the path is served as HTML: read whole, transformed, and sent
/// with the HTML content type, rather than streamed raw.
pub fn has_html_extension(path: &str) -> (r: bool)
    ensures
        r == is_html_path(path@),
{
    match extension_of(path) {
        Some(e) => {
            let ev = to_char_vec(e.as_str());
            crate::text::eq_ci(&ev, "html")
        },
        None => false,
    }
}

/// What `mime_guess` answers for an extension; the guess depends on the
/// extension text alone.
pub uninterp spec fn mime_of(ext: Seq<char>) -> Seq<char>;

/// Relies on `mime_guess::from_ext(..).first_or_octet_stream()`: the
/// guessed type is a function of the extension text alone, with
/// `application/octet-stream` as the fallback for unknown extensions.
#[verifier::external_body]
fn guess_mime(ext: &str) -> (r: String)
    ensures
        r@ == mime_of(ext@),
{
    mime_guess::from_ext(ext).first_or_octet_stream().as_ref().to_owned()
}

/// The content type a non-HTML file is served with, guessed from its
/// extension; a path without one gets the generic binary type.
pub fn file_content_type(path: &str) -> (r: String)
    ensures
        r@ == mime_of(
            match extension_spec(file_name_spec(path@)) {
                Some(e) => e,
                None => Seq::<char>::empty(),
            },
        ),
{
    proof {
        reveal_strlit("");
    }
    match extension_of(path) {
        Some(e) => guess_mime(e.as_str()),
        None => {
            proof {
                assert(""@ =~= Seq::<char>::empty());
            }
            guess_mime("")
        },
    }
}

/// Appends the index file name served for a directory path.
pub fn append_index(path: String) -> (r: String)
    ensures
        r@ == path@ + "/index.html"@,
{
    let mut r = path;
    r.append("/index.html");
    r
}

} // verus!
