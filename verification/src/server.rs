//! How the archive server answers a request for a knowledge-base URL.
use vstd::prelude::*;
use crate::fs_path::{extension_of, joined_path, path_extension, path_join};
use crate::text::{join_seqs, join_with, str_eq};
use crate::url_to_path::{spec_request_suffix, spec_url_to_index_path, url_to_index_path, url_to_path};

verus! {

/// The server's settings.
#[derive(Clone, Debug)]
pub struct Config {
    /// The port to listen on.
    pub port: u32,
    /// The archive's root directory.
    pub source: String,
}

/// The query of a request: `list` asks for the entries of a directory.
#[derive(Debug)]
pub struct ReqQuery {
    pub list: Option<String>,
}

/// The HTTP status of a request for a file the archive cannot serve.
pub const NOT_FOUND: u16 = 404;

/// The content type the server sends for a file extension.
pub open spec fn spec_content_type(extension: Seq<char>) -> Option<Seq<char>> {
    if extension == "html"@ {
        Some("text/html; charset=utf-8"@)
    } else if extension == "css"@ {
        Some("text/css; charset=utf-8"@)
    } else if extension == "png"@ {
        Some("image/png; charset=utf-8"@)
    } else {
        None
    }
}

/// The content type for a file extension, where the server serves such files.
pub fn content_type_from_extension(extension: &str) -> (r: Option<&'static str>)
    ensures
        match spec_content_type(extension@) {
            Some(t) => r matches Some(x) && x@ == t,
            None => r is None,
        },
{
    if str_eq(extension, "html") {
        Some("text/html; charset=utf-8")
    } else if str_eq(extension, "css") {
        Some("text/css; charset=utf-8")
    } else if str_eq(extension, "png") {
        Some("image/png; charset=utf-8")
    } else {
        None
    }
}

/// What a request is answered with.
#[derive(Debug)]
pub enum KbResponse {
    /// The names of the sub-directories of `dir`, joined by commas.
    List { dir: String },
    /// The file at `path` (or the target of the redirect stored there), sent as `content_type`.
    File { path: String, content_type: &'static str },
}

/// The extension a served file is taken to have: its own, or `html` where it has none.
pub open spec fn served_extension(path: Seq<char>) -> Seq<char> {
    match path_extension(path) {
        Some(e) => e,
        None => "html"@,
    }
}

/// How the server answers a request for `url` with or without `list`, or
/// the error status it answers with.
pub fn plan_kb_request(source: &str, url: &str, query: &ReqQuery) -> (r: Result<KbResponse, u16>)
    ensures
        query.list is Some ==> (r matches Ok(KbResponse::List { dir }) && dir@ == joined_path(
            source@,
            spec_request_suffix(url@),
        )),
        query.list is None ==> ({
            let path = joined_path(source@, spec_url_to_index_path(url@));
            match spec_content_type(served_extension(path)) {
                Some(t) => r matches Ok(KbResponse::File { path: p, content_type }) && p@ == path
                    && content_type@ == t,
                None => r == Err::<KbResponse, u16>(NOT_FOUND),
            }
        }),
{
    if query.list.is_some() {
        let dir = path_join(source, url_to_path(url).as_str());
        return Ok(KbResponse::List { dir });
    }
    let index = url_to_index_path(url);
    let path = path_join(source, index.as_str());
    let content_type = match extension_of(path.as_str()) {
        Some(e) => content_type_from_extension(e),
        None => {
            proof {
                reveal_strlit("html");
            }
            content_type_from_extension("html")
        },
    };
    match content_type {
        Some(t) => Ok(KbResponse::File { path, content_type: t }),
        None => Err(NOT_FOUND),
    }
}

/// The answer to a `list` request: the names of the sub-directories, joined by commas.
pub fn list_entries(names: &Vec<String>) -> (r: String)
    ensures
        r@ == join_seqs(names.deep_view(), ","@),
{
    join_with(names, ",")
}

} // verus!
