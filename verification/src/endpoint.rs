//! The endpoint descriptors handed to clients alongside note listings.

use vstd::prelude::*;

verus! {

/// HTTP methods used in the service's interface.
#[derive(Clone, Copy, Debug, PartialEq, Eq, Structural)]
pub enum HttpMethod {
    GET,
    PUT,
    DELETE,
}

/// An endpoint, represented by its url and HTTP method.
#[derive(Debug)]
pub struct Endpoint {
    pub url: String,
    pub method: HttpMethod,
}

impl Endpoint {
    /// A new endpoint at the provided url with support for HTTP `Get`.
    pub fn get(url: String) -> (e: Self)
        ensures
            e.url@ == url@,
            e.method == HttpMethod::GET,
    {
        Endpoint { url, method: HttpMethod::GET }
    }

    /// A new endpoint at the provided url with support for HTTP `Put`.
    pub fn put(url: String) -> (e: Self)
        ensures
            e.url@ == url@,
            e.method == HttpMethod::PUT,
    {
        Endpoint { url, method: HttpMethod::PUT }
    }

    /// A new endpoint at the provided url with support for HTTP `Delete`.
    pub fn delete(url: String) -> (e: Self)
        ensures
            e.url@ == url@,
            e.method == HttpMethod::DELETE,
    {
        Endpoint { url, method: HttpMethod::DELETE }
    }
}

/// The endpoints of one note, returned with note listings.
#[derive(Debug)]
pub struct NoteEndpoints {
    pub get: Endpoint,
    pub update: Endpoint,
    pub delete: Endpoint,
    pub undelete: Endpoint,
}

/// The endpoints of the note with public id `id`, rooted at `base_url`.
pub fn get_note_endpoints(base_url: &String, id: &String) -> (r: NoteEndpoints)
    ensures
        r.get.url@ == base_url@ + "/notes/"@ + id@,
        r.get.method == HttpMethod::GET,
        r.update.url@ == base_url@ + "/notes/"@ + id@,
        r.update.method == HttpMethod::PUT,
        r.delete.url@ == base_url@ + "/notes/"@ + id@,
        r.delete.method == HttpMethod::DELETE,
        r.undelete.url@ == base_url@ + "/notes/undelete/"@ + id@,
        r.undelete.method == HttpMethod::PUT,
{
    let get_note_url = base_url.clone().concat("/notes/").concat(id.as_str());
    let update_note_url = base_url.clone().concat("/notes/").concat(id.as_str());
    let delete_note_url = base_url.clone().concat("/notes/").concat(id.as_str());
    let undelete_note_url = base_url.clone().concat("/notes/undelete/").concat(id.as_str());

    NoteEndpoints {
        get: Endpoint::get(get_note_url),
        update: Endpoint::put(update_note_url),
        delete: Endpoint::delete(delete_note_url),
        undelete: Endpoint::put(undelete_note_url),
    }
}

} // verus!
