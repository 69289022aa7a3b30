//! The asset responder: turn a raw request path into a complete response
//! value, and serve the entry document with the port token injected.

use crate::paths::{entry_path, normalize, spec_normalize};
use crate::policy::{cache_control_for_path, spec_cache_directive};
use crate::store::WebAssets;
use crate::textsub::{decimal_digits, push_all, replace_all, spec_decimal, spec_replaced};
use vstd::prelude::*;
use vstd::string::*;
use vstd::utf8::{encode_utf8, valid_utf8};

verus! {

/// A complete per-request response: status code, optional content-type and
/// cache-control headers, and body bytes. Constructed fresh per call.
pub struct AssetResponse {
    pub status: u16,
    pub content_type: Option<String>,
    pub cache_control: Option<String>,
    pub body: Vec<u8>,
}

/// The content-type label inferred for a path. The inference is a fixed,
/// case-insensitive table lookup on the path's extension, so the label is a
/// function of the path alone.
pub uninterp spec fn mime_of_path(p: Seq<char>) -> Seq<char>;

/// Relies on mime_guess::from_path and MimeGuess::first_or_octet_stream: a
/// pure, case-insensitive lookup of the path's extension in a fixed table of
/// media types, falling back to "application/octet-stream" when the
/// extension is missing or unknown.
#[verifier::external_body]
pub(crate) fn guess_content_type(path: &str) -> (r: String)
    ensures
        r@ == mime_of_path(path@),
{
    let mime = mime_guess::from_path(path).first_or_octet_stream();
    let label: &str = mime.as_ref();
    label.to_owned()
}

/// Relies on core::str::from_utf8, which succeeds exactly on well-formed
/// UTF-8 input.
#[verifier::external_body]
pub(crate) fn utf8_valid(bytes: &Vec<u8>) -> (r: bool)
    ensures
        r == valid_utf8(bytes@),
{
    core::str::from_utf8(bytes.as_slice()).is_ok()
}

/// Body of the plain miss response.
pub open spec fn not_found_body() -> Seq<u8> {
    encode_utf8("Not found"@)
}

/// Body of the miss response when the entry document itself is absent.
pub open spec fn entry_missing_body() -> Seq<u8> {
    encode_utf8("index.html not found"@)
}

/// Body of the build-corruption response.
pub open spec fn decode_failure_body() -> Seq<u8> {
    encode_utf8("Invalid UTF-8 in index.html"@)
}

/// The placeholder token replaced in the entry document.
pub open spec fn port_token() -> Seq<char> {
    "__SELKIES_INJECTED_PORT__"@
}

/// The entry-document bytes after port injection: every occurrence of the
/// token becomes the decimal form of the port; all other bytes are kept.
pub open spec fn spec_injected(doc: Seq<u8>, port: u16) -> Seq<u8> {
    spec_replaced(doc, encode_utf8(port_token()), spec_decimal(port as nat))
}

fn clone_bytes(src: &Vec<u8>) -> (r: Vec<u8>)
    ensures
        r@ == src@,
{
    let mut out: Vec<u8> = Vec::new();
    push_all(&mut out, src);
    proof {
        assert(Seq::<u8>::empty() + src@ =~= src@);
    }
    out
}

/// Resolve a raw request path: normalize it, look it up, and on a hit attach
/// the inferred content type and the cache directive. A miss is a normal
/// outcome, answered 404.
pub fn get_embedded_file(assets: &WebAssets, path: &str) -> (r: AssetResponse)
    requires
        assets.wf(),
    ensures
        ({
            let p = spec_normalize(path@);
            &&& assets@.contains_key(p) ==> {
                &&& r.status == 200
                &&& r.body@ == assets@[p]
                &&& r.content_type is Some && r.content_type->0@ == mime_of_path(p)
                &&& r.cache_control is Some && r.cache_control->0@ == spec_cache_directive(p)
            }
            &&& !assets@.contains_key(p) ==> {
                &&& r.status == 404
                &&& r.body@ == not_found_body()
                &&& r.content_type is None
                &&& r.cache_control is None
            }
        }),
{
    let p = normalize(path);
    match assets.get(p.as_str()) {
        Some(data) => {
            let ct = guess_content_type(p.as_str());
            let cc = cache_control_for_path(p.as_str());
            AssetResponse {
                status: 200,
                content_type: Some(ct),
                cache_control: Some(String::from_str(cc)),
                body: clone_bytes(data),
            }
        },
        None => AssetResponse {
            status: 404,
            content_type: None,
            cache_control: None,
            body: ("Not found").as_bytes_vec(),
        },
    }
}

/// Serve the entry document with the placeholder token replaced by the
/// decimal form of the port. An absent document is answered 404; content
/// that is not valid text is a build-integrity failure, answered 500.
pub fn get_index_html_with_port(assets: &WebAssets, ws_port: u16) -> (r: AssetResponse)
    requires
        assets.wf(),
    ensures
        ({
            let present = assets@.contains_key(entry_path());
            &&& !present ==> {
                &&& r.status == 404
                &&& r.body@ == entry_missing_body()
                &&& r.content_type is None
                &&& r.cache_control is None
            }
            &&& present && !valid_utf8(assets@[entry_path()]) ==> {
                &&& r.status == 500
                &&& r.body@ == decode_failure_body()
                &&& r.content_type is None
                &&& r.cache_control is None
            }
            &&& present && valid_utf8(assets@[entry_path()]) ==> {
                &&& r.status == 200
                &&& r.body@ == spec_injected(assets@[entry_path()], ws_port)
                &&& r.content_type is Some && r.content_type->0@ == "text/html; charset=utf-8"@
                &&& r.cache_control is Some && r.cache_control->0@ == "no-store, max-age=0"@
            }
        }),
{
    match assets.get("index.html") {
        None => AssetResponse {
            status: 404,
            content_type: None,
            cache_control: None,
            body: ("index.html not found").as_bytes_vec(),
        },
        Some(data) => {
            if !utf8_valid(data) {
                AssetResponse {
                    status: 500,
                    content_type: None,
                    cache_control: None,
                    body: ("Invalid UTF-8 in index.html").as_bytes_vec(),
                }
            } else {
                let token = ("__SELKIES_INJECTED_PORT__").as_bytes_vec();
                let digits = decimal_digits(ws_port);
                let body = replace_all(data, &token, &digits);
                AssetResponse {
                    status: 200,
                    content_type: Some(String::from_str("text/html; charset=utf-8")),
                    cache_control: Some(String::from_str("no-store, max-age=0")),
                    body,
                }
            }
        },
    }
}

/// Availability probe: whether the entry document is bundled. The result is
/// a function of the store's mapping alone, so repeated calls agree.
pub fn has_embedded_assets(assets: &WebAssets) -> (r: bool)
    requires
        assets.wf(),
    ensures
        r == assets@.contains_key(entry_path()),
{
    assets.has("index.html")
}

/// List all bundled paths, for diagnostic use; the order is the store's
/// insertion order.
pub fn list_embedded_files(assets: &WebAssets) -> (r: Vec<String>)
    ensures
        r@.len() == assets.path_seq().len(),
        forall|i: int| 0 <= i < r@.len() ==> (#[trigger] r@[i]@) == assets.path_seq()[i],
{
    assets.list()
}

} // verus!
