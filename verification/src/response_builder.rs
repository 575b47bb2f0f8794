//! The default response for a resolution result: expected outcomes become
//! their status codes, a directory requested as a file becomes a 301 whose
//! `Location` is rebuilt from the sanitized path with the query string
//! preserved, and a found file goes through the file response builder.

use vstd::prelude::*;

use crate::body::Body;
use crate::file_response_builder::{FileResponseBuilder, Response, boundary_wf, build_matches,
    headers_view, parsed_http_date_of, MAX_HTTP_DATE_SECS};
use crate::requested_path::{RequestedPath, sanitize_spec};
use crate::resolve::{Method, ResolveResult, redirect_target_spec, opt_string_view};
use vstd::string::StringSliceAdditionalSpecFns;
use vstd::string::StringExecFns;
use vstd::utf8::encode_utf8;

verus! {

/// The request data the response layer reads: the method, the split
/// request target, and the conditional, range and negotiation headers.
pub struct RequestHead {
    /// The request method.
    pub method: Method,
    /// The URI path (percent-encoded, as on the wire).
    pub path: String,
    /// The query string, without the `?`, if any.
    pub query: Option<String>,
    /// The `Accept-Encoding` header value, if any.
    pub accept_encoding: Option<String>,
    /// The `If-Modified-Since` header value, if any.
    pub if_modified_since: Option<String>,
    /// The `If-Range` header value, if any.
    pub if_range: Option<String>,
    /// The `Range` header value, if any.
    pub range: Option<String>,
}

/// The `Location` of a directory redirect: the sanitized path with a
/// trailing slash, the query string preserved verbatim.
pub open spec fn location_spec(path: Seq<char>, query: Option<Seq<char>>) -> Seq<char> {
    redirect_target_spec(sanitize_spec(encode_utf8(path))) + (match query {
        None => Seq::<char>::empty(),
        Some(q) => seq!['?'] + q,
    })
}

/// Whether a response is the one a resolution result calls for.
pub open spec fn response_for_result_matches<F>(
    r: Response<F>,
    result: ResolveResult<F>,
    b: FileResponseBuilder,
    path: Seq<char>,
    query: Option<Seq<char>>,
    bnd: Seq<u8>,
) -> bool {
    match result {
        ResolveResult::MethodNotMatched => r.status == 400 && headers_view(r.headers@) == Seq::<
            (Seq<char>, Seq<char>),
        >::empty() && r.body is Empty,
        ResolveResult::NotFound => r.status == 404 && headers_view(r.headers@) == Seq::<
            (Seq<char>, Seq<char>),
        >::empty() && r.body is Empty,
        ResolveResult::PermissionDenied => r.status == 403 && headers_view(r.headers@) == Seq::<
            (Seq<char>, Seq<char>),
        >::empty() && r.body is Empty,
        ResolveResult::IsDirectory { .. } => r.status == 301 && headers_view(r.headers@) == seq![
            ("Location"@, location_spec(path, query)),
        ] && r.body is Empty,
        ResolveResult::Found(f) => build_matches(
            r,
            b,
            f.handle,
            f.size,
            f.modified,
            opt_string_view(f.content_type),
            f.encoding,
            bnd,
        ),
    }
}

/// Builds the default response for a resolution result.
pub struct ResponseBuilder {
    /// The raw request path, used to rebuild a redirect target.
    pub path: String,
    /// The request query string, preserved through redirects.
    pub query: Option<String>,
    /// The inner builder for found files.
    pub file_response_builder: FileResponseBuilder,
}

impl ResponseBuilder {
    /// A builder with nothing set.
    pub fn new() -> (r: Self)
        ensures
            r.path@ == Seq::<char>::empty(),
            r.query is None,
            r.file_response_builder.cache_headers is None,
            !r.file_response_builder.is_head,
            r.file_response_builder.if_modified_since is None,
            r.file_response_builder.range is None,
            r.file_response_builder.if_range is None,
    {
        ResponseBuilder {
            path: String::new(),
            query: None,
            file_response_builder: FileResponseBuilder::new(),
        }
    }

    /// Set the request path.
    pub fn path(&mut self, value: &str)
        ensures
            final(self).path@ == value@,
            final(self).query == old(self).query,
            final(self).file_response_builder == old(self).file_response_builder,
    {
        self.path = String::from_str(value);
    }

    /// Set the request query string.
    pub fn query(&mut self, value: Option<&str>)
        ensures
            final(self).path == old(self).path,
            opt_string_view(final(self).query) == (match value {
                None => None,
                Some(q) => Some(q@),
            }),
            final(self).file_response_builder == old(self).file_response_builder,
    {
        self.query = match value {
            None => None,
            Some(q) => Some(String::from_str(q)),
        };
    }

    /// Add cache headers to responses for the given lifespan.
    pub fn cache_headers(&mut self, value: Option<u32>)
        ensures
            final(self).path == old(self).path,
            final(self).query == old(self).query,
            final(self).file_response_builder.cache_headers == value,
            final(self).file_response_builder.is_head == old(self).file_response_builder.is_head,
            final(self).file_response_builder.if_modified_since == old(
                self,
            ).file_response_builder.if_modified_since,
            final(self).file_response_builder.range == old(self).file_response_builder.range,
            final(self).file_response_builder.if_range == old(self).file_response_builder.if_range,
    {
        self.file_response_builder.cache_headers(value);
    }

    /// Apply the method, target and headers of a request.
    pub fn request(&mut self, head: &RequestHead)
        ensures
            final(self).path == head.path,
            final(self).query == head.query,
            final(self).file_response_builder.cache_headers == old(
                self,
            ).file_response_builder.cache_headers,
            final(self).file_response_builder.is_head == (head.method is Head),
            final(self).file_response_builder.if_modified_since == (match head.if_modified_since {
                None => None,
                Some(v) => parsed_http_date_of(v@),
            }),
            opt_string_view(final(self).file_response_builder.range) == opt_string_view(head.range),
            opt_string_view(final(self).file_response_builder.if_range) == (match head.if_range {
                None => opt_string_view(old(self).file_response_builder.if_range),
                Some(v) => Some(v@),
            }),
    {
        self.path = head.path.clone();
        self.query = match &head.query {
            None => None,
            Some(q) => Some(q.clone()),
        };
        self.file_response_builder.request_method(head.method);
        self.file_response_builder.if_modified_since_header(
            match &head.if_modified_since {
                None => None,
                Some(v) => Some(v.as_str()),
            },
        );
        self.file_response_builder.range_header(
            match &head.range {
                None => None,
                Some(v) => Some(v.as_str()),
            },
        );
        self.file_response_builder.if_range(
            match &head.if_range {
                None => None,
                Some(v) => Some(v.as_str()),
            },
        );
        proof {
            assert(opt_string_view(self.file_response_builder.range) =~~= opt_string_view(
                head.range,
            ));
        }
    }

    /// Build the default response for a resolution result: 400, 404 and 403
    /// with empty bodies, a 301 with a rebuilt `Location` for a directory,
    /// and the file response for a found file.
    pub fn build<F>(&self, result: ResolveResult<F>) -> (r: Response<F>)
        requires
            (match result {
                ResolveResult::Found(f) => (match f.modified {
                    Some(t) => t.secs < MAX_HTTP_DATE_SECS,
                    None => true,
                }),
                _ => true,
            }),
        ensures
            exists|bnd: Seq<u8>|
                #[trigger] boundary_wf(bnd) && response_for_result_matches(
                    r,
                    result,
                    self.file_response_builder,
                    self.path@,
                    opt_string_view(self.query),
                    bnd,
                ),
    {
        match result {
            ResolveResult::MethodNotMatched => {
                let headers: Vec<(String, String)> = Vec::new();
                proof {
                    lemma_some_boundary_exists();
                    assert(headers_view(headers@) =~~= Seq::<(Seq<char>, Seq<char>)>::empty());
                }
                Response { status: 400, headers, body: Body::Empty }
            },
            ResolveResult::NotFound => {
                let headers: Vec<(String, String)> = Vec::new();
                proof {
                    lemma_some_boundary_exists();
                    assert(headers_view(headers@) =~~= Seq::<(Seq<char>, Seq<char>)>::empty());
                }
                Response { status: 404, headers, body: Body::Empty }
            },
            ResolveResult::PermissionDenied => {
                let headers: Vec<(String, String)> = Vec::new();
                proof {
                    lemma_some_boundary_exists();
                    assert(headers_view(headers@) =~~= Seq::<(Seq<char>, Seq<char>)>::empty());
                }
                Response { status: 403, headers, body: Body::Empty }
            },
            ResolveResult::IsDirectory { redirect_to: _ } => {
                // Rebuild the target from the sanitized path, so a
                // malicious request cannot smuggle a schema-relative
                // `//host` target into the header; preserve the query.
                let requested = RequestedPath::resolve(self.path.as_str());
                let mut target = crate::resolve::redirect_target(&requested.sanitized);
                if let Some(q) = &self.query {
                    target.append("?");
                    target.append(q.as_str());
                }
                proof {
                    lemma_some_boundary_exists();
                    reveal_strlit("?");
                    assert(target@ =~= location_spec(self.path@, opt_string_view(self.query)));
                }
                let mut headers: Vec<(String, String)> = Vec::new();
                headers.push((String::from_str("Location"), target));
                proof {
                    assert(headers_view(headers@) =~~= seq![
                        ("Location"@, location_spec(self.path@, opt_string_view(self.query))),
                    ]);
                }
                Response { status: 301, headers, body: Body::Empty }
            },
            ResolveResult::Found(file) => self.file_response_builder.build(file),
        }
    }
}

proof fn lemma_some_boundary_exists()
    ensures
        exists|bnd: Seq<u8>| #[trigger] boundary_wf(bnd),
{
    let witness = Seq::<u8>::new(crate::file_response_builder::BOUNDARY_LENGTH as nat, |i: int| 0x30u8);
    assert(boundary_wf(witness));
}

} // verus!
