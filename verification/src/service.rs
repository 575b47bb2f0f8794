//! The high-level interface: resolve a request against the filesystem and
//! build the default response for the outcome, under one configuration of
//! root filesystem, allowed encodings and cache lifespan.

use vstd::prelude::*;

use crate::file_response_builder::{FileResponseBuilder, Response, boundary_wf,
    parsed_http_date_of, MAX_HTTP_DATE_SECS};
use crate::resolve::{AcceptEncoding, Resolver, ResolveResult, resolve_request_spec,
    result_matches, opt_string_view};
use crate::response_builder::{RequestHead, ResponseBuilder, response_for_result_matches};
use crate::vfs::{FileOpener, FsNode, VfsError};
use vstd::utf8::encode_utf8;

verus! {

/// A filesystem whose modification times the HTTP date format can carry
/// (before the year 9999). A backend reports later times as absent.
pub open spec fn fs_mtimes_ok(fs: Map<Seq<Seq<u8>>, FsNode>) -> bool {
    forall|k: Seq<Seq<u8>>|
        #[trigger] fs.dom().contains(k) ==> (match fs[k] {
            FsNode::Node(e) => (match e.modified {
                Some(t) => t.secs < MAX_HTTP_DATE_SECS,
                None => true,
            }),
            FsNode::Denied => true,
        })
}

/// Whether builder settings are the ones a request head and a cache
/// configuration call for.
pub open spec fn builder_matches_head(
    b: FileResponseBuilder,
    cache: Option<u32>,
    head: &RequestHead,
) -> bool {
    &&& b.cache_headers == cache
    &&& b.is_head == (head.method is Head)
    &&& b.if_modified_since == (match head.if_modified_since {
        None => None::<u64>,
        Some(v) => parsed_http_date_of(v@),
    })
    &&& opt_string_view(b.range) == opt_string_view(head.range)
    &&& opt_string_view(b.if_range) == opt_string_view(head.if_range)
}

/// The idempotence law: two resolutions of the same request against an
/// unchanged filesystem answer to the same specification outcome, so they
/// have the same shape — the same variant, redirect target, served path,
/// size, modification time, content bytes, content type and encoding — and
/// the ETags computed from their metadata are identical.
pub proof fn lemma_resolve_idempotent<O: FileOpener>(
    r1: &ResolveResult<O::File>,
    r2: &ResolveResult<O::File>,
    s: crate::resolve::SpecResolved,
)
    requires
        result_matches::<O>(r1, s),
        result_matches::<O>(r2, s),
    ensures
        (r1 is MethodNotMatched) == (r2 is MethodNotMatched),
        (r1 is NotFound) == (r2 is NotFound),
        (r1 is PermissionDenied) == (r2 is PermissionDenied),
        (r1 is IsDirectory) == (r2 is IsDirectory),
        (r1 is Found) == (r2 is Found),
        (match (r1, r2) {
            (
                ResolveResult::IsDirectory { redirect_to: t1 },
                ResolveResult::IsDirectory { redirect_to: t2 },
            ) => t1@ == t2@,
            (ResolveResult::Found(f1), ResolveResult::Found(f2)) => {
                &&& f1.path.deep_view() == f2.path.deep_view()
                &&& f1.size == f2.size
                &&& f1.modified == f2.modified
                &&& O::handle_content(&f1.handle) == O::handle_content(&f2.handle)
                &&& opt_string_view(f1.content_type) == opt_string_view(f2.content_type)
                &&& f1.encoding == f2.encoding
                &&& (match (f1.modified, f2.modified) {
                    (Some(t1), Some(t2)) => crate::file_response_builder::etag_spec(f1.size, t1)
                        == crate::file_response_builder::etag_spec(f2.size, t2),
                    (None, None) => true,
                    _ => false,
                })
            },
            _ => true,
        }),
{
}

/// High-level interface for serving static files: a resolver plus the
/// cache lifespan to advertise. Each request is resolved and answered
/// independently; the configuration is never changed by a request.
pub struct Static<O> {
    /// The resolver used to open files.
    pub resolver: Resolver<O>,
    /// Whether to send cache headers, and what lifespan to indicate.
    pub cache_headers: Option<u32>,
}

impl<O: FileOpener> Static<O> {
    /// A service over the given filesystem, with no cache headers and no
    /// encodings allowed.
    pub fn with_opener(opener: O) -> (r: Self)
        ensures
            r.resolver.opener == opener,
            r.resolver.allowed_encodings == (AcceptEncoding { gzip: false, br: false, zstd: false }),
            r.cache_headers is None,
    {
        Static { resolver: Resolver::with_opener(opener), cache_headers: None }
    }

    /// Add cache headers to responses for the given lifespan.
    pub fn cache_headers(&mut self, value: Option<u32>)
        ensures
            final(self).resolver == old(self).resolver,
            final(self).cache_headers == value,
    {
        self.cache_headers = value;
    }

    /// Set the encodings clients may request via `Accept-Encoding`.
    pub fn allowed_encodings(&mut self, allowed_encodings: AcceptEncoding)
        ensures
            final(self).resolver.opener == old(self).resolver.opener,
            final(self).resolver.allowed_encodings == allowed_encodings,
            final(self).cache_headers == old(self).cache_headers,
    {
        self.resolver.allowed_encodings = allowed_encodings;
    }

    /// Serve a request: resolve it against the filesystem, then build the
    /// default response for the outcome. `Err` carries only an unexpected
    /// backend failure, to be answered with a generic server error.
    pub fn serve(&self, head: &RequestHead) -> (r: Result<Response<O::File>, VfsError>)
        requires
            fs_mtimes_ok(self.resolver.opener.fs()),
        ensures
            self.resolver.opener.infallible() ==> (match r {
                Ok(resp) => exists|b: FileResponseBuilder, bnd: Seq<u8>, res: ResolveResult<
                    O::File,
                >|
                    {
                        &&& builder_matches_head(b, self.cache_headers, head)
                        &&& boundary_wf(bnd)
                        &&& result_matches::<O>(
                            &res,
                            resolve_request_spec(
                                self.resolver.opener.fs(),
                                self.resolver.allowed_encodings,
                                head.method,
                                encode_utf8(head.path@),
                                (match head.accept_encoding {
                                    None => None,
                                    Some(h) => Some(encode_utf8(h@)),
                                }),
                            ),
                        )
                        &&& #[trigger] response_for_result_matches(
                            resp,
                            res,
                            b,
                            head.path@,
                            opt_string_view(head.query),
                            bnd,
                        )
                    },
                Err(_) => false,
            }),
            (match r {
                Err(e) => !self.resolver.opener.infallible() && e == VfsError::Other,
                Ok(_) => true,
            }),
    {
        let mut rb = ResponseBuilder::new();
        rb.request(head);
        rb.cache_headers(self.cache_headers);
        let result = match self.resolver.resolve_request(
            head.method,
            head.path.as_str(),
            match &head.accept_encoding {
                None => None,
                Some(h) => Some(h.as_str()),
            },
        ) {
            Ok(result) => result,
            Err(e) => {
                return Err(e);
            },
        };
        proof {
            let fs = self.resolver.opener.fs();
            match &result {
                ResolveResult::Found(f) => {
                    let k = choose|k: Seq<Seq<u8>>|
                        #[trigger] crate::resolve::openable_at(fs, k) && crate::resolve::entry_at(
                            fs,
                            k,
                        ).modified == f.modified;
                    assert(fs.dom().contains(k));
                    assert(match f.modified {
                        Some(t) => t.secs < MAX_HTTP_DATE_SECS,
                        None => true,
                    });
                },
                _ => {},
            }
        }
        let resp = rb.build(result);
        proof {
            assert(builder_matches_head(rb.file_response_builder, self.cache_headers, head));
        }
        Ok(resp)
    }
}

} // verus!
