//! The host-request capability: anything that can say whether it is a
//! multipart POST (and with which boundary token) and hand over its body as
//! a byte stream. Host integrations implement [`HttpRequest`];
//! [`MockRequest`] is the in-crate implementation used for testing.

use vstd::prelude::*;

use crate::field::{Multipart, bytes_to_string};
use crate::headers::{ascii_lower, lower_exec};
use crate::pattern::{find_from, find_sub, copy_range, bytes_eq, lemma_find_from_is,
    lemma_find_from_none, is_match};
use crate::source::{ByteSource, MemSource};
use vstd::string::StringSliceAdditionalSpecFns;

verus! {

/// A server-side HTTP request that may or may not be multipart.
pub trait HttpRequest: Sized {
    /// The request body as a byte stream.
    type Body: ByteSource;

    /// The boundary token this request declares, if it is a multipart
    /// POST.
    spec fn boundary_spec(&self) -> Option<Seq<char>>;

    /// The bytes of the request body.
    spec fn body_data(&self) -> Seq<u8>;

    /// The boundary token from the `Content-Type` header, or `None` when
    /// the request is not a multipart POST.
    fn multipart_boundary(&self) -> (r: Option<String>)
        ensures
            match (r, self.boundary_spec()) {
                (Option::Some(s), Option::Some(m)) => s@ == m,
                (Option::None, Option::None) => true,
                _ => false,
            },
    ;

    /// The request body, consuming the request.
    fn body(self) -> (b: Self::Body)
        ensures
            b.wf(),
            b.data() == self.body_data(),
            b.pos() == 0,
    ;
}

/// A request built from plain values, for tests and examples.
pub struct MockRequest {
    /// The boundary token, where the mock stands for a multipart POST.
    pub boundary: Option<String>,
    /// The body bytes.
    pub body: Vec<u8>,
    /// Largest chunk the body source will deliver per read.
    pub chunk: usize,
}

impl HttpRequest for MockRequest {
    type Body = MemSource;

    open spec fn boundary_spec(&self) -> Option<Seq<char>> {
        match self.boundary {
            Option::Some(b) => Option::Some(b@),
            Option::None => Option::None,
        }
    }

    open spec fn body_data(&self) -> Seq<u8> {
        self.body@
    }

    fn multipart_boundary(&self) -> (r: Option<String>) {
        match &self.boundary {
            Some(b) => Some(b.clone()),
            None => None,
        }
    }

    fn body(self) -> (b: MemSource) {
        let chunk: usize = if self.chunk >= 1 {
            self.chunk
        } else {
            1
        };
        MemSource::new(self.body, chunk)
    }
}

/// A pair of handlers: one for ordinary requests, one for multipart
/// requests. Host glue decides, via [`Multipart::from_request`], which of
/// the two receives a given request.
pub struct Switch<H, M> {
    normal: H,
    multipart: M,
}

impl<H, M> Switch<H, M> {
    /// The handler for ordinary requests.
    pub closed spec fn normal_handler(&self) -> &H {
        &self.normal
    }

    /// The handler for multipart requests.
    pub closed spec fn multipart_handler(&self) -> &M {
        &self.multipart
    }

    /// Pair `normal` and `multipart` into one dispatching handler.
    pub fn new(normal: H, multipart: M) -> (r: Switch<H, M>)
        ensures
            r.normal_handler() == normal,
            r.multipart_handler() == multipart,
    {
        Switch { normal, multipart }
    }

    /// Dispatch one request: a multipart POST goes to the multipart
    /// handler and `None` comes back; any other request is returned for
    /// the normal handler.
    pub fn handle<R: HttpRequest>(&self, req: R) -> (r: Option<R>) where
        M: MultipartHandler<R::Body>,

        ensures
            match r {
                Option::Some(orig) => orig == req && req.boundary_spec() is None,
                Option::None => req.boundary_spec() is Some,
            },
    {
        match Multipart::from_request(req) {
            Ok(mp) => {
                self.multipart.handle_multipart(mp);
                None
            },
            Err(orig) => Some(orig),
        }
    }
}

/// A type that can respond to an incoming multipart request.
pub trait MultipartHandler<B: ByteSource> {
    /// Generate a response from this multipart request.
    fn handle_multipart(&self, multipart: Multipart<B>)
        requires
            multipart.wf(),
    ;
}

/// The bytes of `"boundary="`.
pub open spec fn k_boundary_eq() -> Seq<u8> {
    seq![98u8, 111u8, 117u8, 110u8, 100u8, 97u8, 114u8, 121u8, 61u8]
}

/// The boundary token inside a `Content-Type` value: the bytes between the
/// first `boundary=` and the next `;` (or the end).
pub open spec fn boundary_param_spec(ct: Seq<u8>) -> Option<Seq<u8>> {
    match find_from(ct, k_boundary_eq(), 0) {
        Option::None => Option::None,
        Option::Some(i) => {
            let start = i + 9;
            match find_from(ct, seq![59u8], start) {
                Option::Some(j) => Option::Some(ct.subrange(start, j)),
                Option::None => Option::Some(ct.subrange(start, ct.len() as int)),
            }
        },
    }
}

/// Extract the boundary token from a `Content-Type` header value:
/// everything between `boundary=` and the next `;`. `None` where the value
/// has no `boundary=` parameter, or where the token bytes are not valid
/// UTF-8.
pub fn extract_boundary(content_type: &str) -> (r: Option<String>)
    ensures
        match (r, boundary_param_spec(content_type.spec_bytes())) {
            (Option::Some(s), Option::Some(m)) => vstd::utf8::valid_utf8(m) && s@
                == vstd::utf8::decode_utf8(m),
            (Option::None, Option::Some(m)) => !vstd::utf8::valid_utf8(m),
            (Option::None, Option::None) => true,
            _ => false,
        },
{
    let bytes = content_type.as_bytes_vec();
    let mut pat: Vec<u8> = Vec::new();
    pat.push(98u8);
    pat.push(111u8);
    pat.push(117u8);
    pat.push(110u8);
    pat.push(100u8);
    pat.push(97u8);
    pat.push(114u8);
    pat.push(121u8);
    pat.push(61u8);
    proof {
        assert(pat@ =~= k_boundary_eq());
    }
    let i = match find_sub(&bytes, &pat) {
        Some(i) => i,
        None => {
            proof {
                lemma_find_from_none(bytes@, k_boundary_eq(), 0);
            }
            return None;
        },
    };
    proof {
        lemma_find_from_is(bytes@, k_boundary_eq(), 0, i as int);
    }
    let n = bytes.len();
    proof {
        assert(i + 9 <= bytes@.len());
    }
    let start = i + 9;
    let rest = copy_range(&bytes, start, n);
    let mut semi: Vec<u8> = Vec::new();
    semi.push(59u8);
    proof {
        assert(semi@ =~= seq![59u8]);
    }
    let token = match find_sub(&rest, &semi) {
        Some(j) => {
            proof {
                assert forall|k: int| start <= k < start + j implies !is_match(
                    bytes@,
                    seq![59u8],
                    k,
                ) by {
                    crate::pattern::lemma_match_in_window(bytes@, seq![59u8], start as int,
                        n as int, k - start);
                }
                crate::pattern::lemma_match_in_window(bytes@, seq![59u8], start as int,
                    n as int, j as int);
                lemma_find_from_is(bytes@, seq![59u8], start as int, start + j);
            }
            copy_range(&rest, 0, j)
        },
        None => {
            proof {
                assert forall|k: int| start <= k < bytes@.len() implies !is_match(
                    bytes@,
                    seq![59u8],
                    k,
                ) by {
                    if k + 1 <= bytes@.len() {
                        crate::pattern::lemma_match_in_window(bytes@, seq![59u8], start as int,
                            n as int, k - start);
                    }
                }
                lemma_find_from_none(bytes@, seq![59u8], start as int);
            }
            rest
        },
    };
    proof {
        assert(token@ =~= (match boundary_param_spec(content_type.spec_bytes()) {
            Option::Some(m) => m,
            Option::None => Seq::<u8>::empty(),
        }));
    }
    bytes_to_string(token)
}

/// The bytes of `"multipart/form-data"`, lower case.
pub open spec fn k_multipart_form_data() -> Seq<u8> {
    seq![
        109u8, 117u8, 108u8, 116u8, 105u8, 112u8, 97u8, 114u8, 116u8, 47u8, 102u8, 111u8,
        114u8, 109u8, 45u8, 100u8, 97u8, 116u8, 97u8,
    ]
}

/// The value declares the `multipart/form-data` media type: it begins
/// with it, ASCII-case-insensitively.
pub open spec fn is_form_data_ct(ct: Seq<u8>) -> bool {
    ct.len() >= 19 && ascii_lower(ct.subrange(0, 19)) == k_multipart_form_data()
}

/// The boundary token a request declares, or `None` where it is not a
/// multipart POST: the method must be POST and the `Content-Type` value
/// must carry the `multipart/form-data` media type with a `boundary=`
/// parameter.
pub open spec fn gate_spec(is_post: bool, ct: Option<Seq<u8>>) -> Option<Seq<u8>> {
    if !is_post {
        Option::None
    } else {
        match ct {
            Option::None => Option::None,
            Option::Some(c) => if is_form_data_ct(c) {
                boundary_param_spec(c)
            } else {
                Option::None
            },
        }
    }
}

/// The boundary token of a request, given whether it is a POST and its
/// `Content-Type` header value: `None` exactly where the request is not a
/// multipart POST or declares no boundary. Host adapters call this with
/// the method and header of their own request type.
pub fn multipart_boundary_of(is_post: bool, content_type: Option<&str>) -> (r: Option<String>)
    ensures
        ({
            let ct = match content_type {
                Option::Some(c) => Option::Some(c.spec_bytes()),
                Option::None => Option::None,
            };
            match (r, gate_spec(is_post, ct)) {
                (Option::Some(s), Option::Some(m)) => vstd::utf8::valid_utf8(m) && s@
                    == vstd::utf8::decode_utf8(m),
                (Option::None, Option::Some(m)) => !vstd::utf8::valid_utf8(m),
                (Option::None, Option::None) => true,
                _ => false,
            }
        }),
{
    if !is_post {
        return None;
    }
    let ct = match content_type {
        Some(c) => c,
        None => {
            return None;
        },
    };
    let bytes = ct.as_bytes_vec();
    if bytes.len() < 19 {
        return None;
    }
    let head = copy_range(&bytes, 0, 19);
    let lowered = lower_exec(&head);
    let mut pat: Vec<u8> = Vec::new();
    pat.push(109u8);
    pat.push(117u8);
    pat.push(108u8);
    pat.push(116u8);
    pat.push(105u8);
    pat.push(112u8);
    pat.push(97u8);
    pat.push(114u8);
    pat.push(116u8);
    pat.push(47u8);
    pat.push(102u8);
    pat.push(111u8);
    pat.push(114u8);
    pat.push(109u8);
    pat.push(45u8);
    pat.push(100u8);
    pat.push(97u8);
    pat.push(116u8);
    pat.push(97u8);
    proof {
        assert(pat@ =~= k_multipart_form_data());
    }
    if !bytes_eq(&lowered, &pat) {
        return None;
    }
    extract_boundary(ct)
}

} // verus!
