//! A plain-value model of an HTTP response: status code, ordered header
//! list and raw body bytes.  The idempotency gateway saves and replays
//! responses in exactly this shape, so replay can be byte-for-byte
//! identical to the original.

use vstd::prelude::*;

verus! {

/// One header of a saved response: a name and its raw value bytes.
#[derive(Debug)]
pub struct HeaderPair {
    pub name: String,
    pub value: Vec<u8>,
}

/// Mathematical image of a [`HeaderPair`].
#[verifier::ext_equal]
pub ghost struct HeaderPairView {
    pub name: Seq<char>,
    pub value: Seq<u8>,
}

impl View for HeaderPair {
    type V = HeaderPairView;

    open spec fn view(&self) -> HeaderPairView {
        HeaderPairView { name: self.name@, value: self.value@ }
    }
}

/// Mathematical image of an [`HttpResponse`].
#[verifier::ext_equal]
pub ghost struct ResponseView {
    pub status_code: u16,
    pub headers: Seq<HeaderPairView>,
    pub body: Seq<u8>,
}

/// A full response as the gateway stores it: status, ordered headers, body.
#[derive(Debug)]
pub struct HttpResponse {
    pub status_code: u16,
    pub headers: Vec<HeaderPair>,
    pub body: Vec<u8>,
}

impl View for HttpResponse {
    type V = ResponseView;

    open spec fn view(&self) -> ResponseView {
        ResponseView {
            status_code: self.status_code,
            headers: Seq::new(self.headers@.len(), |i: int| self.headers@[i]@),
            body: self.body@,
        }
    }
}

/// The response the publish endpoint produces on success: a bare 200 with
/// no headers and an empty body.
pub open spec fn ok_response_view() -> ResponseView {
    ResponseView { status_code: 200u16, headers: Seq::empty(), body: Seq::empty() }
}

impl HeaderPair {
    /// An explicit copy, with its contents pinned down.
    pub fn duplicate(&self) -> (r: HeaderPair)
        ensures
            r@ == self@,
    {
        HeaderPair {
            name: self.name.clone(),
            value: vstd::slice::slice_to_vec(self.value.as_slice()),
        }
    }
}

impl HttpResponse {
    /// An explicit deep copy, with its contents pinned down.
    pub fn duplicate(&self) -> (r: HttpResponse)
        ensures
            r@ == self@,
    {
        let mut headers: Vec<HeaderPair> = Vec::new();
        let mut i: usize = 0;
        while i < self.headers.len()
            invariant
                i <= self.headers.len(),
                headers@.len() == i,
                forall|j: int| 0 <= j < i ==> headers@[j]@ == self.headers@[j]@,
            decreases self.headers.len() - i,
        {
            headers.push(self.headers[i].duplicate());
            i = i + 1;
        }
        let r = HttpResponse {
            status_code: self.status_code,
            headers,
            body: vstd::slice::slice_to_vec(self.body.as_slice()),
        };
        proof {
            assert(r@ =~= self@);
        }
        r
    }

    /// The bare success response the publish endpoint produces.
    pub fn ok_response() -> (r: HttpResponse)
        ensures
            r@ == ok_response_view(),
    {
        let r = HttpResponse { status_code: 200, headers: Vec::new(), body: Vec::new() };
        proof {
            assert(r@ =~= ok_response_view());
        }
        r
    }
}

} // verus!
