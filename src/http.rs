use vstd::prelude::*;
use vstd::string::StringExecFns;

verus! {

/// One response header, name and value.
#[derive(Debug, Clone, PartialEq, Eq)]
pub struct Header {
    pub name: String,
    pub value: String,
}

/// An HTTP response as the idempotency store saves and replays it.
#[derive(Debug, Clone, PartialEq, Eq)]
pub struct HttpResponse {
    pub status: u16,
    pub headers: Vec<Header>,
    pub body: Vec<u8>,
}

/// What a response is: status code, header list and body bytes.
pub struct ResponseView {
    pub status: u16,
    pub headers: Seq<(Seq<char>, Seq<char>)>,
    pub body: Seq<u8>,
}

impl View for Header {
    type V = (Seq<char>, Seq<char>);

    open spec fn view(&self) -> (Seq<char>, Seq<char>) {
        (self.name@, self.value@)
    }
}

/// The name and value of each header, in order.
pub open spec fn headers_view(h: Seq<Header>) -> Seq<(Seq<char>, Seq<char>)> {
    h.map_values(|x: Header| x@)
}

impl View for HttpResponse {
    type V = ResponseView;

    open spec fn view(&self) -> ResponseView {
        ResponseView { status: self.status, headers: headers_view(self.headers@), body: self.body@ }
    }
}

/// Status code of a redirect to another page after a form post.
pub const SEE_OTHER: u16 = 303;

/// The redirect that sends a browser to `location`.
pub open spec fn see_other_view(location: Seq<char>) -> ResponseView {
    ResponseView { status: SEE_OTHER, headers: seq![("Location"@, location)], body: seq![] }
}

impl HttpResponse {
    /// A copy of the response, header for header and byte for byte.
    pub fn duplicate(&self) -> (r: HttpResponse)
        ensures
            r@ == self@,
    {
        let mut headers: Vec<Header> = Vec::new();
        let mut i: usize = 0;
        while i < self.headers.len()
            invariant
                i <= self.headers.len(),
                headers@.len() == i,
                forall|k: int| 0 <= k < i ==> #[trigger] headers@[k]@ == self.headers@[k]@,
            decreases self.headers.len() - i,
        {
            let h = &self.headers[i];
            headers.push(Header { name: h.name.clone(), value: h.value.clone() });
            i = i + 1;
        }
        let mut body: Vec<u8> = Vec::new();
        let mut j: usize = 0;
        while j < self.body.len()
            invariant
                j <= self.body.len(),
                body@ == self.body@.subrange(0, j as int),
            decreases self.body.len() - j,
        {
            body.push(self.body[j]);
            j = j + 1;
            assert(body@ =~= self.body@.subrange(0, j as int));
        }
        assert(body@ =~= self.body@);
        assert(headers_view(headers@) =~= headers_view(self.headers@));
        HttpResponse { status: self.status, headers, body }
    }
}

/// A redirect to `location`, with no body.
pub fn see_other(location: &str) -> (r: HttpResponse)
    ensures
        r@ == see_other_view(location@),
{
    let mut headers: Vec<Header> = Vec::new();
    headers.push(Header { name: String::from_str("Location"), value: String::from_str(location) });
    let r = HttpResponse { status: SEE_OTHER, headers, body: Vec::new() };
    assert(headers_view(r.headers@) =~= seq![("Location"@, location@)]);
    r
}

} // verus!
