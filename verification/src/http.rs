//! HTTP requests as plain values.
use vstd::prelude::*;

verus! {

#[derive(Debug, Clone, Copy, PartialEq, Eq, Structural)]
pub enum HttpMethod {
    Get,
    Post,
    Put,
}

/// A request to be sent. Its headers are names and values, in order.
#[derive(Debug)]
pub struct HttpRequest {
    pub method: HttpMethod,
    pub url: String,
    pub headers: Vec<(String, String)>,
    pub body: String,
}

/// The contents of an [`HttpRequest`].
#[verifier::ext_equal]
pub struct RequestView {
    pub method: HttpMethod,
    pub url: Seq<char>,
    pub headers: Seq<(Seq<char>, Seq<char>)>,
    pub body: Seq<char>,
}

impl View for HttpRequest {
    type V = RequestView;

    open spec fn view(&self) -> RequestView {
        RequestView {
            method: self.method,
            url: self.url@,
            headers: self.headers@.map_values(|h: (String, String)| (h.0@, h.1@)),
            body: self.body@,
        }
    }
}

impl HttpRequest {
    /// A request without headers.
    pub fn new(method: HttpMethod, url: String, body: String) -> (res: Self)
        ensures
            res@ == (RequestView { method, url: url@, headers: Seq::empty(), body: body@ }),
    {
        let res = HttpRequest { method, url, headers: Vec::new(), body };
        assert(res@.headers =~= Seq::empty());
        res
    }

    /// Adds a header behind those that are there.
    pub fn add_header(&mut self, name: &str, value: String)
        ensures
            final(self)@ == (RequestView {
                headers: old(self)@.headers.push((name@, value@)),
                ..old(self)@
            }),
    {
        self.headers.push((name.to_owned(), value));
        assert(self@.headers =~= old(self)@.headers.push((name@, value@)));
    }
}

} // verus!
