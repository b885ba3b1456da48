use vstd::prelude::*;
use vstd::string::*;
use crate::text::{append_decimal, dec_rep};

verus! {

/// How a provider classifies an incoming request.
#[derive(Clone, Copy, PartialEq, Eq, Structural, Debug)]
pub enum RequestType {
    /// The request failed authentication and must be rejected.
    Invalid,
    /// The request is a reachability probe; acknowledge without running the hook.
    Ping,
    /// The request is authentic and the hook should be executed.
    ExecuteHook,
}

/// An IPv4 source address, held as its four octets.
///
/// The scheduler core never performs network I/O; it only compares a
/// request's source against textual filters, so the address is modelled as
/// plain values with a verified textual rendering.
#[derive(Clone, Copy, PartialEq, Eq, Structural, Debug)]
pub struct IpAddress {
    pub o1: u8,
    pub o2: u8,
    pub o3: u8,
    pub o4: u8,
}

/// The canonical dotted-quad text of an address: four decimal components
/// without leading zeros, separated by dots.
pub open spec fn ipv4_text(ip: IpAddress) -> Seq<char> {
    dec_rep(ip.o1 as nat) + seq!['.'] + dec_rep(ip.o2 as nat) + seq!['.'] + dec_rep(ip.o3 as nat)
        + seq!['.'] + dec_rep(ip.o4 as nat)
}

impl IpAddress {
    /// The loopback address 127.0.0.1.
    pub fn localhost() -> (r: IpAddress)
        ensures
            r == (IpAddress { o1: 127, o2: 0, o3: 0, o4: 1 }),
    {
        IpAddress { o1: 127, o2: 0, o3: 0, o4: 1 }
    }

    /// The canonical dotted-quad rendering of the address.
    pub fn to_text(&self) -> (r: String)
        ensures
            r@ == ipv4_text(*self),
    {
        proof {
            reveal_strlit(".");
        }
        let mut out = String::new();
        append_decimal(&mut out, self.o1 as usize);
        out.append(".");
        append_decimal(&mut out, self.o2 as usize);
        out.append(".");
        append_decimal(&mut out, self.o3 as usize);
        out.append(".");
        append_decimal(&mut out, self.o4 as usize);
        proof {
            assert("."@ =~= seq!['.']);
            assert(out@ =~= ipv4_text(*self));
        }
        out
    }
}

/// First-match lookup in a list of key/value pairs, compared by text.
/// Repositories built by the library keep keys unique, so first-match is
/// simply "the entry with this key".
pub open spec fn lookup_pair(pairs: Seq<(String, String)>, key: Seq<char>) -> Option<Seq<char>>
    decreases pairs.len(),
{
    if pairs.len() == 0 {
        None
    } else if pairs.first().0@ == key {
        Some(pairs.first().1@)
    } else {
        lookup_pair(pairs.drop_first(), key)
    }
}

/// An authenticated HTTP request as the core sees it: plain header and
/// parameter lists, the source address, and the raw body.
#[derive(Debug)]
pub struct WebRequest {
    pub headers: Vec<(String, String)>,
    pub params: Vec<(String, String)>,
    pub source: IpAddress,
    pub body: String,
}

impl WebRequest {
    /// The value of parameter `key`, if present.
    pub fn get_param<'a>(&'a self, key: &str) -> (r: Option<&'a String>)
        ensures
            match r {
                Some(v) => lookup_pair(self.params@, key@) == Some(v@),
                None => lookup_pair(self.params@, key@) is None,
            },
    {
        let n = self.params.len();
        let mut i: usize = 0;
        proof {
            assert(self.params@.skip(0) =~= self.params@);
        }
        while i < n
            invariant
                i <= n,
                n == self.params@.len(),
                lookup_pair(self.params@, key@) == lookup_pair(self.params@.skip(i as int), key@),
            decreases n - i,
        {
            proof {
                assert(self.params@.skip(i as int).first() == self.params@[i as int]);
                assert(self.params@.skip(i as int).drop_first() =~= self.params@.skip(i + 1));
            }
            if crate::text::str_eq(self.params[i].0.as_str(), key) {
                return Some(&self.params[i].1);
            }
            i += 1;
        }
        proof {
            assert(self.params@.skip(n as int) =~= Seq::<(String, String)>::empty());
        }
        None
    }

    /// Whether parameter `key` is present.
    pub fn has_param(&self, key: &str) -> (r: bool)
        ensures
            r == (lookup_pair(self.params@, key@) is Some),
    {
        self.get_param(key).is_some()
    }
}

/// Copies a list of string pairs; the copy holds equal values.
pub fn clone_pairs(v: &Vec<(String, String)>) -> (r: Vec<(String, String)>)
    ensures
        r@ == v@,
{
    let mut r: Vec<(String, String)> = Vec::new();
    let n = v.len();
    let mut i: usize = 0;
    while i < n
        invariant
            i <= n,
            n == v@.len(),
            r@ =~= v@.take(i as int),
        decreases n - i,
    {
        r.push((v[i].0.clone(), v[i].1.clone()));
        i += 1;
    }
    proof {
        assert(v@.take(n as int) =~= v@);
    }
    r
}

/// Field-wise sameness of two web requests.  Container values are compared
/// through their views, element values exactly.
pub open spec fn web_request_equiv(a: WebRequest, b: WebRequest) -> bool {
    &&& a.headers@ == b.headers@
    &&& a.params@ == b.params@
    &&& a.source == b.source
    &&& a.body == b.body
}

/// Field-wise sameness of two requests.
pub open spec fn request_equiv(a: Request, b: Request) -> bool {
    match (a, b) {
        (Request::Web(x), Request::Web(y)) => web_request_equiv(x, y),
    }
}

impl Clone for WebRequest {
    /// The copy carries the same headers, parameters, source and body.
    fn clone(&self) -> (r: Self)
        ensures
            web_request_equiv(r, *self),
    {
        WebRequest {
            headers: clone_pairs(&self.headers),
            params: clone_pairs(&self.params),
            source: self.source,
            body: self.body.clone(),
        }
    }
}

/// An incoming request, by classification.  Every request the core handles
/// today arrives through the web front-end.
#[derive(Debug)]
pub enum Request {
    Web(WebRequest),
}

impl Request {
    /// The request's web payload.
    pub fn web(&self) -> (r: &WebRequest)
        ensures
            *self matches Request::Web(w) && r == w,
    {
        match self {
            Request::Web(w) => w,
        }
    }
}

impl Clone for Request {
    /// The copy carries the same payload.
    fn clone(&self) -> (r: Self)
        ensures
            request_equiv(r, *self),
    {
        match self {
            Request::Web(w) => Request::Web(w.clone()),
        }
    }
}

/// An empty request from localhost, convenient as a test fixture.
pub fn dummy_request() -> (r: Request)
    ensures
        r matches Request::Web(w) && w.headers@.len() == 0 && w.params@.len() == 0 && w.source == (
        IpAddress { o1: 127, o2: 0, o3: 0, o4: 1 }) && w.body@.len() == 0,
{
    Request::Web(
        WebRequest {
            headers: Vec::new(),
            params: Vec::new(),
            source: IpAddress::localhost(),
            body: String::new(),
        },
    )
}

} // verus!
