use vstd::prelude::*;
use vstd::string::*;
use crate::errors::FisherError;
use crate::requests::{ipv4_text, lookup_pair, Request, RequestType};
use crate::text::str_eq;

verus! {

/// The request validator used by the test hooks: it accepts a request
/// unless a `secret` or `ip` parameter is present and wrong, and lets a
/// `request_type` parameter turn the request into a ping.
#[derive(Debug)]
pub struct TestingProvider {
    pub config: String,
}

/// The classification the testing provider gives a request.
pub open spec fn testing_validate(req: Request) -> RequestType {
    match req {
        Request::Web(w) => {
            if (match lookup_pair(w.params@, "secret"@) {
                Some(s) => s != "testing"@,
                None => false,
            }) {
                RequestType::Invalid
            } else if (match lookup_pair(w.params@, "ip"@) {
                Some(t) => t != ipv4_text(w.source),
                None => false,
            }) {
                RequestType::Invalid
            } else if lookup_pair(w.params@, "request_type"@) == Some("ping"@) {
                RequestType::Ping
            } else {
                RequestType::ExecuteHook
            }
        },
    }
}

impl TestingProvider {
    /// Accepts any configuration text except the literal `FAIL`.
    pub fn new(config: &str) -> (r: Result<TestingProvider, FisherError>)
        ensures
            r is Err <==> config@ == "FAIL"@,
            r matches Ok(p) ==> p.config@ == config@,
            r matches Err(e) ==> e matches FisherError::ProviderNotFound(_),
    {
        if str_eq(config, "FAIL") {
            Err(FisherError::ProviderNotFound(String::new()))
        } else {
            Ok(TestingProvider { config: String::from_str(config) })
        }
    }

    /// Classifies a request; see [`testing_validate`] for the exact rule.
    ///
    /// A malformed or mismatched `ip` filter never validates: the parameter
    /// must equal the canonical dotted-quad text of the source address.
    pub fn validate(&self, request: &Request) -> (r: RequestType)
        ensures
            r == testing_validate(*request),
    {
        let w = request.web();
        if let Some(secret) = w.get_param("secret") {
            if !str_eq(secret.as_str(), "testing") {
                return RequestType::Invalid;
            }
        }
        if let Some(ip) = w.get_param("ip") {
            let expected = w.source.to_text();
            if !str_eq(ip.as_str(), expected.as_str()) {
                return RequestType::Invalid;
            }
        }
        if let Some(request_type) = w.get_param("request_type") {
            if str_eq(request_type.as_str(), "ping") {
                return RequestType::Ping;
            }
        }
        RequestType::ExecuteHook
    }

    /// The environment the provider contributes: the `env` parameter is
    /// exported as `ENV`, and nothing else.
    pub fn env(&self, request: &Request) -> (r: Vec<(String, String)>)
        ensures
            match lookup_pair(request->Web_0.params@, "env"@) {
                Some(v) => r@.len() == 1 && r@[0].0@ == "ENV"@ && r@[0].1@ == v,
                None => r@.len() == 0,
            },
    {
        let mut res: Vec<(String, String)> = Vec::new();
        let w = request.web();
        if let Some(env) = w.get_param("env") {
            res.push((String::from_str("ENV"), env.clone()));
        }
        res
    }

    /// Whether completing a job for this request should fire status hooks:
    /// it does unless the request opts out with `ignore_status_hooks`.
    pub fn trigger_status_hooks(&self, request: &Request) -> (r: bool)
        ensures
            r == (lookup_pair(request->Web_0.params@, "ignore_status_hooks"@) is None),
    {
        let w = request.web();
        !w.has_param("ignore_status_hooks")
    }
}

impl Clone for TestingProvider {
    /// The copy is equal to the original.
    fn clone(&self) -> (r: Self)
        ensures
            r == *self,
    {
        TestingProvider { config: self.config.clone() }
    }
}

/// Whether some string in `list` reads `t`.
pub open spec fn contains_text(list: Seq<String>, t: Seq<char>) -> bool {
    exists|i: int| 0 <= i < list.len() && list[i]@ == t
}

/// A provider that fires a hook in response to another hook's completion,
/// filtered by event name.
///
/// The event filter is handed over as plain values; parsing a declaration
/// payload into it is the hook loader's business, outside this core.
#[derive(Debug)]
pub struct StatusProvider {
    pub events: Vec<String>,
}

impl StatusProvider {
    /// A status provider firing on exactly the given events.
    pub fn new(events: Vec<String>) -> (r: StatusProvider)
        ensures
            r.events@ == events@,
    {
        StatusProvider { events }
    }

    /// Whether this provider's filter covers the event `ev`.
    pub fn matches_event(&self, ev: &str) -> (r: bool)
        ensures
            r == contains_text(self.events@, ev@),
    {
        let n = self.events.len();
        let mut i: usize = 0;
        while i < n
            invariant
                i <= n,
                n == self.events@.len(),
                forall|j: int| 0 <= j < i ==> self.events@[j]@ != ev@,
            decreases n - i,
        {
            if str_eq(self.events[i].as_str(), ev) {
                return true;
            }
            i += 1;
        }
        false
    }
}

/// Copies a list of strings; the copy holds equal values.
pub fn clone_strings(v: &Vec<String>) -> (r: Vec<String>)
    ensures
        r@ == v@,
{
    let mut r: Vec<String> = Vec::new();
    let n = v.len();
    let mut i: usize = 0;
    while i < n
        invariant
            i <= n,
            n == v@.len(),
            r@ =~= v@.take(i as int),
        decreases n - i,
    {
        r.push(v[i].clone());
        i += 1;
    }
    proof {
        assert(v@.take(n as int) =~= v@);
    }
    r
}

impl Clone for StatusProvider {
    /// The copy carries the same event filter.
    fn clone(&self) -> (r: Self)
        ensures
            r.events@ == self.events@,
    {
        StatusProvider { events: clone_strings(&self.events) }
    }
}

/// A request validator bound to a hook.
#[derive(Debug)]
pub enum Provider {
    Testing(TestingProvider),
    Status(StatusProvider),
}

/// Field-wise sameness of two providers.
pub open spec fn provider_equiv(a: Provider, b: Provider) -> bool {
    match (a, b) {
        (Provider::Testing(x), Provider::Testing(y)) => x == y,
        (Provider::Status(x), Provider::Status(y)) => x.events@ == y.events@,
        _ => false,
    }
}

/// The classification a provider gives a request.  A status provider never
/// accepts a request from the web front-end: its jobs are born internally.
pub open spec fn provider_validate(p: Provider, req: Request) -> RequestType {
    match p {
        Provider::Testing(_) => testing_validate(req),
        Provider::Status(_) => RequestType::Invalid,
    }
}

impl Provider {
    /// Looks a provider up by declaration name.
    ///
    /// Only the testing provider can be built from a raw declaration
    /// payload inside this core; status providers take their event filter
    /// as plain values through [`StatusProvider::new`].
    pub fn get(name: &str, config: &str) -> (r: Result<Provider, FisherError>)
        ensures
            name@ == "Testing"@ && config@ != "FAIL"@ ==> (r matches Ok(p)
                && p matches Provider::Testing(t) && t.config@ == config@),
            name@ == "Testing"@ && config@ == "FAIL"@ ==> r is Err,
            r matches Err(e) ==> e matches FisherError::ProviderNotFound(_),
            name@ != "Testing"@ ==> (r matches Err(e) && e matches FisherError::ProviderNotFound(
            n,
            ) && n@ == name@),
    {
        if str_eq(name, "Testing") {
            match TestingProvider::new(config) {
                Ok(p) => Ok(Provider::Testing(p)),
                Err(e) => Err(e),
            }
        } else {
            Err(FisherError::ProviderNotFound(String::from_str(name)))
        }
    }

    /// Classifies a request; see [`provider_validate`].
    pub fn validate(&self, request: &Request) -> (r: RequestType)
        ensures
            r == provider_validate(*self, *request),
    {
        match self {
            Provider::Testing(t) => t.validate(request),
            Provider::Status(_) => RequestType::Invalid,
        }
    }

    /// The environment this provider contributes to a job.
    pub fn env(&self, request: &Request) -> (r: Vec<(String, String)>)
        ensures
            match *self {
                Provider::Testing(_) => match lookup_pair(request->Web_0.params@, "env"@) {
                    Some(v) => r@.len() == 1 && r@[0].0@ == "ENV"@ && r@[0].1@ == v,
                    None => r@.len() == 0,
                },
                Provider::Status(_) => r@.len() == 0,
            },
    {
        match self {
            Provider::Testing(t) => t.env(request),
            Provider::Status(_) => Vec::new(),
        }
    }

    /// Whether completing a job for this request should fire status hooks.
    /// Status jobs never fire further status hooks, which keeps a chain
    /// from feeding itself.
    pub fn trigger_status_hooks(&self, request: &Request) -> (r: bool)
        ensures
            r == (match *self {
                Provider::Testing(_) => lookup_pair(
                    request->Web_0.params@,
                    "ignore_status_hooks"@,
                ) is None,
                Provider::Status(_) => false,
            }),
    {
        match self {
            Provider::Testing(t) => t.trigger_status_hooks(request),
            Provider::Status(_) => false,
        }
    }
}

impl Clone for Provider {
    /// The copy carries the same configuration.
    fn clone(&self) -> (r: Self)
        ensures
            provider_equiv(r, *self),
    {
        match self {
            Provider::Testing(t) => Provider::Testing(t.clone()),
            Provider::Status(s) => Provider::Status(s.clone()),
        }
    }
}

/// A testing provider with an empty configuration, convenient as a fixture.
pub fn testing_provider() -> (r: Provider)
    ensures
        r matches Provider::Testing(t) && t.config@ == Seq::<char>::empty(),
{
    match TestingProvider::new("") {
        Ok(p) => {
            proof {
                reveal_strlit("");
                reveal_strlit("FAIL");
                assert(""@ =~= Seq::<char>::empty());
            }
            Provider::Testing(p)
        },
        Err(_) => {
            proof {
                reveal_strlit("");
                reveal_strlit("FAIL");
                assert(""@.len() == 0);
                assert("FAIL"@.len() == 4);
                assert(false);
            }
            Provider::Testing(TestingProvider { config: String::new() })
        },
    }
}

} // verus!
