use vstd::prelude::*;
use vstd::string::*;
use crate::hooks::{hook_equiv, Hook};
use crate::providers::{provider_equiv, Provider};
use crate::requests::{request_equiv, IpAddress, Request, WebRequest};
use crate::text::{dec_rep, decimal_string};

verus! {

/// The intent to execute one hook against one validated request.
#[derive(Debug)]
pub struct Job {
    pub hook: Hook,
    pub provider: Option<Provider>,
    pub request: Request,
}

impl Job {
    /// Binds a hook, an optional provider and a request into a job.
    pub fn new(hook: Hook, provider: Option<Provider>, request: Request) -> (r: Job)
        ensures
            r.hook == hook,
            r.provider == provider,
            r.request == request,
    {
        Job { hook, provider, request }
    }

    /// The name of the script behind this job.
    pub fn hook_name(&self) -> (r: &String)
        ensures
            r == &self.hook.name,
    {
        &self.hook.name
    }
}

/// Field-wise sameness of two jobs.
pub open spec fn job_equiv(a: Job, b: Job) -> bool {
    &&& hook_equiv(a.hook, b.hook)
    &&& match (a.provider, b.provider) {
        (Some(x), Some(y)) => provider_equiv(x, y),
        (None, None) => true,
        _ => false,
    }
    &&& request_equiv(a.request, b.request)
}

impl Clone for Job {
    /// The copy binds the same hook, provider and request.
    fn clone(&self) -> (r: Self)
        ensures
            job_equiv(r, *self),
    {
        Job {
            hook: self.hook.clone(),
            provider: match &self.provider {
                Some(p) => Some(p.clone()),
                None => None,
            },
            request: self.request.clone(),
        }
    }
}

/// What a worker reports after running a job's script.
#[derive(Debug)]
pub struct JobOutput {
    /// The name of the hook that ran.
    pub hook_name: String,
    /// The event this completion raises for status hooks.
    pub event: String,
    /// Whether the job's provider asked for status hooks to fire.
    pub trigger_status_hooks: bool,
    /// Whether the script exited successfully.
    pub success: bool,
    /// The script's exit code.
    pub exit_code: u8,
    /// The signal that terminated the script, or zero.
    pub signal: u8,
}

/// The request attached to a status-hook follow-up job: it carries the
/// completion's metadata as parameters and originates from localhost.
pub open spec fn status_request_matches(r: Request, o: JobOutput) -> bool {
    match r {
        Request::Web(w) => {
            &&& w.params@.len() == 4
            &&& w.params@[0].0@ == "event"@ && w.params@[0].1@ == o.event@
            &&& w.params@[1].0@ == "hook_name"@ && w.params@[1].1@ == o.hook_name@
            &&& w.params@[2].0@ == "exit_code"@ && w.params@[2].1@ == dec_rep(o.exit_code as nat)
            &&& w.params@[3].0@ == "signal"@ && w.params@[3].1@ == dec_rep(o.signal as nat)
            &&& w.headers@.len() == 0
            &&& w.source == (IpAddress { o1: 127, o2: 0, o3: 0, o4: 1 })
            &&& w.body@.len() == 0
        },
    }
}

/// Builds the request carried by every follow-up job of a completion.
pub fn status_request(o: &JobOutput) -> (r: Request)
    ensures
        status_request_matches(r, *o),
{
    let mut params: Vec<(String, String)> = Vec::new();
    params.push((String::from_str("event"), o.event.clone()));
    params.push((String::from_str("hook_name"), o.hook_name.clone()));
    params.push((String::from_str("exit_code"), decimal_string(o.exit_code as usize)));
    params.push((String::from_str("signal"), decimal_string(o.signal as usize)));
    Request::Web(
        WebRequest {
            headers: Vec::new(),
            params,
            source: IpAddress::localhost(),
            body: String::new(),
        },
    )
}

} // verus!
