use vstd::prelude::*;
use vstd::string::*;

verus! {

/// The configuration record the core expects from its surroundings.
#[derive(Debug)]
pub struct FisherOptions {
    /// The address the web front-end binds to.
    pub bind: String,
    /// The directory the hooks are loaded from.
    pub hooks_dir: String,
    /// The worker pool bound.
    pub max_threads: u16,
    /// Whether the health endpoint is served.
    pub enable_health: bool,
}

impl Default for FisherOptions {
    /// The defaults: bind to 127.0.0.1:8000, no hooks directory, one
    /// worker, health enabled.
    fn default() -> (r: FisherOptions)
        ensures
            r.bind@ == "127.0.0.1:8000"@,
            r.hooks_dir@ == Seq::<char>::empty(),
            r.max_threads == 1,
            r.enable_health,
    {
        FisherOptions {
            bind: String::from_str("127.0.0.1:8000"),
            hooks_dir: String::new(),
            max_threads: 1,
            enable_health: true,
        }
    }
}

} // verus!
