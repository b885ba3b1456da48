use vstd::prelude::*;
use vstd::string::*;
use crate::errors::FisherError;
use crate::jobs::{status_request, status_request_matches, Job, JobOutput};
use crate::providers::{provider_equiv, provider_validate, Provider};
use crate::requests::{Request, RequestType};
use crate::text::str_eq;

verus! {

/// A named executable script together with its bound providers.
#[derive(Debug)]
pub struct Hook {
    /// The hook's unique name.
    pub name: String,
    /// The path of the executable behind the hook.
    pub exec_path: String,
    /// The providers that authenticate requests for this hook.
    pub providers: Vec<Provider>,
}

/// Field-wise sameness of two hooks.
pub open spec fn hook_equiv(a: Hook, b: Hook) -> bool {
    &&& a.name == b.name
    &&& a.exec_path == b.exec_path
    &&& a.providers@.len() == b.providers@.len()
    &&& forall|i: int|
        0 <= i < a.providers@.len() ==> provider_equiv(a.providers@[i], b.providers@[i])
}

/// Copies a list of providers; the copies carry the same configuration.
pub fn clone_providers(v: &Vec<Provider>) -> (r: Vec<Provider>)
    ensures
        r@.len() == v@.len(),
        forall|i: int| 0 <= i < v@.len() ==> provider_equiv(r@[i], v@[i]),
{
    let mut r: Vec<Provider> = Vec::new();
    let n = v.len();
    let mut i: usize = 0;
    while i < n
        invariant
            i <= n,
            n == v@.len(),
            r@.len() == i,
            forall|j: int| 0 <= j < i ==> provider_equiv(r@[j], v@[j]),
        decreases n - i,
    {
        r.push(v[i].clone());
        i += 1;
    }
    r
}

impl Clone for Hook {
    /// The copy carries the same name, path and providers.
    fn clone(&self) -> (r: Self)
        ensures
            hook_equiv(r, *self),
    {
        Hook {
            name: self.name.clone(),
            exec_path: self.exec_path.clone(),
            providers: clone_providers(&self.providers),
        }
    }
}

/// The position of the first provider at or after `i` that does not
/// reject `req`, or the list's length if all reject it.
pub open spec fn first_accepting(ps: Seq<Provider>, req: Request, i: int) -> int
    decreases ps.len() - i when 0 <= i <= ps.len()
{
    if i < 0 || i >= ps.len() {
        ps.len() as int
    } else if provider_validate(ps[i], req) != RequestType::Invalid {
        i
    } else {
        first_accepting(ps, req, i + 1)
    }
}

impl Hook {
    /// How this hook classifies a request: the first bound provider that
    /// does not reject it decides, and its position is returned so the
    /// job can be bound to it.  A hook without providers accepts every
    /// request unauthenticated; one whose providers all reject the
    /// request rejects it.
    pub fn validate(&self, req: &Request) -> (r: (RequestType, Option<usize>))
        ensures
            ({
                let ps = self.providers@;
                if ps.len() == 0 {
                    r.0 == RequestType::ExecuteHook && r.1 is None
                } else {
                    let f = first_accepting(ps, *req, 0);
                    if f < ps.len() {
                        r.1 matches Some(idx) && idx as int == f && r.0 == provider_validate(
                            ps[f],
                            *req,
                        )
                    } else {
                        r.0 == RequestType::Invalid && r.1 is None
                    }
                }
            }),
    {
        let n = self.providers.len();
        if n == 0 {
            return (RequestType::ExecuteHook, None);
        }
        let mut i: usize = 0;
        while i < n
            invariant
                i <= n,
                n == self.providers@.len(),
                first_accepting(self.providers@, *req, 0) == first_accepting(
                    self.providers@,
                    *req,
                    i as int,
                ),
            decreases n - i,
        {
            let rt = self.providers[i].validate(req);
            if !matches!(rt, RequestType::Invalid) {
                return (rt, Some(i));
            }
            i += 1;
        }
        (RequestType::Invalid, None)
    }
}

/// Whether some hook in `s` is named `n`.
pub open spec fn has_hook_name(s: Seq<Hook>, n: Seq<char>) -> bool {
    exists|i: int| 0 <= i < s.len() && s[i].name@ == n
}

/// The read-only hook repository: hooks in a stable order, names unique.
#[derive(Debug)]
pub struct Hooks {
    /// The hooks, in insertion order.  Iteration order is this order.
    pub hooks: Vec<Hook>,
}

impl Hooks {
    /// Names are pairwise distinct.
    pub open spec fn wf(&self) -> bool {
        forall|i: int, j: int|
            0 <= i < j < self.hooks@.len() ==> self.hooks@[i].name@ != self.hooks@[j].name@
    }

    /// An empty repository.
    pub fn new() -> (r: Hooks)
        ensures
            r.hooks@.len() == 0,
            r.wf(),
    {
        Hooks { hooks: Vec::new() }
    }

    /// How many hooks the repository holds.
    pub fn len(&self) -> (r: usize)
        ensures
            r == self.hooks@.len(),
    {
        self.hooks.len()
    }

    /// The hook at position `i` of the iteration order.
    pub fn hook_at(&self, i: usize) -> (r: &Hook)
        requires
            i < self.hooks@.len(),
        ensures
            r == &self.hooks@[i as int],
    {
        &self.hooks[i]
    }

    /// Adds a hook under a name not yet taken.
    pub fn insert(&mut self, hook: Hook)
        requires
            old(self).wf(),
            !has_hook_name(old(self).hooks@, hook.name@),
        ensures
            final(self).hooks@ == old(self).hooks@.push(hook),
            final(self).wf(),
    {
        proof {
            assert forall|i: int|
                0 <= i < self.hooks@.len() implies self.hooks@[i].name@ != hook.name@ by {
                if self.hooks@[i].name@ == hook.name@ {
                    assert(has_hook_name(self.hooks@, hook.name@));
                }
            }
        }
        self.hooks.push(hook);
    }

    /// The hook named `name`, if any.
    pub fn get(&self, name: &str) -> (r: Option<&Hook>)
        ensures
            match r {
                Some(h) => exists|i: int|
                    0 <= i < self.hooks@.len() && h == &self.hooks@[i] && h.name@ == name@,
                None => !has_hook_name(self.hooks@, name@),
            },
    {
        let n = self.hooks.len();
        let mut i: usize = 0;
        while i < n
            invariant
                i <= n,
                n == self.hooks@.len(),
                forall|j: int| 0 <= j < i ==> self.hooks@[j].name@ != name@,
            decreases n - i,
        {
            if str_eq(self.hooks[i].name.as_str(), name) {
                return Some(&self.hooks[i]);
            }
            i += 1;
        }
        None
    }
}

/// The positions, in order, of the status providers in `ps` whose event
/// filter covers `ev`.
pub open spec fn matching_indices(ps: Seq<Provider>, ev: Seq<char>) -> Seq<int>
    decreases ps.len(),
{
    if ps.len() == 0 {
        Seq::empty()
    } else {
        matching_indices(ps.drop_last(), ev) + (if provider_matches_status(ps.last(), ev) {
            seq![ps.len() - 1]
        } else {
            Seq::empty()
        })
    }
}

/// Whether `p` is a status provider firing on `ev`.
pub open spec fn provider_matches_status(p: Provider, ev: Seq<char>) -> bool {
    match p {
        Provider::Status(sp) => crate::providers::contains_text(sp.events@, ev),
        _ => false,
    }
}

/// The (hook position, provider position) pairs, in repository iteration
/// order, of every status hook firing on `ev`.
pub open spec fn status_pairs(hs: Seq<Hook>, ev: Seq<char>) -> Seq<(int, int)>
    decreases hs.len(),
{
    if hs.len() == 0 {
        Seq::empty()
    } else {
        status_pairs(hs.drop_last(), ev) + hook_pairs(
            matching_indices(hs.last().providers@, ev),
            hs.len() - 1,
        )
    }
}

/// Pairs one hook position with each of its matching provider positions.
pub open spec fn hook_pairs(mi: Seq<int>, hi: int) -> Seq<(int, int)> {
    mi.map_values((|j: int| (hi, j)))
}

/// What one follow-up job must hold to stand for the status pair `p`:
/// the hook and provider at that position, and a request carrying the
/// completion's metadata.
pub open spec fn job_matches_pair(jb: Job, hooks: Seq<Hook>, p: (int, int), o: JobOutput) -> bool {
    &&& 0 <= p.0 < hooks.len()
    &&& 0 <= p.1 < hooks[p.0].providers@.len()
    &&& provider_matches_status(hooks[p.0].providers@[p.1], o.event@)
    &&& hook_equiv(jb.hook, hooks[p.0])
    &&& jb.provider matches Some(pp) && provider_equiv(pp, hooks[p.0].providers@[p.1])
    &&& status_request_matches(jb.request, o)
}

/// The job list `r` stands for the status pairs `pairs`, one job per pair,
/// in order.
pub open spec fn jobs_match(r: Seq<Job>, hooks: Seq<Hook>, pairs: Seq<(int, int)>, o: JobOutput) -> bool {
    &&& r.len() == pairs.len()
    &&& forall|k: int| 0 <= k < pairs.len() ==> job_matches_pair(#[trigger] r[k], hooks, pairs[k], o)
}

/// Appending a job that stands for one more pair keeps the lists matched.
proof fn lemma_jobs_match_push(
    r: Seq<Job>,
    hooks: Seq<Hook>,
    pairs: Seq<(int, int)>,
    p: (int, int),
    jb: Job,
    o: JobOutput,
)
    requires
        jobs_match(r, hooks, pairs, o),
        job_matches_pair(jb, hooks, p, o),
    ensures
        jobs_match(r.push(jb), hooks, pairs.push(p), o),
{
    assert forall|k: int|
        0 <= k < pairs.push(p).len() implies job_matches_pair(
        #[trigger] r.push(jb)[k],
        hooks,
        pairs.push(p)[k],
        o,
    ) by {
        if k < pairs.len() {
            assert(r.push(jb)[k] == r[k]);
            assert(pairs.push(p)[k] == pairs[k]);
        } else {
            assert(r.push(jb)[k] == jb);
            assert(pairs.push(p)[k] == p);
        }
    }
}

impl Hooks {
    /// The follow-up jobs a completed job gives rise to: one per matching
    /// status hook, in repository iteration order, each carrying a request
    /// with the completion's metadata.  A failed run, or one whose provider
    /// declined, produces none.
    ///
    /// The worker runs every follow-up inline before it clears its busy
    /// flag and reports `JobEnded`, so a chain of `K` follow-ups keeps the
    /// worker busy for `K + 1` executions and reaches the scheduler as a
    /// single completion.
    pub fn jobs_after_output(&self, output: &JobOutput) -> (r: Vec<Job>)
        ensures
            !(output.success && output.trigger_status_hooks) ==> r@.len() == 0,
            output.success && output.trigger_status_hooks ==> jobs_match(
                r@,
                self.hooks@,
                status_pairs(self.hooks@, output.event@),
                *output,
            ),
    {
        let mut r: Vec<Job> = Vec::new();
        if !(output.success && output.trigger_status_hooks) {
            return r;
        }
        let req = status_request(output);
        let n = self.hooks.len();
        let mut i: usize = 0;
        proof {
            assert(status_pairs(self.hooks@.take(0), output.event@) =~= Seq::<(int, int)>::empty());
        }
        while i < n
            invariant
                i <= n,
                n == self.hooks@.len(),
                status_request_matches(req, *output),
                jobs_match(r@, self.hooks@, status_pairs(self.hooks@.take(i as int), output.event@), *output),
            decreases n - i,
        {
            let ghost pairs_before = status_pairs(self.hooks@.take(i as int), output.event@);
            let hook = &self.hooks[i];
            let m = hook.providers.len();
            let mut j: usize = 0;
            proof {
                assert(matching_indices(hook.providers@.take(0), output.event@) =~= Seq::<
                    int,
                >::empty());
                assert(pairs_before + hook_pairs(
                    matching_indices(hook.providers@.take(0), output.event@),
                    i as int,
                ) =~= pairs_before);
            }
            while j < m
                invariant
                    j <= m,
                    i < n,
                    n == self.hooks@.len(),
                    hook == &self.hooks@[i as int],
                    m == hook.providers@.len(),
                    status_request_matches(req, *output),
                    pairs_before == status_pairs(self.hooks@.take(i as int), output.event@),
                    jobs_match(
                        r@,
                        self.hooks@,
                        pairs_before + hook_pairs(
                            matching_indices(hook.providers@.take(j as int), output.event@),
                            i as int,
                        ),
                        *output,
                    ),
                decreases m - j,
            {
                let ghost pairs_cur = pairs_before + hook_pairs(
                    matching_indices(hook.providers@.take(j as int), output.event@),
                    i as int,
                );
                let matched = match &hook.providers[j] {
                    Provider::Status(sp) => sp.matches_event(output.event.as_str()),
                    _ => false,
                };
                proof {
                    assert(hook.providers@.take(j + 1).drop_last() =~= hook.providers@.take(
                        j as int,
                    ));
                    assert(hook.providers@.take(j + 1).last() == hook.providers@[j as int]);
                }
                if matched {
                    let job = Job::new(hook.clone(), Some(hook.providers[j].clone()), req.clone());
                    r.push(job);
                    proof {
                        lemma_jobs_match_push(
                            r@.drop_last(),
                            self.hooks@,
                            pairs_cur,
                            (i as int, j as int),
                            r@.last(),
                            *output,
                        );
                        assert(r@.drop_last().push(r@.last()) =~= r@);
                        assert(matching_indices(hook.providers@.take(j + 1), output.event@)
                            =~= matching_indices(hook.providers@.take(j as int), output.event@)
                            + seq![j as int]);
                        assert(pairs_before + hook_pairs(
                            matching_indices(hook.providers@.take(j + 1), output.event@),
                            i as int,
                        ) =~= pairs_cur.push((i as int, j as int)));
                    }
                } else {
                    proof {
                        assert(matching_indices(hook.providers@.take(j + 1), output.event@)
                            =~= matching_indices(hook.providers@.take(j as int), output.event@));
                        assert(pairs_before + hook_pairs(
                            matching_indices(hook.providers@.take(j + 1), output.event@),
                            i as int,
                        ) =~= pairs_cur);
                    }
                }
                j += 1;
            }
            proof {
                assert(hook.providers@.take(m as int) =~= hook.providers@);
                assert(self.hooks@.take(i + 1).drop_last() =~= self.hooks@.take(i as int));
                assert(self.hooks@.take(i + 1).last() == self.hooks@[i as int]);
                assert(status_pairs(self.hooks@.take(i + 1), output.event@) =~= pairs_before
                    + hook_pairs(matching_indices(hook.providers@, output.event@), i as int));
            }
            i += 1;
        }
        proof {
            assert(self.hooks@.take(n as int) =~= self.hooks@);
        }
        r
    }
}

/// An ASCII letter, as the declaration grammar admits in provider names.
pub open spec fn is_ascii_letter(c: char) -> bool {
    ('a' <= c && c <= 'z') || ('A' <= c && c <= 'Z')
}

/// The first position at or after `i` whose character is not an ASCII
/// letter, or the line's end.
pub open spec fn letters_end(s: Seq<char>, i: int) -> int
    decreases s.len() - i when 0 <= i <= s.len()
{
    if i < 0 || i >= s.len() {
        s.len() as int
    } else if is_ascii_letter(s[i]) {
        letters_end(s, i + 1)
    } else {
        i
    }
}

/// The position of the last closing brace of the line, or -1 if none.
pub open spec fn last_rbrace(s: Seq<char>) -> int
    decreases s.len(),
{
    if s.len() == 0 {
        -1
    } else if s.last() == '}' {
        s.len() - 1
    } else {
        last_rbrace(s.drop_last())
    }
}

/// The provider declaration a hook file line carries, if any: the line
/// must open with `## Fisher-`, name the provider in ASCII letters, then
/// carry `: ` and a braced payload reaching to the line's last closing
/// brace.  The result is the provider name and the braced payload.
pub open spec fn header_parse(s: Seq<char>) -> Option<(Seq<char>, Seq<char>)> {
    if s.len() < 10 || s.take(10) != "## Fisher-"@ {
        None
    } else {
        let k = letters_end(s, 10);
        if k <= 10 || k + 1 >= s.len() {
            None
        } else if s[k] != ':' || s[k + 1] != ' ' {
            None
        } else if k + 2 >= s.len() || s[k + 2] != '{' {
            None
        } else {
            let e = last_rbrace(s);
            if e <= k + 2 {
                None
            } else {
                Some((s.subrange(10, k), s.subrange(k + 2, e + 1)))
            }
        }
    }
}

/// Whether this character is an ASCII letter.
fn ascii_letter(c: char) -> (r: bool)
    ensures
        r == is_ascii_letter(c),
{
    ('a' <= c && c <= 'z') || ('A' <= c && c <= 'Z')
}

/// Parses one hook file line into its provider declaration, if it carries
/// one; see [`header_parse`] for the grammar.
pub fn parse_header_line(line: &str) -> (r: Option<(String, String)>)
    ensures
        match r {
            Some(np) => header_parse(line@) == Some((np.0@, np.1@)),
            None => header_parse(line@) is None,
        },
{
    proof {
        reveal_strlit("## Fisher-");
    }
    let prefix = "## Fisher-";
    let n = line.unicode_len();
    if n < 10 {
        return None;
    }
    let mut i: usize = 0;
    while i < 10
        invariant
            i <= 10,
            10 <= n == line@.len(),
            prefix@ == "## Fisher-"@,
            prefix@.len() == 10,
            forall|j: int| 0 <= j < i ==> line@[j] == prefix@[j],
        decreases 10 - i,
    {
        if line.get_char(i) != prefix.get_char(i) {
            proof {
                if line@.take(10) == prefix@ {
                    assert(line@.take(10)[i as int] == prefix@[i as int]);
                }
            }
            return None;
        }
        i += 1;
    }
    proof {
        assert(line@.take(10) =~= prefix@);
    }
    // Scan the provider name: the maximal run of letters after the prefix.
    let mut k: usize = 10;
    while k < n && ascii_letter(line.get_char(k))
        invariant
            10 <= k <= n,
            n == line@.len(),
            letters_end(line@, 10) == letters_end(line@, k as int),
        decreases n - k,
    {
        k += 1;
    }
    proof {
        assert(letters_end(line@, k as int) == k as int);
    }
    if k == 10 {
        return None;
    }
    if k >= n - 1 {
        return None;
    }
    if line.get_char(k) != ':' || line.get_char(k + 1) != ' ' {
        return None;
    }
    if k >= n - 2 || line.get_char(k + 2) != '{' {
        return None;
    }
    // Find the line's last closing brace.
    let mut e: usize = n;
    let mut found: bool = false;
    proof {
        assert(line@.take(n as int) =~= line@);
    }
    while e > 0 && !found
        invariant
            0 <= e <= n,
            n == line@.len(),
            !found ==> last_rbrace(line@) == last_rbrace(line@.take(e as int)),
            found ==> last_rbrace(line@) == e as int && e < n,
        decreases e + (if found { 0int } else { 1int }),
    {
        proof {
            assert(line@.take(e as int).drop_last() =~= line@.take(e - 1));
            assert(line@.take(e as int).last() == line@[e - 1]);
        }
        if line.get_char(e - 1) == '}' {
            found = true;
        }
        e -= 1;
    }
    if !found {
        proof {
            assert(line@.take(0) =~= Seq::<char>::empty());
        }
        return None;
    }
    if e <= k + 2 {
        return None;
    }
    let name = String::from_str(line.substring_char(10, k));
    let payload = String::from_str(line.substring_char(k + 2, e + 1));
    proof {
        assert(name@ =~= line@.subrange(10, k as int));
        assert(payload@ =~= line@.subrange(k + 2, e + 1));
    }
    Some((name, payload))
}

/// Whether a provider declaration can be built by this core: the testing
/// provider, with any payload but the one it rejects.
pub open spec fn buildable(h: (Seq<char>, Seq<char>)) -> bool {
    h.0 == "Testing"@ && h.1 != "FAIL"@
}

/// The provider the declaration `h` builds.
pub open spec fn built_provider(p: Provider, h: (Seq<char>, Seq<char>)) -> bool {
    p matches Provider::Testing(t) && t.config@ == h.1
}

/// The provider declarations of a hook file's lines from position `i` on:
/// reading stops at the first empty line, and lines that carry no
/// declaration are skipped.
pub open spec fn declared_from(lines: Seq<String>, i: int) -> Seq<(Seq<char>, Seq<char>)>
    decreases lines.len() - i when 0 <= i <= lines.len()
{
    if i < 0 || i >= lines.len() {
        Seq::empty()
    } else if lines[i]@.len() == 0 {
        Seq::empty()
    } else {
        (match header_parse(lines[i]@) {
            Some(h) => seq![h],
            None => Seq::empty(),
        }) + declared_from(lines, i + 1)
    }
}

/// The provider declarations of a hook file's lines.
pub open spec fn declared_headers(lines: Seq<String>) -> Seq<(Seq<char>, Seq<char>)> {
    declared_from(lines, 0)
}

/// Builds the providers a hook file declares: one per declaration line
/// before the first empty line, in order.  Fails, naming the provider,
/// on the first declaration this core cannot build.
pub fn load_providers(lines: &Vec<String>) -> (r: Result<Vec<Provider>, FisherError>)
    ensures
        r is Err <==> !(forall|k: int|
            0 <= k < declared_headers(lines@).len() ==> buildable(
                #[trigger] declared_headers(lines@)[k],
            )),
        r matches Ok(ps) ==> {
            &&& ps@.len() == declared_headers(lines@).len()
            &&& forall|k: int|
                0 <= k < ps@.len() ==> built_provider(
                    #[trigger] ps@[k],
                    declared_headers(lines@)[k],
                )
        },
        r matches Err(e) ==> e matches FisherError::ProviderNotFound(_),
{
    let mut ps: Vec<Provider> = Vec::new();
    let n = lines.len();
    let mut i: usize = 0;
    let ghost all = declared_headers(lines@);
    proof {
        assert(Seq::<(Seq<char>, Seq<char>)>::empty() + declared_from(lines@, 0) =~= declared_from(
            lines@,
            0,
        ));
    }
    while i < n
        invariant
            i <= n,
            n == lines@.len(),
            all == declared_headers(lines@),
            all =~= all.take(ps@.len() as int) + declared_from(lines@, i as int),
            ps@.len() <= all.len(),
            forall|k: int| 0 <= k < ps@.len() ==> buildable(#[trigger] all[k]),
            forall|k: int| 0 <= k < ps@.len() ==> built_provider(#[trigger] ps@[k], all[k]),
        decreases n - i,
    {
        let line = &lines[i];
        if line.unicode_len() == 0 {
            proof {
                assert(declared_from(lines@, i as int) =~= Seq::<(Seq<char>, Seq<char>)>::empty());
                assert(all =~= all.take(ps@.len() as int));
            }
            return Ok(ps);
        }
        if let Some((name, payload)) = parse_header_line(line.as_str()) {
            let ghost h = (name@, payload@);
            proof {
                assert(declared_from(lines@, i as int) =~= seq![h] + declared_from(lines@, i + 1));
                assert(all[ps@.len() as int] == h);
            }
            match Provider::get(name.as_str(), payload.as_str()) {
                Ok(p) => {
                    proof {
                        reveal_strlit("Testing");
                        reveal_strlit("FAIL");
                    }
                    ps.push(p);
                    proof {
                        assert(all =~= all.take(ps@.len() as int) + declared_from(lines@, i + 1));
                    }
                },
                Err(e) => {
                    proof {
                        reveal_strlit("Testing");
                        reveal_strlit("FAIL");
                        assert(!buildable(all[ps@.len() as int]));
                    }
                    match e {
                        FisherError::ProviderNotFound(s) => {
                            return Err(FisherError::ProviderNotFound(s));
                        },
                        _ => {
                            return Err(FisherError::ProviderNotFound(name));
                        },
                    }
                },
            }
        } else {
            proof {
                assert(declared_from(lines@, i as int) =~= declared_from(lines@, i + 1));
            }
        }
        i += 1;
    }
    proof {
        assert(declared_from(lines@, n as int) =~= Seq::<(Seq<char>, Seq<char>)>::empty());
        assert(all =~= all.take(ps@.len() as int));
    }
    Ok(ps)
}

/// Whether a directory entry's permission bits admit it as a hook: it
/// must be executable and readable by someone.
pub fn mode_allows_hook(mode: u32) -> (r: bool)
    ensures
        r == ((mode & 0o111) != 0 && (mode & 0o444) != 0),
{
    (mode & 0o111) != 0 && (mode & 0o444) != 0
}

} // verus!
