//! Pipelines of jobs, their redirections, and the glob pass over job arguments.
use vstd::prelude::*;

verus! {

/// A file that standard input or output is redirected to.
#[derive(Debug, PartialEq, Clone)]
pub struct Redirection {
    pub file: String,
    pub append: bool,
}

/// What a redirection stands for.
pub struct RedirectionModel {
    pub file: Seq<char>,
    pub append: bool,
}

impl View for Redirection {
    type V = RedirectionModel;

    open spec fn view(&self) -> RedirectionModel {
        RedirectionModel { file: self.file@, append: self.append }
    }
}

/// How a job relates to the job after it.
#[derive(Debug, PartialEq, Eq, Structural, Clone, Copy)]
pub enum JobKind {
    /// The next job runs when this one succeeds.
    And,
    /// This job is launched without waiting for it.
    Background,
    /// The next job runs when this one fails.
    Or,
    /// This job's output feeds the next job's input.
    Pipe,
}

/// One external command with its arguments.
#[derive(Debug, PartialEq, Clone)]
pub struct Job {
    pub command: String,
    pub args: Vec<String>,
    pub kind: JobKind,
}

/// What a job stands for.
pub struct JobModel {
    pub command: Seq<char>,
    pub args: Seq<Seq<char>>,
    pub kind: JobKind,
}

impl View for Job {
    type V = JobModel;

    open spec fn view(&self) -> JobModel {
        JobModel { command: self.command@, args: self.args.deep_view(), kind: self.kind }
    }
}

/// A chain of jobs with the redirections of its first input and last output.
#[derive(Debug, PartialEq, Clone)]
pub struct Pipeline {
    pub jobs: Vec<Job>,
    pub stdout: Option<Redirection>,
    pub stdin: Option<Redirection>,
}

/// What a pipeline stands for.
pub struct PipelineModel {
    pub jobs: Seq<JobModel>,
    pub stdout: Option<RedirectionModel>,
    pub stdin: Option<RedirectionModel>,
}

/// The view of an optional redirection.
pub open spec fn redirection_view(r: Option<Redirection>) -> Option<RedirectionModel> {
    match r {
        Some(x) => Some(x@),
        None => None,
    }
}

impl View for Pipeline {
    type V = PipelineModel;

    open spec fn view(&self) -> PipelineModel {
        PipelineModel {
            jobs: self.jobs@.map_values(|j: Job| j@),
            stdout: redirection_view(self.stdout),
            stdin: redirection_view(self.stdin),
        }
    }
}

impl Pipeline {
    pub fn new(jobs: Vec<Job>, stdin: Option<Redirection>, stdout: Option<Redirection>) -> (r:
        Self)
        ensures
            r.jobs == jobs,
            r.stdin == stdin,
            r.stdout == stdout,
    {
        Pipeline { jobs: jobs, stdin: stdin, stdout: stdout }
    }
}

impl Job {
    /// A job running `args[0]` with the whole of `args` as its arguments.
    pub fn new(args: Vec<String>, kind: JobKind) -> (r: Self)
        requires
            args.len() > 0,
        ensures
            r.command@ == args[0]@,
            r.args == args,
            r.kind == kind,
    {
        let command = args[0].clone();
        Job { command: command, args: args, kind: kind }
    }

    /// The arguments handed to the command: all but the first.
    pub fn command_args(&self) -> (r: Vec<String>)
        ensures
            self.args.len() > 0 ==> r.deep_view() == self.args.deep_view().skip(1),
            self.args.len() == 0 ==> r.len() == 0,
    {
        let mut r: Vec<String> = Vec::new();
        let mut i: usize = 1;
        while i < self.args.len()
            invariant
                1 <= i,
                self.args.len() > 0 ==> i <= self.args.len(),
                self.args.len() > 0 ==> r.deep_view() == self.args.deep_view().subrange(1, i as int),
                self.args.len() == 0 ==> r.len() == 0,
            decreases self.args.len() - i,
        {
            let ghost before = r.deep_view();
            r.push(self.args[i].clone());
            assert(r.deep_view() =~= before.push(self.args.deep_view()[i as int]));
            assert(r.deep_view() =~= self.args.deep_view().subrange(1, i + 1));
            i = i + 1;
        }
        assert(self.args.len() > 0 ==> r.deep_view() =~= self.args.deep_view().skip(1));
        r
    }
}

/// True when `c` is a wildcard of a glob pattern.
pub open spec fn is_glob_char(c: char) -> bool {
    c == '?' || c == '*' || c == '['
}

/// True when `s` holds a wildcard.
pub open spec fn has_glob_char(s: Seq<char>) -> bool {
    exists|i: int| 0 <= i < s.len() && is_glob_char(#[trigger] s[i])
}

/// What one argument becomes given the paths its pattern matched: those paths
/// where it is a pattern that matched any, else the argument itself.
pub open spec fn expansion(arg: Seq<char>, matches: Seq<Seq<char>>) -> Seq<Seq<char>> {
    if has_glob_char(arg) && matches.len() > 0 {
        matches
    } else {
        seq![arg]
    }
}

/// The arguments `args` with each one replaced by its expansion, where
/// `matches[i]` holds what the pattern `args[i]` matched.
pub open spec fn expand_all(args: Seq<Seq<char>>, matches: Seq<Seq<Seq<char>>>) -> Seq<Seq<char>>
    decreases args.len(),
{
    if args.len() == 0 {
        Seq::empty()
    } else {
        expand_all(args.drop_last(), matches) + expansion(args.last(), matches[args.len() - 1])
    }
}

/// Expansion never shortens the arguments: each one gives at least one.
pub proof fn lemma_expand_keeps_length(args: Seq<Seq<char>>, matches: Seq<Seq<Seq<char>>>)
    ensures
        expand_all(args, matches).len() >= args.len(),
    decreases args.len(),
{
    if args.len() > 0 {
        lemma_expand_keeps_length(args.drop_last(), matches);
    }
}

/// True when `new` is `old` with each pattern replaced by some set of matches.
pub open spec fn glob_expanded(old: Seq<Seq<char>>, new: Seq<Seq<char>>) -> bool {
    exists|matches: Seq<Seq<Seq<char>>>| matches.len() == old.len() && new == expand_all(old, matches)
}

/// Tells whether `s` holds a wildcard.
pub fn has_glob(s: &String) -> (r: bool)
    ensures
        r == has_glob_char(s@),
{
    let t = s.as_str();
    let n = t.unicode_len();
    let mut i: usize = 0;
    while i < n
        invariant
            n == s@.len(),
            t@ == s@,
            i <= n,
            forall|j: int| 0 <= j < i ==> !is_glob_char(#[trigger] s@[j]),
        decreases n - i,
    {
        let c = t.get_char(i);
        if c == '?' || c == '*' || c == '[' {
            assert(is_glob_char(s@[i as int]));
            return true;
        }
        i = i + 1;
    }
    false
}

/// Replaces each argument by its expansion, where `matches[i]` holds the paths
/// that the pattern `args[i]` matched.
pub fn expand_args(args: &Vec<String>, matches: &Vec<Vec<String>>) -> (r: Vec<String>)
    requires
        matches.len() == args.len(),
    ensures
        r.deep_view() == expand_all(args.deep_view(), matches.deep_view()),
{
    let mut out: Vec<String> = Vec::new();
    let mut i: usize = 0;
    while i < args.len()
        invariant
            matches.len() == args.len(),
            i <= args.len(),
            out.deep_view() == expand_all(args.deep_view().take(i as int), matches.deep_view()),
        decreases args.len() - i,
    {
        let ghost before = out.deep_view();
        let ghost prefix = args.deep_view().take(i + 1);
        proof {
            assert(prefix.drop_last() =~= args.deep_view().take(i as int));
            assert(prefix.last() == args[i as int]@);
        }
        if has_glob(&args[i]) && matches[i].len() > 0 {
            let mut found = matches[i].clone();
            proof {
                assert(found.deep_view() =~= matches[i as int].deep_view());
            }
            out.append(&mut found);
        } else {
            out.push(args[i].clone());
        }
        proof {
            assert(out.deep_view() =~= before + expansion(args[i as int]@, matches.deep_view()[i as int]));
        }
        i = i + 1;
    }
    proof {
        assert(args.deep_view().take(args.len() as int) =~= args.deep_view());
    }
    out
}

/// Relies on glob::glob: the paths in the file system that match `pattern`,
/// in the order the crate yields them; none where the pattern is invalid.
/// What matches depends on the disk, so nothing is stated of the result.
#[verifier::external_body]
fn glob_matches(pattern: &String) -> (r: Vec<String>) {
    match glob::glob(pattern) {
        Ok(paths) => paths.filter_map(Result::ok).map(|p| p.to_string_lossy().into_owned()).collect(),
        Err(_) => Vec::new(),
    }
}

impl Job {
    /// Replaces each argument that is a glob pattern by the paths it matches,
    /// where it matches any.
    pub fn expand_globs(&mut self)
        ensures
            final(self).command == old(self).command,
            final(self).kind == old(self).kind,
            glob_expanded(old(self).args.deep_view(), final(self).args.deep_view()),
            final(self).args.len() >= old(self).args.len(),
    {
        let mut matches: Vec<Vec<String>> = Vec::new();
        let mut i: usize = 0;
        while i < self.args.len()
            invariant
                i <= self.args.len(),
                matches.len() == i,
            decreases self.args.len() - i,
        {
            if has_glob(&self.args[i]) {
                matches.push(glob_matches(&self.args[i]));
            } else {
                matches.push(Vec::new());
            }
            i = i + 1;
        }
        let expanded = expand_args(&self.args, &matches);
        let ghost old_args = self.args.deep_view();
        self.args = expanded;
        proof {
            assert(matches.deep_view().len() == old_args.len());
            lemma_expand_keeps_length(old_args, matches.deep_view());
        }
    }
}

impl Pipeline {
    /// Expands the glob patterns among the arguments of every job.
    pub fn expand_globs(&mut self)
        ensures
            final(self).stdin == old(self).stdin,
            final(self).stdout == old(self).stdout,
            final(self).jobs.len() == old(self).jobs.len(),
            forall|i: int|
                0 <= i < old(self).jobs.len() ==> {
                    &&& (#[trigger] final(self).jobs[i]).command == old(self).jobs[i].command
                    &&& final(self).jobs[i].kind == old(self).jobs[i].kind
                    &&& glob_expanded(
                        old(self).jobs[i].args.deep_view(),
                        final(self).jobs[i].args.deep_view(),
                    )
                    &&& final(self).jobs[i].args.len() >= old(self).jobs[i].args.len()
                },
    {
        let mut rest: Vec<Job> = Vec::new();
        std::mem::swap(&mut self.jobs, &mut rest);
        let ghost orig = rest@;
        let mut done: Vec<Job> = Vec::new();
        while rest.len() > 0
            invariant
                done.len() + rest.len() == orig.len(),
                rest@ == orig.skip(done.len() as int),
                forall|i: int|
                    0 <= i < done.len() ==> {
                        &&& (#[trigger] done[i]).command == orig[i].command
                        &&& done[i].kind == orig[i].kind
                        &&& glob_expanded(orig[i].args.deep_view(), done[i].args.deep_view())
                        &&& done[i].args.len() >= orig[i].args.len()
                    },
            decreases rest.len(),
        {
            let mut job = rest.remove(0);
            job.expand_globs();
            done.push(job);
            proof {
                assert(rest@ =~= orig.skip(done.len() as int));
            }
        }
        self.jobs = done;
    }
}

/// Expanding arguments that hold no wildcard leaves them as they are, so a
/// second pass over arguments that an expansion produced without wildcards
/// changes nothing.
pub proof fn lemma_expand_without_patterns(args: Seq<Seq<char>>, matches: Seq<Seq<Seq<char>>>)
    requires
        forall|i: int| 0 <= i < args.len() ==> !has_glob_char(#[trigger] args[i]),
    ensures
        expand_all(args, matches) == args,
    decreases args.len(),
{
    if args.len() > 0 {
        assert(!has_glob_char(args[args.len() - 1]));
        lemma_expand_without_patterns(args.drop_last(), matches);
        assert(expand_all(args, matches) =~= args);
    }
}

} // verus!
