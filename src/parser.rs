//! Turns source text into statements: pipelines, conditionals, and function
//! declarations.
use vstd::prelude::*;
use crate::lexer::{all_blank, lemma_lines_ignore_surrounding_blanks, lines_of, split_lines};
use crate::pipeline::{Job, JobKind, JobModel, Pipeline, PipelineModel, Redirection, RedirectionModel, redirection_view};

verus! {

/// How the two sides of a conditional are compared.
#[derive(Debug, PartialEq, Eq, Structural, Clone, Copy)]
pub enum Comparitor {
    Equal,
    NotEqual,
    GreaterThan,
    LessThan,
    GreaterThanOrEqual,
    LessThanOrEqual,
}

/// One statement of the command language.
#[derive(Debug, PartialEq, Clone)]
pub enum Statement {
    /// Pipelines to run one after another.
    Pipelines(Vec<Pipeline>),
    /// Opens a conditional block.
    If { left: String, comparitor: Comparitor, right: String },
    /// Starts the other branch of the open conditional block.
    Else,
    /// Closes the open block.
    End,
    /// Opens the body of a function declaration.
    Function { name: String, args: Vec<String> },
}

/// What a statement stands for.
pub enum StatementModel {
    Pipelines(Seq<PipelineModel>),
    If { left: Seq<char>, comparitor: Comparitor, right: Seq<char> },
    Else,
    End,
    Function { name: Seq<char>, args: Seq<Seq<char>> },
}

impl View for Statement {
    type V = StatementModel;

    open spec fn view(&self) -> StatementModel {
        match self {
            Statement::Pipelines(p) => StatementModel::Pipelines(p@.map_values(|x: Pipeline| x@)),
            Statement::If { left, comparitor, right } => StatementModel::If {
                left: left@,
                comparitor: *comparitor,
                right: right@,
            },
            Statement::Else => StatementModel::Else,
            Statement::End => StatementModel::End,
            Statement::Function { name, args } => StatementModel::Function {
                name: name@,
                args: args.deep_view(),
            },
        }
    }
}

/// Why source text is not a statement.
#[derive(Debug, PartialEq, Eq, Structural, Clone, Copy)]
pub enum ParseError {
    /// The line at this index (counted from zero) is not a statement.
    Syntax { line: usize },
    /// The text holds more than one statement where one was expected.
    ManyStatements,
    /// The `else` at this line has no conditional block to belong to.
    UnexpectedElse { line: usize },
    /// The terminator at this line has no block to close.
    UnexpectedEnd { line: usize },
    /// The text ends inside a block.
    Unclosed,
}

/// Tells whether `w` is the word `k`.
fn word_is(w: &String, k: &str) -> (r: bool)
    ensures
        r == (w@ == k@),
{
    let a = w.as_str();
    let n = a.unicode_len();
    if n != k.unicode_len() {
        return false;
    }
    let mut i: usize = 0;
    while i < n
        invariant
            n == w@.len(),
            n == k@.len(),
            a@ == w@,
            i <= n,
            forall|j: int| 0 <= j < i ==> w@[j] == k@[j],
        decreases n - i,
    {
        if a.get_char(i) != k.get_char(i) {
            return false;
        }
        i = i + 1;
    }
    assert(w@ =~= k@);
    true
}

/// The comparitor that the word `w` names.
pub open spec fn comparitor_of(w: Seq<char>) -> Option<Comparitor> {
    if w == "=="@ {
        Some(Comparitor::Equal)
    } else if w == "!="@ {
        Some(Comparitor::NotEqual)
    } else if w == ">="@ {
        Some(Comparitor::GreaterThanOrEqual)
    } else if w == "<="@ {
        Some(Comparitor::LessThanOrEqual)
    } else if w == ">"@ {
        Some(Comparitor::GreaterThan)
    } else if w == "<"@ {
        Some(Comparitor::LessThan)
    } else {
        None
    }
}

/// Reads a comparitor from a word. The two-character ones are tried first.
pub fn parse_comparitor(w: &String) -> (r: Option<Comparitor>)
    ensures
        r == comparitor_of(w@),
{
    if word_is(w, "==") {
        Some(Comparitor::Equal)
    } else if word_is(w, "!=") {
        Some(Comparitor::NotEqual)
    } else if word_is(w, ">=") {
        Some(Comparitor::GreaterThanOrEqual)
    } else if word_is(w, "<=") {
        Some(Comparitor::LessThanOrEqual)
    } else if word_is(w, ">") {
        Some(Comparitor::GreaterThan)
    } else if word_is(w, "<") {
        Some(Comparitor::LessThan)
    } else {
        None
    }
}

/// Where a redirection operator sends the file that follows it.
#[derive(Debug, PartialEq, Eq, Structural, Clone, Copy)]
pub enum Redirect {
    /// `<`: standard input of the pipeline.
    Input,
    /// `>`: standard output, truncating the file.
    Output,
    /// `>>`: standard output, appending to the file.
    Append,
}

/// The job kind that the operator `w` ends a job with.
pub open spec fn job_kind_of(w: Seq<char>) -> Option<JobKind> {
    if w == "|"@ {
        Some(JobKind::Pipe)
    } else if w == "&&"@ {
        Some(JobKind::And)
    } else if w == "||"@ {
        Some(JobKind::Or)
    } else if w == "&"@ {
        Some(JobKind::Background)
    } else {
        None
    }
}

/// The redirection that the operator `w` introduces.
pub open spec fn redirect_of(w: Seq<char>) -> Option<Redirect> {
    if w == "<"@ {
        Some(Redirect::Input)
    } else if w == ">"@ {
        Some(Redirect::Output)
    } else if w == ">>"@ {
        Some(Redirect::Append)
    } else {
        None
    }
}

/// True when `w` is an operator rather than a plain word.
pub open spec fn is_operator(w: Seq<char>) -> bool {
    job_kind_of(w).is_some() || redirect_of(w).is_some() || w == ";"@
}

/// The job that runs `args` with the given kind.
pub open spec fn job_model(args: Seq<Seq<char>>, kind: JobKind) -> JobModel {
    JobModel { command: args[0], args, kind }
}

/// The state of the reading of a line's words into pipelines.
pub struct ReadModel {
    /// The pipelines already ended.
    pub done: Seq<PipelineModel>,
    /// The jobs of the current pipeline already ended.
    pub jobs: Seq<JobModel>,
    /// The words of the current job.
    pub args: Seq<Seq<char>>,
    pub stdin: Option<RedirectionModel>,
    pub stdout: Option<RedirectionModel>,
    /// A redirection operator still waiting for its file.
    pub pending: Option<Redirect>,
    /// True once the words failed to form pipelines.
    pub failed: bool,
}

/// The state `st` marked as failed.
pub open spec fn fail(st: ReadModel) -> ReadModel {
    ReadModel { failed: true, ..st }
}

/// Ends the current pipeline. Its last job takes the kind `And` unless a
/// trailing `&` already ended it; a trailing `|`, `&&` or `||` is an error,
/// and so is a redirection with no job.
pub open spec fn end_pipeline(st: ReadModel) -> ReadModel {
    let jobs = if st.args.len() > 0 {
        st.jobs.push(job_model(st.args, JobKind::And))
    } else {
        st.jobs
    };
    if st.failed {
        st
    } else if st.args.len() == 0 && st.jobs.len() > 0 && st.jobs.last().kind != JobKind::Background {
        fail(st)
    } else if jobs.len() == 0 {
        if st.stdin.is_some() || st.stdout.is_some() {
            fail(st)
        } else {
            st
        }
    } else {
        ReadModel {
            done: st.done.push(PipelineModel { jobs, stdout: st.stdout, stdin: st.stdin }),
            jobs: Seq::empty(),
            args: Seq::empty(),
            stdin: None,
            stdout: None,
            pending: None,
            failed: false,
        }
    }
}

/// One word's effect on the reading.
pub open spec fn read_step(st: ReadModel, w: Seq<char>) -> ReadModel {
    if st.failed {
        st
    } else if st.pending.is_some() {
        if is_operator(w) {
            fail(st)
        } else {
            let r = RedirectionModel { file: w, append: st.pending == Some(Redirect::Append) };
            if st.pending == Some(Redirect::Input) {
                ReadModel { stdin: Some(r), pending: None, ..st }
            } else {
                ReadModel { stdout: Some(r), pending: None, ..st }
            }
        }
    } else if job_kind_of(w).is_some() {
        if st.args.len() == 0 {
            fail(st)
        } else {
            ReadModel {
                jobs: st.jobs.push(job_model(st.args, job_kind_of(w).unwrap())),
                args: Seq::empty(),
                ..st
            }
        }
    } else if w == ";"@ {
        end_pipeline(st)
    } else if redirect_of(w).is_some() {
        ReadModel { pending: redirect_of(w), ..st }
    } else {
        ReadModel { args: st.args.push(w), ..st }
    }
}

/// The state after reading all of `words`.
pub open spec fn read_words(words: Seq<Seq<char>>) -> ReadModel
    decreases words.len(),
{
    if words.len() == 0 {
        ReadModel {
            done: Seq::empty(),
            jobs: Seq::empty(),
            args: Seq::empty(),
            stdin: None,
            stdout: None,
            pending: None,
            failed: false,
        }
    } else {
        read_step(read_words(words.drop_last()), words.last())
    }
}

/// The pipelines that the words of a line form: jobs separated by `|`, `&&`,
/// `||` or `&`, pipelines by `;`, with `<`, `>` and `>>` redirections.
pub open spec fn pipelines_of(words: Seq<Seq<char>>) -> Option<Seq<PipelineModel>> {
    let st = read_words(words);
    if st.pending.is_some() {
        None
    } else {
        let e = end_pipeline(st);
        if e.failed {
            None
        } else {
            Some(e.done)
        }
    }
}

fn parse_job_kind(w: &String) -> (r: Option<JobKind>)
    ensures
        r == job_kind_of(w@),
{
    if word_is(w, "|") {
        Some(JobKind::Pipe)
    } else if word_is(w, "&&") {
        Some(JobKind::And)
    } else if word_is(w, "||") {
        Some(JobKind::Or)
    } else if word_is(w, "&") {
        Some(JobKind::Background)
    } else {
        None
    }
}

fn parse_redirect(w: &String) -> (r: Option<Redirect>)
    ensures
        r == redirect_of(w@),
{
    if word_is(w, "<") {
        Some(Redirect::Input)
    } else if word_is(w, ">") {
        Some(Redirect::Output)
    } else if word_is(w, ">>") {
        Some(Redirect::Append)
    } else {
        None
    }
}

fn is_operator_word(w: &String) -> (r: bool)
    ensures
        r == is_operator(w@),
{
    parse_job_kind(w).is_some() || parse_redirect(w).is_some() || word_is(w, ";")
}

struct Reader {
    done: Vec<Pipeline>,
    jobs: Vec<Job>,
    args: Vec<String>,
    stdin: Option<Redirection>,
    stdout: Option<Redirection>,
    pending: Option<Redirect>,
    failed: bool,
}

impl View for Reader {
    type V = ReadModel;

    closed spec fn view(&self) -> ReadModel {
        ReadModel {
            done: self.done@.map_values(|p: Pipeline| p@),
            jobs: self.jobs@.map_values(|j: Job| j@),
            args: self.args.deep_view(),
            stdin: redirection_view(self.stdin),
            stdout: redirection_view(self.stdout),
            pending: self.pending,
            failed: self.failed,
        }
    }
}

impl Reader {
    fn new() -> (r: Reader)
        ensures
            r@ == read_words(Seq::empty()),
    {
        let r = Reader {
            done: Vec::new(),
            jobs: Vec::new(),
            args: Vec::new(),
            stdin: None,
            stdout: None,
            pending: None,
            failed: false,
        };
        assert(r@.done =~= Seq::<PipelineModel>::empty());
        assert(r@.jobs =~= Seq::<JobModel>::empty());
        assert(r@.args =~= Seq::<Seq<char>>::empty());
        r
    }

    /// Ends the job being read with the given kind.
    fn end_job(&mut self, kind: JobKind)
        requires
            old(self).args.len() > 0,
        ensures
            final(self)@ == (ReadModel {
                jobs: old(self)@.jobs.push(job_model(old(self)@.args, kind)),
                args: Seq::empty(),
                ..old(self)@
            }),
    {
        let mut args: Vec<String> = Vec::new();
        std::mem::swap(&mut args, &mut self.args);
        let ghost old_jobs = self@.jobs;
        let job = Job::new(args, kind);
        self.jobs.push(job);
        assert(self@.jobs =~= old_jobs.push(job_model(args.deep_view(), kind)));
        assert(self@.args =~= Seq::<Seq<char>>::empty());
    }

    fn push_word(&mut self, w: &String)
        ensures
            final(self)@ == read_step(old(self)@, w@),
    {
        if self.failed {
            return;
        }
        if let Some(p) = self.pending {
            if is_operator_word(w) {
                self.failed = true;
                return;
            }
            let append = match p {
                Redirect::Append => true,
                _ => false,
            };
            let r = Redirection { file: w.clone(), append };
            match p {
                Redirect::Input => { self.stdin = Some(r); },
                _ => { self.stdout = Some(r); },
            }
            self.pending = None;
            return;
        }
        if let Some(k) = parse_job_kind(w) {
            if self.args.len() == 0 {
                self.failed = true;
            } else {
                self.end_job(k);
            }
            return;
        }
        if word_is(w, ";") {
            self.end_pipeline();
            return;
        }
        if let Some(r) = parse_redirect(w) {
            self.pending = Some(r);
            return;
        }
        let ghost old_args = self@.args;
        self.args.push(w.clone());
        assert(self@.args =~= old_args.push(w@));
    }

    fn end_pipeline(&mut self)
        ensures
            final(self)@ == end_pipeline(old(self)@),
    {
        if self.failed {
            return;
        }
        if self.args.len() == 0 && self.jobs.len() > 0 {
            match self.jobs[self.jobs.len() - 1].kind {
                JobKind::Background => {},
                _ => {
                    self.failed = true;
                    return;
                },
            }
        }
        if self.args.len() > 0 {
            self.end_job(JobKind::And);
        }
        if self.jobs.len() == 0 {
            if self.stdin.is_some() || self.stdout.is_some() {
                self.failed = true;
            }
            return;
        }
        let mut jobs: Vec<Job> = Vec::new();
        std::mem::swap(&mut jobs, &mut self.jobs);
        let mut stdin: Option<Redirection> = None;
        std::mem::swap(&mut stdin, &mut self.stdin);
        let mut stdout: Option<Redirection> = None;
        std::mem::swap(&mut stdout, &mut self.stdout);
        let ghost old_done = self@.done;
        self.done.push(Pipeline::new(jobs, stdin, stdout));
        self.pending = None;
        assert(self@.done =~= end_pipeline(old(self)@).done);
        assert(self@.jobs =~= Seq::<JobModel>::empty());
        assert(self@.args =~= Seq::<Seq<char>>::empty());
    }
}

/// Reads the words of a line as pipelines.
pub fn read_pipelines(words: &Vec<String>) -> (r: Option<Vec<Pipeline>>)
    ensures
        match r {
            Some(p) => pipelines_of(words.deep_view()) == Some(p@.map_values(|x: Pipeline| x@)),
            None => pipelines_of(words.deep_view()).is_none(),
        },
{
    let mut reader = Reader::new();
    let mut i: usize = 0;
    while i < words.len()
        invariant
            i <= words.len(),
            reader@ == read_words(words.deep_view().take(i as int)),
        decreases words.len() - i,
    {
        proof {
            assert(words.deep_view().take(i + 1).drop_last() =~= words.deep_view().take(i as int));
        }
        reader.push_word(&words[i]);
        i = i + 1;
    }
    proof {
        assert(words.deep_view().take(words.len() as int) =~= words.deep_view());
    }
    if reader.pending.is_some() {
        return None;
    }
    reader.end_pipeline();
    if reader.failed {
        None
    } else {
        Some(reader.done)
    }
}

/// The statement that the words of one line form: `if <left> <cmp> <right>`,
/// `else`, `end` or `fi`, `fn <name> [arg]*`, or pipelines. A line with no
/// words is an empty list of pipelines.
pub open spec fn statement_of(w: Seq<Seq<char>>) -> Option<StatementModel> {
    if w.len() == 0 {
        Some(StatementModel::Pipelines(Seq::empty()))
    } else if w[0] == "if"@ {
        if w.len() == 4 && comparitor_of(w[2]).is_some() {
            Some(StatementModel::If { left: w[1], comparitor: comparitor_of(w[2]).unwrap(), right: w[3] })
        } else {
            None
        }
    } else if w[0] == "else"@ {
        if w.len() == 1 { Some(StatementModel::Else) } else { None }
    } else if w[0] == "end"@ || w[0] == "fi"@ {
        if w.len() == 1 { Some(StatementModel::End) } else { None }
    } else if w[0] == "fn"@ {
        if w.len() >= 2 {
            Some(StatementModel::Function { name: w[1], args: w.skip(2) })
        } else {
            None
        }
    } else {
        match pipelines_of(w) {
            Some(p) => Some(StatementModel::Pipelines(p)),
            None => None,
        }
    }
}

/// Reads the words of one line as a statement.
pub fn parse_line(words: &Vec<String>) -> (r: Option<Statement>)
    ensures
        match r {
            Some(t) => statement_of(words.deep_view()) == Some(t@),
            None => statement_of(words.deep_view()).is_none(),
        },
{
    let n = words.len();
    if n == 0 {
        let none: Vec<Pipeline> = Vec::new();
        assert(none@.map_values(|x: Pipeline| x@) =~= Seq::<PipelineModel>::empty());
        return Some(Statement::Pipelines(none));
    }
    if word_is(&words[0], "if") {
        if n == 4 {
            if let Some(c) = parse_comparitor(&words[2]) {
                return Some(Statement::If { left: words[1].clone(), comparitor: c, right: words[3].clone() });
            }
        }
        return None;
    }
    if word_is(&words[0], "else") {
        return if n == 1 { Some(Statement::Else) } else { None };
    }
    if word_is(&words[0], "end") || word_is(&words[0], "fi") {
        return if n == 1 { Some(Statement::End) } else { None };
    }
    if word_is(&words[0], "fn") {
        if n < 2 {
            return None;
        }
        let mut args: Vec<String> = Vec::new();
        let mut i: usize = 2;
        while i < n
            invariant
                n == words.len(),
                2 <= i <= n,
                args.deep_view() == words.deep_view().subrange(2, i as int),
            decreases n - i,
        {
            let ghost before = args.deep_view();
            args.push(words[i].clone());
            assert(args.deep_view() =~= before.push(words.deep_view()[i as int]));
            assert(args.deep_view() =~= words.deep_view().subrange(2, i + 1));
            i = i + 1;
        }
        assert(args.deep_view() =~= words.deep_view().skip(2));
        return Some(Statement::Function { name: words[1].clone(), args });
    }
    match read_pipelines(words) {
        Some(p) => Some(Statement::Pipelines(p)),
        None => None,
    }
}

/// The number of lines among `ls` that hold words.
pub open spec fn count_statements(ls: Seq<Seq<Seq<char>>>) -> nat
    decreases ls.len(),
{
    if ls.len() == 0 {
        0
    } else {
        count_statements(ls.drop_last()) + if ls.last().len() > 0 { 1nat } else { 0nat }
    }
}

/// The index of the last line among `ls` that holds words, or -1.
pub open spec fn last_statement(ls: Seq<Seq<Seq<char>>>) -> int
    decreases ls.len(),
{
    if ls.len() == 0 {
        -1
    } else if ls.last().len() > 0 {
        ls.len() - 1
    } else {
        last_statement(ls.drop_last())
    }
}

/// What text holding a single statement, with any blank or comment lines
/// around it, reads as.
pub open spec fn parse_result(s: Seq<char>) -> Result<StatementModel, ParseError> {
    let ls = lines_of(s);
    let k = last_statement(ls);
    if count_statements(ls) == 0 {
        Ok(StatementModel::Pipelines(Seq::empty()))
    } else if count_statements(ls) > 1 {
        Err(ParseError::ManyStatements)
    } else {
        match statement_of(ls[k]) {
            Some(v) => Ok(v),
            None => Err(ParseError::Syntax { line: k as usize }),
        }
    }
}

/// Reads text that holds one statement.
pub fn try_parse(code: &str) -> (r: Result<Statement, ParseError>)
    ensures
        match r {
            Ok(t) => parse_result(code@) == Ok::<StatementModel, ParseError>(t@),
            Err(e) => parse_result(code@) == Err::<StatementModel, ParseError>(e),
        },
{
    let lines = split_lines(code);
    let ghost ls = lines.deep_view();
    let mut count: usize = 0;
    let mut last: usize = 0;
    let mut i: usize = 0;
    while i < lines.len()
        invariant
            ls == lines.deep_view(),
            i <= lines.len(),
            count <= i,
            count == count_statements(ls.take(i as int)),
            count > 0 ==> last < i && last as int == last_statement(ls.take(i as int)),
        decreases lines.len() - i,
    {
        proof {
            assert(ls.take(i + 1).drop_last() =~= ls.take(i as int));
            assert(ls.take(i + 1).last() == ls[i as int]);
        }
        if lines[i].len() > 0 {
            count = count + 1;
            last = i;
        }
        i = i + 1;
    }
    proof {
        assert(ls.take(lines.len() as int) =~= ls);
    }
    if count == 0 {
        let none: Vec<Pipeline> = Vec::new();
        assert(none@.map_values(|x: Pipeline| x@) =~= Seq::<PipelineModel>::empty());
        return Ok(Statement::Pipelines(none));
    }
    if count > 1 {
        return Err(ParseError::ManyStatements);
    }
    match parse_line(&lines[last]) {
        Some(t) => Ok(t),
        None => Err(ParseError::Syntax { line: last }),
    }
}

/// Reads text that holds one statement; text that does not reads as an empty
/// list of pipelines, so that a caller reading line by line can go on.
pub fn parse(code: &str) -> (r: Statement)
    ensures
        r@ == match parse_result(code@) {
            Ok(v) => v,
            Err(_) => StatementModel::Pipelines(Seq::empty()),
        },
{
    match try_parse(code) {
        Ok(t) => t,
        Err(_) => {
            let none: Vec<Pipeline> = Vec::new();
            assert(none@.map_values(|x: Pipeline| x@) =~= Seq::<PipelineModel>::empty());
            Statement::Pipelines(none)
        },
    }
}

/// A block that a script has opened and not yet closed.
#[derive(Debug, PartialEq, Eq, Structural, Clone, Copy)]
pub enum Block {
    /// A conditional block before its `else`.
    If,
    /// A conditional block after its `else`.
    Else,
    /// The body of a function declaration.
    Function,
}

/// The statements of a script read so far, and the blocks left open.
pub struct ScriptModel {
    pub statements: Seq<StatementModel>,
    pub blocks: Seq<Block>,
}

/// The effect of line `k`, with words `line`, on the reading of a script.
/// `if` and `fn` open a block, `else` turns an open conditional to its other
/// branch, and `end` or `fi` closes the innermost block.
pub open spec fn script_step(
    st: Result<ScriptModel, ParseError>,
    line: Seq<Seq<char>>,
    k: int,
) -> Result<ScriptModel, ParseError> {
    match st {
        Err(e) => Err(e),
        Ok(m) => if line.len() == 0 {
            Ok(m)
        } else {
            match statement_of(line) {
                None => Err(ParseError::Syntax { line: k as usize }),
                Some(t) => match t {
                    StatementModel::If { .. } => Ok(
                        ScriptModel { statements: m.statements.push(t), blocks: m.blocks.push(Block::If) },
                    ),
                    StatementModel::Function { .. } => Ok(
                        ScriptModel {
                            statements: m.statements.push(t),
                            blocks: m.blocks.push(Block::Function),
                        },
                    ),
                    StatementModel::Else => if m.blocks.len() > 0 && m.blocks.last() == Block::If {
                        Ok(
                            ScriptModel {
                                statements: m.statements.push(t),
                                blocks: m.blocks.drop_last().push(Block::Else),
                            },
                        )
                    } else {
                        Err(ParseError::UnexpectedElse { line: k as usize })
                    },
                    StatementModel::End => if m.blocks.len() > 0 {
                        Ok(ScriptModel { statements: m.statements.push(t), blocks: m.blocks.drop_last() })
                    } else {
                        Err(ParseError::UnexpectedEnd { line: k as usize })
                    },
                    StatementModel::Pipelines(_) => Ok(
                        ScriptModel { statements: m.statements.push(t), blocks: m.blocks },
                    ),
                },
            }
        },
    }
}

/// The reading of the lines `ls` of a script.
pub open spec fn read_script(ls: Seq<Seq<Seq<char>>>) -> Result<ScriptModel, ParseError>
    decreases ls.len(),
{
    if ls.len() == 0 {
        Ok(ScriptModel { statements: Seq::empty(), blocks: Seq::empty() })
    } else {
        script_step(read_script(ls.drop_last()), ls.last(), ls.len() - 1)
    }
}

/// The statements of the script `s`, one for each line that holds words, in
/// which every block is closed.
pub open spec fn script_of(s: Seq<char>) -> Result<Seq<StatementModel>, ParseError> {
    match read_script(lines_of(s)) {
        Err(e) => Err(e),
        Ok(m) => if m.blocks.len() > 0 {
            Err(ParseError::Unclosed)
        } else {
            Ok(m.statements)
        },
    }
}

proof fn lemma_script_error_stays(ls: Seq<Seq<Seq<char>>>, i: int, e: ParseError)
    requires
        0 <= i <= ls.len(),
        read_script(ls.take(i)) == Err::<ScriptModel, ParseError>(e),
    ensures
        read_script(ls) == Err::<ScriptModel, ParseError>(e),
    decreases ls.len() - i,
{
    if i == ls.len() {
        assert(ls.take(i) =~= ls);
    } else {
        assert(ls.take(i + 1).drop_last() =~= ls.take(i));
        lemma_script_error_stays(ls, i + 1, e);
    }
}

/// Reads a whole script: a statement for each line that holds words, with
/// every conditional and function block closed.
pub fn parse_script(text: &str) -> (r: Result<Vec<Statement>, ParseError>)
    ensures
        match r {
            Ok(v) => script_of(text@) == Ok::<Seq<StatementModel>, ParseError>(
                v@.map_values(|t: Statement| t@),
            ),
            Err(e) => script_of(text@) == Err::<Seq<StatementModel>, ParseError>(e),
        },
{
    let lines = split_lines(text);
    let ghost ls = lines.deep_view();
    let mut statements: Vec<Statement> = Vec::new();
    let mut blocks: Vec<Block> = Vec::new();
    let mut i: usize = 0;
    proof {
        assert(ls.take(0) =~= Seq::<Seq<Seq<char>>>::empty());
        assert(statements@.map_values(|t: Statement| t@) =~= Seq::<StatementModel>::empty());
        assert(blocks@ =~= Seq::<Block>::empty());
    }
    while i < lines.len()
        invariant
            ls == lines.deep_view(),
            ls == lines_of(text@),
            i <= lines.len(),
            read_script(ls.take(i as int)) == Ok::<ScriptModel, ParseError>(
                ScriptModel { statements: statements@.map_values(|t: Statement| t@), blocks: blocks@ },
            ),
        decreases lines.len() - i,
    {
        proof {
            assert(ls.take(i + 1).drop_last() =~= ls.take(i as int));
            assert(ls.take(i + 1).last() == ls[i as int]);
        }
        if lines[i].len() > 0 {
            let t = match parse_line(&lines[i]) {
                Some(t) => t,
                None => {
                    proof {
                        lemma_script_error_stays(ls, i + 1, ParseError::Syntax { line: i });
                    }
                    return Err(ParseError::Syntax { line: i });
                },
            };
            let ghost before = statements@.map_values(|t: Statement| t@);
            let ghost tv = t@;
            let ghost old_blocks = blocks@;
            match &t {
                Statement::If { .. } => {
                    blocks.push(Block::If);
                },
                Statement::Function { .. } => {
                    blocks.push(Block::Function);
                },
                Statement::Else => {
                    let open_if = blocks.len() > 0 && match blocks[blocks.len() - 1] {
                        Block::If => true,
                        _ => false,
                    };
                    if !open_if {
                        proof {
                        lemma_script_error_stays(ls, i + 1, ParseError::UnexpectedElse { line: i });
                    }
                    return Err(ParseError::UnexpectedElse { line: i });
                    }
                    blocks.pop();
                    blocks.push(Block::Else);
                },
                Statement::End => {
                    if blocks.len() == 0 {
                        proof {
                        lemma_script_error_stays(ls, i + 1, ParseError::UnexpectedEnd { line: i });
                    }
                    return Err(ParseError::UnexpectedEnd { line: i });
                    }
                    blocks.pop();
                },
                Statement::Pipelines(_) => {},
            }
            statements.push(t);
            proof {
                assert(statements@.map_values(|t: Statement| t@) =~= before.push(tv));
                assert(blocks@ =~= read_script(ls.take(i + 1))->Ok_0.blocks);
            }
        }
        i = i + 1;
    }
    proof {
        assert(ls.take(lines.len() as int) =~= ls);
    }
    if blocks.len() > 0 {
        return Err(ParseError::Unclosed);
    }
    Ok(statements)
}

/// Spaces, tabs and carriage returns before and after the text change neither
/// the statement it reads as nor the script it forms.
pub proof fn lemma_parse_ignores_surrounding_blanks(pre: Seq<char>, s: Seq<char>, post: Seq<char>)
    requires
        all_blank(pre),
        all_blank(post),
    ensures
        parse_result(pre + s + post) == parse_result(s),
        script_of(pre + s + post) == script_of(s),
{
    lemma_lines_ignore_surrounding_blanks(pre, s, post);
}

} // verus!
