//! The state that a shell carries from one command to the next.
use vstd::prelude::*;
use vstd::string::*;
use vstd::utf8::encode_utf8;
use crate::element::{Chain, ParseError};
use crate::parser::{line_chains, result_views};
use crate::scanner::parse_line;
use crate::tokenizer::texts;

verus! {

/// How a command ended and what it wrote.
#[derive(Debug, PartialEq, Eq)]
pub struct ExecutionOutcome {
    pub exit_status: i32,
    pub stdout_bytes: Vec<u8>,
    pub stderr_bytes: Vec<u8>,
}

impl ExecutionOutcome {
    /// Whether the exit status is that of success.
    pub fn success(&self) -> (r: bool)
        ensures
            r == (self.exit_status == 0),
    {
        self.exit_status == 0
    }
}

/// The text of a log: each record followed by a line feed, in order.
pub open spec fn log_text(records: Seq<Seq<char>>) -> Seq<char>
    decreases records.len(),
{
    if records.len() == 0 {
        Seq::empty()
    } else {
        log_text(records.drop_last()) + records.last() + seq!['\n']
    }
}

/// Where the history is kept when nothing else is configured.
pub open spec fn default_history_path() -> Seq<char> {
    seq!['.', 'h', 'i', 's', 't', 'o', 'r', 'y']
}

/// Where the history is kept: at the configured place, if there is one.
pub fn history_path(configured: Option<String>) -> (r: String)
    ensures
        r@ == (match configured {
            Some(p) => p@,
            None => default_history_path(),
        }),
{
    match configured {
        Some(p) => p,
        None => {
            proof {
                reveal_strlit(".history");
            }
            ".history".to_owned()
        },
    }
}

/// A line as it was read, without the line feed that ends it.
pub open spec fn without_line_end(raw: Seq<char>) -> Seq<char> {
    if raw.len() > 0 && raw.last() == '\n' {
        raw.drop_last()
    } else {
        raw
    }
}

/// Takes the line feed off the end of a line that was read.
pub fn strip_line_end(raw: &str) -> (r: &str)
    ensures
        r@ == without_line_end(raw@),
{
    let n: usize = raw.unicode_len();
    if n > 0 && raw.get_char(n - 1) == '\n' {
        raw.substring_char(0, n - 1)
    } else {
        raw
    }
}

/// Working directory, history log and exit request of a shell.
#[derive(Debug, PartialEq, Eq)]
pub struct ShellState {
    /// The directory that relative paths are resolved against.
    pub cwd: String,
    /// Every line read so far, oldest first, without its line feed.
    pub history: Vec<String>,
    /// The status to terminate with, once `exit` has run.
    pub exit_requested: Option<i32>,
}

impl ShellState {
    /// The state of a shell that starts in `cwd`.
    pub fn new(cwd: String) -> (s: ShellState)
        ensures
            s.cwd@ == cwd@,
            s.history@.len() == 0,
            s.exit_requested is None,
    {
        ShellState { cwd, history: Vec::new(), exit_requested: None }
    }

    /// Appends a line to the history log.
    pub fn record_line(&mut self, line: &str)
        ensures
            texts(final(self).history@) == texts(old(self).history@).push(line@),
            final(self).cwd == old(self).cwd,
            final(self).exit_requested == old(self).exit_requested,
    {
        self.history.push(line.to_owned());
    }

    /// Takes a line as it was read: the line, without its line feed, goes
    /// into the history whether or not it can be parsed, and its chains are
    /// returned, each malformed one as its error.
    pub fn accept_line(&mut self, raw: &str) -> (out: Vec<Result<Chain, ParseError>>)
        ensures
            texts(final(self).history@) == texts(old(self).history@).push(without_line_end(raw@)),
            final(self).cwd == old(self).cwd,
            final(self).exit_requested == old(self).exit_requested,
            result_views(out@) == line_chains(without_line_end(raw@)),
    {
        let line = strip_line_end(raw);
        self.record_line(line);
        parse_line(line)
    }

    /// The whole history log as one text.
    pub fn history_text(&self) -> (r: String)
        ensures
            r@ == log_text(texts(self.history@)),
    {
        let mut out: String = String::new();
        let mut i: usize = 0;
        let ghost all = texts(self.history@);
        proof {
            reveal_strlit("\n");
        }
        while i < self.history.len()
            invariant
                i <= self.history@.len(),
                all == texts(self.history@),
                out@ == log_text(all.take(i as int)),
                "\n"@ == seq!['\n'],
            decreases self.history@.len() - i,
        {
            proof {
                assert(all.take(i + 1).drop_last() =~= all.take(i as int));
            }
            out.append(self.history[i].as_str());
            out.append("\n");
            i += 1;
        }
        proof {
            assert(all.take(i as int) =~= all);
        }
        out
    }

    /// What the `history` builtin gives: the log on standard output, nothing
    /// on standard error, and success.
    pub fn history_outcome(&self) -> (r: ExecutionOutcome)
        ensures
            r.exit_status == 0,
            r.stdout_bytes@ == encode_utf8(log_text(texts(self.history@))),
            r.stderr_bytes@.len() == 0,
    {
        let text = self.history_text();
        ExecutionOutcome {
            exit_status: 0,
            stdout_bytes: text.as_str().as_bytes_vec(),
            stderr_bytes: Vec::new(),
        }
    }
}

} // verus!
