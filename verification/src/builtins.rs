//! The commands that the shell runs itself.
use vstd::prelude::*;
use vstd::string::*;

verus! {

/// A command that the shell runs itself.
#[derive(Debug, Clone, Copy, PartialEq, Eq, Structural)]
pub enum BuiltinKind {
    /// `cd`: change the working directory.
    Cd,
    /// `exit`: terminate the shell.
    Exit,
    /// `history`: show the lines read so far.
    History,
}

/// What went wrong inside a builtin.
#[derive(Debug, Clone, Copy, PartialEq, Eq, Structural)]
pub enum BuiltinError {
    /// `cd` was given no argument, or more than one.
    WrongArgumentCount,
    /// The working directory could not be changed.
    ChangeDirFailed,
}

/// What is said of a builtin's error where it is reported.
pub open spec fn builtin_error_text(e: BuiltinError) -> Seq<char> {
    match e {
        BuiltinError::WrongArgumentCount => "cd: expected exactly one argument"@,
        BuiltinError::ChangeDirFailed => "cd: cannot change the working directory"@,
    }
}

impl BuiltinError {
    /// The text to report this error with.
    pub fn message(&self) -> (r: String)
        ensures
            r@ == builtin_error_text(*self),
    {
        match self {
            BuiltinError::WrongArgumentCount => "cd: expected exactly one argument".to_owned(),
            BuiltinError::ChangeDirFailed => "cd: cannot change the working directory".to_owned(),
        }
    }
}

/// The builtin that `name` names, if it names one.
pub open spec fn builtin_of(name: Seq<char>) -> Option<BuiltinKind> {
    if name == seq!['c', 'd'] {
        Some(BuiltinKind::Cd)
    } else if name == seq!['e', 'x', 'i', 't'] {
        Some(BuiltinKind::Exit)
    } else if name == seq!['h', 'i', 's', 't', 'o', 'r', 'y'] {
        Some(BuiltinKind::History)
    } else {
        None
    }
}

/// Whether `word` is spelled by `pattern`.
pub fn spells(word: &str, pattern: &Vec<char>) -> (r: bool)
    ensures
        r == (word@ == pattern@),
{
    let n: usize = word.unicode_len();
    if n != pattern.len() {
        return false;
    }
    let mut i: usize = 0;
    while i < n
        invariant
            i <= n,
            n == word@.len(),
            n == pattern@.len(),
            forall|k: int| 0 <= k < i ==> word@[k] == pattern@[k],
        decreases n - i,
    {
        if word.get_char(i) != pattern[i] {
            return false;
        }
        i += 1;
    }
    proof {
        assert(word@ =~= pattern@);
    }
    true
}

/// Looks a command name up among the builtins.
pub fn resolve(name: &str) -> (r: Option<BuiltinKind>)
    ensures
        r == builtin_of(name@),
{
    if spells(name, &vec!['c', 'd']) {
        Some(BuiltinKind::Cd)
    } else if spells(name, &vec!['e', 'x', 'i', 't']) {
        Some(BuiltinKind::Exit)
    } else if spells(name, &vec!['h', 'i', 's', 't', 'o', 'r', 'y']) {
        Some(BuiltinKind::History)
    } else {
        None
    }
}

/// Where `path` leads from `cwd`: an absolute path stands for itself, any
/// other is appended to `cwd`, with a `/` between them unless `cwd` is empty
/// or ends in one.
pub open spec fn resolved_path(cwd: Seq<char>, path: Seq<char>) -> Seq<char> {
    if path.len() > 0 && path[0] == '/' {
        path
    } else if cwd.len() == 0 || cwd.last() == '/' {
        cwd + path
    } else {
        cwd + seq!['/'] + path
    }
}

/// Resolves `path` against `cwd`.
pub fn resolve_path(cwd: &str, path: &str) -> (r: String)
    ensures
        r@ == resolved_path(cwd@, path@),
{
    let n: usize = path.unicode_len();
    if n > 0 && path.get_char(0) == '/' {
        return path.to_owned();
    }
    let m: usize = cwd.unicode_len();
    let mut out: String = cwd.to_owned();
    if m > 0 && cwd.get_char(m - 1) != '/' {
        proof {
            reveal_strlit("/");
        }
        out.append("/");
    }
    out.append(path);
    out
}

/// The directory that `cd` with these arguments asks for.  `cd` takes
/// exactly one argument.
pub fn cd_target(cwd: &str, args: &Vec<String>) -> (r: Result<String, BuiltinError>)
    ensures
        match r {
            Ok(p) => args@.len() == 1 && p@ == resolved_path(cwd@, args@[0]@),
            Err(e) => args@.len() != 1 && e == BuiltinError::WrongArgumentCount,
        },
{
    if args.len() == 1 {
        Ok(resolve_path(cwd, args[0].as_str()))
    } else {
        Err(BuiltinError::WrongArgumentCount)
    }
}

/// Whether `c` is one of `0` to `9`.
pub open spec fn is_digit(c: char) -> bool {
    '0' <= c <= '9'
}

/// Whether `s` holds decimal digits only.
pub open spec fn all_digits(s: Seq<char>) -> bool {
    forall|i: int| 0 <= i < s.len() ==> is_digit(#[trigger] s[i])
}

/// The number that the decimal digits `s` write.
pub open spec fn digits_value(s: Seq<char>) -> int
    decreases s.len(),
{
    if s.len() == 0 {
        0
    } else {
        digits_value(s.drop_last()) * 10 + (s.last() as u32 - '0' as u32)
    }
}

/// The exit status that `s` writes: an optional `+` or `-` and then at
/// least one decimal digit, of a value that a 32-bit signed integer holds;
/// 0 for any other text.
pub open spec fn status_of(s: Seq<char>) -> int {
    let signed = s.len() > 0 && (s[0] == '-' || s[0] == '+');
    let body = if signed {
        s.skip(1)
    } else {
        s
    };
    let value = if s.len() > 0 && s[0] == '-' {
        -digits_value(body)
    } else {
        digits_value(body)
    };
    if body.len() > 0 && all_digits(body) && i32::MIN <= value <= i32::MAX {
        value
    } else {
        0
    }
}

/// The status that `exit` with these arguments terminates with: that of its
/// first argument, 0 without one.
pub open spec fn exit_status(args: Seq<Seq<char>>) -> int {
    if args.len() == 0 {
        0
    } else {
        status_of(args[0])
    }
}

/// Digits written after a number do not make it smaller.
pub proof fn lemma_prefix_value(s: Seq<char>, k: int)
    requires
        all_digits(s),
        0 <= k <= s.len(),
    ensures
        0 <= digits_value(s.take(k)) <= digits_value(s),
    decreases s.len(),
{
    if k == s.len() {
        assert(s.take(k) =~= s);
        if s.len() > 0 {
            lemma_prefix_value(s.drop_last(), k - 1);
        }
    } else {
        lemma_prefix_value(s.drop_last(), k);
        assert(s.drop_last().take(k) =~= s.take(k));
    }
}

/// Reads an exit status.
pub fn parse_status(s: &str) -> (r: i32)
    ensures
        r == status_of(s@),
{
    let n: usize = s.unicode_len();
    if n == 0 {
        return 0;
    }
    let first: char = s.get_char(0);
    let negative: bool = first == '-';
    let start: usize = if first == '-' || first == '+' {
        1
    } else {
        0
    };
    if start >= n {
        return 0;
    }
    let ghost body = s@.skip(start as int);
    let mut acc: i64 = 0;
    let mut i: usize = start;
    while i < n
        invariant
            start <= i <= n,
            start < n,
            n == s@.len(),
            negative == (s@[0] == '-'),
            body == (if s@[0] == '-' || s@[0] == '+' {
                s@.skip(1)
            } else {
                s@
            }),
            body.len() == n - start,
            all_digits(body.take(i - start)),
            acc == digits_value(body.take(i - start)),
            0 <= acc <= 2147483648,
        decreases n - i,
    {
        let c: char = s.get_char(i);
        if !('0' <= c && c <= '9') {
            return 0;
        }
        let d: i64 = (c as u32 - '0' as u32) as i64;
        acc = acc * 10 + d;
        proof {
            let p = body.take(i - start + 1);
            assert(p.drop_last() =~= body.take(i - start));
            assert(p.last() == c);
            assert forall|k: int| 0 <= k < p.len() implies is_digit(#[trigger] p[k]) by {
                if k < i - start {
                    assert(body.take(i - start)[k] == p[k]);
                }
            }
        }
        if acc > 2147483648 {
            proof {
                if all_digits(body) {
                    lemma_prefix_value(body, i - start + 1);
                }
            }
            return 0;
        }
        i += 1;
    }
    proof {
        assert(body.take(i - start) =~= body);
    }
    if negative {
        (-acc) as i32
    } else if acc > 2147483647 {
        0
    } else {
        acc as i32
    }
}

/// The status that `exit` with these arguments terminates with.
pub fn exit_code(args: &Vec<String>) -> (r: i32)
    ensures
        r == exit_status(crate::tokenizer::texts(args@)),
{
    if args.len() == 0 {
        0
    } else {
        parse_status(args[0].as_str())
    }
}

} // verus!
