use shell_chain::builtins::{
    cd_target, exit_code, parse_status, resolve, resolve_path, spells, BuiltinError, BuiltinKind,
};
use shell_chain::element::{Chain, Command, Element, ParseError};
use shell_chain::executor::{find_start, plan_pipeline, run_builtin, settle, step, Action};
use shell_chain::parser::chains_from_line;
use shell_chain::state::{history_path, strip_line_end, ExecutionOutcome, ShellState};

fn words(items: &[&str]) -> Vec<String> {
    items.iter().map(|s| s.to_string()).collect()
}

fn command(binary: &str, args: &[&str]) -> Command {
    Command { binary: binary.to_string(), args: words(args) }
}

fn chain_of(line: &str) -> Chain {
    let mut all = chains_from_line(line);
    assert_eq!(all.len(), 1);
    all.remove(0).unwrap()
}

/// What a simulated shell wrote and how it ended.
struct Output {
    stdout: Vec<u8>,
    stderr: Vec<String>,
    status: Option<i32>,
    cwd: String,
    history: Vec<String>,
}

/// Stands in for the processes: `echo`, `pwd`, `wc -c`, `cat`, `true`,
/// `false`; any other program cannot be started.
fn spawn(commands: &[Command], state: &ShellState, stdout: &mut Vec<u8>) -> Option<i32> {
    let mut data: Vec<u8> = Vec::new();
    let mut status = None;
    for c in commands {
        let (out, code) = match c.binary.as_str() {
            "echo" => (format!("{}\n", c.args.join(" ")).into_bytes(), 0),
            "pwd" => (format!("{}\n", state.cwd).into_bytes(), 0),
            "wc" => (format!("{}\n", data.len()).into_bytes(), 0),
            "cat" => (data.clone(), 0),
            "true" => (Vec::new(), 0),
            "false" => (Vec::new(), 1),
            _ => return None,
        };
        data = out;
        status = Some(code);
    }
    stdout.extend_from_slice(&data);
    status
}

/// Stands in for the file system: below `start` only `examples` exists.
/// Gives the directory that `path` names, without `.` and `..`.
fn enter(path: &str, start: &str) -> Option<String> {
    let mut parts: Vec<&str> = Vec::new();
    for part in path.split('/') {
        match part {
            "" | "." => {}
            ".." => {
                parts.pop();
            }
            other => parts.push(other),
        }
    }
    let dir = format!("/{}", parts.join("/"));
    if dir == start || dir == format!("{start}/examples") {
        Some(dir)
    } else {
        None
    }
}

/// Runs `input` line by line as a shell would, with simulated processes
/// and a directory tree in which only `examples` exists below `start`.
fn run_shell(input: &str, start: &str) -> Output {
    let mut state = ShellState::new(start.to_string());
    let mut stdout: Vec<u8> = Vec::new();
    let mut stderr: Vec<String> = Vec::new();
    'lines: for line in input.split_inclusive('\n') {
        for parsed in state.accept_line(line) {
            let chain = match parsed {
                Ok(chain) => chain,
                Err(e) => {
                    stderr.push(format!("{:?}", e));
                    continue;
                }
            };
            let mut pos = 0;
            let mut last = None;
            let mut entered: Option<String> = None;
            loop {
                let (action, next) = step(&chain, &state, pos, last);
                let status = match &action {
                    Action::Finished => break,
                    Action::Spawn { commands } => {
                        let s = spawn(commands, &state, &mut stdout);
                        if s.is_none() {
                            stderr.push("spawn".to_string());
                        }
                        s
                    }
                    Action::ChangeDir { path } => {
                        entered = enter(path, start);
                        if entered.is_some() {
                            Some(0)
                        } else {
                            stderr.push(format!("{:?}", BuiltinError::ChangeDirFailed));
                            None
                        }
                    }
                    Action::Emit { outcome } => {
                        stdout.extend_from_slice(&outcome.stdout_bytes);
                        Some(outcome.exit_status)
                    }
                    Action::Report { error } => {
                        stderr.push(format!("{:?}", error));
                        None
                    }
                    Action::Exit { status } => Some(*status),
                };
                last = settle(&mut state, &action, status);
                if state.exit_requested.is_some() {
                    break 'lines;
                }
                if let Some(dir) = entered.take() {
                    assert!(state.cwd.starts_with(start));
                    state.cwd = dir;
                }
                pos = next;
            }
        }
    }
    Output {
        stdout,
        stderr,
        status: state.exit_requested,
        cwd: state.cwd.clone(),
        history: state.history.clone(),
    }
}

#[test]
fn shell_runs_pwd() {
    let curr_dir = "/home/user";
    let output = run_shell("pwd", curr_dir);
    let stdout_str = String::from_utf8(output.stdout).unwrap();
    assert_eq!(stdout_str, format!("{curr_dir}\n"));
}

#[test]
fn shell_runs_pwd_twice() {
    let curr_dir = "/home/user";
    let output = run_shell("pwd; pwd", curr_dir);
    let stdout_str = String::from_utf8(output.stdout).unwrap();
    assert_eq!(stdout_str, format!("{curr_dir}\n{curr_dir}\n"));
}

#[test]
fn shell_understands_and_operator() {
    let output = run_shell("echo hello && echo world", "/");
    let stdout_str = String::from_utf8(output.stdout).unwrap();
    assert_eq!(stdout_str, "hello\nworld\n");
}

#[test]
fn shell_understands_or_operator() {
    let output = run_shell("echo hello || echo world", "/");
    let stdout_str = String::from_utf8(output.stdout).unwrap();
    assert_eq!(stdout_str, "hello\n");
}

#[test]
fn supports_cd_shell_builtin() {
    let curr_dir = "/home/user";
    let output = run_shell("pwd; cd examples; pwd", curr_dir);
    let stdout_str = String::from_utf8(output.stdout).unwrap();
    assert_eq!(stdout_str, format!("{curr_dir}\n{curr_dir}/examples\n"));
    assert_eq!(output.cwd, format!("{curr_dir}/examples"));
}

#[test]
fn supports_relative_cd() {
    let curr_dir = "/home/user";
    let output = run_shell("pwd; cd examples; pwd; cd ..; pwd", curr_dir);
    let stdout_str = String::from_utf8(output.stdout).unwrap();
    assert_eq!(
        stdout_str,
        format!("{curr_dir}\n{curr_dir}/examples\n{curr_dir}\n")
    );
}

#[test]
fn invalid_cd_doesnt_change_dir() {
    let curr_dir = "/home/user";
    let output = run_shell("pwd; cd invalid_dir; pwd", curr_dir);
    let stdout_str = String::from_utf8(output.stdout).unwrap();
    assert_eq!(stdout_str, format!("{curr_dir}\n{curr_dir}\n"));
    assert_eq!(output.cwd, curr_dir);
    assert_eq!(output.stderr, vec!["ChangeDirFailed".to_string()]);
}

#[test]
fn supports_exit_builtin() {
    let output = run_shell("exit 1", "/");
    assert_eq!(output.status, Some(1));
}

#[test]
fn exit_without_argument_is_status_zero() {
    let output = run_shell("exit", "/");
    assert_eq!(output.status, Some(0));
}

#[test]
fn exit_stops_everything_after_it() {
    let output = run_shell("echo a; exit 3 && echo b; echo c\necho d", "/");
    assert_eq!(output.status, Some(3));
    assert_eq!(String::from_utf8(output.stdout).unwrap(), "a\n");
    assert_eq!(output.history.len(), 1);
}

#[test]
fn test_history() {
    let output = run_shell("echo 1\necho 2\nhistory", "/");
    let state = ShellState {
        cwd: "/".to_string(),
        history: output.history,
        exit_requested: None,
    };
    let history_contents = state.history_text();
    assert!(history_contents.starts_with("echo 1\necho 2\nhistory\n"));
    assert_eq!(
        String::from_utf8(output.stdout).unwrap(),
        "1\n2\necho 1\necho 2\nhistory\n"
    );
}

#[test]
fn test_pipes_evaluation() {
    let output = run_shell("echo hello | wc -c\n", "/");
    let stdout_str = String::from_utf8(output.stdout).unwrap();
    assert_eq!(stdout_str.trim_start(), "6\n");
}

#[test]
fn and_stops_after_a_failure() {
    let output = run_shell("false && echo no; echo next", "/");
    assert_eq!(String::from_utf8(output.stdout).unwrap(), "next\n");
}

#[test]
fn or_runs_after_a_failure() {
    let output = run_shell("false || echo yes", "/");
    assert_eq!(String::from_utf8(output.stdout).unwrap(), "yes\n");
}

#[test]
fn a_stop_ends_the_whole_chain() {
    let output = run_shell("true || echo a && echo b", "/");
    assert_eq!(String::from_utf8(output.stdout).unwrap(), "");
    let output = run_shell("false && echo a || echo b", "/");
    assert_eq!(String::from_utf8(output.stdout).unwrap(), "");
}

#[test]
fn pipeline_status_is_that_of_the_last_stage() {
    let output = run_shell("false | echo x && echo y", "/");
    assert_eq!(String::from_utf8(output.stdout).unwrap(), "x\ny\n");
    let output = run_shell("echo x | false || echo z", "/");
    assert_eq!(String::from_utf8(output.stdout).unwrap(), "z\n");
}

#[test]
fn a_program_that_cannot_start_counts_as_failed() {
    let output = run_shell("no_such_program && echo a; no_such_program || echo b", "/");
    assert_eq!(String::from_utf8(output.stdout).unwrap(), "b\n");
    assert_eq!(output.stderr, vec!["spawn".to_string(), "spawn".to_string()]);
}

#[test]
fn cd_usage_error_is_reported_and_fails() {
    let output = run_shell("cd || echo usage; cd a b && echo no", "/home/user");
    assert_eq!(String::from_utf8(output.stdout).unwrap(), "usage\n");
    assert_eq!(
        output.stderr,
        vec!["WrongArgumentCount".to_string(), "WrongArgumentCount".to_string()]
    );
    assert_eq!(output.cwd, "/home/user");
}

#[test]
fn cd_success_lets_and_continue() {
    let output = run_shell("cd examples && pwd", "/home/user");
    assert_eq!(String::from_utf8(output.stdout).unwrap(), "/home/user/examples\n");
}

#[test]
fn parse_errors_are_reported_per_chain() {
    let output = run_shell("echo a; | wc; echo b", "/");
    assert_eq!(String::from_utf8(output.stdout).unwrap(), "a\nb\n");
    assert_eq!(output.stderr, vec!["LeadingOperator".to_string()]);
}

#[test]
fn resolve_knows_the_builtins() {
    assert_eq!(resolve("cd"), Some(BuiltinKind::Cd));
    assert_eq!(resolve("exit"), Some(BuiltinKind::Exit));
    assert_eq!(resolve("history"), Some(BuiltinKind::History));
    assert_eq!(resolve("ls"), None);
    assert_eq!(resolve(""), None);
    assert_eq!(resolve("cdx"), None);
    assert_eq!(resolve("c"), None);
    assert_eq!(resolve("CD"), None);
    assert_eq!(resolve("exi"), None);
    assert_eq!(resolve("historz"), None);
}

#[test]
fn spells_compares_character_by_character() {
    assert!(spells("cd", &vec!['c', 'd']));
    assert!(!spells("cd", &vec!['c', 'e']));
    assert!(!spells("cd", &vec!['c']));
    assert!(spells("", &vec![]));
    assert!(spells("h\u{e9}", &vec!['h', '\u{e9}']));
}

#[test]
fn paths_are_resolved_against_the_working_directory() {
    assert_eq!(resolve_path("/home/user", "examples"), "/home/user/examples");
    assert_eq!(resolve_path("/home/user/", "examples"), "/home/user/examples");
    assert_eq!(resolve_path("/home/user", "/tmp"), "/tmp");
    assert_eq!(resolve_path("/", "tmp"), "/tmp");
    assert_eq!(resolve_path("", "tmp"), "tmp");
    assert_eq!(resolve_path("/home/user", ".."), "/home/user/..");
    assert_eq!(resolve_path("/home/user", ""), "/home/user/");
    assert_eq!(resolve_path("/h\u{e9}", "\u{f6}"), "/h\u{e9}/\u{f6}");
}

#[test]
fn cd_takes_exactly_one_argument() {
    assert_eq!(cd_target("/a", &words(&["b"])), Ok("/a/b".to_string()));
    assert_eq!(cd_target("/a", &words(&[])), Err(BuiltinError::WrongArgumentCount));
    assert_eq!(cd_target("/a", &words(&["b", "c"])), Err(BuiltinError::WrongArgumentCount));
}

#[test]
fn exit_status_is_read_as_a_decimal_number() {
    assert_eq!(parse_status("1"), 1);
    assert_eq!(parse_status("0"), 0);
    assert_eq!(parse_status("42"), 42);
    assert_eq!(parse_status("007"), 7);
    assert_eq!(parse_status("-1"), -1);
    assert_eq!(parse_status("+7"), 7);
    assert_eq!(parse_status("2147483647"), 2147483647);
    assert_eq!(parse_status("-2147483648"), -2147483648);
    assert_eq!(parse_status("+2147483647"), 2147483647);
}

#[test]
fn unreadable_exit_status_is_zero() {
    for text in [
        "", "-", "+", "abc", "1a", "a1", "1 ", " 1", "--1", "+-1", "1.5", "2147483648",
        "-2147483649", "99999999999999999999", "-99999999999999999999", "\u{661}",
    ] {
        assert_eq!(parse_status(text), 0);
        assert_eq!(parse_status(text), text.parse::<i32>().unwrap_or(0));
    }
}

#[test]
fn exit_code_goes_by_the_first_argument() {
    assert_eq!(exit_code(&words(&[])), 0);
    assert_eq!(exit_code(&words(&["5"])), 5);
    assert_eq!(exit_code(&words(&["x"])), 0);
    assert_eq!(exit_code(&words(&["5", "6"])), 5);
}

#[test]
fn history_is_every_line_in_order() {
    let mut state = ShellState::new("/".to_string());
    assert_eq!(state.history_text(), "");
    state.record_line("echo 1");
    state.record_line("&& broken");
    state.record_line("");
    assert_eq!(state.history, words(&["echo 1", "&& broken", ""]));
    assert_eq!(state.history_text(), "echo 1\n&& broken\n\n");
    let outcome = state.history_outcome();
    assert_eq!(outcome.exit_status, 0);
    assert_eq!(outcome.stdout_bytes, b"echo 1\n&& broken\n\n".to_vec());
    assert_eq!(outcome.stderr_bytes, Vec::<u8>::new());
    assert!(outcome.success());
    assert_eq!(state.cwd, "/");
    assert_eq!(state.exit_requested, None);
}

#[test]
fn history_output_is_utf8() {
    let mut state = ShellState::new("/".to_string());
    state.record_line("echo h\u{e9}");
    assert_eq!(state.history_outcome().stdout_bytes, "echo h\u{e9}\n".as_bytes().to_vec());
}

#[test]
fn outcome_succeeds_on_status_zero_only() {
    let o = ExecutionOutcome { exit_status: 2, stdout_bytes: vec![], stderr_bytes: vec![] };
    assert!(!o.success());
}

#[test]
fn walk_starts_at_the_first_command() {
    let chain = chain_of("a && b | c || d");
    assert_eq!(find_start(&chain, 0, None), Some(0));
    assert_eq!(find_start(&chain, 1, Some(true)), Some(2));
    assert_eq!(find_start(&chain, 1, Some(false)), None);
    assert_eq!(find_start(&chain, 1, None), None);
    assert_eq!(find_start(&chain, 5, Some(false)), Some(6));
    assert_eq!(find_start(&chain, 5, Some(true)), None);
    assert_eq!(find_start(&chain, 3, Some(true)), None);
    assert_eq!(find_start(&chain, 7, Some(true)), None);
    assert_eq!(find_start(&chain, 70, Some(true)), None);
}

#[test]
fn pipeline_is_the_longest_run_of_piped_commands() {
    let state = ShellState::new("/".to_string());
    let chain = chain_of("a 1 | b 2 | c 3 && d | e");
    let (action, end) = step(&chain, &state, 0, None);
    assert_eq!(
        action,
        Action::Spawn {
            commands: vec![command("a", &["1"]), command("b", &["2"]), command("c", &["3"])]
        }
    );
    assert_eq!(end, 5);
    let (action, end) = step(&chain, &state, 2, None);
    assert_eq!(
        action,
        Action::Spawn { commands: vec![command("b", &["2"]), command("c", &["3"])] }
    );
    assert_eq!(end, 5);
    let (action, end) = step(&chain, &state, 5, Some(true));
    assert_eq!(action, Action::Spawn { commands: vec![command("d", &[]), command("e", &[])] });
    assert_eq!(end, 9);
}

#[test]
fn step_gives_the_action_and_the_position_behind_it() {
    let state = ShellState::new("/w".to_string());
    let chain = chain_of("echo a | wc -c && cd x");
    let (action, next) = step(&chain, &state, 0, None);
    assert_eq!(
        action,
        Action::Spawn { commands: vec![command("echo", &["a"]), command("wc", &["-c"])] }
    );
    assert_eq!(next, 3);
    let (action, next) = step(&chain, &state, 3, Some(true));
    assert_eq!(action, Action::ChangeDir { path: "/w/x".to_string() });
    assert_eq!(next, 5);
    let (action, next) = step(&chain, &state, 5, Some(true));
    assert_eq!(action, Action::Finished);
    assert_eq!(next, 5);
    let (action, next) = step(&chain, &state, 3, Some(false));
    assert_eq!(action, Action::Finished);
    assert_eq!(next, 5);
}

#[test]
fn builtins_in_a_pipeline_are_spawned() {
    let state = ShellState::new("/w".to_string());
    let action = plan_pipeline(vec![command("history", &[]), command("wc", &[])], &state);
    assert_eq!(
        action,
        Action::Spawn { commands: vec![command("history", &[]), command("wc", &[])] }
    );
    let action = plan_pipeline(vec![command("ls", &["-l"])], &state);
    assert_eq!(action, Action::Spawn { commands: vec![command("ls", &["-l"])] });
    let action = plan_pipeline(vec![command("exit", &["9"])], &state);
    assert_eq!(action, Action::Exit { status: 9 });
}

#[test]
fn builtins_decide_by_their_arguments() {
    let mut state = ShellState::new("/w".to_string());
    state.record_line("history");
    assert_eq!(
        run_builtin(BuiltinKind::Cd, &words(&["/abs"]), &state),
        Action::ChangeDir { path: "/abs".to_string() }
    );
    assert_eq!(
        run_builtin(BuiltinKind::Cd, &words(&[]), &state),
        Action::Report { error: BuiltinError::WrongArgumentCount }
    );
    assert_eq!(
        run_builtin(BuiltinKind::Exit, &words(&["junk"]), &state),
        Action::Exit { status: 0 }
    );
    assert_eq!(
        run_builtin(BuiltinKind::History, &words(&[]), &state),
        Action::Emit {
            outcome: ExecutionOutcome {
                exit_status: 0,
                stdout_bytes: b"history\n".to_vec(),
                stderr_bytes: vec![],
            }
        }
    );
}

#[test]
fn settle_updates_the_state() {
    let mut state = ShellState::new("/w".to_string());
    state.record_line("x");
    let cd = Action::ChangeDir { path: "/w/x".to_string() };
    assert_eq!(settle(&mut state, &cd, None), Some(false));
    assert_eq!(state.cwd, "/w");
    assert_eq!(settle(&mut state, &cd, Some(1)), Some(false));
    assert_eq!(state.cwd, "/w");
    assert_eq!(settle(&mut state, &cd, Some(0)), Some(true));
    assert_eq!(state.cwd, "/w/x");
    let spawn = Action::Spawn { commands: vec![command("ls", &[])] };
    assert_eq!(settle(&mut state, &spawn, Some(0)), Some(true));
    assert_eq!(settle(&mut state, &spawn, Some(2)), Some(false));
    assert_eq!(settle(&mut state, &spawn, None), Some(false));
    let report = Action::Report { error: BuiltinError::WrongArgumentCount };
    assert_eq!(settle(&mut state, &report, Some(0)), Some(false));
    let emit = Action::Emit {
        outcome: ExecutionOutcome { exit_status: 0, stdout_bytes: vec![], stderr_bytes: vec![] },
    };
    assert_eq!(settle(&mut state, &emit, None), Some(true));
    assert_eq!(settle(&mut state, &Action::Finished, Some(0)), None);
    assert_eq!(state.exit_requested, None);
    assert_eq!(settle(&mut state, &Action::Exit { status: 4 }, Some(4)), None);
    assert_eq!(state.exit_requested, Some(4));
    assert_eq!(state.cwd, "/w/x");
    assert_eq!(state.history, words(&["x"]));
}

#[test]
fn commands_side_by_side_run_one_after_the_other() {
    let chain = Chain::new(vec![
        Element::Command(command("echo", &["a"])),
        Element::Command(command("echo", &["b"])),
    ])
    .unwrap();
    let state = ShellState::new("/".to_string());
    let (action, next) = step(&chain, &state, 0, None);
    assert_eq!(action, Action::Spawn { commands: vec![command("echo", &["a"])] });
    assert_eq!(next, 1);
    let (action, next) = step(&chain, &state, 1, Some(false));
    assert_eq!(action, Action::Spawn { commands: vec![command("echo", &["b"])] });
    assert_eq!(next, 2);
}

#[test]
fn nothing_runs_once_exit_was_requested() {
    let mut state = ShellState::new("/".to_string());
    let chain = chain_of("echo a && echo b");
    state.exit_requested = Some(2);
    let (action, next) = step(&chain, &state, 0, None);
    assert_eq!(action, Action::Finished);
    assert_eq!(next, 3);
}

#[test]
fn history_path_defaults_to_dot_history() {
    assert_eq!(history_path(None), ".history");
    assert_eq!(history_path(Some("/tmp/h".to_string())), "/tmp/h");
    assert_eq!(history_path(Some(String::new())), "");
}

#[test]
fn line_end_is_stripped_once() {
    assert_eq!(strip_line_end("ls\n"), "ls");
    assert_eq!(strip_line_end("ls"), "ls");
    assert_eq!(strip_line_end("ls\n\n"), "ls\n");
    assert_eq!(strip_line_end(""), "");
    assert_eq!(strip_line_end("\n"), "");
    assert_eq!(strip_line_end("h\u{e9}\n"), "h\u{e9}");
}

#[test]
fn accepted_lines_go_into_the_history_even_when_malformed() {
    let mut state = ShellState::new("/w".to_string());
    let chains = state.accept_line("&& ls; pwd\n");
    assert_eq!(chains.len(), 2);
    assert!(chains[0].is_err());
    assert_eq!(
        chains[1].as_ref().unwrap().elements(),
        &vec![Element::Command(command("pwd", &[]))]
    );
    let chains = state.accept_line("\n");
    assert_eq!(chains.len(), 0);
    assert_eq!(state.history, words(&["&& ls; pwd", ""]));
    assert_eq!(state.cwd, "/w");
    assert_eq!(state.exit_requested, None);
}

#[test]
fn errors_have_a_text() {
    assert_eq!(BuiltinError::WrongArgumentCount.message(), "cd: expected exactly one argument");
    assert_eq!(
        BuiltinError::ChangeDirFailed.message(),
        "cd: cannot change the working directory"
    );
    assert_eq!(ParseError::Empty.message(), "malformed chain: no command");
    assert_eq!(
        ParseError::LeadingOperator.message(),
        "malformed chain: operator without a command before it"
    );
    assert_eq!(
        ParseError::AdjacentOperators.message(),
        "malformed chain: two operators side by side"
    );
    assert_eq!(
        ParseError::TrailingOperator.message(),
        "malformed chain: operator without a command after it"
    );
}
