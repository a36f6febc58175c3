use codecrafters_shell::args::parse_args;
use codecrafters_shell::command::{
    build_path, cd_failure_line, change_directory_target, decide, echo_line, exit_code,
    not_found_line, path_candidates, type_line, Action, Command,
};
use codecrafters_shell::context::{parse_commands, parse_stage, ErrorSink, ParseError};
use codecrafters_shell::editor::{build_completion_trie, completion_candidates, completion_word};
use codecrafters_shell::history::{CommandHistory, HistoryArgs};
use codecrafters_shell::pipeline::{plan_pipeline, Runner, StdinSource, StdoutSink};

fn strings(v: &[&str]) -> Vec<String> {
    v.iter().map(|s| s.to_string()).collect()
}

fn run_builtin_line(line: &str) -> Action {
    let stages = parse_commands(line).unwrap();
    let last = stages.last().unwrap();
    let kind = Command::classify(&last.command_str, None);
    decide(&kind, &last.command_str, &last.args)
}

#[test]
fn no_empty_words() {
    for line in ["", "   ", "''", "a '' b", "\"\" x", "a\t\t b  "] {
        assert!(parse_args(line).iter().all(|w| !w.is_empty()), "{line}");
    }
    assert_eq!(parse_args("a '' b"), strings(&["a", "b"]));
}

#[test]
fn padding_is_ignored() {
    for s in ["echo a", "'x y' z", "a\\ b", "\"q\\\"\""] {
        assert_eq!(parse_args(&format!("  {s}  ")), parse_args(s));
    }
}

#[test]
fn quoted_words_round_trip() {
    let words = parse_args("foo \"bar baz\" a\\ b \\\\x");
    let joined = words.iter().map(|w| format!("'{w}'")).collect::<Vec<_>>().join(" ");
    assert_eq!(parse_args(&joined), words);
}

#[test]
fn single_quoted_word_is_kept() {
    for t in ["a b", "x\\y", "\"q\"", "  lead"] {
        assert_eq!(parse_args(&format!("'{t}'")), vec![t.to_string()]);
    }
}

#[test]
fn trailing_backslash_and_open_quotes() {
    assert_eq!(parse_args("foo\\"), strings(&["foo\\"]));
    assert_eq!(parse_args("'abc"), strings(&["abc"]));
    assert_eq!(parse_args("\"ab\\"), strings(&["ab\\"]));
    assert_eq!(parse_args("a\u{3000}b"), strings(&["a", "b"]));
}

#[test]
fn echo_hello_world() {
    match run_builtin_line("echo hello world") {
        Action::Print(t) => assert_eq!(t, "hello world\n"),
        other => panic!("{other:?}"),
    }
}

#[test]
fn echo_with_quotes() {
    match run_builtin_line("echo 'foo''bar' \"baz\\\"qux\"") {
        Action::Print(t) => assert_eq!(t, "foobar baz\"qux\n"),
        other => panic!("{other:?}"),
    }
}

#[test]
fn echo_into_echo() {
    let stages = parse_commands("echo a | echo b").unwrap();
    assert_eq!(stages.len(), 2);
    let kinds: Vec<Command> = stages.iter().map(|s| Command::classify(&s.command_str, None)).collect();
    let plan = plan_pipeline(&stages, &kinds);
    assert_eq!(plan[0].stdout, StdoutSink::Pipe);
    assert_eq!(plan[0].stdin, StdinSource::Inherit);
    assert_eq!(plan[1].stdin, StdinSource::Pipe);
    assert_eq!(plan[1].stdout, StdoutSink::Terminal);
    assert_eq!(plan[0].runner, Runner::Worker);
    match run_builtin_line("echo a | echo b") {
        Action::Print(t) => assert_eq!(t, "b\n"),
        other => panic!("{other:?}"),
    }
}

#[test]
fn pwd_redirected_to_file() {
    let stages = parse_commands("pwd > /tmp/out/x").unwrap();
    assert_eq!(stages.len(), 1);
    let st = &stages[0];
    assert_eq!(st.command_str, "pwd");
    assert!(st.args.is_empty());
    let r = st.redirect.as_ref().unwrap();
    assert_eq!(r.path, "/tmp/out/x");
    assert!(r.stdout && !r.stderr && !r.append);
    let kinds = vec![Command::classify("pwd", None)];
    let plan = plan_pipeline(&stages, &kinds);
    assert_eq!(plan[0].stdout, StdoutSink::File);
    assert_eq!(plan[0].runner, Runner::InPlace);
    assert!(matches!(decide(&kinds[0], "pwd", &st.args), Action::PrintCwd));
}

#[test]
fn type_builtin_and_missing() {
    assert_eq!(type_line("cd", &Command::classify("cd", None)), "cd is a shell builtin\n");
    assert_eq!(type_line("nonesuch", &Command::classify("nonesuch", None)), "nonesuch: not found\n");
    let ls = Command::classify("ls", Some("/bin/ls".to_string()));
    assert_eq!(type_line("ls", &ls), "ls is /bin/ls\n");
    match run_builtin_line("type cd") {
        Action::Describe(n) => assert_eq!(n, "cd"),
        other => panic!("{other:?}"),
    }
}

#[test]
fn quoted_program_arguments() {
    let stages = parse_commands("cat '/tmp/bar/f    25' '/tmp/bar/f    25'").unwrap();
    assert_eq!(stages[0].args, strings(&["/tmp/bar/f    25", "/tmp/bar/f    25"]));
}

#[test]
fn classify_names() {
    assert_eq!(Command::classify("exit", Some("/x".to_string())), Command::Exit);
    assert_eq!(Command::classify("history", None), Command::History);
    assert_eq!(Command::classify("foo", None), Command::Invalid);
    assert_eq!(
        Command::classify("foo", Some("/usr/bin/foo".to_string())),
        Command::Executable { name: "foo".to_string(), full_path: "/usr/bin/foo".to_string() }
    );
    assert!(Command::Echo.is_builtin());
    assert!(!Command::Invalid.is_builtin());
}

#[test]
fn search_path_candidates() {
    assert_eq!(
        path_candidates("/bin:/usr/bin/::x", "ls"),
        strings(&["/bin/ls", "/usr/bin/ls", "ls", "x/ls"])
    );
    assert_eq!(path_candidates("/bin", "/opt/ls"), strings(&["/opt/ls"]));
}

#[test]
fn redirections() {
    let st = parse_stage("ls -l 2>> /tmp/e.log").unwrap();
    assert_eq!(st.args, strings(&["-l"]));
    let r = st.redirect.as_ref().unwrap();
    assert!(!r.stdout && r.stderr && r.append);
    assert!(matches!(st.error_sink(), ErrorSink::File { ref path, append: true } if path == "/tmp/e.log"));
    let st = parse_stage("ls &> out a").unwrap();
    assert_eq!(st.args, strings(&["a"]));
    assert!(matches!(st.error_sink(), ErrorSink::OutputFile));
    assert!(st.redirects_stdout());
    let st = parse_stage("ls 1>> f").unwrap();
    assert!(st.redirect.as_ref().unwrap().append);
    assert!(matches!(st.error_sink(), ErrorSink::Terminal));
    let st = parse_stage("echo x").unwrap();
    assert!(st.redirect.is_none());
    assert!(!st.redirects_stdout());
}

#[test]
fn parse_errors() {
    assert_eq!(parse_stage("echo >").unwrap_err(), ParseError::MissingRedirectTarget);
    assert_eq!(parse_commands("echo a | | b").unwrap_err(), ParseError::EmptyStage);
    assert_eq!(parse_commands("   ").unwrap_err(), ParseError::EmptyStage);
    assert_eq!(parse_commands("").unwrap().len(), 0);
    assert_eq!(ParseError::MissingRedirectTarget.message(), "No file specified for redirection");
    assert_eq!(ParseError::EmptyStage.message(), "Empty command in pipeline");
}

#[test]
fn builtin_messages() {
    assert_eq!(echo_line(&strings(&[])), "\n");
    assert_eq!(not_found_line("frob"), "frob: command not found\n");
    assert_eq!(cd_failure_line(&strings(&["/nope"])), "cd: /nope: No such file or directory\n");
    assert_eq!(cd_failure_line(&strings(&[])), "cd: ~: No such file or directory\n");
    match run_builtin_line("frob x") {
        Action::PrintErr(t) => assert_eq!(t, "frob: command not found\n"),
        other => panic!("{other:?}"),
    }
}

#[test]
fn exit_status_reading() {
    assert_eq!(exit_code(&strings(&["3"])), 3);
    assert_eq!(exit_code(&strings(&["-7"])), -7);
    assert_eq!(exit_code(&strings(&["+12"])), 12);
    assert_eq!(exit_code(&strings(&["2147483647"])), 2147483647);
    assert_eq!(exit_code(&strings(&["-2147483648"])), -2147483648);
    assert_eq!(exit_code(&strings(&["2147483648"])), 0);
    assert_eq!(exit_code(&strings(&["x1"])), 0);
    assert_eq!(exit_code(&strings(&["-"])), 0);
    assert_eq!(exit_code(&strings(&[])), 0);
    assert!(matches!(run_builtin_line("exit 5"), Action::Exit(5)));
}

#[test]
fn cd_paths() {
    let home = Some("/home/u".to_string());
    let cwd = Some("/work/dir".to_string());
    assert_eq!(build_path("~/a/../b", &home, &cwd), Some("/home/u/b".to_string()));
    assert_eq!(build_path("./x/./y", &home, &cwd), Some("/work/dir/x/y".to_string()));
    assert_eq!(build_path("/usr//lib/", &home, &cwd), Some("/usr/lib".to_string()));
    assert_eq!(build_path("../z", &home, &cwd), Some("/work/z".to_string()));
    assert_eq!(build_path("sub/..", &home, &cwd), Some("/work/dir".to_string()));
    assert_eq!(build_path("/..", &home, &cwd), Some("/".to_string()));
    assert_eq!(build_path("..", &home, &Some("/".to_string())), Some("/".to_string()));
    assert_eq!(build_path("~/a", &None, &cwd), None);
    assert_eq!(build_path("a", &home, &None), None);
    assert_eq!(change_directory_target(&strings(&[]), &home, &cwd), home);
    assert_eq!(change_directory_target(&strings(&["~"]), &home, &cwd), home);
    assert_eq!(change_directory_target(&strings(&["q"]), &home, &cwd), Some("/work/dir/q".to_string()));
}

#[test]
fn history_capacity() {
    let mut h = CommandHistory::new();
    for i in 1..=100 {
        h.add(&format!("cmd{i}"));
    }
    assert_eq!(h.len(), 100);
    h.add("cmd101");
    assert_eq!(h.len(), 100);
    let all = h.entries_to_write(false);
    assert_eq!(all[0], "cmd2");
    assert_eq!(all[99], "cmd101");
}

#[test]
fn history_browsing() {
    let mut h = CommandHistory::new();
    assert_eq!(h.browse_next(false), None);
    for c in ["a", "b", "c"] {
        h.add(c);
    }
    assert_eq!(h.browse_next(true), None);
    assert_eq!(h.browse_next(false), Some("c".to_string()));
    assert_eq!(h.browse_next(false), Some("b".to_string()));
    assert_eq!(h.browse_next(false), Some("a".to_string()));
    assert_eq!(h.browse_next(false), Some("a".to_string()));
    assert_eq!(h.browse_next(true), Some("b".to_string()));
    assert_eq!(h.browse_next(true), Some("c".to_string()));
    assert_eq!(h.browse_next(true), Some(String::new()));
    h.reset_browse();
    assert_eq!(h.browse_next(false), Some("c".to_string()));
}

#[test]
fn history_append_twice() {
    let mut h = CommandHistory::new();
    h.add("one");
    h.add("two");
    assert_eq!(h.entries_to_write(true), strings(&["one", "two"]));
    assert_eq!(h.entries_to_write(true), Vec::<String>::new());
    h.add("three");
    assert_eq!(h.entries_to_write(true), strings(&["three"]));
    assert_eq!(h.entries_to_write(false), strings(&["one", "two", "three"]));
}

#[test]
fn history_listing() {
    let mut h = CommandHistory::new();
    for c in ["ls", "pwd", "history 2"] {
        h.add(c);
    }
    assert_eq!(h.listing(None), "  1  ls\n  2  pwd\n  3  history 2\n");
    assert_eq!(h.listing(Some(2)), "  2  pwd\n  3  history 2\n");
    assert_eq!(h.listing(Some(9)), "  1  ls\n  2  pwd\n  3  history 2\n");
    assert_eq!(h.listing(Some(0)), "");
}

#[test]
fn history_files() {
    let h = CommandHistory::from_file_text("a\r\nb\n\nc");
    let mut h2 = h;
    assert_eq!(h2.entries_to_write(false), strings(&["a", "b", "", "c"]));
    assert_eq!(h2.entries_to_write(true), Vec::<String>::new());
    h2.read_lines("d\ne\n");
    assert_eq!(h2.entries_to_write(true), strings(&["d", "e"]));
    let mut empty = CommandHistory::from_file_text("");
    assert_eq!(empty.len(), 0);
    assert_eq!(empty.entries_to_write(true), Vec::<String>::new());
}

#[test]
fn history_arguments() {
    assert_eq!(HistoryArgs::from_args(&strings(&[])), HistoryArgs::ShowAll);
    assert_eq!(HistoryArgs::from_args(&strings(&["5"])), HistoryArgs::ShowLast(5));
    assert_eq!(HistoryArgs::from_args(&strings(&["-5"])), HistoryArgs::ShowAll);
    assert_eq!(HistoryArgs::from_args(&strings(&["-r", "f"])), HistoryArgs::Read("f".to_string()));
    assert_eq!(HistoryArgs::from_args(&strings(&["-w", "f"])), HistoryArgs::Write("f".to_string()));
    assert_eq!(HistoryArgs::from_args(&strings(&["-a", "f"])), HistoryArgs::Append("f".to_string()));
    assert_eq!(HistoryArgs::from_args(&strings(&["-x", "f"])), HistoryArgs::ShowAll);
    match run_builtin_line("history 3") {
        Action::History(a) => assert_eq!(a, HistoryArgs::ShowLast(3)),
        other => panic!("{other:?}"),
    }
}

#[test]
fn completion() {
    let trie = build_completion_trie(strings(&["cat", "cargo", "", "ls"]));
    assert_eq!(completion_word("echo ca"), "ca");
    assert_eq!(completion_word("x "), "");
    let mut shown: Vec<String> = completion_candidates(&trie, "ca").into_iter().map(|c| c.display).collect();
    shown.sort();
    assert_eq!(shown, strings(&["cargo", "cat"]));
    let cands = completion_candidates(&trie, "sudo e");
    let mut shown: Vec<String> = cands.iter().map(|c| c.display.clone()).collect();
    shown.sort();
    assert_eq!(shown, strings(&["echo", "exit"]));
    assert!(cands.iter().all(|c| c.replacement == format!("{} ", c.display)));
    assert!(completion_candidates(&trie, "zz").is_empty());
    assert!(completion_candidates(&trie, "his").is_empty());
}
