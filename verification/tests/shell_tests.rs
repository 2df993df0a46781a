use reqsh::builtins::{
    builtin_of, cd_error, cd_target, command_not_found, is_builtin, line_action,
    listchecks_output, output_lines, trim_output, Builtin, LineAction,
};
use reqsh::checks::{delete_check, find_check, list_checks, save_check};
use reqsh::completion::{completion_target, path_completions, split_path_word, DirEntryName};
use reqsh::history::{history_args_valid, plan_history, HistoryAction};
use reqsh::numbers::parse_count;
use reqsh::parser::scan_command_line;
use reqsh::{command_type, echo, jobs, ShellCommand, ShellHelper};
use rustyline::history::{FileHistory, History};

fn strings(v: &[&str]) -> Vec<String> {
    v.iter().map(|s| s.to_string()).collect()
}

#[test]
fn test_echo() {
    let args: Vec<String> = vec!["Hello".to_string(), "World".to_string()];
    assert_eq!("Hello World".to_string(), echo(&args));
}

#[test]
fn test_command_type() {
    let command = String::from("echo");
    let args = vec![command];

    assert_eq!(
        String::from("echo is a reqsh builtin"),
        command_type(&args, None).unwrap()
    );
}

#[test]
fn command_type_reports_location_or_not_found() {
    let args = strings(&["ls"]);
    assert_eq!(
        command_type(&args, Some("/bin/ls".to_string())),
        Ok("ls is /bin/ls".to_string())
    );
    assert_eq!(
        command_type(&args, None),
        Err("ls: not found".to_string())
    );
    let args = strings(&["savecheck"]);
    assert_eq!(
        command_type(&args, Some("/usr/bin/savecheck".to_string())),
        Ok("savecheck is a reqsh builtin".to_string())
    );
}

#[test]
fn echo_of_nothing_is_empty() {
    assert_eq!(echo(&Vec::new()), "");
    assert_eq!(echo(&strings(&["a", "", "b"])), "a  b");
}

#[test]
fn jobs_does_nothing() {
    jobs();
}

#[test]
fn build_splits_words() {
    let cmd = ShellCommand::build("echo  hello\tworld").unwrap();
    assert_eq!(cmd.name, "echo");
    assert_eq!(cmd.args, strings(&["hello", "world"]));
    assert_eq!(cmd.stdout, None);
    assert_eq!(cmd.stderr, None);
    assert!(!cmd.append);
}

#[test]
fn build_single_quotes_are_literal() {
    let cmd = ShellCommand::build("echo 'a  \"b\" \\n 1>x'").unwrap();
    assert_eq!(cmd.args, strings(&["a  \"b\" \\n 1>x"]));
}

#[test]
fn build_double_quotes_and_escapes() {
    let cmd = ShellCommand::build("echo \"a \\\" \\\\ \\$ \\x\" b\\ c").unwrap();
    assert_eq!(cmd.args, strings(&["a \" \\ $ \\x", "b c"]));
}

#[test]
fn build_adjacent_quotes_join() {
    let cmd = ShellCommand::build("echo 'a'\"b\"c '' x").unwrap();
    assert_eq!(cmd.args, strings(&["abc", "x"]));
}

#[test]
fn build_redirects_stdout() {
    let cmd = ShellCommand::build("ls -l > out.txt").unwrap();
    assert_eq!(cmd.name, "ls");
    assert_eq!(cmd.args, strings(&["-l"]));
    assert_eq!(cmd.stdout, Some("out.txt".to_string()));
    assert!(!cmd.append);

    let cmd = ShellCommand::build("ls 1>out.txt").unwrap();
    assert_eq!(cmd.args, Vec::<String>::new());
    assert_eq!(cmd.stdout, Some("out.txt".to_string()));
}

#[test]
fn build_redirects_append_and_stderr() {
    let cmd = ShellCommand::build("cat a 1>> log 2> err").unwrap();
    assert_eq!(cmd.args, strings(&["a"]));
    assert_eq!(cmd.stdout, Some("log".to_string()));
    assert_eq!(cmd.stderr, Some("err".to_string()));
    assert!(cmd.append);

    let cmd = ShellCommand::build("cat a 2>>err").unwrap();
    assert_eq!(cmd.stderr, Some("err".to_string()));
    assert!(cmd.append);

    let cmd = ShellCommand::build("cat a >>log").unwrap();
    assert_eq!(cmd.stdout, Some("log".to_string()));
    assert!(cmd.append);
}

#[test]
fn build_digits_without_redirect_are_text() {
    let cmd = ShellCommand::build("echo 12 21 1").unwrap();
    assert_eq!(cmd.args, strings(&["12", "21", "1"]));
}

#[test]
fn build_redirect_inside_word() {
    // The digit starts a redirection even in the middle of a word: the word
    // so far becomes the redirection target.
    let cmd = ShellCommand::build("echo a1>b").unwrap();
    assert_eq!(cmd.args, Vec::<String>::new());
    assert_eq!(cmd.stdout, Some("ab".to_string()));
}

#[test]
fn build_unterminated_quote_takes_rest() {
    let cmd = ShellCommand::build("echo 'abc def").unwrap();
    assert_eq!(cmd.args, strings(&["abc def"]));
    let cmd = ShellCommand::build("echo x\\").unwrap();
    assert_eq!(cmd.args, strings(&["x"]));
}

#[test]
fn scan_of_blank_line_has_no_words() {
    let scanned = scan_command_line("   \t ");
    assert!(scanned.tokens.is_empty());
    let scanned = scan_command_line("> out");
    assert!(scanned.tokens.is_empty());
    assert_eq!(scanned.stdout, Some("out".to_string()));
}

#[test]
fn plain_words_round_trip() {
    let words = strings(&["ls", "-la", "src", "a.b"]);
    let joined = echo(&words);
    let scanned = scan_command_line(&joined);
    assert_eq!(scanned.tokens, words);
}

#[test]
fn parse_count_cases() {
    assert_eq!(parse_count("12"), Some(12));
    assert_eq!(parse_count("+5"), Some(5));
    assert_eq!(parse_count("007"), Some(7));
    assert_eq!(parse_count(""), None);
    assert_eq!(parse_count("+"), None);
    assert_eq!(parse_count("-1"), None);
    assert_eq!(parse_count("1a"), None);
    assert_eq!(parse_count(" 1"), None);
    assert_eq!(parse_count("99999999999999999999999999"), None);
    assert_eq!(parse_count(&usize::MAX.to_string()), Some(usize::MAX));
}

#[test]
fn save_check_usage_and_bar() {
    assert_eq!(
        save_check(&strings(&["only"]), "").err(),
        Some("usage: savecheck <name> <command>".to_string())
    );
    assert_eq!(
        save_check(&strings(&["a|b", "ls"]), "").err(),
        Some("check name cannot contain |".to_string())
    );
}

#[test]
fn save_check_replaces_and_drops_blank_lines() {
    let content = "health|curl a\n\n  \nusers|curl b\nhealth|old\n";
    let u = save_check(&strings(&["health", "curl", "-s", "x"]), content)
        .ok()
        .unwrap();
    assert_eq!(u.content, "users|curl b\nhealth|curl -s x\n");
    assert_eq!(u.message, "saved check health");
}

#[test]
fn save_check_into_empty_file() {
    let u = save_check(&strings(&["h", "curl", "x"]), "").ok().unwrap();
    assert_eq!(u.content, "h|curl x\n");
}

#[test]
fn list_checks_shows_entries() {
    let content = "health|curl a\nnot a check\nusers|curl|b\r\n";
    assert_eq!(
        list_checks(content),
        strings(&["health -> curl a", "users -> curl|b"])
    );
    assert!(list_checks("").is_empty());
}

#[test]
fn find_check_cases() {
    let content = "health|curl a\nusers|\nhealth|curl b\n";
    assert_eq!(find_check(&strings(&["health"]), content), Ok("curl a".to_string()));
    assert_eq!(
        find_check(&strings(&["users"]), content),
        Err("check users not found".to_string())
    );
    assert_eq!(
        find_check(&strings(&["nope"]), content),
        Err("check nope not found".to_string())
    );
    assert_eq!(
        find_check(&Vec::new(), content),
        Err("usage: runcheck <name>".to_string())
    );
}

#[test]
fn delete_check_cases() {
    let content = "health|curl a\n\nusers|curl b\nhealth|x\n";
    let u = delete_check(&strings(&["health"]), content).ok().unwrap();
    assert_eq!(u.content, "\nusers|curl b\n");
    assert_eq!(u.message, "deleted check health");
    assert_eq!(
        delete_check(&strings(&["nope"]), content).err(),
        Some("check nope not found".to_string())
    );
    assert_eq!(
        delete_check(&Vec::new(), content).err(),
        Some("usage: delcheck <name>".to_string())
    );
    let u = delete_check(&strings(&["a"]), "a|b").ok().unwrap();
    assert_eq!(u.content, "\n");
}

#[test]
fn saved_check_is_found_listed_and_deleted() {
    let start = "users|curl b\n";
    let saved = save_check(&strings(&["health", "curl", "-s", "h"]), start)
        .ok()
        .unwrap()
        .content;
    assert_eq!(
        find_check(&strings(&["health"]), &saved),
        Ok("curl -s h".to_string())
    );
    assert_eq!(find_check(&strings(&["users"]), &saved), Ok("curl b".to_string()));
    assert_eq!(
        list_checks(&saved).last().cloned(),
        Some("health -> curl -s h".to_string())
    );
    let deleted = delete_check(&strings(&["health"]), &saved).ok().unwrap().content;
    assert_eq!(
        find_check(&strings(&["health"]), &deleted),
        Err("check health not found".to_string())
    );
    assert_eq!(find_check(&strings(&["users"]), &deleted), Ok("curl b".to_string()));
}

#[test]
fn completion_target_first_word() {
    let t = completion_target("ec", 2);
    assert_eq!(t.start, 0);
    assert_eq!(t.word, "ec");
    assert!(t.first_word);
    let t = completion_target("  ec", 4);
    assert_eq!(t.start, 2);
    assert_eq!(t.word, "ec");
    assert!(t.first_word);
}

#[test]
fn completion_target_later_word() {
    let t = completion_target("cat src/ma", 10);
    assert_eq!(t.start, 4);
    assert_eq!(t.word, "src/ma");
    assert!(!t.first_word);
    let t = completion_target("cat src/main.rs", 5);
    assert_eq!(t.start, 4);
    assert_eq!(t.word, "s");
}

#[test]
fn completion_target_counts_bytes() {
    let line = "é cafés";
    let t = completion_target(line, line.len());
    assert_eq!(t.start, 3);
    assert_eq!(t.word, "cafés");
    assert!(!t.first_word);
}

#[test]
fn command_completions_sorted_unique() {
    let helper = ShellHelper::new(strings(&["savefile", "ls", "sed", "ls", "sort"]));
    assert_eq!(
        helper.command_completions("s"),
        strings(&["savecheck ", "savefile ", "sed ", "sort "])
    );
    assert_eq!(helper.command_completions("e"), strings(&["echo ", "exit "]));
    assert_eq!(helper.command_completions("zz"), Vec::<String>::new());
    assert_eq!(helper.command_completions("").len(), 15);
}

#[test]
fn command_completions_dedup_builtin_and_executable() {
    let helper = ShellHelper::new(strings(&["echo", "pwd"]));
    assert_eq!(helper.command_completions("p"), strings(&["pwd "]));
}

#[test]
fn split_path_word_cases() {
    assert_eq!(split_path_word("src/ma"), ("src/".to_string(), "ma".to_string()));
    assert_eq!(split_path_word("a/b/"), ("a/b/".to_string(), "".to_string()));
    assert_eq!(split_path_word("main"), ("".to_string(), "main".to_string()));
    assert_eq!(split_path_word("/"), ("/".to_string(), "".to_string()));
}

fn entry(name: &str, is_dir: bool) -> DirEntryName {
    DirEntryName { name: name.to_string(), is_dir }
}

#[test]
fn path_completions_filter_sort_and_suffix() {
    let entries = vec![
        entry("main.rs", false),
        entry("lib.rs", false),
        entry("macros", true),
        entry("mod ", false),
    ];
    assert_eq!(
        path_completions("src/", "m", &entries),
        strings(&["src/macros/", "src/main.rs ", "src/mod "])
    );
    assert_eq!(
        path_completions("", "", &entries),
        strings(&["lib.rs ", "macros/", "main.rs ", "mod "])
    );
    assert!(path_completions("", "x", &entries).is_empty());
}

fn history_with(lines: &[&str]) -> FileHistory {
    let mut h = FileHistory::new();
    for l in lines {
        h.add(l).unwrap();
    }
    h
}

#[test]
fn history_prints_numbered_entries() {
    let h = history_with(&["ls", "pwd", "echo hi"]);
    match plan_history(&h, &Vec::new()) {
        HistoryAction::Print { lines } => {
            assert_eq!(lines, strings(&["  1 ls", "  2 pwd", "  3 echo hi"]))
        }
        _ => panic!("expected printing"),
    }
    match plan_history(&h, &strings(&["2"])) {
        HistoryAction::Print { lines } => assert_eq!(lines, strings(&["  2 pwd", "  3 echo hi"])),
        _ => panic!("expected printing"),
    }
    match plan_history(&h, &strings(&["10"])) {
        HistoryAction::Print { lines } => assert_eq!(lines.len(), 3),
        _ => panic!("expected printing"),
    }
    match plan_history(&h, &strings(&["0"])) {
        HistoryAction::Print { lines } => assert!(lines.is_empty()),
        _ => panic!("expected printing"),
    }
}

#[test]
fn history_numbers_past_nine() {
    let names: Vec<String> = (0..12).map(|i| format!("cmd{}", i)).collect();
    let refs: Vec<&str> = names.iter().map(|s| s.as_str()).collect();
    let h = history_with(&refs);
    match plan_history(&h, &strings(&["1"])) {
        HistoryAction::Print { lines } => assert_eq!(lines, strings(&["  12 cmd11"])),
        _ => panic!("expected printing"),
    }
}

#[test]
fn history_file_actions() {
    let h = history_with(&["ls", "history -a f.txt", "pwd", "history -a f.txt"]);
    match plan_history(&h, &strings(&["-r", "f.txt"])) {
        HistoryAction::Load { path } => assert_eq!(path, "f.txt"),
        _ => panic!("expected loading"),
    }
    match plan_history(&h, &strings(&["-w", "f.txt"])) {
        HistoryAction::Write { path, records } => {
            assert_eq!(path, "f.txt");
            assert_eq!(records.len(), 4);
        }
        _ => panic!("expected writing"),
    }
    match plan_history(&h, &strings(&["-a", "f.txt"])) {
        HistoryAction::Append { path, records } => {
            assert_eq!(path, "f.txt");
            assert_eq!(records, strings(&["pwd", "history -a f.txt"]));
        }
        _ => panic!("expected appending"),
    }
    match plan_history(&h, &strings(&["-a", "g.txt"])) {
        HistoryAction::Append { records, .. } => assert_eq!(records.len(), 4),
        _ => panic!("expected appending"),
    }
}

#[test]
fn history_argument_validity() {
    assert!(history_args_valid(&Vec::new()));
    assert!(history_args_valid(&strings(&["3"])));
    assert!(history_args_valid(&strings(&["-r", "f"])));
    assert!(!history_args_valid(&strings(&["-w"])));
    assert!(!history_args_valid(&strings(&["abc"])));
    assert!(!history_args_valid(&strings(&["-x"])));
}

#[test]
fn builtin_names_and_dispatch() {
    assert!(is_builtin("cd"));
    assert!(is_builtin("exit"));
    assert!(!is_builtin("ls"));
    assert!(!is_builtin("c"));
    assert_eq!(builtin_of("runcheck"), Some(Builtin::RunCheck));
    assert_eq!(builtin_of("type"), Some(Builtin::Type));
    assert_eq!(builtin_of("exit"), None);
    assert_eq!(builtin_of("ls"), None);
}

#[test]
fn line_actions() {
    assert_eq!(line_action(""), LineAction::Skip);
    assert_eq!(line_action("exit"), LineAction::Exit);
    assert_eq!(line_action("exit 1"), LineAction::Run);
    assert_eq!(line_action(" "), LineAction::Run);
}

#[test]
fn cd_target_and_messages() {
    assert_eq!(cd_target(&strings(&["~"]), Some("/home/u")), Some("/home/u".to_string()));
    assert_eq!(cd_target(&strings(&["~"]), None), None);
    assert_eq!(cd_target(&strings(&["/tmp"]), None), Some("/tmp".to_string()));
    assert_eq!(
        cd_error("/nonexistent"),
        "cd: /nonexistent: No such file or directory"
    );
    assert_eq!(command_not_found("args"), "args: command not found");
}

#[test]
fn trim_output_cases() {
    assert_eq!(trim_output("  hello world \n"), "hello world");
    assert_eq!(trim_output("\t\n "), "");
    assert_eq!(trim_output(""), "");
    assert_eq!(trim_output("x"), "x");
    assert_eq!(trim_output("\u{3000}a b\u{a0}"), "a b");
}

#[test]
fn listchecks_output_cases() {
    assert_eq!(listchecks_output(Vec::new()), strings(&["no checks saved"]));
    assert_eq!(
        listchecks_output(strings(&["a -> b"])),
        strings(&["a -> b"])
    );
}

#[test]
fn later_save_replaces_earlier() {
    let start = "users|curl b\nhealth|old\n";
    let once = save_check(&strings(&["health", "curl", "new"]), start).ok().unwrap().content;
    let first = save_check(&strings(&["health", "curl", "first"]), start).ok().unwrap().content;
    let twice = save_check(&strings(&["health", "curl", "new"]), &first).ok().unwrap().content;
    assert_eq!(once, twice);
    assert_eq!(twice, "users|curl b\nhealth|curl new\n");
}

#[test]
fn carriage_returns_before_newlines_are_dropped() {
    let content = "a|x\r\nb|y\r";
    assert_eq!(find_check(&strings(&["a"]), content), Ok("x".to_string()));
    assert_eq!(find_check(&strings(&["b"]), content), Ok("y\r".to_string()));
}

#[test]
fn widened_and_leading_separators_read_the_same() {
    let a = scan_command_line("cat a > out 2>err");
    let b = scan_command_line(" \t cat \t a  >   out  \t2>err");
    assert_eq!(a.tokens, b.tokens);
    assert_eq!(a.stdout, b.stdout);
    assert_eq!(a.stderr, b.stderr);
    assert_eq!(a.append, b.append);
    // A separator inside quotes is part of the word, and widening it is not.
    let q1 = scan_command_line("echo 'a b'");
    let q2 = scan_command_line("echo 'a  b'");
    assert_ne!(q1.tokens, q2.tokens);
}

#[test]
fn save_keeps_names_unique_and_drops_blank_lines() {
    let content = "a|x\n\n   \nb|y\nnote\n";
    let saved = save_check(&strings(&["a", "z"]), content).ok().unwrap().content;
    assert_eq!(saved, "b|y\nnote\na|z\n");
    let listed = list_checks(&saved);
    assert_eq!(listed, strings(&["b -> y", "a -> z"]));
}

#[test]
fn saving_twice_is_saving_once() {
    let content = "a|x\r\nb|y\n";
    let args = strings(&["a", "cmd\r"]);
    let once = save_check(&args, content).ok().unwrap();
    let twice = save_check(&args, &once.content).ok().unwrap();
    assert_eq!(once.content, twice.content);
    assert_eq!(once.message, twice.message);
    assert_eq!(twice.message, "saved check a");
}

#[test]
fn output_lines_skip_empty_streams() {
    assert_eq!(output_lines("", ""), (None, None));
    assert_eq!(output_lines("ok", ""), (Some("ok".to_string()), None));
    assert_eq!(output_lines("", "bad"), (None, Some("bad".to_string())));
    assert_eq!(
        output_lines("a", "b"),
        (Some("a".to_string()), Some("b".to_string()))
    );
}
