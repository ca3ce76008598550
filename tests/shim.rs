use toolshim::discovery::{has_exec_bit, select_tools, ToolFile};
use toolshim::dispatch::{exit_code, launch_error, select_mode, ChildOutcome, Mode};
use toolshim::layout::{format_entry, resolve_width, wrap_text_with_indent, wrap_words};
use toolshim::listing::{render_listing, ToolEntry};
use toolshim::summary::{choose_summary, summarize_output, Summary};

fn summary_of(success: bool, out: &str) -> String {
    summarize_output(success, &out.as_bytes().to_vec()).text()
}

fn file(name: &str, is_file: bool, mode: u32) -> ToolFile {
    ToolFile { name: name.to_string(), is_file, mode }
}

fn strings(v: &[&str]) -> Vec<String> {
    v.iter().map(|s| s.to_string()).collect()
}

#[test]
fn failed_help_gives_no_help_placeholder() {
    assert_eq!(summary_of(false, "tool 1.0.0\n\nA description"), "no command help available");
    assert_eq!(summary_of(false, ""), "no command help available");
    assert!(matches!(summarize_output(false, &vec![]), Summary::NoHelp));
}

#[test]
fn banner_then_description_takes_third_line() {
    assert_eq!(summary_of(true, "toolA 1.0.0\n\nDoes a thing quickly."), "Does a thing quickly.");
    assert_eq!(summary_of(true, "  rustody 1.1.0  \n\n   Counts reads.  \nmore"), "Counts reads.");
}

#[test]
fn banner_alone_cannot_be_parsed() {
    assert_eq!(summary_of(true, "toolA 1.0.0"), "could not parse the help string");
    assert_eq!(summary_of(true, "toolA 1.0.0\nsecond line"), "could not parse the help string");
    assert!(matches!(summarize_output(true, &b"toolA 1.0.0".to_vec()), Summary::Unparsable));
}

#[test]
fn banner_with_short_third_line_cannot_be_parsed() {
    assert_eq!(summary_of(true, "toolA 1.0.0\n\nab"), "could not parse the help string");
    assert_eq!(summary_of(true, "toolA 1.0.0\n\n  ab  "), "could not parse the help string");
    assert_eq!(summary_of(true, "toolA 1.0.0\n\nabc"), "abc");
}

#[test]
fn non_banner_first_line_is_the_summary() {
    assert_eq!(summary_of(true, "does a different thing"), "does a different thing");
    assert_eq!(summary_of(true, "   padded line \t\nsecond\nthird"), "padded line");
    assert_eq!(summary_of(true, "toolA 1.0\n\nDescription"), "toolA 1.0");
    assert_eq!(summary_of(true, "toolA version 1.0.0\n\nDescription"), "toolA version 1.0.0");
    assert_eq!(summary_of(true, "\nsecond"), "");
}

#[test]
fn empty_help_output_cannot_be_parsed() {
    assert_eq!(summary_of(true, ""), "could not parse the help string");
}

#[test]
fn invalid_utf8_is_decoded_lossily() {
    let out = vec![b'o', b'k', 0xff, b'\n'];
    assert_eq!(summarize_output(true, &out).text(), "ok\u{fffd}");
}

#[test]
fn choose_summary_on_prepared_lines() {
    assert_eq!(choose_summary(&strings(&[]), false).text(), "could not parse the help string");
    assert_eq!(choose_summary(&strings(&["first", "", "third"]), false).text(), "first");
    assert_eq!(choose_summary(&strings(&["x 1.2.3", "", "third"]), true).text(), "third");
    assert_eq!(choose_summary(&strings(&["x 1.2.3", "", "th"]), true).text(), "could not parse the help string");
    assert_eq!(choose_summary(&strings(&["x 1.2.3"]), true).text(), "could not parse the help string");
}

#[test]
fn wrap_packs_words_greedily() {
    assert_eq!(wrap_text_with_indent("one two three", 2, 7), "one two\n  three");
    assert_eq!(wrap_text_with_indent("  one   two  ", 4, 80), "one two");
    assert_eq!(wrap_text_with_indent("aa bb cc dd", 3, 5), "aa bb\n   cc dd");
}

#[test]
fn wrap_of_empty_text_is_empty() {
    assert_eq!(wrap_text_with_indent("", 20, 60), "");
    assert_eq!(wrap_text_with_indent("   \n\t ", 20, 60), "");
}

#[test]
fn wrap_keeps_overlong_word_whole() {
    assert_eq!(wrap_text_with_indent("a extraordinarily b", 1, 5), "a\n extraordinarily\n b");
    assert_eq!(wrap_text_with_indent("extraordinarily", 1, 5), "extraordinarily");
}

#[test]
fn wrap_words_from_prepared_words() {
    assert_eq!(wrap_words(&strings(&["ab", "cd", "ef"]), 1, 5), "ab cd\n ef");
    assert_eq!(wrap_words(&strings(&[]), 1, 5), "");
}

#[test]
fn wrapped_lines_fit_and_keep_words() {
    let text = "the quick brown fox jumps over the lazy dog and keeps running far away";
    for max in 7..30 {
        let out = wrap_text_with_indent(text, 3, max);
        let mut words: Vec<String> = Vec::new();
        for (k, line) in out.split('\n').enumerate() {
            let body = if k == 0 { line } else { &line[3..] };
            assert!(body.chars().count() <= max);
            assert!(!body.is_empty());
            words.extend(body.split(' ').map(|w| w.to_string()));
        }
        let expected: Vec<String> = text.split_whitespace().map(|w| w.to_string()).collect();
        assert_eq!(words, expected);
    }
}

#[test]
fn width_defaults_to_eighty() {
    assert_eq!(resolve_width(None), 80);
    assert_eq!(resolve_width(Some(120)), 120);
}

#[test]
fn short_name_entry_is_padded_and_bold() {
    let out = format_entry("ls", "list files", 80);
    assert_eq!(out, format!("\u{1b}[1mls{}\u{1b}[0mlist files", " ".repeat(18)));
}

#[test]
fn long_name_entry_stands_on_its_own_line() {
    let name = "a-very-long-tool-name";
    let out = format_entry(name, "does it", 80);
    assert_eq!(out, format!("\u{1b}[1m{}\u{1b}[0m\n{}does it", name, " ".repeat(20)));
    let twenty = "abcdefghijabcdefghij";
    let out = format_entry(twenty, "x", 80);
    assert_eq!(out, format!("\u{1b}[1m{}\u{1b}[0m\n{}x", twenty, " ".repeat(20)));
}

#[test]
fn entry_summary_wraps_at_terminal_width() {
    let out = format_entry("t", "aaa bbb ccc", 27);
    let pad = " ".repeat(19);
    assert_eq!(out, format!("\u{1b}[1mt{}\u{1b}[0maaa bbb\n{}ccc", pad, " ".repeat(20)));
}

#[test]
fn exec_bits_are_any_of_three() {
    assert!(!has_exec_bit(0o644));
    assert!(has_exec_bit(0o100));
    assert!(has_exec_bit(0o010));
    assert!(has_exec_bit(0o001));
    assert!(has_exec_bit(0o755));
    assert!(!has_exec_bit(0o7666));
}

#[test]
fn discovery_keeps_executable_regular_files_only() {
    let entries = vec![
        file("b", true, 0o755),
        file("A", true, 0o700),
        file("notes.txt", true, 0o644),
        file("subdir", false, 0o755),
        file("link", false, 0o777),
    ];
    assert_eq!(select_tools(&entries), strings(&["A", "b"]));
}

#[test]
fn discovery_sorts_ignoring_case() {
    let entries = vec![
        file("Zeta", true, 0o755),
        file("alpha", true, 0o755),
        file("Beta", true, 0o001),
        file("beta2", true, 0o010),
    ];
    assert_eq!(select_tools(&entries), strings(&["alpha", "Beta", "beta2", "Zeta"]));
    assert_eq!(select_tools(&vec![]), Vec::<String>::new());
}

#[test]
fn listing_shows_summaries_before_footer() {
    let entries = vec![file("toolB", true, 0o755), file("toolA", true, 0o755)];
    let tools = select_tools(&entries);
    assert_eq!(tools, strings(&["toolA", "toolB"]));
    let outputs = |name: &str| -> &'static str {
        if name == "toolA" { "toolA 1.0.0\n\nDoes a thing quickly." } else { "does a different thing" }
    };
    let listed: Vec<ToolEntry> = tools
        .iter()
        .map(|t| ToolEntry {
            name: t.clone(),
            summary: summarize_output(true, &outputs(t).as_bytes().to_vec()),
        })
        .collect();
    let out = render_listing("img", &listed, 80);
    assert!(out.starts_with("Available img tools:\n\n"));
    let a = out.find("Does a thing quickly.").unwrap();
    let b = out.find("does a different thing").unwrap();
    let usage = out.find("Usage: img <tool> [args...]").unwrap();
    assert!(a < b && b < usage);
    assert!(out.find("toolA").unwrap() < out.find("toolB").unwrap());
    assert!(out.ends_with("\nUsage: img <tool> [args...]\nFor help on a tool: img <tool> --help\n"));
    let expected = format!(
        "Available img tools:\n\n\u{1b}[1mtoolA{p}\u{1b}[0mDoes a thing quickly.\n\u{1b}[1mtoolB{p}\u{1b}[0mdoes a different thing\n\nUsage: img <tool> [args...]\nFor help on a tool: img <tool> --help\n",
        p = " ".repeat(15)
    );
    assert_eq!(out, expected);
}

#[test]
fn empty_listing_has_header_and_footer() {
    let out = render_listing("", &vec![], 80);
    assert_eq!(out, "Available  tools:\n\n\nUsage:  <tool> [args...]\nFor help on a tool:  <tool> --help\n");
}

#[test]
fn no_arguments_select_listing() {
    assert!(matches!(select_mode(&vec![]), Mode::Listing));
}

#[test]
fn arguments_select_dispatch() {
    match select_mode(&strings(&["echo", "hi", "--x"])) {
        Mode::Dispatch(b, rest) => {
            assert_eq!(b, "echo");
            assert_eq!(rest, strings(&["hi", "--x"]));
        }
        Mode::Listing => panic!("expected dispatch"),
    }
    match select_mode(&strings(&["nonexistent-binary-xyz"])) {
        Mode::Dispatch(b, rest) => {
            assert_eq!(b, "nonexistent-binary-xyz");
            assert!(rest.is_empty());
        }
        Mode::Listing => panic!("expected dispatch"),
    }
}

#[test]
fn dispatch_exit_codes() {
    assert_eq!(exit_code(&ChildOutcome::Exited(0)), 0);
    assert_eq!(exit_code(&ChildOutcome::Exited(3)), 3);
    assert_eq!(exit_code(&ChildOutcome::LaunchFailed), 1);
    assert_eq!(exit_code(&ChildOutcome::NoCode), 1);
}

#[test]
fn launch_error_names_the_binary() {
    let msg = launch_error("nonexistent-binary-xyz");
    assert!(msg.contains("nonexistent-binary-xyz"));
    assert_eq!(msg, "failed to run nonexistent-binary-xyz");
}
