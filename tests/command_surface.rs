use slack_system_bot::commands::{
    command_line, explain, parse_failure_outcome, run_outcome, split_words, strip_command_slashes,
    CommandError, CommandResponse, Dispatch, LogNote, ParseFailureKind, ResponseBody, Verb,
};
use slack_system_bot::text::{same_text, trim};

fn text_of(r: &CommandResponse) -> (&str, bool) {
    match &r.body {
        ResponseBody::Text(t) => (t.as_str(), false),
        ResponseBody::Markdown(t) => (t.as_str(), true),
    }
}

#[test]
fn members_help_is_tokenized_after_the_program_name() {
    assert_eq!(command_line("/members", Some("help")), vec!["plura", "members", "help"]);
}

#[test]
fn members_help_renders_usage_and_is_no_failure() {
    let usage = String::from("Usage: plura members <COMMAND>");
    let outcome = parse_failure_outcome(ParseFailureKind::Help, usage.clone());
    assert_eq!(outcome.log, LogNote::Quiet);
    assert_eq!(text_of(&outcome.response), (usage.as_str(), true));
    assert!(!outcome.response.in_channel);
}

#[test]
fn version_request_is_not_logged() {
    let outcome = parse_failure_outcome(ParseFailureKind::Version, String::from("plura 1.0"));
    assert_eq!(outcome.log, LogNote::Quiet);
}

#[test]
fn invalid_text_is_logged_as_a_user_mistake() {
    let outcome = parse_failure_outcome(ParseFailureKind::Invalid, String::from("error: bad"));
    assert_eq!(outcome.log, LogNote::UserMistake);
    assert_eq!(text_of(&outcome.response), ("error: bad", true));
}

#[test]
fn command_without_text_has_only_program_and_verb() {
    assert_eq!(command_line("/explain", None), vec!["plura", "explain"]);
    assert_eq!(command_line("/explain", Some("")), vec!["plura", "explain"]);
}

#[test]
fn command_text_is_split_on_any_whitespace_without_quoting() {
    assert_eq!(
        command_line("//system", Some("  rename \t \"My System\"\n")),
        vec!["plura", "system", "rename", "\"My", "System\""]
    );
    assert_eq!(command_line("triggers", Some("a\u{3000}b")), vec!["plura", "triggers", "a", "b"]);
}

#[test]
fn words_of_plain_text() {
    assert_eq!(split_words(""), Vec::<String>::new());
    assert_eq!(split_words("   "), Vec::<String>::new());
    assert_eq!(split_words("one"), vec!["one"]);
    assert_eq!(split_words(" one  two\nthree "), vec!["one", "two", "three"]);
    assert_eq!(strip_command_slashes("///sync"), "sync");
    assert_eq!(strip_command_slashes("a/b"), "a/b");
}

#[test]
fn explain_goes_to_the_whole_channel() {
    let r = explain();
    assert!(r.in_channel);
    let (t, markdown) = text_of(&r);
    assert!(!markdown);
    assert!(t.starts_with("Slack System Bot is a bot"));
    assert!(t.contains("`/system help` and `/members help`"));
}

#[test]
fn each_verb_goes_to_its_handler() {
    assert!(matches!(Verb::Members.dispatch(), Dispatch::Handler(CommandError::Members)));
    assert!(matches!(Verb::System.dispatch(), Dispatch::Handler(CommandError::System)));
    assert!(matches!(Verb::Triggers.dispatch(), Dispatch::Handler(CommandError::Triggers)));
    assert!(matches!(Verb::Aliases.dispatch(), Dispatch::Handler(CommandError::Aliases)));
    match Verb::Explain.dispatch() {
        Dispatch::Reply(r) => assert_eq!(text_of(&r), text_of(&explain())),
        Dispatch::Handler(_) => panic!("explain runs no handler"),
    }
}

#[test]
fn handler_failure_is_masked_and_tagged() {
    let outcome = run_outcome(Err(CommandError::Aliases));
    assert_eq!(outcome.log, LogNote::HandlerFailed(CommandError::Aliases));
    assert_eq!(
        text_of(&outcome.response),
        ("Error running command! The details were logged for the developers.", false)
    );
}

#[test]
fn handler_reply_passes_through() {
    let reply = CommandResponse { body: ResponseBody::Text(String::from("done")), in_channel: true };
    let outcome = run_outcome(Ok(reply));
    assert_eq!(outcome.log, LogNote::Quiet);
    assert_eq!(text_of(&outcome.response), ("done", false));
    assert!(outcome.response.in_channel);
}

#[test]
fn command_errors_describe_their_category() {
    assert_eq!(CommandError::Members.message(), "Error running the members command");
    assert_eq!(CommandError::Triggers.message(), "Error running the triggers command");
    assert_eq!(CommandError::System.message(), "Error running the system command");
    assert_eq!(CommandError::Aliases.message(), "Error running the aliases command");
}

#[test]
fn trimming_uses_unicode_whitespace() {
    assert_eq!(trim("\u{a0} x y \u{2003}\t"), "x y");
    assert_eq!(trim("   "), "");
    assert!(same_text("abc", "abc"));
    assert!(!same_text("abc", "abd"));
    assert!(!same_text("abc", "ab"));
}
