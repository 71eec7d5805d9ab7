//! The slash-command surface: the token line a command grammar reads, the
//! fixed explanation, where each verb goes, and what is replied and logged
//! for each outcome.
use vstd::prelude::*;
use vstd::string::*;

use crate::text::{is_space, is_space_char};

verus! {

/// The words of `s`: its maximal runs of non-whitespace characters, in order.
pub open spec fn words(s: Seq<char>) -> Seq<Seq<char>>
    decreases s.len(),
{
    if s.len() == 0 {
        Seq::empty()
    } else {
        let p = words(s.drop_last());
        let c = s.last();
        if is_space(c) {
            p
        } else if s.len() >= 2 && !is_space(s[s.len() - 2]) {
            p.update(p.len() - 1, p.last().push(c))
        } else {
            p.push(seq![c])
        }
    }
}

/// `s` without its leading slashes.
pub open spec fn strip_slashes(s: Seq<char>) -> Seq<char>
    decreases s.len(),
{
    if s.len() > 0 && s[0] == '/' {
        strip_slashes(s.drop_first())
    } else {
        s
    }
}

/// The line a command grammar reads: the program name, the command name
/// without its leading slashes, then the text the user typed after it.
pub open spec fn command_text(command: Seq<char>, text: Option<Seq<char>>) -> Seq<char> {
    match text {
        Some(t) => "plura "@ + strip_slashes(command) + " "@ + t,
        None => "plura "@ + strip_slashes(command),
    }
}

/// The tokens a command grammar reads: the words of `command_text`. No quoting
/// is honoured.
pub open spec fn command_tokens(command: Seq<char>, text: Option<Seq<char>>) -> Seq<Seq<char>> {
    words(command_text(command, text))
}

/// The characters of each string.
pub open spec fn string_views(v: Seq<String>) -> Seq<Seq<char>> {
    v.map_values(|x: String| x@)
}

/// `command` without its leading slashes.
pub fn strip_command_slashes(command: &str) -> (r: &str)
    ensures
        r@ == strip_slashes(command@),
{
    let n = command.unicode_len();
    let mut start: usize = 0;
    assert(command@.subrange(0, n as int) =~= command@);
    while start < n && command.get_char(start) == '/'
        invariant
            start <= n,
            n == command@.len(),
            strip_slashes(command@) == strip_slashes(command@.subrange(start as int, n as int)),
        decreases n - start,
    {
        let ghost rest = command@.subrange(start as int, n as int);
        assert(rest.drop_first() =~= command@.subrange(start + 1, n as int));
        start = start + 1;
    }
    command.substring_char(start, n)
}

/// Splits `s` into its words.
pub fn split_words(s: &str) -> (r: Vec<String>)
    ensures
        string_views(r@) == words(s@),
{
    let n = s.unicode_len();
    let ghost t = s@;
    let mut out: Vec<String> = Vec::new();
    let mut start: usize = 0;
    let mut in_word = false;
    let mut i: usize = 0;
    assert(t.subrange(0, 0) =~= Seq::<char>::empty());
    while i < n
        invariant
            n == t.len(),
            t == s@,
            i <= n,
            start <= i,
            in_word ==> start < i && !is_space(t[i - 1]),
            !in_word ==> i == 0 || is_space(t[i - 1]),
            words(t.subrange(0, i as int)) == string_views(out@) + (if in_word {
                seq![t.subrange(start as int, i as int)]
            } else {
                Seq::empty()
            }),
        decreases n - i,
    {
        let c = s.get_char(i);
        let ghost prefix = t.subrange(0, i + 1);
        assert(prefix.drop_last() =~= t.subrange(0, i as int));
        assert(prefix.last() == c);
        if is_space_char(c) {
            if in_word {
                let w = String::from_str(s.substring_char(start, i));
                let ghost before = out@;
                out.push(w);
                assert(string_views(out@) =~= string_views(before).push(w@));
                in_word = false;
            }
        } else {
            if in_word {
                assert(t.subrange(start as int, i + 1) =~= t.subrange(start as int, i as int).push(
                    c,
                ));
                assert(words(prefix) =~= string_views(out@) + seq![t.subrange(start as int, i + 1)]);
            } else {
                start = i;
                assert(t.subrange(start as int, i + 1) =~= seq![c]);
                assert(words(prefix) =~= string_views(out@) + seq![t.subrange(start as int, i + 1)]);
                in_word = true;
            }
        }
        i = i + 1;
    }
    assert(t.subrange(0, n as int) =~= t);
    if in_word {
        let w = String::from_str(s.substring_char(start, n));
        let ghost before = out@;
        out.push(w);
        assert(string_views(out@) =~= string_views(before).push(w@));
    } else {
        assert(string_views(out@) =~= string_views(out@) + Seq::<Seq<char>>::empty());
    }
    out
}

/// The tokens that a command grammar reads for a slash command named
/// `command` with the text `text` typed after it, if any.
pub fn command_line(command: &str, text: Option<&str>) -> (r: Vec<String>)
    ensures
        string_views(r@) == command_tokens(
            command@,
            match text {
                Some(t) => Some(t@),
                None => None,
            },
        ),
{
    let mut line = String::from_str("plura ");
    line.append(strip_command_slashes(command));
    match text {
        Some(t) => {
            line.append(" ");
            line.append(t);
        },
        None => {},
    }
    split_words(line.as_str())
}

/// A handler category whose failure a command reports.
#[derive(Clone, Copy, Debug, PartialEq, Eq, Structural)]
pub enum CommandError {
    Members,
    Triggers,
    System,
    Aliases,
}

/// The description of a command failure.
pub open spec fn command_error_text(e: CommandError) -> Seq<char> {
    match e {
        CommandError::Members => "Error running the members command"@,
        CommandError::Triggers => "Error running the triggers command"@,
        CommandError::System => "Error running the system command"@,
        CommandError::Aliases => "Error running the aliases command"@,
    }
}

impl CommandError {
    /// The description of this failure.
    pub fn message(&self) -> (r: String)
        ensures
            r@ == command_error_text(*self),
    {
        match self {
            CommandError::Members => String::from_str("Error running the members command"),
            CommandError::Triggers => String::from_str("Error running the triggers command"),
            CommandError::System => String::from_str("Error running the system command"),
            CommandError::Aliases => String::from_str("Error running the aliases command"),
        }
    }
}

/// The top-level verbs of the command grammar.
#[derive(Clone, Copy, Debug, PartialEq, Eq, Structural)]
pub enum Verb {
    Members,
    System,
    Triggers,
    Aliases,
    Explain,
}

/// The body of a reply: plain text, or one section of markdown text.
#[derive(Clone, Debug)]
pub enum ResponseBody {
    Text(String),
    Markdown(String),
}

/// A reply to a slash command.
#[derive(Clone, Debug)]
pub struct CommandResponse {
    pub body: ResponseBody,
    /// Shown to the whole channel rather than to the caller alone.
    pub in_channel: bool,
}

/// What a reply holds, with its text as characters.
pub struct ResponseView {
    pub markdown: bool,
    pub text: Seq<char>,
    pub in_channel: bool,
}

impl View for CommandResponse {
    type V = ResponseView;

    open spec fn view(&self) -> ResponseView {
        match self.body {
            ResponseBody::Text(t) => ResponseView { markdown: false, text: t@, in_channel: self.in_channel },
            ResponseBody::Markdown(t) => ResponseView { markdown: true, text: t@, in_channel: self.in_channel },
        }
    }
}

/// What is logged about a command's outcome.
#[derive(Clone, Copy, Debug, PartialEq, Eq, Structural)]
pub enum LogNote {
    /// Nothing: the command ran, or the user asked for help or the version.
    Quiet,
    /// The text did not match the grammar; most likely the user's mistake.
    UserMistake,
    /// The handler of this category failed; logged in full, masked in the reply.
    HandlerFailed(CommandError),
}

/// The one reply to a command, and what is logged about it.
pub struct CommandOutcome {
    pub response: CommandResponse,
    pub log: LogNote,
}

/// Why the grammar did not yield a command.
#[derive(Clone, Copy, Debug, PartialEq, Eq, Structural)]
pub enum ParseFailureKind {
    /// Help was asked for, or shown because a subcommand or argument is missing.
    Help,
    /// The version was asked for.
    Version,
    /// The text does not match the grammar.
    Invalid,
}

/// Where a verb goes.
pub enum Dispatch {
    /// Run the handler of this category; a failure is reported under it.
    Handler(CommandError),
    /// Reply with this, running no handler.
    Reply(CommandResponse),
}

/// The explanation of this bot.
pub open spec fn explain_text() -> Seq<char> {
    "Slack System Bot is a bot that can replace user-sent messages under a \"pseudo-account\" of a systems member profile using custom display information.\n\nThis is useful for multiple people sharing one body (aka. systems), people who wish to role-play as different characters without having multiple Slack profiles, or anyone else who may want to post messages under a different identity from the same Slack account.\n\nDue to Slack's limitations, these messages will show up with the [APP] tag - however, they are not apps/bots. You can use message actions to find who the message was sent by.\n\nIf you wish to use the bot yourself, you can start with `/system help` and `/members help`.\n"@
}

/// The reply when a handler failed: it names no detail.
pub open spec fn handler_failure_text() -> Seq<char> {
    "Error running command! The details were logged for the developers."@
}

/// The explanation of this bot, as a reply to the whole channel.
pub fn explain() -> (r: CommandResponse)
    ensures
        r@ == (ResponseView { markdown: false, text: explain_text(), in_channel: true }),
{
    CommandResponse {
        body: ResponseBody::Text(
            String::from_str(
                "Slack System Bot is a bot that can replace user-sent messages under a \"pseudo-account\" of a systems member profile using custom display information.\n\nThis is useful for multiple people sharing one body (aka. systems), people who wish to role-play as different characters without having multiple Slack profiles, or anyone else who may want to post messages under a different identity from the same Slack account.\n\nDue to Slack's limitations, these messages will show up with the [APP] tag - however, they are not apps/bots. You can use message actions to find who the message was sent by.\n\nIf you wish to use the bot yourself, you can start with `/system help` and `/members help`.\n",
            ),
        ),
        in_channel: true,
    }
}

impl Verb {
    /// The handler category of a verb; `explain` has none.
    pub open spec fn category(self) -> Option<CommandError> {
        match self {
            Verb::Members => Some(CommandError::Members),
            Verb::System => Some(CommandError::System),
            Verb::Triggers => Some(CommandError::Triggers),
            Verb::Aliases => Some(CommandError::Aliases),
            Verb::Explain => None,
        }
    }

    /// Where this verb goes: its handler, or for `explain` the explanation.
    pub fn dispatch(&self) -> (r: Dispatch)
        ensures
            match self.category() {
                Some(e) => r == Dispatch::Handler(e),
                None => r matches Dispatch::Reply(resp) && resp@ == (ResponseView {
                    markdown: false,
                    text: explain_text(),
                    in_channel: true,
                }),
            },
    {
        match self {
            Verb::Members => Dispatch::Handler(CommandError::Members),
            Verb::System => Dispatch::Handler(CommandError::System),
            Verb::Triggers => Dispatch::Handler(CommandError::Triggers),
            Verb::Aliases => Dispatch::Handler(CommandError::Aliases),
            Verb::Explain => Dispatch::Reply(explain()),
        }
    }
}

/// What is logged when the grammar refuses a command: only an invalid text,
/// as the user's mistake.
pub open spec fn parse_failure_log(kind: ParseFailureKind) -> LogNote {
    if kind == ParseFailureKind::Invalid {
        LogNote::UserMistake
    } else {
        LogNote::Quiet
    }
}

/// The outcome of a command that the grammar refused: the rendered help,
/// usage or error text as markdown. Only an invalid text is logged, as the
/// user's mistake; no parse failure is ever reported as a handler failure.
pub fn parse_failure_outcome(kind: ParseFailureKind, rendered: String) -> (r: CommandOutcome)
    ensures
        r.response@ == (ResponseView { markdown: true, text: rendered@, in_channel: false }),
        r.log == parse_failure_log(kind),
        !(r.log is HandlerFailed),
{
    let log = match kind {
        ParseFailureKind::Invalid => LogNote::UserMistake,
        ParseFailureKind::Help | ParseFailureKind::Version => LogNote::Quiet,
    };
    CommandOutcome {
        response: CommandResponse { body: ResponseBody::Markdown(rendered), in_channel: false },
        log,
    }
}

/// The outcome of a command that ran: its reply, or on a handler failure a
/// masked reply and a log note that names the category.
pub fn run_outcome(result: Result<CommandResponse, CommandError>) -> (r: CommandOutcome)
    ensures
        match result {
            Ok(resp) => r.response@ == resp@ && r.log == LogNote::Quiet,
            Err(e) => r.response@ == (ResponseView {
                markdown: false,
                text: handler_failure_text(),
                in_channel: false,
            }) && r.log == LogNote::HandlerFailed(e),
        },
{
    match result {
        Ok(resp) => CommandOutcome { response: resp, log: LogNote::Quiet },
        Err(e) => CommandOutcome {
            response: CommandResponse {
                body: ResponseBody::Text(
                    String::from_str(
                        "Error running command! The details were logged for the developers.",
                    ),
                ),
                in_channel: false,
            },
            log: LogNote::HandlerFailed(e),
        },
    }
}

/// A help or version request never yields a handler failure and is never
/// logged as the user's mistake.
pub proof fn help_is_never_a_mistake(kind: ParseFailureKind)
    requires
        kind != ParseFailureKind::Invalid,
    ensures
        parse_failure_log(kind) == LogNote::Quiet,
{
}

/// A text that ends in a non-whitespace character has a word.
proof fn lemma_words_nonempty(s: Seq<char>)
    requires
        s.len() > 0,
        !is_space(s.last()),
    ensures
        words(s).len() > 0,
    decreases s.len(),
{
    if s.len() >= 2 && !is_space(s[s.len() - 2]) {
        lemma_words_nonempty(s.drop_last());
    }
}

/// A whitespace character splits a text into the words before and after it.
proof fn lemma_words_concat(a: Seq<char>, sp: char, b: Seq<char>)
    requires
        is_space(sp),
    ensures
        words(a + seq![sp] + b) == words(a) + words(b),
    decreases b.len(),
{
    let s = a + seq![sp] + b;
    if b.len() == 0 {
        assert(s.drop_last() =~= a);
        assert(words(b) =~= Seq::<Seq<char>>::empty());
        assert(words(a) + words(b) =~= words(a));
    } else {
        let bd = b.drop_last();
        assert(s.drop_last() =~= a + seq![sp] + bd);
        lemma_words_concat(a, sp, bd);
        let c = b.last();
        assert(s.last() == c);
        if is_space(c) {
        } else if b.len() >= 2 && !is_space(b[b.len() - 2]) {
            assert(s[s.len() - 2] == b[b.len() - 2]);
            lemma_words_nonempty(bd);
            assert(bd.last() == b[b.len() - 2]);
            let p = words(bd);
            assert((words(a) + p).update(words(a).len() + p.len() - 1, p.last().push(c)) =~= words(
                a,
            ) + p.update(p.len() - 1, p.last().push(c)));
        } else {
            if b.len() >= 2 {
                assert(s[s.len() - 2] == b[b.len() - 2]);
            } else {
                assert(s[s.len() - 2] == sp);
            }
            assert((words(a) + words(bd)).push(seq![c]) =~= words(a) + words(bd).push(seq![c]));
        }
    }
}

/// The tokens of a slash command are the program name, the words of the
/// command name without its leading slashes, then the words of the text.
/// They depend on the command and the text alone.
pub proof fn command_tokens_are_program_command_and_text(
    command: Seq<char>,
    text: Option<Seq<char>>,
)
    ensures
        command_tokens(command, text) == seq!["plura"@] + words(strip_slashes(command)) + match text {
            Some(t) => words(t),
            None => Seq::empty(),
        },
{
    reveal_strlit("plura ");
    reveal_strlit("plura");
    reveal_strlit(" ");
    let plura = "plura"@;
    assert(plura =~= seq!['p', 'l', 'u', 'r', 'a']);
    let p1 = seq!['p'];
    let p2 = seq!['p', 'l'];
    let p3 = seq!['p', 'l', 'u'];
    let p4 = seq!['p', 'l', 'u', 'r'];
    assert(p1.drop_last() =~= Seq::<char>::empty());
    assert(words(Seq::<char>::empty()) =~= Seq::<Seq<char>>::empty());
    assert(!is_space('p') && !is_space('l') && !is_space('u') && !is_space('r') && !is_space('a'));
    assert(p1.last() == 'p');
    assert(p2.last() == 'l' && p2[0] == 'p');
    assert(p1.push('l') =~= p2);
    assert(p2.push('u') =~= p3);
    assert(p3.push('r') =~= p4);
    assert(p4.push('a') =~= plura);
    assert(words(p1) =~= seq![p1]);
    assert(p2.drop_last() =~= p1);
    assert(words(p2) =~= seq![p2]);
    assert(p3.drop_last() =~= p2);
    assert(words(p3) =~= seq![p3]);
    assert(p4.drop_last() =~= p3);
    assert(words(p4) =~= seq![p4]);
    assert(plura.drop_last() =~= p4);
    assert(words(plura) =~= seq![plura]);
    let cmd = strip_slashes(command);
    match text {
        Some(t) => {
            assert(command_text(command, text) =~= plura + seq![' '] + (cmd + seq![' '] + t));
            lemma_words_concat(plura, ' ', cmd + seq![' '] + t);
            lemma_words_concat(cmd, ' ', t);
            assert(seq![plura] + (words(cmd) + words(t)) =~= seq![plura] + words(cmd) + words(t));
        },
        None => {
            assert(command_text(command, text) =~= plura + seq![' '] + cmd);
            lemma_words_concat(plura, ' ', cmd);
            assert(seq![plura] + words(cmd) =~= seq![plura] + words(cmd) + Seq::<Seq<char>>::empty());
        },
    }
}

} // verus!
