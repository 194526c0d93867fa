//! Commit messages that are written for the user from the staged changes.

use crate::text::{self, bytes_in, can_cut, split_once, take_bytes, trimmed, trimmed_end};
use vstd::prelude::*;
use vstd::string::*;

verus! {

/// Which AI backend to use for commit message generation.
#[derive(Debug, Clone, Copy, PartialEq, Eq, Structural)]
pub enum AiProvider {
    ClaudeCli,
}

/// The program that writes commit messages on the command line.
#[derive(Debug)]
pub struct Assistant {
    /// What it is run as.
    pub program: String,
    /// What it goes by.
    pub name: String,
    /// Where its installation is explained.
    pub guide: String,
}

/// Input for AI commit message generation.
#[derive(Debug)]
pub struct AiRequest {
    pub diff_text: String,
    pub branch: String,
}

/// Parsed AI response with subject and optional body.
#[derive(Debug)]
pub struct AiResponse {
    pub subject: String,
    pub body: String,
}

/// What came of running the program that writes the message.
#[derive(Debug)]
pub enum CliRun {
    /// The program was not found.
    NotFound,
    /// It could not be run, for this reason.
    NotRun(String),
    /// It ended with an error and said this.
    Failed(String),
    /// It ended well and said this.
    Output(String),
}

/// The longest subject, in bytes.
pub const MAX_SUBJECT: usize = 72;

/// What the program is asked.
pub open spec fn prompt_text(branch: Seq<char>, diff: Seq<char>) -> Seq<char> {
    "Generate a git commit message for the following staged diff.\nBranch: "@ + branch
        + "\n\nRules:\n- Write an imperative subject line, max 72 characters\n- Optionally add a body separated by a blank line for complex changes\n- No markdown formatting, no prefixes like \"feat:\" or \"fix:\"\n- Be concise and specific about what changed\n- Output ONLY the commit message, nothing else\n\nDiff:\n"@
        + diff
}

/// The arguments that the program is run with.
pub fn claude_args(request: &AiRequest) -> (r: Vec<String>)
    ensures
        text::views(r@) == seq![
            "-p"@,
            prompt_text(request.branch@, request.diff_text@),
            "--model"@,
            "haiku"@,
            "--output-format"@,
            "json"@,
        ],
{
    let mut prompt =
        "Generate a git commit message for the following staged diff.\nBranch: ".to_owned();
    prompt.append(request.branch.as_str());
    prompt.append(
        "\n\nRules:\n- Write an imperative subject line, max 72 characters\n- Optionally add a body separated by a blank line for complex changes\n- No markdown formatting, no prefixes like \"feat:\" or \"fix:\"\n- Be concise and specific about what changed\n- Output ONLY the commit message, nothing else\n\nDiff:\n",
    );
    prompt.append(request.diff_text.as_str());
    let mut args: Vec<String> = Vec::new();
    args.push("-p".to_owned());
    args.push(prompt);
    args.push("--model".to_owned());
    args.push("haiku".to_owned());
    args.push("--output-format".to_owned());
    args.push("json".to_owned());
    assert(text::views(args@) =~= seq![
        "-p"@,
        prompt_text(request.branch@, request.diff_text@),
        "--model"@,
        "haiku"@,
        "--output-format"@,
        "json"@,
    ]);
    args
}

/// The program, given where it is installed: in the user's own directory before the places
/// where programs are looked for.
pub fn find_claude_binary(
    assistant: &Assistant,
    home: &Option<String>,
    in_home: bool,
    on_path: bool,
) -> (r: Option<String>)
    ensures
        text::opt_view(r) == (if in_home && *home is Some {
            Some(home->0@ + "/.local/bin/"@ + assistant.program@)
        } else if on_path {
            Some(assistant.program@)
        } else {
            None
        }),
{
    if let Some(h) = home {
        if in_home {
            let mut s = h.clone();
            s.append("/.local/bin/");
            s.append(assistant.program.as_str());
            return Some(s);
        }
    }
    if on_path {
        Some(assistant.program.clone())
    } else {
        None
    }
}

/// What `serde_json` reads in a JSON text: the text of the member `key` of the object that it
/// is, none where there is no such member or it is no text; or why it is no JSON text.
pub uninterp spec fn json_text_member(json: Seq<char>, key: Seq<char>) -> Result<
    Option<Seq<char>>,
    Seq<char>,
>;

/// `serde_json::from_str` into a `serde_json::Value`, of which `get` and `as_str` then take a
/// member that is a text. What comes out is a function of the two texts alone, named
/// `json_text_member`; nothing else is claimed of it.
#[verifier::external_body]
fn read_text_member(json: &str, key: &str) -> (r: Result<Option<String>, String>)
    ensures
        match r {
            Ok(v) => json_text_member(json@, key@) == Ok::<Option<Seq<char>>, Seq<char>>(
                text::opt_view(v),
            ),
            Err(e) => json_text_member(json@, key@) == Err::<Option<Seq<char>>, Seq<char>>(e@),
        },
{
    match serde_json::from_str::<serde_json::Value>(json) {
        Ok(v) => Ok(v.get(key).and_then(|m| m.as_str()).map(|s| s.to_owned())),
        Err(e) => Err(e.to_string()),
    }
}

/// The subject before it is shortened, and the body.
pub open spec fn subject_and_body(message: Seq<char>) -> (Seq<char>, Seq<char>) {
    let t = text::trim(message);
    match text::cut(t, "\n\n"@) {
        Some((subject, body)) => (text::trim(subject), text::trim(body)),
        None => (t, ""@),
    }
}

/// Whether the subject of a message is short enough, or can be cut where it has to be.
pub open spec fn subject_fits(message: Seq<char>) -> bool {
    let subject = subject_and_body(message).0;
    text::byte_len(subject) > MAX_SUBJECT ==> text::cuts_at(subject, MAX_SUBJECT as nat)
}

/// The subject of a message, shortened where it is too long.
pub open spec fn short_subject(message: Seq<char>) -> Seq<char> {
    let subject = subject_and_body(message).0;
    if text::byte_len(subject) > MAX_SUBJECT {
        text::trim_end(text::first_bytes(subject, MAX_SUBJECT as nat))
    } else {
        subject
    }
}

fn split_message(message: &str) -> (r: (String, String))
    ensures
        r.0@ == subject_and_body(message@).0,
        r.1@ == subject_and_body(message@).1,
{
    let t = trimmed(message);
    match split_once(t.as_str(), "\n\n") {
        Some((subject, body)) => (trimmed(subject.as_str()), trimmed(body.as_str())),
        None => (t, "".to_owned()),
    }
}

/// The subject and the body of a message: what stands before and behind the first empty
/// line. A subject that is too long is cut.
pub fn response_from_message(message: &str) -> (r: AiResponse)
    requires
        subject_fits(message@),
    ensures
        r.subject@ == short_subject(message@),
        r.body@ == subject_and_body(message@).1,
{
    let (subject, body) = split_message(message);
    let subject = if bytes_in(subject.as_str()) > MAX_SUBJECT {
        trimmed_end(take_bytes(subject.as_str(), MAX_SUBJECT).as_str())
    } else {
        subject
    };
    AiResponse { subject, body }
}

/// No subject is longer than it may be.
pub proof fn subject_is_short(message: Seq<char>)
    requires
        subject_fits(message),
    ensures
        text::byte_len(short_subject(message)) <= MAX_SUBJECT,
{
    let subject = subject_and_body(message).0;
    if text::byte_len(subject) > MAX_SUBJECT {
        text::first_bytes_is_a_prefix(subject, MAX_SUBJECT as nat);
        text::lemma_trim_end_shorter(text::first_bytes(subject, MAX_SUBJECT as nat));
    }
}

/// Whether a response is the message that was read.
pub open spec fn response_is(r: AiResponse, message: Seq<char>) -> bool {
    r.subject@ == short_subject(message) && r.body@ == subject_and_body(message).1
}

/// What comes of what was read in the program's answer.
pub open spec fn answer_gives(
    r: Option<Result<AiResponse, String>>,
    name: Seq<char>,
    read: Result<Option<Seq<char>>, Seq<char>>,
) -> bool {
    match read {
        Err(e) => match r {
            Some(Err(s)) => s@ == "Failed to parse "@ + name + " response: "@ + e,
            _ => false,
        },
        Ok(None) => match r {
            Some(Err(s)) => s@ == name + " response missing 'result' field"@,
            _ => false,
        },
        Ok(Some(message)) => match r {
            Some(Ok(x)) => subject_fits(message) && response_is(x, message),
            Some(Err(_)) => false,
            None => !subject_fits(message),
        },
    }
}

/// What comes of what was read in the program's answer: the message, or what went wrong.
/// `None` where the subject is too long and cannot be cut after its last byte that is kept.
pub fn response_from_answer(
    assistant: &Assistant,
    read: Result<Option<String>, String>,
) -> (r: Option<Result<AiResponse, String>>)
    ensures
        answer_gives(
            r,
            assistant.name@,
            match read {
                Ok(v) => Ok(text::opt_view(v)),
                Err(e) => Err(e@),
            },
        ),
{
    match read {
        Err(e) => {
            let mut s = "Failed to parse ".to_owned();
            s.append(assistant.name.as_str());
            s.append(" response: ");
            s.append(e.as_str());
            Some(Err(s))
        },
        Ok(None) => {
            let mut s = assistant.name.clone();
            s.append(" response missing 'result' field");
            Some(Err(s))
        },
        Ok(Some(message)) => {
            let (subject, _) = split_message(message.as_str());
            if bytes_in(subject.as_str()) > MAX_SUBJECT && !can_cut(
                subject.as_str(),
                MAX_SUBJECT,
            ) {
                return None;
            }
            Some(Ok(response_from_message(message.as_str())))
        },
    }
}

impl AiProvider {
    /// The message for a request, once the program was run with the arguments for it; or what
    /// went wrong. `None` where the subject is too long and cannot be cut.
    pub fn generate_commit_message(&self, assistant: &Assistant, run: CliRun) -> (r: Option<
        Result<AiResponse, String>,
    >)
        ensures
            match run {
                CliRun::NotFound => match r {
                    Some(Err(s)) => s@ == assistant.name@ + " CLI not found. Install it from "@
                        + assistant.guide@,
                    _ => false,
                },
                CliRun::NotRun(e) => match r {
                    Some(Err(s)) => s@ == "Failed to run "@ + assistant.program@ + ": "@ + e@,
                    _ => false,
                },
                CliRun::Failed(stderr) => match r {
                    Some(Err(s)) => s@ == assistant.name@ + " CLI failed: "@ + text::trim(stderr@),
                    _ => false,
                },
                CliRun::Output(stdout) => answer_gives(
                    r,
                    assistant.name@,
                    json_text_member(stdout@, "result"@),
                ),
            },
    {
        match run {
            CliRun::NotFound => {
                let mut s = assistant.name.clone();
                s.append(" CLI not found. Install it from ");
                s.append(assistant.guide.as_str());
                Some(Err(s))
            },
            CliRun::NotRun(e) => {
                let mut s = "Failed to run ".to_owned();
                s.append(assistant.program.as_str());
                s.append(": ");
                s.append(e.as_str());
                Some(Err(s))
            },
            CliRun::Failed(stderr) => {
                let mut s = assistant.name.clone();
                s.append(" CLI failed: ");
                s.append(trimmed(stderr.as_str()).as_str());
                Some(Err(s))
            },
            CliRun::Output(stdout) => {
                let read = read_text_member(stdout.as_str(), "result");
                response_from_answer(assistant, read)
            },
        }
    }

    /// What is said where the provider is named.
    pub fn display_name(&self, assistant: &Assistant) -> (r: String)
        ensures
            r@ == assistant.name@ + " CLI"@,
    {
        let mut s = assistant.name.clone();
        s.append(" CLI");
        s
    }

    /// Parse a config string into an AiProvider. What is not known stands for the default,
    /// which is the only one there is.
    pub fn from_config(_s: &str) -> (r: Self)
        ensures
            r == AiProvider::ClaudeCli,
    {
        AiProvider::ClaudeCli
    }
}

/// A message is parted at its first empty line: the subject stands before it and the body after
/// it, each without the white space around it. A message without an empty line is all subject.
pub proof fn the_message_is_parted_at_its_empty_line(message: Seq<char>)
    ensures
        ({
            let (subject, body) = subject_and_body(message);
            let t = text::trim(message);
            ||| exists|a: Seq<char>, b: Seq<char>|
                {
                    &&& t == #[trigger] (a + "\n\n"@ + b)
                    &&& subject == text::trim(a)
                    &&& body == text::trim(b)
                    &&& forall|c: Seq<char>, d: Seq<char>|
                        t == #[trigger] (c + "\n\n"@ + d) ==> c.len() >= a.len()
                }
            ||| {
                &&& forall|a: Seq<char>, b: Seq<char>| t != #[trigger] (a + "\n\n"@ + b)
                &&& subject == t
                &&& body == ""@
            }
        }),
{
    text::cutting_parts_at_the_first_mark(text::trim(message), "\n\n"@);
}

/// A subject that fits is kept whole, and of one that does not, its beginning is.
pub proof fn a_subject_that_fits_is_kept(message: Seq<char>)
    requires
        subject_fits(message),
    ensures
        text::byte_len(subject_and_body(message).0) <= 72 ==> short_subject(message)
            == subject_and_body(message).0,
        short_subject(message).is_prefix_of(subject_and_body(message).0),
{
    let subject = subject_and_body(message).0;
    assert(subject =~= subject.take(subject.len() as int));
    if text::byte_len(subject) > MAX_SUBJECT {
        let p = text::first_bytes(subject, MAX_SUBJECT as nat);
        text::first_bytes_is_a_prefix(subject, MAX_SUBJECT as nat);
        text::lemma_trim_end_is_prefix(p);
        let r = text::trim_end(p);
        assert(subject.subrange(0, p.len() as int) =~= subject.take(p.len() as int));
        assert(r =~= p.take(r.len() as int));
        assert(r =~= subject.take(r.len() as int));
    }
}

/// The answer is taken as it came: a message gives its subject and its body, an answer without
/// one or one that cannot be read gives an error that names the assistant.
pub proof fn the_answer_is_taken_as_it_came(
    r: Option<Result<AiResponse, String>>,
    name: Seq<char>,
    message: Seq<char>,
    reason: Seq<char>,
)
    ensures
        answer_gives(r, name, Ok(Some(message))) && subject_fits(message) ==> r is Some && r->0
            is Ok && r->0->Ok_0.subject@ == short_subject(message) && r->0->Ok_0.body@
            == subject_and_body(message).1,
        answer_gives(r, name, Ok(None)) ==> r is Some && r->0 is Err && r->0->Err_0@ == name
            + " response missing 'result' field"@,
        answer_gives(r, name, Err(reason)) ==> r is Some && r->0 is Err && r->0->Err_0@
            == "Failed to parse "@ + name + " response: "@ + reason,
{
}

} // verus!
