//! Notices to the user, and the launch agent that checks the watchlist once a
//! day.

use vstd::prelude::*;
use crate::model::text_if_any;
use crate::text::{contains_text, occurs_at, occurs_in};

verus! {

/// A hexadecimal digit, in lowercase.
pub open spec fn hex_char(n: int) -> char {
    if n < 10 {
        (48 + n) as char
    } else {
        (87 + n) as char
    }
}

/// How a character is written in a JSON string.
pub open spec fn json_char(c: char) -> Seq<char> {
    if c == '"' {
        seq!['\\', '"']
    } else if c == '\\' {
        seq!['\\', '\\']
    } else if c == '\u{8}' {
        seq!['\\', 'b']
    } else if c == '\t' {
        seq!['\\', 't']
    } else if c == '\n' {
        seq!['\\', 'n']
    } else if c == '\u{c}' {
        seq!['\\', 'f']
    } else if c == '\r' {
        seq!['\\', 'r']
    } else if 32 > c as int {
        seq!['\\', 'u', '0', '0', hex_char(c as int / 16), hex_char(c as int % 16)]
    } else {
        seq![c]
    }
}

/// How the characters of a text are written in a JSON string.
pub open spec fn json_chars(text: Seq<char>) -> Seq<char>
    decreases text.len(),
{
    if text.len() == 0 {
        seq![]
    } else {
        json_char(text[0]) + json_chars(text.drop_first())
    }
}

/// A text as a JSON string.
pub open spec fn json_quoted(text: Seq<char>) -> Seq<char> {
    seq!['"'] + json_chars(text) + seq!['"']
}

/// `serde_json::to_string` of a text: the text between quotes, with quotes,
/// backslashes and control characters escaped. It does not fail for a text.
#[verifier::external_body]
fn quote(text: &str) -> (r: Option<String>)
    ensures
        text_if_any(r) == Some(json_quoted(text@)),
{
    serde_json::to_string(text).ok()
}

/// The AppleScript that shows a notice.
pub open spec fn notice_script(title: Seq<char>, body: Seq<char>) -> Seq<char> {
    "display notification "@ + json_quoted(body) + " with title "@ + json_quoted(title)
}

/// The AppleScript that shows a notice.
pub fn notification_script(title: &str, body: &str) -> (r: String)
    ensures
        r@ == notice_script(title@, body@),
{
    let mut out = "display notification ".to_owned();
    if let Some(q) = quote(body) {
        out.append(q.as_str());
    }
    out.append(" with title ");
    if let Some(q) = quote(title) {
        out.append(q.as_str());
    }
    out
}

/// The notice that a watched domain has become available.
pub fn freed_notice(domain: &str) -> (r: String)
    ensures
        r@ == domain@ + " is now available to register!"@,
{
    let mut out = domain.to_owned();
    out.append(" is now available to register!");
    out
}

/// The notice for the first domain that is put on the list.
pub fn first_watch_notice(domain: &str) -> (r: String)
    ensures
        r@ == "Now watching "@ + domain@ + " — you'll be notified when it's available."@,
{
    let mut out = "Now watching ".to_owned();
    out.append(domain);
    out.append(" — you'll be notified when it's available.");
    out
}

/// The launch agent's file up to the program it runs.
pub const AGENT_HEAD: &'static str = "<?xml version=\"1.0\" encoding=\"UTF-8\"?>
<!DOCTYPE plist PUBLIC \"-//Apple//DTD PLIST 1.0//EN\" \"http://www.apple.com/DTDs/PropertyList-1.0.dtd\">
<plist version=\"1.0\">
<dict>
    <key>Label</key><string>com.dott.watch</string>
    <key>ProgramArguments</key>
    <array>
        <string>";

/// The launch agent's file after the program it runs.
pub const AGENT_TAIL: &'static str = "</string>
        <string>--background-check</string>
    </array>
    <key>StartCalendarInterval</key>
    <dict><key>Hour</key><integer>9</integer><key>Minute</key><integer>0</integer></dict>
</dict>
</plist>";

/// The launch agent's file for a program.
pub open spec fn agent_file(binary: Seq<char>) -> Seq<char> {
    AGENT_HEAD@ + binary + AGENT_TAIL@
}

/// What to do about the launch agent.
pub enum AgentPlan {
    /// It runs this program already.
    Keep,
    /// Its file is to be written, after the agent that was there is unloaded.
    Write { unload: bool, file: String },
}

/// What to do about the launch agent, as texts.
pub enum Agent {
    Keep,
    Write { unload: bool, file: Seq<char> },
}

impl View for AgentPlan {
    type V = Agent;

    open spec fn view(&self) -> Agent {
        match *self {
            AgentPlan::Keep => Agent::Keep,
            AgentPlan::Write { unload, file } => Agent::Write { unload, file: file@ },
        }
    }
}

/// An agent's file that names the program is left alone; any other is replaced.
pub open spec fn agent_plan_of(existing: Option<Seq<char>>, binary: Seq<char>) -> Agent {
    match existing {
        Some(file) => if occurs_in(binary, file) {
            Agent::Keep
        } else {
            Agent::Write { unload: true, file: agent_file(binary) }
        },
        None => Agent::Write { unload: false, file: agent_file(binary) },
    }
}

/// The launch agent's file for a program.
pub fn launch_agent_file(binary: &str) -> (r: String)
    ensures
        r@ == agent_file(binary@),
{
    let mut out = AGENT_HEAD.to_owned();
    out.append(binary);
    out.append(AGENT_TAIL);
    out
}

/// What to do about the launch agent, given its file if there is one.
pub fn plan_launch_agent(existing: Option<&str>, binary: &str) -> (r: AgentPlan)
    ensures
        r@ == agent_plan_of(
            match existing {
                Some(file) => Some(file@),
                None => None,
            },
            binary@,
        ),
{
    match existing {
        Some(file) => if contains_text(file, binary) {
            AgentPlan::Keep
        } else {
            AgentPlan::Write { unload: true, file: launch_agent_file(binary) }
        },
        None => AgentPlan::Write { unload: false, file: launch_agent_file(binary) },
    }
}

/// Law: an agent's file that was written is left alone for as long as the
/// program stays where it is.
pub proof fn law_agent_is_kept(existing: Option<Seq<char>>, binary: Seq<char>)
    ensures
        agent_plan_of(existing, binary) matches Agent::Write { file, .. } ==> agent_plan_of(
            Some(file),
            binary,
        ) == Agent::Keep,
{
    let file = agent_file(binary);
    let n = AGENT_HEAD@.len() as int;
    assert(file.subrange(n, n + binary.len()) =~= binary);
    assert(occurs_at(binary, file, n));
}

/// The quote that a character is written with has a backslash before it.
proof fn lemma_quote_escaped(c: char, i: int)
    requires
        0 <= i < json_char(c).len(),
        json_char(c)[i] == '"',
    ensures
        i == 1 && json_char(c)[0] == '\\',
{
    if 32 > c as int {
        assert(0 <= c as int);
        assert(0 <= c as int / 16 < 2);
        assert(0 <= c as int % 16 < 16);
    }
}

/// Law: within a text that is quoted, every quote has a backslash before it.
pub proof fn law_quoted(text: Seq<char>, i: int)
    requires
        0 <= i < json_chars(text).len(),
        json_chars(text)[i] == '"',
    ensures
        i > 0 && json_chars(text)[i - 1] == '\\',
    decreases text.len(),
{
    if text.len() > 0 {
        let head = json_char(text[0]);
        let rest = text.drop_first();
        let tail = json_chars(rest);
        if i < head.len() {
            assert(head[i] == '"');
            assert(i == 1 && head[0] == '\\') by {
                lemma_quote_escaped(text[0], i);
            }
        } else {
            law_quoted(rest, i - head.len());
            assert(tail[i - head.len() - 1] == json_chars(text)[i - 1]);
        }
    }
}

/// Law: the agent is left alone exactly where its file names the program, and
/// one that is there and does not is unloaded first. What is written is the file
/// for the program.
pub proof fn law_agent_plan(existing: Option<Seq<char>>, binary: Seq<char>)
    ensures
        agent_plan_of(existing, binary) is Keep <==> (existing matches Some(file) && occurs_in(
            binary,
            file,
        )),
        agent_plan_of(existing, binary) matches Agent::Write { unload, file } ==> (unload
            <==> existing is Some) && file == agent_file(binary) && occurs_in(binary, file),
{
    let file = agent_file(binary);
    let n = AGENT_HEAD@.len() as int;
    assert(file.subrange(n, n + binary.len()) =~= binary);
    assert(occurs_at(binary, file, n));
}

/// Law: the files for two programs differ in the program alone.
pub proof fn law_agent_files(a: Seq<char>, b: Seq<char>)
    ensures
        exists|head: Seq<char>, tail: Seq<char>|
            agent_file(a) == #[trigger] (head + a + tail) && agent_file(b) == head + b + tail,
{
    assert(agent_file(a) == AGENT_HEAD@ + a + AGENT_TAIL@);
}

/// Law: a notice is its body and its title, each in quotes and in this order.
pub proof fn law_notice(title: Seq<char>, body: Seq<char>)
    ensures
        notice_script(title, body) == "display notification "@ + (seq!['"'] + json_chars(body)
            + seq!['"']) + " with title "@ + (seq!['"'] + json_chars(title) + seq!['"']),
{
}

/// Law: texts are quoted part by part.
pub proof fn law_quoted_parts(a: Seq<char>, b: Seq<char>)
    ensures
        json_chars(a + b) == json_chars(a) + json_chars(b),
    decreases a.len(),
{
    if a.len() == 0 {
        assert(a + b =~= b);
        assert(json_chars(a) + json_chars(b) =~= json_chars(b));
    } else {
        law_quoted_parts(a.drop_first(), b);
        assert((a + b).drop_first() =~= a.drop_first() + b);
        assert(json_char(a[0]) + (json_chars(a.drop_first()) + json_chars(b)) =~= json_char(a[0])
            + json_chars(a.drop_first()) + json_chars(b));
    }
}

} // verus!
