//! Desktop notifications: the command that shows one on each platform.
use vstd::prelude::*;

use crate::text::{chars_of, copy_str};

verus! {

/// The platform the program runs on, as far as notifications go.
#[derive(Debug, Clone, Copy, PartialEq, Eq, Structural)]
pub enum Platform {
    MacOs,
    Linux,
    Other,
}

/// How one character is written inside an AppleScript string literal.
pub open spec fn escaped_char(c: char) -> Seq<char> {
    if c == '\\' {
        seq!['\\', '\\']
    } else if c == '"' {
        seq!['\\', '"']
    } else {
        seq![c]
    }
}

/// `s` with each backslash and each double quote preceded by a backslash,
/// so that it can stand between double quotes in AppleScript.
pub open spec fn escaped(s: Seq<char>) -> Seq<char>
    decreases s.len(),
{
    if s.len() == 0 {
        Seq::empty()
    } else {
        escaped(s.drop_last()) + escaped_char(s.last())
    }
}

/// How AppleScript reads back the text between the quotes of a string
/// literal, as far as escaped backslashes and quotes go: a backslash stands
/// for the character after it.
pub open spec fn unescaped(s: Seq<char>) -> Seq<char>
    decreases s.len(),
{
    if s.len() == 0 {
        Seq::empty()
    } else if s[0] == '\\' && s.len() >= 2 {
        seq![s[1]] + unescaped(s.subrange(2, s.len() as int))
    } else {
        seq![s[0]] + unescaped(s.drop_first())
    }
}

proof fn lemma_escaped_append(a: Seq<char>, b: Seq<char>)
    ensures
        escaped(a + b) == escaped(a) + escaped(b),
    decreases b.len(),
{
    if b.len() == 0 {
        assert(a + b =~= a);
        assert(escaped(a) + escaped(b) =~= escaped(a));
    } else {
        lemma_escaped_append(a, b.drop_last());
        assert((a + b).drop_last() =~= a + b.drop_last());
        assert(escaped(a) + escaped(b.drop_last()) + escaped_char(b.last()) =~= escaped(a) + (
        escaped(b.drop_last()) + escaped_char(b.last())));
    }
}

/// Escaping loses nothing: read back as AppleScript reads a string literal,
/// the escaped text is the original text.
pub proof fn escape_round_trip(s: Seq<char>)
    ensures
        unescaped(escaped(s)) == s,
    decreases s.len(),
{
    if s.len() > 0 {
        let c = s[0];
        let t = s.drop_first();
        assert(s =~= seq![c] + t);
        lemma_escaped_append(seq![c], t);
        assert(seq![c].drop_last() =~= Seq::<char>::empty());
        assert(seq![c].last() == c);
        assert(escaped(Seq::<char>::empty()) == Seq::<char>::empty());
        assert(escaped(seq![c]) == escaped(Seq::<char>::empty()) + escaped_char(c));
        assert(escaped(seq![c]) =~= escaped_char(c));
        escape_round_trip(t);
        let e = escaped_char(c) + escaped(t);
        if c == '\\' || c == '"' {
            assert(e.subrange(2, e.len() as int) =~= escaped(t));
        } else {
            assert(e.drop_first() =~= escaped(t));
        }
    }
}

/// `s` escaped for an AppleScript string literal.
pub fn escape(s: &str) -> (r: String)
    ensures
        r@ == escaped(s@),
{
    let cs = chars_of(s);
    let mut r = String::new();
    let mut i: usize = 0;
    assert(cs@.take(0) =~= Seq::<char>::empty());
    while i < cs.len()
        invariant
            i <= cs@.len(),
            cs@ == s@,
            r@ == escaped(cs@.take(i as int)),
        decreases cs@.len() - i,
    {
        let c = cs[i];
        assert(cs@.take(i + 1).drop_last() =~= cs@.take(i as int));
        if c == '\\' {
            r.append("\\\\");
        } else if c == '"' {
            r.append("\\\"");
        } else {
            crate::text::push_char(&mut r, c);
        }
        proof {
            reveal_strlit("\\\\");
            reveal_strlit("\\\"");
        }
        assert(r@ =~= escaped(cs@.take(i as int)) + escaped_char(c));
        i = i + 1;
    }
    assert(cs@.take(cs@.len() as int) =~= cs@);
    r
}

/// The AppleScript that shows a notification with this title and body.
pub open spec fn notification_script(title: Seq<char>, body: Seq<char>) -> Seq<char> {
    "display notification \""@ + escaped(body) + "\" with title \""@ + escaped(title) + "\""@
}

/// The script shows the escaped body as the notification's text and the
/// escaped title as its title, each between double quotes.
pub proof fn script_law(title: Seq<char>, body: Seq<char>)
    ensures
        notification_script(title, body) == "display notification \""@ + escaped(body)
            + "\" with title \""@ + escaped(title) + "\""@,
        unescaped(escaped(body)) == body,
        unescaped(escaped(title)) == title,
{
    escape_round_trip(body);
    escape_round_trip(title);
}

/// A program to run, with its arguments.
#[derive(Debug)]
pub struct NotifyCommand {
    pub program: String,
    pub args: Vec<String>,
}

/// The command that shows a desktop notification: `osascript -e <script>` on
/// macOS, `notify-send <title> <body>` on Linux, none elsewhere.
pub fn notify(platform: Platform, title: &str, body: &str) -> (r: Option<NotifyCommand>)
    ensures
        platform == Platform::Other ==> r is None,
        platform == Platform::MacOs ==> (r matches Some(c) && c.program@ == "osascript"@
            && c.args@.len() == 2 && c.args@[0]@ == "-e"@ && c.args@[1]@ == notification_script(
            title@,
            body@,
        )),
        platform == Platform::Linux ==> (r matches Some(c) && c.program@ == "notify-send"@
            && c.args@.len() == 2 && c.args@[0]@ == title@ && c.args@[1]@ == body@),
{
    match platform {
        Platform::MacOs => {
            let mut script = copy_str("display notification \"");
            let b = escape(body);
            script.append(b.as_str());
            script.append("\" with title \"");
            let t = escape(title);
            script.append(t.as_str());
            script.append("\"");
            let mut args: Vec<String> = Vec::new();
            args.push(copy_str("-e"));
            args.push(script);
            Some(NotifyCommand { program: copy_str("osascript"), args })
        },
        Platform::Linux => {
            let mut args: Vec<String> = Vec::new();
            args.push(copy_str(title));
            args.push(copy_str(body));
            Some(NotifyCommand { program: copy_str("notify-send"), args })
        },
        Platform::Other => None,
    }
}

} // verus!
