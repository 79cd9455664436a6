//! Chat commands as the chat front end reads them: a `\` or `/` prefix word
//! followed by arguments.
use vstd::prelude::*;

use crate::text::{chars_of, decimal, decimal_chars, is_white, is_white_char, lower_of, lower_text, same_chars, slice_chars, string_of, trim, trim_chars};

verus! {

/// The kind of a front-end command.
#[derive(Debug, Clone, Copy, PartialEq, Eq, Structural)]
pub enum CommandType {
    Query,
    Image,
    Execute,
    Help,
    Unknown,
}

/// The kind that a prefix word names, ignoring case.
pub open spec fn kind_of_prefix(p: Seq<char>) -> CommandType {
    let l = lower_of(p);
    if l == "\\q"@ || l == "/q"@ {
        CommandType::Query
    } else if l == "\\img"@ || l == "/img"@ {
        CommandType::Image
    } else if l == "\\exec"@ || l == "/exec"@ {
        CommandType::Execute
    } else if l == "\\help"@ || l == "/help"@ {
        CommandType::Help
    } else {
        CommandType::Unknown
    }
}

pub open spec fn kind_name(k: CommandType) -> Seq<char> {
    match k {
        CommandType::Query => "query"@,
        CommandType::Image => "image"@,
        CommandType::Execute => "execute"@,
        CommandType::Help => "help"@,
        CommandType::Unknown => "unknown"@,
    }
}

/// Position of the first white-space character of `s`, or -1.
pub open spec fn first_white(s: Seq<char>) -> int
    decreases s.len(),
{
    if s.len() == 0 {
        -1
    } else if is_white(s[0]) {
        0
    } else if first_white(s.drop_first()) < 0 {
        -1
    } else {
        first_white(s.drop_first()) + 1
    }
}

/// The prefix word of a trimmed message that starts with `\` or `/`, and
/// the text after it.
pub open spec fn split_prefix(t: Seq<char>) -> Option<(Seq<char>, Seq<char>)> {
    if t.len() > 0 && (t[0] == '\\' || t[0] == '/') {
        let p = first_white(t);
        if p >= 0 {
            Some((t.subrange(0, p), t.subrange(p, t.len() as int)))
        } else {
            Some((t, Seq::empty()))
        }
    } else {
        None
    }
}

/// The number of white-space separated words of `s`.
pub open spec fn word_count(s: Seq<char>) -> nat
    decreases s.len(),
{
    if s.len() == 0 {
        0
    } else if !is_white(s.last()) && (s.len() == 1 || is_white(s[s.len() - 2])) {
        word_count(s.drop_last()) + 1
    } else {
        word_count(s.drop_last())
    }
}

/// A message read as a front-end command.
#[derive(Debug, Clone)]
pub struct ParsedCommand {
    pub command_type: CommandType,
    /// The trimmed message.
    pub raw_text: String,
    /// The trimmed text after the prefix word.
    pub arguments: String,
    /// `command_prefix`, `command_type` and `arg_count`, in that order, for
    /// a message with a prefix; empty otherwise.
    pub metadata: Vec<(String, String)>,
}

fn is_text(v: &[char], s: &str) -> (r: bool)
    ensures
        r == (v@ == s@),
{
    let w = chars_of(s);
    same_chars(v, &w)
}

fn first_white_index(v: &[char]) -> (r: Option<usize>)
    ensures
        match r {
            Some(i) => i as int == first_white(v@) && i < v@.len(),
            None => first_white(v@) == -1,
        },
{
    let mut i: usize = 0;
    while i < v.len()
        invariant
            i <= v@.len(),
            forall|k: int| 0 <= k < i ==> !is_white(v@[k]),
        decreases v.len() - i,
    {
        if is_white_char(v[i]) {
            proof {
                lemma_first_white(v@, i as int);
            }
            return Some(i);
        }
        i = i + 1;
    }
    proof {
        lemma_first_white_none(v@);
    }
    None
}

proof fn lemma_first_white(s: Seq<char>, i: int)
    requires
        0 <= i < s.len(),
        is_white(s[i]),
        forall|k: int| 0 <= k < i ==> !is_white(s[k]),
    ensures
        first_white(s) == i,
    decreases i,
{
    if i > 0 {
        lemma_first_white(s.drop_first(), i - 1);
    }
}

proof fn lemma_first_white_none(s: Seq<char>)
    requires
        forall|k: int| 0 <= k < s.len() ==> !is_white(s[k]),
    ensures
        first_white(s) == -1,
    decreases s.len(),
{
    if s.len() > 0 {
        lemma_first_white_none(s.drop_first());
    }
}

fn count_words(v: &[char]) -> (r: usize)
    ensures
        r == word_count(v@),
{
    let mut n: usize = 0;
    let mut i: usize = 0;
    while i < v.len()
        invariant
            i <= v@.len(),
            n == word_count(v@.subrange(0, i as int)),
            n <= i,
        decreases v.len() - i,
    {
        assert(v@.subrange(0, i + 1).drop_last() =~= v@.subrange(0, i as int));
        if !is_white_char(v[i]) && (i == 0 || is_white_char(v[i - 1])) {
            n = n + 1;
        }
        i = i + 1;
    }
    assert(v@.subrange(0, v@.len() as int) =~= v@);
    n
}

impl CommandType {
    /// The kind that a prefix word (`\q`, `/img`, ...) names.
    pub fn from_prefix(prefix: &str) -> (r: CommandType)
        ensures
            r == kind_of_prefix(prefix@),
    {
        let v = chars_of(prefix);
        let l = lower_text(&v);
        if is_text(&l, "\\q") || is_text(&l, "/q") {
            CommandType::Query
        } else if is_text(&l, "\\img") || is_text(&l, "/img") {
            CommandType::Image
        } else if is_text(&l, "\\exec") || is_text(&l, "/exec") {
            CommandType::Execute
        } else if is_text(&l, "\\help") || is_text(&l, "/help") {
            CommandType::Help
        } else {
            CommandType::Unknown
        }
    }

    /// The name of the kind.
    pub fn as_str(&self) -> (r: &'static str)
        ensures
            r@ == kind_name(*self),
    {
        match self {
            CommandType::Query => "query",
            CommandType::Image => "image",
            CommandType::Execute => "execute",
            CommandType::Help => "help",
            CommandType::Unknown => "unknown",
        }
    }
}

impl ParsedCommand {
    /// Read a message as a command. A message whose trimmed text does not
    /// start with `\` or `/` is of kind `Unknown`, with no arguments.
    pub fn parse(text: &str) -> (r: ParsedCommand)
        ensures
            r.raw_text@ == trim(text@),
            match split_prefix(trim(text@)) {
                Some(parts) => {
                    &&& r.command_type == kind_of_prefix(parts.0)
                    &&& r.arguments@ == trim(parts.1)
                    &&& r.metadata@.len() == 3
                    &&& r.metadata@[0].0@ == "command_prefix"@
                    &&& r.metadata@[0].1@ == parts.0
                    &&& r.metadata@[1].0@ == "command_type"@
                    &&& r.metadata@[1].1@ == kind_name(kind_of_prefix(parts.0))
                    &&& r.metadata@[2].0@ == "arg_count"@
                    &&& r.metadata@[2].1@ == decimal(word_count(trim(parts.1)))
                },
                None => {
                    &&& r.command_type == CommandType::Unknown
                    &&& r.arguments@.len() == 0
                    &&& r.metadata@.len() == 0
                },
            },
    {
        let all = chars_of(text);
        let t = trim_chars(&all);
        if t.len() > 0 && (t[0] == '\\' || t[0] == '/') {
            let n = t.len();
            let (prefix, rest) = match first_white_index(&t) {
                Some(p) => (slice_chars(&t, 0, p), slice_chars(&t, p, n)),
                None => (slice_chars(&t, 0, n), Vec::new()),
            };
            assert(t@.subrange(0, n as int) =~= t@);
            let prefix_text = string_of(&prefix);
            let command_type = CommandType::from_prefix(prefix_text.as_str());
            let args = trim_chars(&rest);
            let count = count_words(&args);
            let count_text = decimal_chars(count as u64);
            let mut metadata: Vec<(String, String)> = Vec::new();
            metadata.push((String::from_str("command_prefix"), prefix_text));
            metadata.push((String::from_str("command_type"), String::from_str(command_type.as_str())));
            metadata.push((String::from_str("arg_count"), string_of(&count_text)));
            ParsedCommand {
                command_type,
                raw_text: string_of(&t),
                arguments: string_of(&args),
                metadata,
            }
        } else {
            ParsedCommand {
                command_type: CommandType::Unknown,
                raw_text: string_of(&t),
                arguments: String::new(),
                metadata: Vec::new(),
            }
        }
    }

    /// Whether the message is a command of a known kind.
    pub fn is_command(&self) -> (r: bool)
        ensures
            r == (self.command_type != CommandType::Unknown),
    {
        match self.command_type {
            CommandType::Unknown => false,
            _ => true,
        }
    }
}

} // verus!
