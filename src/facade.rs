//! The query façade's decisions: reading a chat message as a command,
//! choosing what serves it, and the reply that results.
//!
//! The outside work (the media-server probe, looking for an image on disk,
//! the search and the rendering) is done by the caller, which hands its
//! outcome to these functions.
use vstd::prelude::*;

use crate::common::ContentType;
use crate::text::{chars_of, is_white, is_white_char, replace_char, replace_chars, same_chars, slice_chars, string_of, trim, trim_chars};

verus! {

/// The first index from `i` on that holds no white space (or the length).
pub open spec fn skip_white(s: Seq<char>, i: int) -> int
    decreases s.len() - i,
{
    if i < 0 || i >= s.len() || !is_white(s[i]) {
        i
    } else {
        skip_white(s, i + 1)
    }
}

/// The first index from `i` on that holds white space (or the length).
pub open spec fn skip_word(s: Seq<char>, i: int) -> int
    decreases s.len() - i,
{
    if i < 0 || i >= s.len() || is_white(s[i]) {
        i
    } else {
        skip_word(s, i + 1)
    }
}

/// A message is a command when, after optional white space, it holds `/`
/// and a word; the command is that word and the arguments are what follows
/// the white space after it, which must hold no line break.
pub open spec fn command_parts(s: Seq<char>) -> Option<(Seq<char>, Seq<char>)> {
    let a = skip_white(s, 0);
    if a >= s.len() || s[a] != '/' {
        None
    } else {
        let e = skip_word(s, a + 1);
        let f = skip_white(s, e);
        let rest = s.subrange(f, s.len() as int);
        if e == a + 1 || rest.contains('\n') {
            None
        } else {
            Some((s.subrange(a + 1, e), rest))
        }
    }
}

proof fn lemma_skip_white_bounds(s: Seq<char>, i: int)
    requires
        0 <= i <= s.len(),
    ensures
        i <= skip_white(s, i) <= s.len(),
    decreases s.len() - i,
{
    if i < s.len() && is_white(s[i]) {
        lemma_skip_white_bounds(s, i + 1);
    }
}

proof fn lemma_skip_word_bounds(s: Seq<char>, i: int)
    requires
        0 <= i <= s.len(),
    ensures
        i <= skip_word(s, i) <= s.len(),
    decreases s.len() - i,
{
    if i < s.len() && !is_white(s[i]) {
        lemma_skip_word_bounds(s, i + 1);
    }
}

fn skip_white_exec(v: &[char], i: usize) -> (r: usize)
    requires
        i <= v@.len(),
    ensures
        r as int == skip_white(v@, i as int),
        i <= r <= v@.len(),
{
    let mut j = i;
    while j < v.len() && is_white_char(v[j])
        invariant
            i <= j <= v@.len(),
            skip_white(v@, i as int) == skip_white(v@, j as int),
        decreases v.len() - j,
    {
        j = j + 1;
    }
    j
}

fn skip_word_exec(v: &[char], i: usize) -> (r: usize)
    requires
        i <= v@.len(),
    ensures
        r as int == skip_word(v@, i as int),
        i <= r <= v@.len(),
{
    let mut j = i;
    while j < v.len() && !is_white_char(v[j])
        invariant
            i <= j <= v@.len(),
            skip_word(v@, i as int) == skip_word(v@, j as int),
        decreases v.len() - j,
    {
        j = j + 1;
    }
    j
}

fn has_line_break(v: &[char]) -> (r: bool)
    ensures
        r == v@.contains('\n'),
{
    let mut i: usize = 0;
    while i < v.len()
        invariant
            i <= v@.len(),
            forall|k: int| 0 <= k < i ==> v@[k] != '\n',
        decreases v.len() - i,
    {
        if v[i] == '\n' {
            assert(v@[i as int] == '\n');
            return true;
        }
        i = i + 1;
    }
    false
}

/// Read a chat message as `/command args`.
pub fn parse_command(content: &str) -> (r: Option<(String, String)>)
    ensures
        match r {
            Some(p) => command_parts(content@) == Some((p.0@, p.1@)),
            None => command_parts(content@) is None,
        },
{
    let v = chars_of(content);
    let n = v.len();
    let a = skip_white_exec(&v, 0);
    if a >= n || v[a] != '/' {
        return None;
    }
    let e = skip_word_exec(&v, a + 1);
    let f = skip_white_exec(&v, e);
    if e == a + 1 {
        return None;
    }
    let rest = slice_chars(&v, f, n);
    if has_line_break(&rest) {
        return None;
    }
    let command = slice_chars(&v, a + 1, e);
    Some((string_of(&command), string_of(&rest)))
}

/// What serves a command.
#[derive(Debug, Clone, PartialEq, Eq)]
pub enum Route {
    /// Satellite search, with the query text.
    Query(String),
    DxWorld,
    Lotw,
    Qo100,
    /// A command with no handler, with its name.
    Unknown(String),
}

pub open spec fn route_of(command: Seq<char>) -> int {
    if command == "q"@ || command == "query"@ {
        0
    } else if command == "dxw"@ {
        1
    } else if command == "lotw"@ {
        2
    } else if command == "qo100"@ || command == "qo-100"@ {
        3
    } else {
        4
    }
}

fn is_word(v: &[char], s: &str) -> (r: bool)
    ensures
        r == (v@ == s@),
{
    let w = chars_of(s);
    same_chars(v, &w)
}

/// The handler of a command: `q` and `query` search, `dxw`, `lotw`, `qo100`
/// and `qo-100` return a feed image; names are case-sensitive.
pub fn route_command(command: &str, args: &str) -> (r: Route)
    ensures
        route_of(command@) == 0 ==> (r matches Route::Query(a) && a@ == args@),
        route_of(command@) == 1 ==> r == Route::DxWorld,
        route_of(command@) == 2 ==> r == Route::Lotw,
        route_of(command@) == 3 ==> r == Route::Qo100,
        route_of(command@) == 4 ==> (r matches Route::Unknown(c) && c@ == command@),
{
    let v = chars_of(command);
    if is_word(&v, "q") || is_word(&v, "query") {
        let a = chars_of(args);
        Route::Query(string_of(&a))
    } else if is_word(&v, "dxw") {
        Route::DxWorld
    } else if is_word(&v, "lotw") {
        Route::Lotw
    } else if is_word(&v, "qo100") || is_word(&v, "qo-100") {
        Route::Qo100
    } else {
        Route::Unknown(string_of(&v))
    }
}

/// The reply to a chat message (the caller adds its message id).
#[derive(Debug, Clone)]
pub struct MessageReply {
    pub success: bool,
    pub message: String,
    pub content_type: ContentType,
}

/// `file:///` followed by the path with `/` for every `\`.
pub open spec fn file_url(path: Seq<char>) -> Seq<char> {
    "file:///"@ + replace_char(path, '\\', '/')
}

fn concat_text(a: &str, b: &[char]) -> (r: String)
    ensures
        r@ == a@ + b@,
{
    let mut v = chars_of(a);
    let mut i: usize = 0;
    let ghost start = v@;
    while i < b.len()
        invariant
            i <= b@.len(),
            v@ == start + b@.subrange(0, i as int),
        decreases b.len() - i,
    {
        v.push(b[i]);
        i = i + 1;
        assert(v@ =~= start + b@.subrange(0, i as int));
    }
    assert(b@.subrange(0, b@.len() as int) =~= b@);
    string_of(&v)
}

/// A successful image reply for the file at `path`.
pub fn image_reply(path: &str) -> (r: MessageReply)
    ensures
        r.success,
        r.content_type == ContentType::Image,
        r.message@ == file_url(path@),
{
    let v = chars_of(path);
    let fixed = replace_chars(&v, '\\', '/');
    MessageReply { success: true, message: concat_text("file:///", &fixed), content_type: ContentType::Image }
}

/// A text reply.
pub fn text_reply(success: bool, message: &str) -> (r: MessageReply)
    ensures
        r.success == success,
        r.content_type == ContentType::Text,
        r.message@ == message@,
{
    MessageReply { success, message: String::from_str(message), content_type: ContentType::Text }
}

/// The feeds whose latest image a command returns.
#[derive(Debug, Clone, Copy, PartialEq, Eq, Structural)]
pub enum Feed {
    DxWorld,
    Lotw,
    Qo100,
}

pub open spec fn feed_missing_text(f: Feed) -> Seq<char> {
    match f {
        Feed::DxWorld => "DXW image not found or media server down."@,
        Feed::Lotw => "LoTW image not found or media server down."@,
        Feed::Qo100 => "QO-100 image not found or media server down."@,
    }
}

/// The reply to a feed command: the latest image where it exists and the
/// media server answers, else a failure text.
pub fn feed_reply(feed: Feed, latest_path: &str, image_exists: bool, media_up: bool) -> (r: MessageReply)
    ensures
        image_exists && media_up ==> r.success && r.content_type == ContentType::Image && r.message@
            == file_url(latest_path@),
        !(image_exists && media_up) ==> !r.success && r.content_type == ContentType::Text
            && r.message@ == feed_missing_text(feed),
{
    if image_exists && media_up {
        image_reply(latest_path)
    } else {
        match feed {
            Feed::DxWorld => text_reply(false, "DXW image not found or media server down."),
            Feed::Lotw => text_reply(false, "LoTW image not found or media server down."),
            Feed::Qo100 => text_reply(false, "QO-100 image not found or media server down."),
        }
    }
}

/// Text of the reply when the media server does not answer.
pub open spec fn media_down_text() -> Seq<char> {
    "Media server down, please contact rinko@rinkosoft.me"@
}

/// Text of the reply to a search with no query.
pub open spec fn empty_query_text() -> Seq<char> {
    "Please provide a satellite name to query. Example: /q ISS"@
}

/// Text of the reply to a search that found nothing.
pub open spec fn no_match_text() -> Seq<char> {
    "^ ^)/"@
}

/// Text of the reply when an image could not be made.
pub open spec fn render_failed_text() -> Seq<char> {
    "Rinko internal error >_"@
}

/// Whether a satellite query goes ahead: the trimmed query where the media
/// server answers and the query is not blank, else the reply that ends it.
pub fn query_precheck(media_up: bool, query: &str) -> (r: Result<String, MessageReply>)
    ensures
        !media_up ==> (r matches Err(m) && !m.success && m.content_type == ContentType::Text
            && m.message@ == media_down_text()),
        media_up && trim(query@).len() == 0 ==> (r matches Err(m) && !m.success && m.content_type
            == ContentType::Text && m.message@ == empty_query_text()),
        media_up && trim(query@).len() > 0 ==> (r matches Ok(q) && q@ == trim(query@)),
{
    if !media_up {
        return Err(text_reply(false, "Media server down, please contact rinko@rinkosoft.me"));
    }
    let v = chars_of(query);
    let t = trim_chars(&v);
    if t.len() == 0 {
        Err(text_reply(false, "Please provide a satellite name to query. Example: /q ISS"))
    } else {
        Ok(string_of(&t))
    }
}

/// The reply to a satellite query once searched and, where something was
/// found, rendered: the image, or a text where nothing matched or the image
/// could not be made.
pub fn query_result_reply(matches: usize, rendered: Option<&str>) -> (r: MessageReply)
    ensures
        matches == 0 ==> !r.success && r.content_type == ContentType::Text && r.message@
            == no_match_text(),
        matches > 0 && rendered is Some ==> r.success && r.content_type == ContentType::Image
            && r.message@ == file_url(rendered->0@),
        matches > 0 && rendered is None ==> r.success && r.content_type == ContentType::Text
            && r.message@ == render_failed_text(),
{
    if matches == 0 {
        return text_reply(false, "^ ^)/");
    }
    match rendered {
        Some(path) => image_reply(path),
        None => text_reply(true, "Rinko internal error >_"),
    }
}

/// Text of the reply to a message that is no command.
pub open spec fn parse_failed_text() -> Seq<char> {
    "Command Parse failed, please check your input."@
}

/// The reply to a command that has no handler: `Unknown command: /name`.
pub fn unknown_command_reply(command: &str) -> (r: MessageReply)
    ensures
        !r.success,
        r.content_type == ContentType::Text,
        r.message@ == "Unknown command: /"@ + command@,
{
    let v = chars_of(command);
    MessageReply { success: false, message: concat_text("Unknown command: /", &v), content_type: ContentType::Text }
}

/// The reply to a message that is no command.
pub fn parse_failed_reply() -> (r: MessageReply)
    ensures
        !r.success,
        r.content_type == ContentType::Text,
        r.message@ == parse_failed_text(),
{
    text_reply(false, "Command Parse failed, please check your input.")
}

} // verus!
