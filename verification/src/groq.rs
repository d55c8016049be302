//! Streaming inference over an OpenAI-compatible event stream.
//!
//! The key comes from `$GROQ_API_KEY`, then from `~/.config/pv/groq_api_key`.

use vstd::prelude::*;

use crate::fixed::{digit_of, digits_value, hex, hexadecimal, parse_hex, parsed};
use crate::net::{
    breaks_out, post_args, spawn_streaming_post, token_path, write_bearer_config, BearerConfig,
};
use crate::scan::{
    after_prefix, begins, find, found, holds_text, lemma_mentions, mentions, strip_prefix, contains,
    seek, trim, trim_start, trimmed, trimmed_start, until,
};
use crate::text::{
    cat2, cat3, cat7, chars_of, opt_text, owned, pad_left, padded_left, same, text_between, texts,
};

verus! {

pub const DEFAULT_MODEL: &'static str = "llama-3.1-8b-instant";

pub const URL: &'static str = "https://api.groq.com/openai/v1/chat/completions";

#[derive(Debug)]
pub enum GroqEvent {
    Token(String),
    Done,
    Error(String),
}

pub ghost enum EventView {
    Token(Seq<char>),
    Done,
    Error(Seq<char>),
}

impl View for GroqEvent {
    type V = EventView;

    open spec fn view(&self) -> EventView {
        match self {
            GroqEvent::Token(t) => EventView::Token(t@),
            GroqEvent::Done => EventView::Done,
            GroqEvent::Error(e) => EventView::Error(e@),
        }
    }
}

/// The key: the variable where it holds more than white space, or else what
/// the file holds without the white space around it.
pub open spec fn key_of(env: Option<Seq<char>>, file: Option<Seq<char>>) -> Option<Seq<char>> {
    match env {
        Some(k) if trimmed(k).len() > 0 => Some(k),
        _ => match file {
            Some(f) if trimmed(f).len() > 0 => Some(trimmed(f)),
            _ => None,
        },
    }
}

pub fn api_key(env: &Option<String>, file: &Option<String>) -> (r: Option<String>)
    ensures
        opt_text(r) == key_of(opt_text(*env), opt_text(*file)),
{
    if let Some(k) = env {
        if trim(k.as_str()).as_str().unicode_len() > 0 {
            return Some(k.clone());
        }
    }
    if let Some(f) = file {
        let t: String = trim(f.as_str());
        if t.as_str().unicode_len() > 0 {
            return Some(t);
        }
    }
    None
}

// ------------------------------------------------------------ writing

/// A character as it stands in a JSON string.
pub open spec fn escaped_char(c: char) -> Seq<char> {
    if c == '"' {
        "\\\""@
    } else if c == '\\' {
        "\\\\"@
    } else if c == '\n' {
        "\\n"@
    } else if c == '\r' {
        "\\r"@
    } else if c == '\t' {
        "\\t"@
    } else if (c as int) < 0x20 {
        "\\u"@ + padded_left(hexadecimal(c as int as nat, false), 4, '0')
    } else {
        seq![c]
    }
}

/// A text as it stands in a JSON string.
pub open spec fn escaped(s: Seq<char>) -> Seq<char>
    decreases s.len(),
{
    if s.len() == 0 {
        Seq::empty()
    } else {
        escaped_char(s[0]) + escaped(s.drop_first())
    }
}

fn escape_char(c: char) -> (r: String)
    ensures
        r@ == escaped_char(c),
{
    if c == '"' {
        owned("\\\"")
    } else if c == '\\' {
        owned("\\\\")
    } else if c == '\n' {
        owned("\\n")
    } else if c == '\r' {
        owned("\\r")
    } else if c == '\t' {
        owned("\\t")
    } else if (c as u32) < 0x20 {
        cat2("\\u", pad_left(hex(c as u32, false).as_str(), 4, '0').as_str())
    } else {
        let mut s: String = String::new();
        s.push(c);
        assert(s@ =~= seq![c]);
        s
    }
}

pub fn escape_json(s: &str) -> (r: String)
    ensures
        r@ == escaped(s@),
{
    let v: Vec<char> = chars_of(s);
    let mut out: String = String::new();
    let mut i: usize = 0;
    assert(v@.skip(0) =~= v@);
    assert(out@ + escaped(v@) =~= escaped(s@));
    while i < v.len()
        invariant
            i <= v@.len(),
            v@ == s@,
            out@ + escaped(v@.skip(i as int)) == escaped(s@),
        decreases v@.len() - i,
    {
        let ghost before = out@;
        let e: String = escape_char(v[i]);
        assert(v@.skip(i as int).drop_first() =~= v@.skip(i as int + 1));
        out.append(e.as_str());
        assert(out@ + escaped(v@.skip(i as int + 1)) =~= before + (e@ + escaped(
            v@.skip(i as int + 1),
        )));
        i = i + 1;
    }
    assert(v@.skip(i as int) =~= Seq::empty());
    assert(out@ =~= escaped(s@));
    out
}

/// The request: greedy decoding and at most 220 tokens.
pub open spec fn payload(model: Seq<char>, system: Seq<char>, user: Seq<char>) -> Seq<char> {
    "{\"model\":\""@ + model
        + "\",\"stream\":true,\"max_tokens\":220,\"temperature\":0.0,\"messages\":[{\"role\":\"system\",\"content\":\""@
        + escaped(system) + "\"},{\"role\":\"user\",\"content\":\""@ + escaped(user) + "\"}]}"@
}

pub fn build_payload(model: &str, system: &str, user: &str) -> (r: String)
    ensures
        r@ == payload(model@, system@, user@),
{
    cat7(
        "{\"model\":\"",
        model,
        "\",\"stream\":true,\"max_tokens\":220,\"temperature\":0.0,\"messages\":[{\"role\":\"system\",\"content\":\"",
        escape_json(system).as_str(),
        "\"},{\"role\":\"user\",\"content\":\"",
        escape_json(user).as_str(),
        "\"}]}",
    )
}

// ------------------------------------------------------------ reading

/// The character with a code, or a question mark where there is none.
pub open spec fn char_of(code: nat) -> char {
    if code < 0xD800 || 0xE000 <= code <= 0x10FFFF {
        code as char
    } else {
        '?'
    }
}

/// The text behind a text, where there is one.
pub open spec fn prepended(head: Seq<char>, tail: Option<Seq<char>>) -> Option<Seq<char>> {
    match tail {
        Some(t) => Some(head + t),
        None => None,
    }
}

/// The character that a single letter behind a backslash stands for.
pub open spec fn simple_escape(c: char) -> Option<char> {
    if c == '"' {
        Some('"')
    } else if c == '\\' {
        Some('\\')
    } else if c == '/' {
        Some('/')
    } else if c == 'n' {
        Some('\n')
    } else if c == 't' {
        Some('\t')
    } else if c == 'r' {
        Some('\r')
    } else if c == 'b' {
        Some('\u{0008}')
    } else if c == 'f' {
        Some('\u{000C}')
    } else {
        None
    }
}

/// At most four characters.
pub open spec fn up_to_four(s: Seq<char>) -> Seq<char> {
    if s.len() > 4 {
        s.take(4)
    } else {
        s
    }
}

/// The code of the second half of a surrogate pair, where a text begins with
/// its escape.
pub open spec fn low_half(s: Seq<char>) -> Option<nat> {
    if s.len() >= 6 && s[0] == '\\' && s[1] == 'u' {
        match parsed(s.subrange(2, 6), 16, u32::MAX as nat) {
            Some(code) => if 0xDC00 <= code <= 0xDFFF {
                Some(code)
            } else {
                None
            },
            None => None,
        }
    } else {
        None
    }
}

/// The second half of a pair behind its first, where the two stand together.
pub open spec fn half_behind(code: nat, rest: Seq<char>) -> Option<nat> {
    if 0xD800 <= code <= 0xDBFF {
        low_half(rest)
    } else {
        None
    }
}

/// The one character that the two halves of a surrogate pair denote.
pub open spec fn pair_char(high: nat, low: nat) -> char {
    (0x10000 + (high - 0xD800) * 0x400 + (low - 0xDC00)) as char
}

/// The text of a JSON string, read behind its opening quote: nothing where it
/// does not end or holds an escape that there is not. A surrogate pair of
/// escapes is one character, and a half alone is a question mark.
pub open spec fn string_value(s: Seq<char>) -> Option<Seq<char>>
    decreases s.len(),
{
    if s.len() == 0 {
        None
    } else if s[0] == '"' {
        Some(Seq::empty())
    } else if s[0] == '\\' {
        if s.len() < 2 {
            None
        } else if s[1] == 'u' {
            let digits = up_to_four(s.skip(2));
            match parsed(digits, 16, u32::MAX as nat) {
                Some(code) => {
                    let rest = s.skip(2 + digits.len() as int);
                    match half_behind(code, rest) {
                        Some(low) => prepended(
                            seq![pair_char(code, low)],
                            string_value(rest.skip(6)),
                        ),
                        None => prepended(seq![char_of(code)], string_value(rest)),
                    }
                },
                None => None,
            }
        } else {
            match simple_escape(s[1]) {
                Some(c) => prepended(seq![c], string_value(s.skip(2))),
                None => None,
            }
        }
    } else {
        prepended(seq![s[0]], string_value(s.drop_first()))
    }
}

/// The string value of the first field of a name in a JSON text.
pub open spec fn field_value(json: Seq<char>, field: Seq<char>) -> Option<Seq<char>> {
    let needle = "\""@ + field + "\""@;
    match found(json, needle) {
        None => None,
        Some(pos) => {
            let after = json.skip(pos + needle.len());
            let colon = until(after, ':');
            if colon >= after.len() {
                None
            } else {
                let rest = trimmed_start(after.skip(colon as int + 1));
                if rest.len() == 0 || rest[0] != '"' {
                    None
                } else {
                    string_value(rest.drop_first())
                }
            }
        },
    }
}

fn code_char(code: u32) -> (r: char)
    ensures
        r == char_of(code as nat),
{
    match char::from_u32(code) {
        Some(c) => c,
        None => '?',
    }
}

/// The second half of a surrogate pair at a position.
fn read_half(v: &Vec<char>, at: usize) -> (r: Option<u32>)
    requires
        at <= v@.len(),
    ensures
        match r {
            Some(low) => low_half(v@.skip(at as int)) == Some(low as nat) && at + 6 <= v@.len(),
            None => low_half(v@.skip(at as int)) is None,
        },
{
    let ghost rest = v@.skip(at as int);
    if v.len() - at < 6 || v[at] != '\\' || v[at + 1] != 'u' {
        return None;
    }
    let digits: String = text_between(v, at + 2, at + 6);
    assert(digits@ =~= rest.subrange(2, 6));
    match parse_hex(digits.as_str()) {
        Some(code) if 0xDC00 <= code && code <= 0xDFFF => Some(code),
        _ => None,
    }
}

fn escape_of(c: char) -> (r: Option<char>)
    ensures
        r == simple_escape(c),
{
    if c == '"' {
        Some('"')
    } else if c == '\\' {
        Some('\\')
    } else if c == '/' {
        Some('/')
    } else if c == 'n' {
        Some('\n')
    } else if c == 't' {
        Some('\t')
    } else if c == 'r' {
        Some('\r')
    } else if c == 'b' {
        Some('\u{0008}')
    } else if c == 'f' {
        Some('\u{000C}')
    } else {
        None
    }
}

/// The character that an escape by code denotes, or that two such escapes
/// denote together, and the position behind.
fn read_code(v: &Vec<char>, i: usize) -> (r: Option<(char, usize)>)
    requires
        i + 1 < v@.len(),
        v@[i as int] == '\\',
        v@[i + 1] == 'u',
    ensures
        string_value(v@.skip(i as int)) == (match r {
            Some((x, next)) => prepended(seq![x], string_value(v@.skip(next as int))),
            None => None,
        }),
        r matches Some((x, next)) ==> i < next <= v@.len(),
{
    let ghost rest = v@.skip(i as int);
    let end: usize = if v.len() - i > 6 {
        i + 6
    } else {
        v.len()
    };
    let digits: String = text_between(v, i + 2, end);
    proof {
        assert(rest[0] == '\\' && rest[1] == 'u');
        assert(rest.skip(2) =~= v@.skip(i as int + 2));
        assert(digits@ =~= up_to_four(rest.skip(2)));
        assert(rest.skip(2 + digits@.len() as int) =~= v@.skip(end as int));
    }
    match parse_hex(digits.as_str()) {
        None => None,
        Some(code) => {
            let low: Option<u32> = if 0xD800 <= code && code <= 0xDBFF {
                read_half(v, end)
            } else {
                None
            };
            match low {
                Some(l) => {
                    assert(v@.skip(end as int).skip(6) =~= v@.skip(end as int + 6));
                    let both: u32 = 0x10000 + (code - 0xD800) * 0x400 + (l - 0xDC00);
                    assert(char_of(both as nat) == pair_char(code as nat, l as nat));
                    Some((code_char(both), end + 6))
                },
                None => Some((code_char(code), end)),
            }
        },
    }
}

fn read_string(v: &Vec<char>, from: usize) -> (r: Option<String>)
    requires
        from <= v@.len(),
    ensures
        opt_text(r) == string_value(v@.skip(from as int)),
{
    let ghost whole = string_value(v@.skip(from as int));
    let mut out: String = String::new();
    let mut i: usize = from;
    assert(whole == prepended(out@, whole)) by {
        if whole is Some {
            assert(out@ + whole->0 =~= whole->0);
        }
    }
    while i < v.len()
        invariant
            from <= i <= v.len(),
            whole == prepended(out@, string_value(v@.skip(i as int))),
            whole == string_value(v@.skip(from as int)),
        decreases v.len() - i,
    {
        let ghost rest = v@.skip(i as int);
        let ghost before = out@;
        let c: char = v[i];
        if c == '"' {
            assert(out@ + Seq::<char>::empty() =~= out@);
            return Some(out);
        }
        if c == '\\' {
            if i + 1 >= v.len() {
                return None;
            }
            let d: char = v[i + 1];
            assert(rest[1] == d);
            if d == 'u' {
                match read_code(v, i) {
                    None => {
                        return None;
                    },
                    Some((x, next)) => {
                        out.push(x);
                        proof {
                            lemma_prepend(before, x, string_value(v@.skip(next as int)), out@);
                        }
                        i = next;
                    },
                }
            } else {
                assert(rest.skip(2) =~= v@.skip(i as int + 2));
                match escape_of(d) {
                    None => {
                        return None;
                    },
                    Some(x) => {
                        out.push(x);
                        proof {
                            lemma_prepend(before, x, string_value(v@.skip(i as int + 2)), out@);
                        }
                        i = i + 2;
                    },
                }
            }
        } else {
            assert(rest.drop_first() =~= v@.skip(i as int + 1));
            out.push(c);
            proof {
                lemma_prepend(before, c, string_value(v@.skip(i as int + 1)), out@);
            }
            i = i + 1;
        }
    }
    assert(v@.skip(i as int) =~= Seq::empty());
    None
}

proof fn lemma_prepend(head: Seq<char>, c: char, tail: Option<Seq<char>>, all: Seq<char>)
    requires
        all == head.push(c),
    ensures
        prepended(head, prepended(seq![c], tail)) == prepended(all, tail),
{
    if tail is Some {
        assert(head + (seq![c] + tail->0) =~= all + tail->0);
    }
}

/// Extract the string value of a field from a JSON text. Handles the standard
/// escapes. Nothing where the field is absent.
pub fn extract_field(json: &str, field: &str) -> (r: Option<String>)
    ensures
        opt_text(r) == field_value(json@, field@),
{
    let needle: String = cat3("\"", field, "\"");
    match find(json, needle.as_str()) {
        None => None,
        Some(pos) => {
            let v: Vec<char> = chars_of(json);
            let n: usize = needle.as_str().unicode_len();
            proof {
                crate::scan::lemma_found_from(json@, needle@, 0);
            }
            assert(pos + n <= v@.len() && v@.len() == v.len());
            let start: usize = pos + n;
            let colon: usize = seek(&v, start, ':');
            let ghost after = json@.skip(start as int);
            proof {
                assert(v@.skip(start as int) =~= after);
            }
            if colon >= v.len() {
                return None;
            }
            let tail: String = text_between(&v, colon + 1, v.len());
            assert(tail@ =~= after.skip(colon - start + 1));
            let rest: String = trim_start(tail.as_str());
            let w: Vec<char> = chars_of(rest.as_str());
            if w.len() == 0 || w[0] != '"' {
                return None;
            }
            assert(w@.skip(1) =~= w@.drop_first());
            read_string(&w, 1)
        },
    }
}

// ------------------------------------------------------------ the request

/// The token file of the inference service and what it holds: see
/// [`write_bearer_config`].
pub fn write_curl_config(
    key: &str,
    data_home: &Option<String>,
    home: &Option<String>,
    pid: u32,
    seq: u64,
) -> (r: Result<(BearerConfig, String), String>)
    ensures
        r is Ok <==> !breaks_out(key@),
        r matches Ok((config, body)) ==> config.path@ == token_path(
            opt_text(*data_home),
            opt_text(*home),
            pid as nat,
            seq as nat,
        ) && body@ == "header = \"Authorization: Bearer "@ + key@ + "\"\n"@,
        r matches Err(e) ==> e@ == "API key contains characters unsafe for a curl config file"@,
{
    write_bearer_config(key, data_home, home, pid, seq)
}

/// A request that is ready to be sent: the token file and what goes into it,
/// the arguments of curl, and what it reads on standard input.
pub struct Prepared {
    pub config: BearerConfig,
    pub secret: String,
    pub args: Vec<String>,
    pub payload: String,
}

/// Prepare a streaming chat completion, or give the event that ends it.
pub fn prepare(
    model: &str,
    system: &str,
    user: &str,
    key: &str,
    data_home: &Option<String>,
    home: &Option<String>,
    pid: u32,
    seq: u64,
) -> (r: Result<Prepared, GroqEvent>)
    ensures
        r is Ok <==> !breaks_out(key@),
        r matches Ok(p) ==> {
            &&& p.config.path@ == token_path(
                opt_text(*data_home),
                opt_text(*home),
                pid as nat,
                seq as nat,
            )
            &&& p.secret@ == "header = \"Authorization: Bearer "@ + key@ + "\"\n"@
            &&& texts(p.args@) == post_args(URL@, p.config.path@)
            &&& p.payload@ == payload(model@, system@, user@)
        },
        r matches Err(e) ==> e@ == EventView::Error(
            "curl config: "@ + "API key contains characters unsafe for a curl config file"@,
        ),
{
    match write_curl_config(key, data_home, home, pid, seq) {
        Err(e) => Err(GroqEvent::Error(cat2("curl config: ", e.as_str()))),
        Ok((config, secret)) => {
            let args: Vec<String> = spawn_streaming_post(URL, &config);
            Ok(Prepared { config, secret, args, payload: build_payload(model, system, user) })
        },
    }
}

// ------------------------------------------------------------ the stream

/// What a line of the response means.
pub enum Heard {
    /// Nothing yet.
    Nothing,
    /// More of the answer.
    Token(String),
    /// The answer is complete.
    End,
    /// The request was refused.
    Refused(String),
}

pub ghost enum HeardView {
    Nothing,
    Token(Seq<char>),
    End,
    Refused(Seq<char>),
}

impl View for Heard {
    type V = HeardView;

    open spec fn view(&self) -> HeardView {
        match self {
            Heard::Nothing => HeardView::Nothing,
            Heard::Token(t) => HeardView::Token(t@),
            Heard::End => HeardView::End,
            Heard::Refused(m) => HeardView::Refused(m@),
        }
    }
}

/// What a line of the response means: a line of the event stream carries
/// data, and any other may be the body of an error.
pub open spec fn heard(line: Seq<char>) -> HeardView {
    match after_prefix(line, "data:"@) {
        None => if holds_text(line, "\"error\""@) {
            match field_value(line, "message"@) {
                Some(m) => HeardView::Refused(m),
                None => HeardView::Nothing,
            }
        } else {
            HeardView::Nothing
        },
        Some(d) => {
            let data = trimmed(d);
            if data == "[DONE]"@ {
                HeardView::End
            } else {
                match field_value(data, "content"@) {
                    Some(t) if t.len() > 0 => HeardView::Token(t),
                    _ => HeardView::Nothing,
                }
            }
        },
    }
}

/// Read one line of the response.
pub fn hear(line: &str) -> (r: Heard)
    ensures
        r@ == heard(line@),
{
    match strip_prefix(line, "data:") {
        None => {
            if contains(line, "\"error\"") {
                if let Some(m) = extract_field(line, "message") {
                    return Heard::Refused(m);
                }
            }
            Heard::Nothing
        },
        Some(d) => {
            let data: String = trim(d.as_str());
            if same(data.as_str(), "[DONE]") {
                return Heard::End;
            }
            if let Some(t) = extract_field(data.as_str(), "content") {
                if t.as_str().unicode_len() > 0 {
                    return Heard::Token(t);
                }
            }
            Heard::Nothing
        },
    }
}

/// The error of a stream that ended without a token, with the status.
pub open spec fn silent_end(status: Option<Seq<char>>) -> EventView {
    EventView::Error(
        "stream ended without tokens ("@ + (match status {
            Some(s) => s,
            None => "killed"@,
        }) + ")"@,
    )
}

/// What a stream comes to when the response ends without saying so: done if
/// anything was heard, and an error otherwise.
pub fn stream_end(got_token: bool, status: &Option<String>) -> (r: GroqEvent)
    ensures
        r@ == (if got_token {
            EventView::Done
        } else {
            silent_end(opt_text(*status))
        }),
{
    if got_token {
        return GroqEvent::Done;
    }
    match status {
        Some(s) => GroqEvent::Error(cat3("stream ended without tokens (", s.as_str(), ")")),
        None => GroqEvent::Error(cat3("stream ended without tokens (", "killed", ")")),
    }
}

/// The events of a response, line by line, `got` telling whether a token was
/// heard before.
pub open spec fn events_of(list: Seq<Seq<char>>, got: bool, end: EventView) -> Seq<EventView>
    decreases list.len(),
{
    if list.len() == 0 {
        seq![
            if got {
                EventView::Done
            } else {
                end
            },
        ]
    } else {
        match heard(list[0]) {
            HeardView::Nothing => events_of(list.drop_first(), got, end),
            HeardView::Token(t) => seq![EventView::Token(t)] + events_of(
                list.drop_first(),
                true,
                end,
            ),
            HeardView::End => seq![EventView::Done],
            HeardView::Refused(m) => seq![EventView::Error(m)],
        }
    }
}

/// What a list of events says.
pub open spec fn event_views(v: Seq<GroqEvent>) -> Seq<EventView> {
    v.map_values(|e: GroqEvent| e@)
}

/// The events of a whole response, whose transfer ended with a status.
pub fn stream(lines: &Vec<String>, status: &Option<String>) -> (r: Vec<GroqEvent>)
    ensures
        event_views(r@) == events_of(
            texts(lines@),
            false,
            silent_end(opt_text(*status)),
        ),
{
    let ghost all = texts(lines@);
    let ghost end = silent_end(opt_text(*status));
    let ghost want = events_of(all, false, end);
    let mut out: Vec<GroqEvent> = Vec::new();
    let mut got: bool = false;
    let mut i: usize = 0;
    assert(all.skip(0) =~= all);
    assert(event_views(out@) + want =~= want);
    while i < lines.len()
        invariant
            i <= lines.len(),
            all == texts(lines@),
            want == event_views(out@) + events_of(all.skip(i as int), got, end),
            want == events_of(texts(lines@), false, silent_end(opt_text(*status))),
        decreases lines.len() - i,
    {
        let ghost before = event_views(out@);
        proof {
            assert(all.skip(i as int).drop_first() =~= all.skip(i as int + 1));
            assert(all.skip(i as int)[0] == lines@[i as int]@);
        }
        match hear(lines[i].as_str()) {
            Heard::Nothing => {},
            Heard::Token(t) => {
                let e: GroqEvent = GroqEvent::Token(t);
                out.push(e);
                got = true;
                assert(event_views(out@) =~= before.push(e@));
                assert(event_views(out@) + events_of(all.skip(i as int + 1), true, end) =~= before
                    + (seq![e@] + events_of(all.skip(i as int + 1), true, end)));
            },
            Heard::End => {
                out.push(GroqEvent::Done);
                assert(event_views(out@) =~= want);
                return out;
            },
            Heard::Refused(m) => {
                let e: GroqEvent = GroqEvent::Error(m);
                out.push(e);
                assert(event_views(out@) =~= want);
                return out;
            },
        }
        i = i + 1;
    }
    assert(all.skip(i as int) =~= Seq::empty());
    let e: GroqEvent = stream_end(got, status);
    out.push(e);
    assert(event_views(out@) =~= want);
    out
}

// ------------------------------------------------------------ laws

proof fn lemma_escaped_control(c: char)
    requires
        (c as int) < 0x20,
    ensures
        ({
            let digits = padded_left(hexadecimal(c as int as nat, false), 4, '0');
            &&& digits.len() == 4
            &&& parsed(digits, 16, u32::MAX as nat) == Some(c as int as nat)
        }),
{
    let n = c as int as nat;
    let h = hexadecimal(n, false);
    let digits = padded_left(h, 4, '0');
    if n < 16 {
        assert(h =~= seq![digit_of(n, false)]);
        assert(digits =~= seq!['0', '0', '0', digit_of(n, false)]);
    } else {
        assert(hexadecimal(n / 16, false) =~= seq!['1']);
        assert(h =~= seq!['1', digit_of(n % 16, false)]);
        assert(digits =~= seq!['0', '0', '1', digit_of(n % 16, false)]);
    }
    reveal_with_fuel(digits_value, 5);
    let d3 = digits.drop_last();
    let d2 = d3.drop_last();
    let d1 = d2.drop_last();
    let d0 = d1.drop_last();
    assert(d0.len() == 0);
    assert(digits_value(d2, 16) == 0);
    assert(d3.last() == digits[2]);
    assert(digits_value(d3, 16) == n / 16);
    assert(digits_value(digits, 16) == n);
}

proof fn lemma_char_reads_back(c: char, rest: Seq<char>)
    ensures
        string_value(escaped_char(c) + rest) == prepended(seq![c], string_value(rest)),
{
    let all = escaped_char(c) + rest;
    reveal_strlit("\\\"");
    reveal_strlit("\\\\");
    reveal_strlit("\\n");
    reveal_strlit("\\r");
    reveal_strlit("\\t");
    reveal_strlit("\\u");
    if c == '"' || c == '\\' || c == '\n' || c == '\r' || c == '\t' {
        let e = escaped_char(c);
        let look = (e.len(), e[0], e[1]);
        assert(all[0] == e[0]);
        assert(all[1] == e[1]);
        assert(all.skip(2) =~= rest);
    } else if (c as int) < 0x20 {
        lemma_escaped_control(c);
        let digits = padded_left(hexadecimal(c as int as nat, false), 4, '0');
        let u = "\\u"@;
        let look = (u.len(), u[0], u[1]);
        assert(all[0] == u[0]);
        assert(all[1] == u[1]);
        assert(all.skip(2) =~= digits + rest);
        assert(up_to_four(digits + rest) =~= digits);
        assert(all.skip(6) =~= rest);
    } else {
        assert(all[0] == c);
        assert(all.drop_first() =~= rest);
    }
}

/// A text written into a JSON string reads back as it was: nothing in it can
/// end the string early, and what stands behind the string does not matter.
pub proof fn escaped_text_reads_back(s: Seq<char>, rest: Seq<char>)
    ensures
        string_value(escaped(s) + seq!['"'] + rest) == Some(s),
    decreases s.len(),
{
    let tail = seq!['"'] + rest;
    assert(escaped(s) + seq!['"'] + rest =~= escaped(s) + tail);
    if s.len() == 0 {
        assert(escaped(s) + tail =~= tail);
        assert(s =~= Seq::empty());
    } else {
        let more = s.drop_first();
        escaped_text_reads_back(more, rest);
        assert(escaped(more) + seq!['"'] + rest =~= escaped(more) + tail);
        assert(escaped(s) + tail =~= escaped_char(s[0]) + (escaped(more) + tail));
        lemma_char_reads_back(s[0], escaped(more) + tail);
        assert(seq![s[0]] + more =~= s);
    }
}

/// A response is answered by tokens and one closing event, which is either
/// the end or an error.
pub proof fn a_stream_closes_once(list: Seq<Seq<char>>, got: bool, end: EventView)
    requires
        end is Error,
    ensures
        ({
            let r = events_of(list, got, end);
            &&& r.len() > 0
            &&& r.last() !is Token
            &&& forall|i: int| 0 <= i < r.len() - 1 ==> (#[trigger] r[i]) is Token
        }),
    decreases list.len(),
{
    if list.len() > 0 {
        match heard(list[0]) {
            HeardView::Nothing => {
                a_stream_closes_once(list.drop_first(), got, end);
            },
            HeardView::Token(t) => {
                a_stream_closes_once(list.drop_first(), true, end);
                let more = events_of(list.drop_first(), true, end);
                let r = events_of(list, got, end);
                assert(r.last() == more.last());
                assert forall|i: int| 0 <= i < r.len() - 1 implies (#[trigger] r[i]) is Token by {
                    if i > 0 {
                        assert(r[i] == more[i - 1]);
                    }
                }
            },
            _ => {},
        }
    }
}

/// The escapes are those of JSON: quotes, backslashes and line breaks stand
/// behind a backslash, other control characters as four hexadecimal digits,
/// and everything else as it is.
pub proof fn json_escapes_what_it_must(c: char, rest: Seq<char>)
    ensures
        escaped(seq!['"'] + rest) == seq!['\\', '"'] + escaped(rest),
        escaped(seq!['\\'] + rest) == seq!['\\', '\\'] + escaped(rest),
        escaped(seq!['\n'] + rest) == seq!['\\', 'n'] + escaped(rest),
        escaped(seq!['\r'] + rest) == seq!['\\', 'r'] + escaped(rest),
        escaped(seq!['\t'] + rest) == seq!['\\', 't'] + escaped(rest),
        c as int >= 0x20 && c != '"' && c != '\\' ==> escaped(seq![c] + rest) == seq![c] + escaped(
            rest,
        ),
        (c as int) < 0x20 && c != '\n' && c != '\r' && c != '\t' ==> escaped(seq![c] + rest)
            == seq!['\\', 'u', '0', '0'] + seq![
            digit_of(c as int as nat / 16, false),
            digit_of(c as int as nat % 16, false),
        ] + escaped(rest),
        escaped(Seq::empty()) == Seq::<char>::empty(),
{
    reveal_strlit("\\\"");
    reveal_strlit("\\\\");
    reveal_strlit("\\n");
    reveal_strlit("\\r");
    reveal_strlit("\\t");
    reveal_strlit("\\u");
    lemma_escaped_front('"', rest);
    lemma_escaped_front('\\', rest);
    lemma_escaped_front('\n', rest);
    lemma_escaped_front('\r', rest);
    lemma_escaped_front('\t', rest);
    lemma_escaped_front(c, rest);
    assert("\\\""@ =~= seq!['\\', '"']);
    assert("\\\\"@ =~= seq!['\\', '\\']);
    assert("\\n"@ =~= seq!['\\', 'n']);
    assert("\\r"@ =~= seq!['\\', 'r']);
    assert("\\t"@ =~= seq!['\\', 't']);
    if (c as int) < 0x20 && c != '\n' && c != '\r' && c != '\t' {
        let n = c as int as nat;
        let hex = hexadecimal(n, false);
        let both = seq![digit_of(n / 16, false), digit_of(n % 16, false)];
        if n >= 16 {
            assert(hexadecimal(n / 16, false) == seq![digit_of(n / 16, false)]);
            assert(hex =~= both);
            assert(padded_left(hex, 4, '0') =~= seq!['0', '0'] + both);
        } else {
            assert(hex =~= seq![digit_of(n, false)]);
            assert(digit_of(n / 16, false) == '0');
            assert(padded_left(hex, 4, '0') =~= seq!['0', '0'] + both);
        }
        assert("\\u"@ + padded_left(hex, 4, '0') =~= seq!['\\', 'u', '0', '0'] + both);
    }
}

proof fn lemma_escaped_front(c: char, rest: Seq<char>)
    ensures
        escaped(seq![c] + rest) == escaped_char(c) + escaped(rest),
{
    assert((seq![c] + rest).drop_first() =~= rest);
}

/// The string of a field is what stands behind its name and a colon, white
/// space apart, where the name occurs first.
pub proof fn fields_are_found_by_name(
    json: Seq<char>,
    before: Seq<char>,
    field: Seq<char>,
    value: Seq<char>,
    rest: Seq<char>,
)
    requires
        json == before + ("\""@ + field + "\""@) + seq![':', '"'] + escaped(value) + seq!['"'] + rest,
        found(json, "\""@ + field + "\""@) == Some(before.len() as int),
    ensures
        field_value(json, field) == Some(value),
{
    let needle = "\""@ + field + "\""@;
    let after = json.skip(before.len() as int + needle.len());
    let tail = escaped(value) + seq!['"'] + rest;
    assert(after =~= seq![':', '"'] + tail);
    assert(after[0] == ':');
    assert(until(after, ':') == 0);
    let quoted = after.skip(1);
    assert(quoted =~= seq!['"'] + tail);
    assert(quoted[0] == '"');
    assert(trimmed_start(quoted) == quoted);
    assert(quoted.drop_first() =~= tail);
    escaped_text_reads_back(value, rest);
}

/// A field that is not named is not found.
pub proof fn other_fields_are_not_found(json: Seq<char>, field: Seq<char>)
    requires
        !mentions(json, "\""@ + field + "\""@),
    ensures
        field_value(json, field) is None,
{
    lemma_mentions(json, "\""@ + field + "\""@);
}

/// A line of data that says so ends the answer, one with content is more of
/// it, and a line that is no data refuses the request where it holds an error
/// with a message.
pub proof fn lines_are_heard_by_what_they_hold(line: Seq<char>, data: Seq<char>)
    ensures
        trimmed(data) == "[DONE]"@ ==> heard("data:"@ + data) is End,
        trimmed(data) != "[DONE]"@ ==> {
            let content = field_value(trimmed(data), "content"@);
            &&& content matches Some(t) ==> t.len() > 0 ==> heard("data:"@ + data)
                == HeardView::Token(t)
            &&& (content is None || content->0.len() == 0) ==> heard("data:"@ + data) is Nothing
        },
        !begins(line, "data:"@) ==> {
            let message = field_value(line, "message"@);
            &&& mentions(line, "\"error\""@) && message is Some ==> heard(line)
                == HeardView::Refused(message->0)
            &&& (!mentions(line, "\"error\""@) || message is None) ==> heard(line) is Nothing
        },
{
    let p = "data:"@;
    assert((p + data).take(p.len() as int) =~= p);
    assert((p + data).skip(p.len() as int) =~= data);
    lemma_mentions(line, "\"error\""@);
}

/// The tokens of a response are heard in order and in full, and then the end.
pub proof fn answers_are_heard_in_full(
    list: Seq<Seq<char>>,
    tokens: Seq<Seq<char>>,
    got: bool,
    end: EventView,
)
    requires
        list.len() == tokens.len() + 1,
        forall|i: int|
            0 <= i < tokens.len() ==> heard(#[trigger] list[i]) == HeardView::Token(tokens[i]),
        heard(list[tokens.len() as int]) is End,
    ensures
        events_of(list, got, end) == tokens.map_values(|t: Seq<char>| EventView::Token(t)).push(
            EventView::Done,
        ),
    decreases tokens.len(),
{
    if tokens.len() == 0 {
        assert(list[0] == list[tokens.len() as int]);
        assert(tokens.map_values(|t: Seq<char>| EventView::Token(t)).push(EventView::Done) =~= seq![
            EventView::Done,
        ]);
    } else {
        let rest = list.drop_first();
        let more = tokens.drop_first();
        assert forall|i: int| 0 <= i < more.len() implies heard(#[trigger] rest[i])
            == HeardView::Token(more[i]) by {
            assert(rest[i] == list[i + 1]);
        }
        assert(rest[more.len() as int] == list[tokens.len() as int]);
        answers_are_heard_in_full(rest, more, true, end);
        assert(heard(list[0]) == HeardView::Token(tokens[0]));
        assert(seq![EventView::Token(tokens[0])] + more.map_values(
            |t: Seq<char>| EventView::Token(t),
        ).push(EventView::Done) =~= tokens.map_values(|t: Seq<char>| EventView::Token(t)).push(
            EventView::Done,
        ));
    }
}

/// Lines that say nothing change nothing; a stream that ends then has failed
/// unless a token came before; and a refusal ends it at once.
pub proof fn silent_streams_fail(
    list: Seq<Seq<char>>,
    got: bool,
    end: EventView,
    why: Seq<char>,
)
    ensures
        (forall|i: int| 0 <= i < list.len() ==> heard(#[trigger] list[i]) is Nothing) ==> events_of(
            list,
            got,
            end,
        ) == seq![
            if got {
                EventView::Done
            } else {
                end
            },
        ],
        list.len() > 0 && heard(list[0]) == HeardView::Refused(why) ==> events_of(list, got, end)
            == seq![EventView::Error(why)],
    decreases list.len(),
{
    if list.len() > 0 {
        let rest = list.drop_first();
        silent_streams_fail(rest, got, end, why);
        if forall|i: int| 0 <= i < list.len() ==> heard(#[trigger] list[i]) is Nothing {
            assert(heard(list[0]) is Nothing);
            assert forall|i: int| 0 <= i < rest.len() implies heard(#[trigger] rest[i]) is Nothing by {
                assert(rest[i] == list[i + 1]);
            }
        }
    }
}

/// The variable names the key where it holds one, and the file otherwise.
pub proof fn keys_are_taken_in_turn(env: Option<Seq<char>>, file: Option<Seq<char>>)
    ensures
        env matches Some(k) ==> trimmed(k).len() > 0 ==> key_of(env, file) == env,
        (env is None || trimmed(env->0).len() == 0) ==> {
            &&& file matches Some(f) ==> trimmed(f).len() > 0 ==> key_of(env, file) == Some(
                trimmed(f),
            )
            &&& file is None || trimmed(file->0).len() == 0 ==> key_of(env, file) is None
        },
{
}

/// A request names the model, asks for a stream, and ends with what the user
/// says.
pub proof fn requests_say_what_is_asked(model: Seq<char>, system: Seq<char>, user: Seq<char>)
    ensures
        ({
            let p = payload(model, system, user);
            let last = escaped(user) + "\"}]}"@;
            &&& begins(p, "{\"model\":\""@ + model + "\",\"stream\":true,\"max_tokens\":220,"@)
            &&& p.len() >= last.len()
            &&& p.skip(p.len() - last.len()) == last
            &&& mentions(p, "\"role\":\"system\",\"content\":\""@ + escaped(system) + "\"}"@)
        }),
{
    let p = payload(model, system, user);
    let last = escaped(user) + "\"}]}"@;
    reveal_strlit(
        "\",\"stream\":true,\"max_tokens\":220,\"temperature\":0.0,\"messages\":[{\"role\":\"system\",\"content\":\"",
    );
    reveal_strlit("\",\"stream\":true,\"max_tokens\":220,");
    reveal_strlit("\"role\":\"system\",\"content\":\"");
    reveal_strlit("\"},{\"role\":\"user\",\"content\":\"");
    reveal_strlit("\"}");
    let front = "{\"model\":\""@ + model + "\",\"stream\":true,\"max_tokens\":220,"@;
    assert(p.take(front.len() as int) =~= front);
    assert(p.skip(p.len() - last.len()) =~= last);
    let lead = "{\"model\":\""@ + model
        + "\",\"stream\":true,\"max_tokens\":220,\"temperature\":0.0,\"messages\":[{\"role\":\"system\",\"content\":\""@;
    let role = "\"role\":\"system\",\"content\":\""@;
    let told = role + escaped(system) + "\"}"@;
    let at = lead.len() - role.len();
    assert(p.subrange(at, at + told.len()) =~= told);
}

/// The escapes in a string are read as JSON has them, a surrogate pair as one
/// character, and half of one as a question mark.
pub proof fn escapes_in_strings_are_read(rest: Seq<char>, text: Seq<char>)
    requires
        string_value(rest) == Some(text),
    ensures
        string_value(seq!['\\', '"'] + rest) == Some(seq!['"'] + text),
        string_value(seq!['\\', '\\'] + rest) == Some(seq!['\\'] + text),
        string_value(seq!['\\', '/'] + rest) == Some(seq!['/'] + text),
        string_value(seq!['\\', 'n'] + rest) == Some(seq!['\n'] + text),
        string_value(seq!['\\', 't'] + rest) == Some(seq!['\t'] + text),
        string_value(seq!['\\', 'r'] + rest) == Some(seq!['\r'] + text),
        string_value(seq!['\\', 'b'] + rest) == Some(seq!['\u{0008}'] + text),
        string_value(seq!['\\', 'f'] + rest) == Some(seq!['\u{000C}'] + text),
        string_value(seq!['\\', 'x'] + rest) is None,
        string_value(seq!['"'] + rest) == Some(Seq::<char>::empty()),
        string_value(Seq::empty()) is None,
{
    lemma_simple('"', rest);
    lemma_simple('\\', rest);
    lemma_simple('/', rest);
    lemma_simple('n', rest);
    lemma_simple('t', rest);
    lemma_simple('r', rest);
    lemma_simple('b', rest);
    lemma_simple('f', rest);
    lemma_simple('x', rest);
}

proof fn lemma_simple(c: char, rest: Seq<char>)
    requires
        c != 'u',
    ensures
        string_value(seq!['\\', c] + rest) == (match simple_escape(c) {
            Some(x) => prepended(seq![x], string_value(rest)),
            None => None,
        }),
{
    let s = seq!['\\', c] + rest;
    assert(s.skip(2) =~= rest);
}

/// A code of four hexadecimal digits is one character; the two halves of a
/// pair are one together, and a half alone is a question mark.
pub proof fn codes_are_characters(
    digits: Seq<char>,
    code: nat,
    rest: Seq<char>,
    text: Seq<char>,
)
    requires
        digits.len() == 4,
        parsed(digits, 16, u32::MAX as nat) == Some(code),
        string_value(rest) == Some(text),
        rest[0] != '\\',
    ensures
        code < 0xD800 || 0xE000 <= code <= 0xFFFF ==> string_value(seq!['\\', 'u'] + digits + rest)
            == Some(seq![code as char] + text),
        0xD800 <= code <= 0xDFFF ==> string_value(seq!['\\', 'u'] + digits + rest) == Some(
            seq!['?'] + text,
        ),
{
    let s = seq!['\\', 'u'] + digits + rest;
    assert(s.skip(2) =~= digits + rest);
    assert(up_to_four(digits + rest) =~= digits);
    assert(s.skip(6) =~= rest);
    assert(low_half(rest) is None);
}

/// The halves of a pair add ten bits each to a character beyond the first
/// plane.
pub proof fn pairs_are_one_character(
    first: Seq<char>,
    high: nat,
    second: Seq<char>,
    low: nat,
    rest: Seq<char>,
    text: Seq<char>,
)
    requires
        first.len() == 4,
        second.len() == 4,
        parsed(first, 16, u32::MAX as nat) == Some(high),
        parsed(second, 16, u32::MAX as nat) == Some(low),
        0xD800 <= high <= 0xDBFF,
        0xDC00 <= low <= 0xDFFF,
        string_value(rest) == Some(text),
    ensures
        string_value(seq!['\\', 'u'] + first + seq!['\\', 'u'] + second + rest) == Some(
            seq![(0x10000 + (high - 0xD800) * 1024 + (low - 0xDC00)) as char] + text,
        ),
{
    let behind = seq!['\\', 'u'] + second + rest;
    let s = seq!['\\', 'u'] + first + seq!['\\', 'u'] + second + rest;
    assert(s =~= seq!['\\', 'u'] + first + behind);
    assert(s.skip(2) =~= first + behind);
    assert(up_to_four(first + behind) =~= first);
    assert(s.skip(6) =~= behind);
    assert(behind.subrange(2, 6) =~= second);
    assert(behind.skip(6) =~= rest);
}

/// A stream that ends without a word tells how it ended.
pub proof fn silent_ends_tell_the_status(status: Seq<char>)
    ensures
        silent_end(Some(status)) == EventView::Error(
            "stream ended without tokens ("@ + status + ")"@,
        ),
        silent_end(None) == EventView::Error("stream ended without tokens ("@ + "killed"@ + ")"@),
{
}

} // verus!
