//! The curl transport: which arguments curl gets, and what a token file holds.
//!
//! The bearer token goes into a private configuration file, not into the
//! arguments, which every user of the machine can read.

use vstd::prelude::*;
use vstd::utf8::{encode_utf8, valid_utf8};

use crate::fixed::{dec64, decimal, numeral_reads_back};
use crate::procfs::{xdg, xdg_dir};
use crate::scan::{has_char, trim, trimmed};
use crate::text::{
    cat2, cat3, cat5, joined_path, lossy, lossy_of, opt_text, owned, path_join, push_text, texts,
};

verus! {

/// One `-H` and its header for each header.
pub open spec fn header_args(headers: Seq<Seq<char>>) -> Seq<Seq<char>>
    decreases headers.len(),
{
    if headers.len() == 0 {
        Seq::empty()
    } else {
        header_args(headers.drop_last()).push("-H"@).push(headers.last())
    }
}

fn push_headers(out: &mut Vec<String>, headers: &Vec<String>)
    ensures
        texts(final(out)@) == texts(old(out)@) + header_args(texts(headers@)),
{
    let ghost all = texts(headers@);
    let ghost start = texts(out@);
    let mut i: usize = 0;
    assert(start + header_args(all.take(0)) =~= start);
    while i < headers.len()
        invariant
            i <= headers.len(),
            all == texts(headers@),
            texts(out@) == start + header_args(all.take(i as int)),
        decreases headers.len() - i,
    {
        proof {
            assert(all.take(i as int + 1).drop_last() =~= all.take(i as int));
            assert(all.take(i as int + 1).last() == headers@[i as int]@);
        }
        push_text(out, owned("-H"));
        push_text(out, headers[i].clone());
        assert(texts(out@) =~= start + header_args(all.take(i as int + 1)));
        i = i + 1;
    }
    assert(all.take(i as int) =~= all);
}

/// The arguments that fetch a text within half a minute.
pub fn get_string(url: &str, headers: &Vec<String>) -> (r: Vec<String>)
    ensures
        texts(r@) == seq!["-fsSL"@, "--max-time"@, "30"@] + header_args(texts(headers@)) + seq![
            url@,
        ],
{
    let mut out: Vec<String> = Vec::new();
    push_text(&mut out, owned("-fsSL"));
    push_text(&mut out, owned("--max-time"));
    push_text(&mut out, owned("30"));
    assert(texts(out@) =~= seq!["-fsSL"@, "--max-time"@, "30"@]);
    push_headers(&mut out, headers);
    let ghost before = texts(out@);
    push_text(&mut out, owned(url));
    assert(texts(out@) =~= before + seq![url@]);
    out
}

/// How a run of curl ended.
pub enum Curl {
    /// It did not start, with the reason.
    Missing(String),
    /// It gave up, with what it printed on standard error.
    Failed(Vec<u8>),
    /// It gave what was asked for.
    Body(Vec<u8>),
}

/// What is wrong with bytes that are not UTF-8, in the words of the decoder.
pub uninterp spec fn utf8_error_of(b: Seq<u8>) -> Seq<char>;

/// `String::from_utf8` gives the text whose encoding the bytes are, and where
/// they encode none an error whose words are a function of the bytes.
#[verifier::external_body]
fn utf8(b: Vec<u8>) -> (r: Result<String, String>)
    ensures
        r is Ok <==> valid_utf8(b@),
        r matches Ok(s) ==> encode_utf8(s@) == b@,
        r matches Err(e) ==> e@ == utf8_error_of(b@),
{
    String::from_utf8(b).map_err(|e| e.to_string())
}

/// What a fetch comes to: the text, or what went wrong.
pub fn get_reply(out: Curl) -> (r: Result<String, String>)
    ensures
        match out {
            Curl::Missing(e) => r matches Err(m) && m@ == "curl: "@ + e@,
            Curl::Failed(stderr) => r matches Err(m) && m@ == "request failed ("@ + trimmed(
                lossy_of(stderr@),
            ) + ")"@,
            Curl::Body(b) => if valid_utf8(b@) {
                r matches Ok(s) && encode_utf8(s@) == b@
            } else {
                r matches Err(m) && m@ == utf8_error_of(b@)
            },
        },
{
    match out {
        Curl::Missing(e) => Err(cat2("curl: ", e.as_str())),
        Curl::Failed(stderr) => Err(
            cat3("request failed (", trim(lossy(&stderr).as_str()).as_str(), ")"),
        ),
        Curl::Body(b) => utf8(b),
    }
}

/// The arguments that fetch a file within five minutes.
pub fn download(url: &str, dest: &str, headers: &Vec<String>) -> (r: Vec<String>)
    ensures
        texts(r@) == seq!["-fsSL"@, "--max-time"@, "300"@] + header_args(texts(headers@)) + seq![
            "-o"@,
            dest@,
            url@,
        ],
{
    let mut out: Vec<String> = Vec::new();
    push_text(&mut out, owned("-fsSL"));
    push_text(&mut out, owned("--max-time"));
    push_text(&mut out, owned("300"));
    assert(texts(out@) =~= seq!["-fsSL"@, "--max-time"@, "300"@]);
    push_headers(&mut out, headers);
    let ghost before = texts(out@);
    push_text(&mut out, owned("-o"));
    push_text(&mut out, owned(dest));
    push_text(&mut out, owned(url));
    assert(texts(out@) =~= before + seq!["-o"@, dest@, url@]);
    out
}

/// What a download comes to: nothing to say, or what went wrong. The status
/// is what curl ended with, and whether that is success.
pub fn download_reply(status: &Result<(bool, String), String>) -> (r: Result<(), String>)
    ensures
        match *status {
            Err(e) => r matches Err(m) && m@ == "curl: "@ + e@,
            Ok((true, _)) => r is Ok,
            Ok((false, st)) => r matches Err(m) && m@ == "download failed ("@ + st@ + ")"@,
        },
{
    match status {
        Err(e) => Err(cat2("curl: ", e.as_str())),
        Ok((done, st)) => {
            if *done {
                Ok(())
            } else {
                Err(cat3("download failed (", st.as_str(), ")"))
            }
        },
    }
}

/// A curl configuration file that carries an authorization header.
pub struct BearerConfig {
    pub path: String,
}

impl BearerConfig {
    pub fn path(&self) -> (r: &String)
        ensures
            *r == self.path,
    {
        &self.path
    }
}

/// Whether a key could break out of the quoted value.
pub open spec fn breaks_out(key: Seq<char>) -> bool {
    key.contains('"') || key.contains('\n') || key.contains('\r')
}

/// Where the pv state lives, by the data and home directories.
pub open spec fn state_at(data_home: Option<Seq<char>>, home: Option<Seq<char>>) -> Seq<char> {
    joined_path(xdg_dir(data_home, home, ".local/share"@), "pv"@)
}

/// The file for a token and what it holds. Its name has the process id and a
/// number of its own, and a key that could break out of the quoted value is
/// refused.
pub fn write_bearer_config(
    key: &str,
    data_home: &Option<String>,
    home: &Option<String>,
    pid: u32,
    seq: u64,
) -> (r: Result<(BearerConfig, String), String>)
    ensures
        r is Ok <==> !breaks_out(key@),
        r matches Ok((config, body)) ==> config.path@ == token_path(
            opt_text(*data_home),
            opt_text(*home),
            pid as nat,
            seq as nat,
        ) && body@ == "header = \"Authorization: Bearer "@ + key@ + "\"\n"@,
        r matches Err(e) ==> e@ == "API key contains characters unsafe for a curl config file"@,
{
    if has_char(key, '"') || has_char(key, '\n') || has_char(key, '\r') {
        return Err(owned("API key contains characters unsafe for a curl config file"));
    }
    let dir: String = path_join(xdg(data_home, home, ".local/share").as_str(), "pv");
    let name: String = cat5(
        "curl-",
        dec64(pid as u64).as_str(),
        "-",
        dec64(seq).as_str(),
        ".conf",
    );
    let body: String = cat3("header = \"Authorization: Bearer ", key, "\"\n");
    Ok((BearerConfig { path: path_join(dir.as_str(), name.as_str()) }, body))
}

/// The arguments of a streaming request whose body comes on standard input.
pub open spec fn post_args(url: Seq<char>, config: Seq<char>) -> Seq<Seq<char>> {
    seq![
        "-sN"@,
        "-X"@,
        "POST"@,
        url,
        "-K"@,
        config,
        "-H"@,
        "Content-Type: application/json"@,
        "--data-binary"@,
        "@-"@,
        "--max-time"@,
        "30"@,
    ]
}

pub fn spawn_streaming_post(url: &str, auth: &BearerConfig) -> (r: Vec<String>)
    ensures
        texts(r@) == post_args(url@, auth.path@),
{
    let mut out: Vec<String> = Vec::new();
    push_text(&mut out, owned("-sN"));
    push_text(&mut out, owned("-X"));
    push_text(&mut out, owned("POST"));
    push_text(&mut out, owned(url));
    push_text(&mut out, owned("-K"));
    push_text(&mut out, auth.path.clone());
    push_text(&mut out, owned("-H"));
    push_text(&mut out, owned("Content-Type: application/json"));
    push_text(&mut out, owned("--data-binary"));
    push_text(&mut out, owned("@-"));
    push_text(&mut out, owned("--max-time"));
    push_text(&mut out, owned("30"));
    assert(texts(out@) =~= post_args(url@, auth.path@));
    out
}

/// What is said where curl did not start for a streaming request.
pub fn post_failure(e: &str) -> (r: String)
    ensures
        r@ == "curl spawn: "@ + e@,
{
    cat2("curl spawn: ", e)
}

/// Where the token file of a process with a number lies.
pub open spec fn token_path(
    data_home: Option<Seq<char>>,
    home: Option<Seq<char>>,
    pid: nat,
    seq: nat,
) -> Seq<char> {
    joined_path(
        state_at(data_home, home),
        "curl-"@ + decimal(pid) + "-"@ + decimal(seq) + ".conf"@,
    )
}

/// Two token files of one process never share a path.
pub proof fn token_paths_are_unique(
    data_home: Option<Seq<char>>,
    home: Option<Seq<char>>,
    pid: nat,
    a: nat,
    b: nat,
)
    requires
        a != b,
    ensures
        token_path(data_home, home, pid, a) != token_path(data_home, home, pid, b),
{
    let dir = state_at(data_home, home);
    let head = "curl-"@ + decimal(pid) + "-"@;
    let x = head + decimal(a) + ".conf"@;
    let y = head + decimal(b) + ".conf"@;
    reveal_strlit("curl-");
    assert(x[0] == 'c' && y[0] == 'c') by {
        assert("curl-"@[0] == 'c');
    }
    let front = if dir.len() == 0 || dir.last() == '/' {
        dir
    } else {
        dir + "/"@
    };
    assert(joined_path(dir, x) == front + x);
    assert(joined_path(dir, y) == front + y);
    if joined_path(dir, x) == joined_path(dir, y) {
        let n = front.len() + head.len();
        let tail = ".conf"@.len();
        let whole = joined_path(dir, x);
        let m = whole.len() - tail;
        assert(whole.subrange(n as int, m as int) =~= decimal(a));
        assert(whole.subrange(n as int, m as int) =~= decimal(b));
        let max = if a > b {
            a
        } else {
            b
        };
        numeral_reads_back(a, max);
        numeral_reads_back(b, max);
    }
}

/// Each header is handed over behind a flag of its own, in order.
pub proof fn headers_are_handed_over_one_by_one(headers: Seq<Seq<char>>, i: int)
    requires
        0 <= i < headers.len(),
    ensures
        header_args(headers).len() == 2 * headers.len(),
        header_args(headers)[2 * i] == "-H"@,
        header_args(headers)[2 * i + 1] == headers[i],
    decreases headers.len(),
{
    let head = headers.drop_last();
    if head.len() > 0 {
        let k = if i < head.len() {
            i
        } else {
            0
        };
        headers_are_handed_over_one_by_one(head, k);
    } else {
        assert(header_args(head).len() == 0);
    }
}

/// A key with a quote or a line break is refused, and every other is taken.
pub proof fn keys_that_break_out_are_refused(key: Seq<char>)
    ensures
        breaks_out(key) <==> exists|i: int|
            0 <= i < key.len() && (#[trigger] key[i] == '"' || key[i] == '\n' || key[i] == '\r'),
{
    if breaks_out(key) {
        let c = if key.contains('"') {
            '"'
        } else if key.contains('\n') {
            '\n'
        } else {
            '\r'
        };
        let i = choose|i: int| 0 <= i < key.len() && key[i] == c;
        assert(key[i] == '"' || key[i] == '\n' || key[i] == '\r');
    }
}

/// The token file lies in the directory of the program's data and is named
/// after the process.
pub proof fn token_files_lie_with_the_data(
    home: Seq<char>,
    pid: nat,
    seq: nat,
)
    requires
        home.len() > 0,
        home.last() != '/',
    ensures
        token_path(None, Some(home), pid, seq) == home + "/.local/share/pv/curl-"@ + decimal(pid)
            + "-"@ + decimal(seq) + ".conf"@,
{
    reveal_strlit("/.local/share/pv/curl-");
    reveal_strlit(".local/share");
    reveal_strlit("pv");
    reveal_strlit("/");
    reveal_strlit("curl-");
    let base = home + "/"@ + ".local/share"@;
    assert(base.last() == 'e');
    let state = base + "/"@ + "pv"@;
    assert(state_at(None, Some(home)) == state);
    assert(state.last() == 'v');
    let name = "curl-"@ + decimal(pid) + "-"@ + decimal(seq) + ".conf"@;
    assert(name[0] == 'c');
    assert(state + "/"@ + name =~= home + "/.local/share/pv/curl-"@ + decimal(pid) + "-"@ + decimal(
        seq,
    ) + ".conf"@);
}

/// A streaming request posts what comes on standard input to the address,
/// with the key out of the configuration file and not on the command line.
pub proof fn requests_are_posted_with_their_config(url: Seq<char>, config: Seq<char>)
    ensures
        ({
            let a = post_args(url, config);
            &&& a.len() == 12
            &&& a[0] == "-sN"@ && a[1] == "-X"@ && a[2] == "POST"@ && a[3] == url
            &&& a[4] == "-K"@ && a[5] == config
            &&& a[8] == "--data-binary"@ && a[9] == "@-"@
            &&& a[10] == "--max-time"@ && a[11] == "30"@
        }),
{
}

} // verus!
