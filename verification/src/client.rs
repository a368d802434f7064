//! What a client sends and how it reads the replies: the request lines, and the
//! decoding of each reply into the value the client hands back.

use vstd::prelude::*;

use crate::text::{
    chars_of, parse_u64, parse_u64_chars, split_words, string_from, trim_end, trimmed_end, views,
    words,
};

verus! {

broadcast use vstd::string::group_string_axioms;

/// A request that a client sends.
pub enum ClientRequest {
    /// `SET <key> <value>`.
    SetKey { key: String, value: String },
    /// `GET <key>`.
    Get { key: String },
    /// `DEL <key>`.
    Delete { key: String },
    /// `GAK`.
    AllKeys,
    /// `GKC`.
    KeyCount,
    /// A command line given as it is.
    Raw { command: String },
}

/// The mathematical view of a `ClientRequest`.
pub enum ClientRequestView {
    SetKey { key: Seq<char>, value: Seq<char> },
    Get { key: Seq<char> },
    Delete { key: Seq<char> },
    AllKeys,
    KeyCount,
    Raw { command: Seq<char> },
}

impl View for ClientRequest {
    type V = ClientRequestView;

    open spec fn view(&self) -> ClientRequestView {
        match self {
            ClientRequest::SetKey { key, value } => ClientRequestView::SetKey {
                key: key@,
                value: value@,
            },
            ClientRequest::Get { key } => ClientRequestView::Get { key: key@ },
            ClientRequest::Delete { key } => ClientRequestView::Delete { key: key@ },
            ClientRequest::AllKeys => ClientRequestView::AllKeys,
            ClientRequest::KeyCount => ClientRequestView::KeyCount,
            ClientRequest::Raw { command } => ClientRequestView::Raw { command: command@ },
        }
    }
}

/// The line that carries a request, without its final newline.
pub open spec fn request_line(req: ClientRequestView) -> Seq<char> {
    match req {
        ClientRequestView::SetKey { key, value } => seq!['S', 'E', 'T', ' '] + key + seq![' ']
            + value,
        ClientRequestView::Get { key } => seq!['G', 'E', 'T', ' '] + key,
        ClientRequestView::Delete { key } => seq!['D', 'E', 'L', ' '] + key,
        ClientRequestView::AllKeys => seq!['G', 'A', 'K'],
        ClientRequestView::KeyCount => seq!['G', 'K', 'C'],
        ClientRequestView::Raw { command } => command,
    }
}

/// Appends the characters of `t` to `s`.
fn push_all(s: &mut String, t: &str)
    ensures
        final(s)@ == old(s)@ + t@,
{
    let cs = chars_of(t);
    let mut i: usize = 0;
    while i < cs.len()
        invariant
            i <= cs.len(),
            cs@ == t@,
            s@ == old(s)@ + cs@.take(i as int),
        decreases cs.len() - i,
    {
        s.push(cs[i]);
        assert(cs@.take(i + 1) =~= cs@.take(i as int).push(cs@[i as int]));
        i = i + 1;
    }
    assert(cs@.take(cs.len() as int) =~= cs@);
}

/// The message that carries `req`: its line, then a newline.
pub fn encode_request(req: &ClientRequest) -> (msg: String)
    ensures
        msg@ == request_line(req@).push('\n'),
{
    let mut msg = String::new();
    match req {
        ClientRequest::SetKey { key, value } => {
            msg.push('S');
            msg.push('E');
            msg.push('T');
            msg.push(' ');
            push_all(&mut msg, key.as_str());
            msg.push(' ');
            push_all(&mut msg, value.as_str());
        },
        ClientRequest::Get { key } => {
            msg.push('G');
            msg.push('E');
            msg.push('T');
            msg.push(' ');
            push_all(&mut msg, key.as_str());
        },
        ClientRequest::Delete { key } => {
            msg.push('D');
            msg.push('E');
            msg.push('L');
            msg.push(' ');
            push_all(&mut msg, key.as_str());
        },
        ClientRequest::AllKeys => {
            msg.push('G');
            msg.push('A');
            msg.push('K');
        },
        ClientRequest::KeyCount => {
            msg.push('G');
            msg.push('K');
            msg.push('C');
        },
        ClientRequest::Raw { command } => {
            push_all(&mut msg, command.as_str());
        },
    }
    msg.push('\n');
    assert(msg@ =~= request_line(req@).push('\n'));
    msg
}

/// The reply that a client hands on: the line it read, without trailing white space.
pub fn reply_text(raw: &str) -> (reply: String)
    ensures
        reply@ == trim_end(raw@),
{
    let cs = chars_of(raw);
    let end = trimmed_end(&cs, cs.len());
    assert(cs@.subrange(0, cs.len() as int) =~= cs@);
    string_from(&cs, 0, end)
}

/// Whether a reply says `OK`: how `set` and `delete` report success.
pub fn is_ok(reply: &str) -> (ok: bool)
    ensures
        ok == (reply@ == seq!['O', 'K']),
{
    let cs = chars_of(reply);
    let ok = cs.len() == 2 && cs[0] == 'O' && cs[1] == 'K';
    assert(ok == (cs@ =~= seq!['O', 'K']));
    ok
}

/// The keys that a `GAK` reply lists: its words.
pub fn keys_of(reply: &str) -> (keys: Vec<String>)
    ensures
        views(keys@) == words(reply@),
{
    let cs = chars_of(reply);
    split_words(&cs)
}

/// The count that a `GKC` reply gives; 0 where the reply is no number.
pub fn key_count_of(reply: &str) -> (n: u64)
    ensures
        n == match parse_u64(reply@) {
            Some(v) => v,
            None => 0,
        },
{
    let cs = chars_of(reply);
    match parse_u64_chars(&cs) {
        Some(v) => v,
        None => 0,
    }
}

} // verus!
