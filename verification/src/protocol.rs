//! The server's line protocol: how a request line is read, and what the store
//! answers to each request and how the request changes it.

use vstd::prelude::*;
use vstd::utf8::encode_utf8;

use crate::store::Store;
use crate::text::{
    chars_of, decimal, decimal_digits, find_space, find_space_in, range_equals, starts_with,
    string_from, trim, trimmed, views,
};

verus! {

broadcast use vstd::string::group_string_axioms;

/// A request, as the server reads it from one line.
pub enum Command {
    /// `SET <key> <value>`: the key runs to the first space after `SET `, the value is the rest.
    SetKey { key: String, value: String },
    /// `SET ` with no space after the key.
    MalformedSet,
    /// `GET <key>`: the key is everything after `GET `.
    Get { key: String },
    /// `DEL <key>`: the key is everything after `DEL `.
    Delete { key: String },
    /// `GKC`: the number of keys.
    KeyCount,
    /// `GAK`: all keys.
    AllKeys,
    /// `QUIT`: close the connection.
    Quit,
    /// `PING`.
    Ping,
    /// Anything else.
    Unknown,
}

/// The mathematical view of a `Command`.
pub enum CommandView {
    SetKey { key: Seq<char>, value: Seq<char> },
    MalformedSet,
    Get { key: Seq<char> },
    Delete { key: Seq<char> },
    KeyCount,
    AllKeys,
    Quit,
    Ping,
    Unknown,
}

impl View for Command {
    type V = CommandView;

    open spec fn view(&self) -> CommandView {
        match self {
            Command::SetKey { key, value } => CommandView::SetKey { key: key@, value: value@ },
            Command::MalformedSet => CommandView::MalformedSet,
            Command::Get { key } => CommandView::Get { key: key@ },
            Command::Delete { key } => CommandView::Delete { key: key@ },
            Command::KeyCount => CommandView::KeyCount,
            Command::AllKeys => CommandView::AllKeys,
            Command::Quit => CommandView::Quit,
            Command::Ping => CommandView::Ping,
            Command::Unknown => CommandView::Unknown,
        }
    }
}

/// How the server reads a line: the prefixes `SET `, `GET `, `DEL ` are tested first,
/// in that order and with their exact case; then the whole line, trimmed, is
/// compared with `GKC`, `GAK`, `QUIT` and `PING`.
pub open spec fn parse_line(line: Seq<char>) -> CommandView {
    if starts_with(line, seq!['S', 'E', 'T', ' ']) {
        let rest = line.skip(4);
        match find_space(rest) {
            Some(i) => CommandView::SetKey { key: rest.take(i), value: rest.skip(i + 1) },
            None => CommandView::MalformedSet,
        }
    } else if starts_with(line, seq!['G', 'E', 'T', ' ']) {
        CommandView::Get { key: line.skip(4) }
    } else if starts_with(line, seq!['D', 'E', 'L', ' ']) {
        CommandView::Delete { key: line.skip(4) }
    } else if trim(line) == seq!['G', 'K', 'C'] {
        CommandView::KeyCount
    } else if trim(line) == seq!['G', 'A', 'K'] {
        CommandView::AllKeys
    } else if trim(line) == seq!['Q', 'U', 'I', 'T'] {
        CommandView::Quit
    } else if trim(line) == seq!['P', 'I', 'N', 'G'] {
        CommandView::Ping
    } else {
        CommandView::Unknown
    }
}

/// Whether `cs` starts with the four characters `a b c d`.
fn has_prefix4(cs: &Vec<char>, a: char, b: char, c: char, d: char) -> (r: bool)
    ensures
        r == starts_with(cs@, seq![a, b, c, d]),
{
    if cs.len() < 4 {
        return false;
    }
    let r = cs[0] == a && cs[1] == b && cs[2] == c && cs[3] == d;
    assert(r == (cs@.take(4) =~= seq![a, b, c, d]));
    r
}

/// Reads one request line.
pub fn parse_command(line: &str) -> (cmd: Command)
    ensures
        cmd@ == parse_line(line@),
{
    let cs = chars_of(line);
    let n = cs.len();
    if has_prefix4(&cs, 'S', 'E', 'T', ' ') {
        let ghost rest = cs@.skip(4);
        assert(rest =~= cs@.subrange(4, n as int));
        match find_space_in(&cs, 4, n) {
            Some(j) => {
                let key = string_from(&cs, 4, j);
                let value = string_from(&cs, j + 1, n);
                assert(key@ =~= rest.take(j - 4));
                assert(value@ =~= rest.skip(j - 4 + 1));
                Command::SetKey { key, value }
            },
            None => Command::MalformedSet,
        }
    } else if has_prefix4(&cs, 'G', 'E', 'T', ' ') {
        let key = string_from(&cs, 4, n);
        assert(key@ =~= cs@.skip(4));
        Command::Get { key }
    } else if has_prefix4(&cs, 'D', 'E', 'L', ' ') {
        let key = string_from(&cs, 4, n);
        assert(key@ =~= cs@.skip(4));
        Command::Delete { key }
    } else {
        let (lo, hi) = trimmed(&cs);
        if range_equals(&cs, lo, hi, &vec!['G', 'K', 'C']) {
            Command::KeyCount
        } else if range_equals(&cs, lo, hi, &vec!['G', 'A', 'K']) {
            Command::AllKeys
        } else if range_equals(&cs, lo, hi, &vec!['Q', 'U', 'I', 'T']) {
            Command::Quit
        } else if range_equals(&cs, lo, hi, &vec!['P', 'I', 'N', 'G']) {
            Command::Ping
        } else {
            Command::Unknown
        }
    }
}


/// `OK\n`.
pub open spec fn ok_reply() -> Seq<u8> {
    encode_utf8("OK\n"@)
}

/// `PONG\n`.
pub open spec fn pong_reply() -> Seq<u8> {
    encode_utf8("PONG\n"@)
}

/// `ERROR Key not found\n`.
pub open spec fn not_found_reply() -> Seq<u8> {
    encode_utf8("ERROR Key not found\n"@)
}

/// `ERROR Invalid SET command\n`.
pub open spec fn malformed_set_reply() -> Seq<u8> {
    encode_utf8("ERROR Invalid SET command\n"@)
}

/// `ERROR Invalid command or arguments\n`.
pub open spec fn invalid_reply() -> Seq<u8> {
    encode_utf8("ERROR Invalid command or arguments\n"@)
}

/// The parts joined with one space between each two.
pub open spec fn join_bytes(parts: Seq<Seq<u8>>) -> Seq<u8>
    decreases parts.len(),
{
    if parts.len() == 0 {
        seq![]
    } else if parts.len() == 1 {
        parts[0]
    } else {
        join_bytes(parts.drop_last()) + seq![32u8] + parts.last()
    }
}

/// The reply that lists `keys`: their UTF-8 bytes joined by spaces, then a newline.
pub open spec fn keys_reply(keys: Seq<Seq<char>>) -> Seq<u8> {
    join_bytes(keys.map_values(|k: Seq<char>| encode_utf8(k))).push(10u8)
}

/// The reply that gives a count: its decimal digits, then a newline.
pub open spec fn count_reply(n: nat) -> Seq<u8> {
    encode_utf8(decimal(n)).push(10u8)
}

/// Whether `keys` names every member of `dom` exactly once.
pub open spec fn lists(keys: Seq<Seq<char>>, dom: Set<Seq<char>>) -> bool {
    keys.no_duplicates() && keys.to_set() == dom
}

/// What the server does after reading one line.
pub enum Step {
    /// Send these bytes.
    Reply(Vec<u8>),
    /// The line was no request: send these bytes, and warn of it.
    Rejected(Vec<u8>),
    /// The client asked to close the connection; nothing is sent.
    Close,
}

/// The mathematical view of a `Step`.
pub enum StepView {
    Reply(Seq<u8>),
    Rejected(Seq<u8>),
    Close,
}

impl View for Step {
    type V = StepView;

    open spec fn view(&self) -> StepView {
        match self {
            Step::Reply(b) => StepView::Reply(b@),
            Step::Rejected(b) => StepView::Rejected(b@),
            Step::Close => StepView::Close,
        }
    }
}

/// How a request takes the store from `m` to `m2` and what the server does:
/// `SET` stores the value's UTF-8 bytes and answers `OK`; `GET` answers the stored
/// bytes or `ERROR Key not found`; `DEL` removes the key and answers `OK`, or
/// `ERROR Key not found` when there was none; `GKC` answers the number of keys;
/// `GAK` answers every key once, in some order; `QUIT` closes; `PING` answers
/// `PONG`; a malformed `SET` and an unknown line get their error replies. Only
/// `SET` and `DEL` change the store.
pub open spec fn transition(
    m: Map<Seq<char>, Seq<u8>>,
    cmd: CommandView,
    m2: Map<Seq<char>, Seq<u8>>,
    step: StepView,
) -> bool {
    match cmd {
        CommandView::SetKey { key, value } => m2 == m.insert(key, encode_utf8(value)) && step
            == StepView::Reply(ok_reply()),
        CommandView::MalformedSet => m2 == m && step == StepView::Reply(malformed_set_reply()),
        CommandView::Get { key } => m2 == m && step == StepView::Reply(
            if m.contains_key(key) {
                m[key].push(10u8)
            } else {
                not_found_reply()
            },
        ),
        CommandView::Delete { key } => m2 == m.remove(key) && step == StepView::Reply(
            if m.contains_key(key) {
                ok_reply()
            } else {
                not_found_reply()
            },
        ),
        CommandView::KeyCount => m2 == m && step == StepView::Reply(count_reply(m.len())),
        CommandView::AllKeys => m2 == m && exists|keys: Seq<Seq<char>>|
            lists(keys, m.dom()) && step == StepView::Reply(#[trigger] keys_reply(keys)),
        CommandView::Quit => m2 == m && step == StepView::Close,
        CommandView::Ping => m2 == m && step == StepView::Reply(pong_reply()),
        CommandView::Unknown => m2 == m && step == StepView::Rejected(invalid_reply()),
    }
}

/// The keys' UTF-8 bytes joined by spaces, then a newline.
fn keys_reply_bytes(keys: &Vec<String>) -> (r: Vec<u8>)
    ensures
        r@ == keys_reply(views(keys@)),
{
    let ghost parts = views(keys@).map_values(|k: Seq<char>| encode_utf8(k));
    let mut out: Vec<u8> = Vec::new();
    let mut i: usize = 0;
    while i < keys.len()
        invariant
            i <= keys.len(),
            parts == views(keys@).map_values(|k: Seq<char>| encode_utf8(k)),
            out@ == join_bytes(parts.take(i as int)),
        decreases keys.len() - i,
    {
        let ghost before = out@;
        if i > 0 {
            out.push(32u8);
        }
        let bytes = keys[i].as_str().as_bytes();
        out.extend_from_slice(bytes);
        proof {
            assert(parts.take(i + 1).drop_last() =~= parts.take(i as int));
            assert(parts[i as int] == encode_utf8(keys@[i as int]@));
            if i == 0 {
                assert(out@ =~= parts.take(1)[0]);
            } else {
                assert(out@ =~= before + seq![32u8] + parts.take(i + 1).last());
            }
        }
        i = i + 1;
    }
    assert(parts.take(keys.len() as int) =~= parts);
    out.push(10u8);
    out
}

/// The count's decimal digits, then a newline.
fn count_reply_bytes(n: usize) -> (r: Vec<u8>)
    ensures
        r@ == count_reply(n as nat),
{
    let digits = decimal_digits(n as u64);
    let text = string_from(&digits, 0, digits.len());
    assert(text@ =~= decimal(n as nat));
    let mut out: Vec<u8> = Vec::new();
    out.extend_from_slice(text.as_str().as_bytes());
    out.push(10u8);
    out
}

impl Store {
    /// Carries out one request.
    pub fn execute(&mut self, cmd: Command) -> (step: Step)
        requires
            old(self).wf(),
        ensures
            final(self).wf(),
            transition(old(self)@, cmd@, final(self)@, step@),
    {
        match cmd {
            Command::SetKey { key, value } => {
                self.set(key, value);
                Step::Reply(text_bytes("OK\n"))
            },
            Command::MalformedSet => Step::Reply(text_bytes("ERROR Invalid SET command\n")),
            Command::Get { key } => {
                match self.get(key.as_str()) {
                    Some(value) => {
                        let mut out = value;
                        out.push(10u8);
                        Step::Reply(out)
                    },
                    None => Step::Reply(text_bytes("ERROR Key not found\n")),
                }
            },
            Command::Delete { key } => {
                if self.delete(key.as_str()) {
                    Step::Reply(text_bytes("OK\n"))
                } else {
                    Step::Reply(text_bytes("ERROR Key not found\n"))
                }
            },
            Command::KeyCount => {
                let n = self.len();
                Step::Reply(count_reply_bytes(n))
            },
            Command::AllKeys => {
                let keys = self.keys();
                let out = keys_reply_bytes(&keys);
                assert(lists(views(keys@), self@.dom()));
                Step::Reply(out)
            },
            Command::Quit => Step::Close,
            Command::Ping => Step::Reply(text_bytes("PONG\n")),
            Command::Unknown => Step::Rejected(text_bytes("ERROR Invalid command or arguments\n")),
        }
    }

    /// Reads one request line and carries it out.
    pub fn handle_line(&mut self, line: &str) -> (step: Step)
        requires
            old(self).wf(),
        ensures
            final(self).wf(),
            transition(old(self)@, parse_line(line@), final(self)@, step@),
    {
        let cmd = parse_command(line);
        self.execute(cmd)
    }
}

/// The UTF-8 bytes of `s`.
fn text_bytes(s: &str) -> (r: Vec<u8>)
    ensures
        r@ == encode_utf8(s@),
{
    let mut v: Vec<u8> = Vec::new();
    v.extend_from_slice(s.as_bytes());
    v
}

} // verus!
