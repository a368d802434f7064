//! The simpler form of the protocol: only `SET` and `GET`, the command word read in
//! any letter case, and values kept as strings.

use vstd::hash_map::StringHashMap;
use vstd::prelude::*;

use crate::text::{chars_of, find_space, find_space_in, range_equals, string_from, trim, trimmed};

verus! {

broadcast use vstd::string::group_string_axioms, vstd::hash_map::group_hash_map_axioms;

/// What `str::to_uppercase` makes of a string: each character replaced by its
/// Unicode upper-case mapping.
pub uninterp spec fn uppercase(s: Seq<char>) -> Seq<char>;

/// `str::to_uppercase` maps every character to its upper case by Unicode's tables;
/// the result depends on the string alone and is named `uppercase`, the tables
/// are not written out here.
#[verifier::external_body]
fn to_uppercase(s: &str) -> (r: String)
    ensures
        r@ == uppercase(s@),
{
    s.to_uppercase()
}

/// A request of the simpler protocol.
pub enum StringRequest {
    /// `SET <key> <value>`.
    Put { key: String, value: String },
    /// `GET <key>`.
    Fetch { key: String },
    /// Anything else.
    Invalid,
}

/// The mathematical view of a `StringRequest`.
pub enum StringRequestView {
    Put { key: Seq<char>, value: Seq<char> },
    Fetch { key: Seq<char> },
    Invalid,
}

impl View for StringRequest {
    type V = StringRequestView;

    open spec fn view(&self) -> StringRequestView {
        match self {
            StringRequest::Put { key, value } => StringRequestView::Put { key: key@, value: value@ },
            StringRequest::Fetch { key } => StringRequestView::Fetch { key: key@ },
            StringRequest::Invalid => StringRequestView::Invalid,
        }
    }
}

/// `s` cut at its first two spaces into at most three parts, as `splitn(3, ' ')`
/// cuts it: the first part, then the second and the rest where there are any.
pub open spec fn split3(s: Seq<char>) -> (Seq<char>, Option<Seq<char>>, Option<Seq<char>>) {
    match find_space(s) {
        None => (s, None, None),
        Some(i) => {
            let r = s.skip(i + 1);
            match find_space(r) {
                None => (s.take(i), Some(r), None),
                Some(j) => (s.take(i), Some(r.take(j)), Some(r.skip(j + 1))),
            }
        },
    }
}

/// The request that the upper-cased command word and the key and value parts make.
pub open spec fn classify_spec(
    command: Seq<char>,
    key: Option<Seq<char>>,
    value: Option<Seq<char>>,
) -> StringRequestView {
    if command == seq!['S', 'E', 'T'] && key is Some && value is Some {
        StringRequestView::Put { key: key->0, value: value->0 }
    } else if command == seq!['G', 'E', 'T'] && key is Some {
        StringRequestView::Fetch { key: key->0 }
    } else {
        StringRequestView::Invalid
    }
}

/// How the simpler protocol reads a line: trimmed, cut into at most three parts at
/// spaces, the first part upper-cased and compared with `SET` and `GET`.
pub open spec fn parse_string_line(line: Seq<char>) -> StringRequestView {
    let parts = split3(trim(line));
    classify_spec(uppercase(parts.0), parts.1, parts.2)
}

/// The request that an upper-cased command word and the key and value parts make.
pub fn classify(command: &str, key: Option<String>, value: Option<String>) -> (r: StringRequest)
    ensures
        r@ == classify_spec(
            command@,
            match key {
                Some(k) => Some(k@),
                None => None,
            },
            match value {
                Some(v) => Some(v@),
                None => None,
            },
        ),
{
    let cs = chars_of(command);
    let n = cs.len();
    if range_equals(&cs, 0, n, &vec!['S', 'E', 'T']) {
        assert(cs@.subrange(0, n as int) =~= cs@);
        match (key, value) {
            (Some(k), Some(v)) => {
                return StringRequest::Put { key: k, value: v };
            },
            (Some(k), None) => {
                return StringRequest::Invalid;
            },
            _ => {
                return StringRequest::Invalid;
            },
        }
    }
    assert(cs@.subrange(0, n as int) =~= cs@);
    if range_equals(&cs, 0, n, &vec!['G', 'E', 'T']) {
        match key {
            Some(k) => StringRequest::Fetch { key: k },
            None => StringRequest::Invalid,
        }
    } else {
        StringRequest::Invalid
    }
}

/// Reads one line of the simpler protocol.
pub fn parse_string_request(line: &str) -> (r: StringRequest)
    ensures
        r@ == parse_string_line(line@),
{
    let cs = chars_of(line);
    let (lo, hi) = trimmed(&cs);
    let ghost t = cs@.subrange(lo as int, hi as int);
    let (word, key, value) = match find_space_in(&cs, lo, hi) {
        None => (string_from(&cs, lo, hi), None, None),
        Some(i) => {
            let word = string_from(&cs, lo, i);
            assert(word@ =~= t.take(i - lo));
            assert(t.skip(i - lo + 1) =~= cs@.subrange(i + 1, hi as int));
            match find_space_in(&cs, i + 1, hi) {
                None => {
                    let key = string_from(&cs, i + 1, hi);
                    (word, Some(key), None)
                },
                Some(j) => {
                    let ghost r = cs@.subrange(i + 1, hi as int);
                    let key = string_from(&cs, i + 1, j);
                    let value = string_from(&cs, j + 1, hi);
                    assert(key@ =~= r.take(j - (i + 1)));
                    assert(value@ =~= r.skip(j - (i + 1) + 1));
                    (word, Some(key), Some(value))
                },
            }
        },
    };
    let command = to_uppercase(word.as_str());
    classify(command.as_str(), key, value)
}

/// What the simpler server does after reading one line.
pub enum StringStep {
    /// Send this text.
    Reply(String),
    /// The line was no request: send this text, and warn of it.
    Rejected(String),
}

/// The mathematical view of a `StringStep`.
pub enum StringStepView {
    Reply(Seq<char>),
    Rejected(Seq<char>),
}

impl View for StringStep {
    type V = StringStepView;

    open spec fn view(&self) -> StringStepView {
        match self {
            StringStep::Reply(t) => StringStepView::Reply(t@),
            StringStep::Rejected(t) => StringStepView::Rejected(t@),
        }
    }
}

/// How a request of the simpler protocol takes the store from `m` to `m2`, and
/// what is answered: `SET` stores the value and answers `OK`; `GET` answers the
/// value and a newline, or `ERROR Key not found`; anything else changes nothing
/// and is answered `ERROR Invalid command or arguments`.
pub open spec fn string_transition(
    m: Map<Seq<char>, Seq<char>>,
    req: StringRequestView,
    m2: Map<Seq<char>, Seq<char>>,
    step: StringStepView,
) -> bool {
    match req {
        StringRequestView::Put { key, value } => m2 == m.insert(key, value) && step
            == StringStepView::Reply("OK\n"@),
        StringRequestView::Fetch { key } => m2 == m && step == StringStepView::Reply(
            if m.contains_key(key) {
                m[key].push('\n')
            } else {
                "ERROR Key not found\n"@
            },
        ),
        StringRequestView::Invalid => m2 == m && step == StringStepView::Rejected(
            "ERROR Invalid command or arguments\n"@,
        ),
    }
}

/// The store of the simpler server: keys mapped to strings.
pub struct StringStore {
    map: StringHashMap<String>,
}

impl View for StringStore {
    type V = Map<Seq<char>, Seq<char>>;

    closed spec fn view(&self) -> Map<Seq<char>, Seq<char>> {
        self.map@.map_values(|v: String| v@)
    }
}

impl StringStore {
    /// An empty store.
    pub fn new() -> (s: StringStore)
        ensures
            s@ == Map::<Seq<char>, Seq<char>>::empty(),
    {
        let s = StringStore { map: StringHashMap::new() };
        assert(s@ =~= Map::<Seq<char>, Seq<char>>::empty());
        s
    }

    /// Carries out one request.
    pub fn execute(&mut self, req: StringRequest) -> (step: StringStep)
        ensures
            string_transition(old(self)@, req@, final(self)@, step@),
    {
        match req {
            StringRequest::Put { key, value } => {
                let ghost k = key@;
                let ghost v = value@;
                self.map.insert(key, value);
                assert(self@ =~= old(self)@.insert(k, v));
                StringStep::Reply("OK\n".to_owned())
            },
            StringRequest::Fetch { key } => {
                match self.map.get(key.as_str()) {
                    Some(value) => {
                        let mut out = value.clone();
                        out.push('\n');
                        StringStep::Reply(out)
                    },
                    None => StringStep::Reply("ERROR Key not found\n".to_owned()),
                }
            },
            StringRequest::Invalid => StringStep::Rejected(
                "ERROR Invalid command or arguments\n".to_owned(),
            ),
        }
    }

    /// Reads one line and carries it out.
    pub fn handle_line(&mut self, line: &str) -> (step: StringStep)
        ensures
            string_transition(old(self)@, parse_string_line(line@), final(self)@, step@),
    {
        let req = parse_string_request(line);
        self.execute(req)
    }
}

} // verus!
