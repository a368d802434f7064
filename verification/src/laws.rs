//! Properties that relate several operations: what a read gives back of a write,
//! what a client reads of the server's replies, and how starts and stops follow
//! one another.

use vstd::prelude::*;
use vstd::utf8::{decode_utf8, encode_scalar, encode_utf8};

use crate::client::{request_line, ClientRequestView};
use crate::lifecycle::{start_spec, ServerState, StartDecision};
use crate::protocol::{
    count_reply, join_bytes, keys_reply, not_found_reply, ok_reply, parse_line, transition,
    CommandView, StepView,
};
use crate::string_store::{string_transition, StringRequestView, StringStepView};
use crate::text::{
    decimal, find_space_is_after_word, is_space, lemma_decimal, lemma_parse_decimal, parse_u64,
    trim, trim_end, trim_start, words,
};

verus! {

broadcast use vstd::utf8::group_utf8_lib;

/// A `GET` of a key right after a `SET` of it answers the value that was set,
/// as UTF-8 bytes followed by a newline.
pub proof fn law_get_after_set(
    m: Map<Seq<char>, Seq<u8>>,
    key: Seq<char>,
    value: Seq<char>,
    m1: Map<Seq<char>, Seq<u8>>,
    s1: StepView,
    m2: Map<Seq<char>, Seq<u8>>,
    s2: StepView,
)
    requires
        transition(m, CommandView::SetKey { key, value }, m1, s1),
        transition(m1, CommandView::Get { key }, m2, s2),
    ensures
        s2 == StepView::Reply(encode_utf8(value).push(10u8)),
        m2 == m1,
{
}

/// A `GET` of a key right after a `DEL` of it answers `ERROR Key not found`.
pub proof fn law_get_after_delete(
    m: Map<Seq<char>, Seq<u8>>,
    key: Seq<char>,
    m1: Map<Seq<char>, Seq<u8>>,
    s1: StepView,
    m2: Map<Seq<char>, Seq<u8>>,
    s2: StepView,
)
    requires
        transition(m, CommandView::Delete { key }, m1, s1),
        transition(m1, CommandView::Get { key }, m2, s2),
    ensures
        s2 == StepView::Reply(not_found_reply()),
{
}

/// A `SET` leaves every other key as it was.
pub proof fn law_set_keeps_other_keys(
    m: Map<Seq<char>, Seq<u8>>,
    key: Seq<char>,
    value: Seq<char>,
    other: Seq<char>,
    m1: Map<Seq<char>, Seq<u8>>,
    s1: StepView,
)
    requires
        transition(m, CommandView::SetKey { key, value }, m1, s1),
        other != key,
    ensures
        m1.contains_key(other) == m.contains_key(other),
        m.contains_key(other) ==> m1[other] == m[other],
{
}

/// A `DEL` leaves every other key as it was.
pub proof fn law_delete_keeps_other_keys(
    m: Map<Seq<char>, Seq<u8>>,
    key: Seq<char>,
    other: Seq<char>,
    m1: Map<Seq<char>, Seq<u8>>,
    s1: StepView,
)
    requires
        transition(m, CommandView::Delete { key }, m1, s1),
        other != key,
    ensures
        m1.contains_key(other) == m.contains_key(other),
        m.contains_key(other) ==> m1[other] == m[other],
{
}

/// Only `SET` and `DEL` change the store.
pub proof fn law_only_set_and_delete_write(
    m: Map<Seq<char>, Seq<u8>>,
    cmd: CommandView,
    m1: Map<Seq<char>, Seq<u8>>,
    s1: StepView,
)
    requires
        transition(m, cmd, m1, s1),
        !(cmd is SetKey),
        !(cmd is Delete),
    ensures
        m1 == m,
{
}

/// Setting a key twice to the same value leaves the store as setting it once,
/// and both answer alike.
pub proof fn law_set_idempotent(
    m: Map<Seq<char>, Seq<u8>>,
    key: Seq<char>,
    value: Seq<char>,
    m1: Map<Seq<char>, Seq<u8>>,
    s1: StepView,
    m2: Map<Seq<char>, Seq<u8>>,
    s2: StepView,
)
    requires
        transition(m, CommandView::SetKey { key, value }, m1, s1),
        transition(m1, CommandView::SetKey { key, value }, m2, s2),
    ensures
        m2 == m1,
        s2 == s1,
{
    assert(m1.insert(key, encode_utf8(value)) =~= m1);
}

/// Setting a key that was absent adds one to the count of keys; deleting a key
/// that was present takes one off.
pub proof fn law_count_follows_writes(
    m: Map<Seq<char>, Seq<u8>>,
    key: Seq<char>,
    value: Seq<char>,
    m1: Map<Seq<char>, Seq<u8>>,
    s1: StepView,
    m2: Map<Seq<char>, Seq<u8>>,
    s2: StepView,
)
    requires
        m.dom().finite(),
        transition(m, CommandView::SetKey { key, value }, m1, s1),
        transition(m, CommandView::Delete { key }, m2, s2),
    ensures
        !m.contains_key(key) ==> m1.len() == m.len() + 1,
        m.contains_key(key) ==> m1.len() == m.len(),
        m.contains_key(key) ==> m2.len() + 1 == m.len(),
        !m.contains_key(key) ==> m2.len() == m.len(),
{
    if !m.contains_key(key) {
        assert(m2 =~= m);
    }
}


/// The request the server reads from the line a client sends for `req`.
pub open spec fn as_read_by_server(req: ClientRequestView) -> CommandView {
    match req {
        ClientRequestView::SetKey { key, value } => CommandView::SetKey { key, value },
        ClientRequestView::Get { key } => CommandView::Get { key },
        ClientRequestView::Delete { key } => CommandView::Delete { key },
        ClientRequestView::AllKeys => CommandView::AllKeys,
        ClientRequestView::KeyCount => CommandView::KeyCount,
        ClientRequestView::Raw { .. } => CommandView::Unknown,
    }
}

/// A word with no space in it, trimmed, is itself.
proof fn lemma_trim_word(w: Seq<char>)
    requires
        w.len() > 0,
        forall|i: int| 0 <= i < w.len() ==> !is_space(#[trigger] w[i]),
    ensures
        trim(w) == w,
{
    assert(trim_end(w) == w);
    assert(trim_start(w) == w);
}

/// The server reads each request line that a client writes as the request the
/// client meant, where the key of a `SET` holds no space (the server ends the
/// key at the first space).
pub proof fn law_request_line_round_trip(req: ClientRequestView)
    requires
        !(req is Raw),
        req matches ClientRequestView::SetKey { key, .. } ==> !key.contains(' '),
    ensures
        parse_line(request_line(req)) == as_read_by_server(req),
{
    let line = request_line(req);
    match req {
        ClientRequestView::SetKey { key, value } => {
            assert(line.take(4) =~= seq!['S', 'E', 'T', ' ']);
            assert(line.skip(4) =~= key + seq![' '] + value);
            find_space_is_after_word(key, value);
            assert((key + seq![' '] + value).take(key.len() as int) =~= key);
            assert((key + seq![' '] + value).skip(key.len() as int + 1) =~= value);
        },
        ClientRequestView::Get { key } => {
            assert(line.take(4) =~= seq!['G', 'E', 'T', ' ']);
            assert(line.take(4)[0] != seq!['S', 'E', 'T', ' '][0]);
            assert(line.skip(4) =~= key);
        },
        ClientRequestView::Delete { key } => {
            assert(line.take(4) =~= seq!['D', 'E', 'L', ' ']);
            assert(line.take(4)[0] != seq!['S', 'E', 'T', ' '][0]);
            assert(line.take(4)[0] != seq!['G', 'E', 'T', ' '][0]);
            assert(line.skip(4) =~= key);
        },
        ClientRequestView::AllKeys => {
            lemma_trim_word(line);
            assert(line[1] != seq!['G', 'K', 'C'][1]);
        },
        ClientRequestView::KeyCount => {
            lemma_trim_word(line);
        },
        ClientRequestView::Raw { .. } => {},
    }
}


/// The UTF-8 bytes of two strings one after the other are those of the first,
/// then those of the second.
proof fn lemma_encode_concat(a: Seq<char>, b: Seq<char>)
    ensures
        encode_utf8(a + b) == encode_utf8(a) + encode_utf8(b),
    decreases a.len(),
{
    if a.len() > 0 {
        assert((a + b).drop_first() =~= a.drop_first() + b);
        assert((a + b)[0] == a[0]);
        lemma_encode_concat(a.drop_first(), b);
    } else {
        assert(a + b =~= b);
    }
}

/// A newline is the byte 10.
proof fn lemma_encode_push_newline(s: Seq<char>)
    ensures
        encode_utf8(s.push('\n')) == encode_utf8(s).push(10u8),
{
    lemma_encode_concat(s, seq!['\n']);
    assert(s + seq!['\n'] =~= s.push('\n'));
    let c = seq!['\n'];
    assert(c[0] as u32 == 10);
    assert((10u32 & 0x7F) as u8 == 10u8) by (bit_vector);
    assert(encode_scalar(10u32) =~= seq![10u8]);
    assert(c.drop_first() =~= seq![]);
    assert(encode_utf8(c.drop_first()) =~= seq![]);
    assert(encode_utf8(c) =~= encode_scalar(c[0] as u32) + encode_utf8(c.drop_first()));
    assert(encode_utf8(c) =~= seq![10u8]);
}

/// What a client reads of a reply: the line decoded from UTF-8, its trailing
/// white space cut off.
pub open spec fn as_read_by_client(reply: Seq<u8>) -> Seq<char> {
    trim_end(decode_utf8(reply))
}

/// A client reads the server's `OK` as `OK`: a `set`, and a `delete` of a key
/// that was there, report success.
pub proof fn law_ok_reply_reads_ok()
    ensures
        as_read_by_client(ok_reply()) == seq!['O', 'K'],
{
    reveal_strlit("OK\n");
    let t = "OK\n"@;
    assert(decode_utf8(ok_reply()) == t);
    assert(t.len() == 3);
    assert(t[2] == '\n');
    assert(is_space(t.last()));
    assert(t.drop_last() =~= seq!['O', 'K']);
    assert(!is_space('K'));
    assert(trim_end(t.drop_last()) == t.drop_last());
    assert(trim_end(t) == trim_end(t.drop_last()));
}

/// A client does not read `ERROR Key not found` as `OK`: a `delete` of a key
/// that was not there reports failure.
pub proof fn law_not_found_reads_not_ok()
    ensures
        as_read_by_client(not_found_reply()) != seq!['O', 'K'],
{
    reveal_strlit("ERROR Key not found\n");
    let t = "ERROR Key not found\n"@;
    assert(decode_utf8(not_found_reply()) == t);
    assert(t.len() == 20);
    assert(is_space(t.last()));
    assert(!is_space(t.drop_last().last()));
    assert(trim_end(t.drop_last()) == t.drop_last());
    assert(trim_end(t) == t.drop_last());
    assert(t.drop_last().len() != 2);
}

/// The value that a client reads back of a stored value is that value with its
/// trailing white space cut off.
pub proof fn law_value_reads_back(value: Seq<char>)
    ensures
        as_read_by_client(encode_utf8(value).push(10u8)) == trim_end(value),
{
    lemma_encode_push_newline(value);
    assert(value.push('\n').drop_last() =~= value);
}

/// A client reads a count reply back as the count, where it fits in a `u64`.
pub proof fn law_count_reads_back(n: nat)
    requires
        n <= u64::MAX,
    ensures
        parse_u64(as_read_by_client(count_reply(n))) == Some(n as u64),
{
    lemma_encode_push_newline(decimal(n));
    lemma_decimal(n);
    lemma_parse_decimal(n);
    let d = decimal(n);
    assert(decode_utf8(count_reply(n)) == d.push('\n'));
    assert(d.push('\n').drop_last() =~= d);
    assert(trim_end(d) == d);
    assert(trim_end(d.push('\n')) == d);
}


/// A space is the byte 32.
proof fn lemma_encode_space()
    ensures
        encode_utf8(seq![' ']) == seq![32u8],
{
    let c = seq![' '];
    assert(c[0] as u32 == 32);
    assert((32u32 & 0x7F) as u8 == 32u8) by (bit_vector);
    assert(encode_scalar(32u32) =~= seq![32u8]);
    assert(c.drop_first() =~= seq![]);
    assert(encode_utf8(c.drop_first()) =~= seq![]);
    assert(encode_utf8(c) =~= encode_scalar(c[0] as u32) + encode_utf8(c.drop_first()));
}

/// The words joined with one space between each two.
pub open spec fn join_words(ks: Seq<Seq<char>>) -> Seq<char>
    decreases ks.len(),
{
    if ks.len() == 0 {
        seq![]
    } else if ks.len() == 1 {
        ks[0]
    } else {
        join_words(ks.drop_last()) + seq![' '] + ks.last()
    }
}

/// Whether `w` is a word: non-empty, with no white space in it.
pub open spec fn is_word(w: Seq<char>) -> bool {
    w.len() > 0 && forall|j: int| 0 <= j < w.len() ==> !is_space(#[trigger] w[j])
}

proof fn lemma_words_of_word(w: Seq<char>)
    requires
        is_word(w),
    ensures
        words(w) == seq![w],
    decreases w.len(),
{
    let p = w.drop_last();
    if p.len() == 0 {
        assert(words(p) =~= seq![]);
        assert(seq![w.last()] =~= w);
    } else {
        assert(is_word(p)) by {
            assert forall|j: int| 0 <= j < p.len() implies !is_space(#[trigger] p[j]) by {
                assert(p[j] == w[j]);
            }
        }
        lemma_words_of_word(p);
        assert(w[w.len() - 2] == p.last());
        assert(p.push(w.last()) =~= w);
        assert(seq![p].update(0, p.push(w.last())) =~= seq![w]);
    }
}

proof fn lemma_words_append(s: Seq<char>, w: Seq<char>)
    requires
        is_word(w),
    ensures
        words(s + seq![' '] + w) == words(s).push(w),
    decreases w.len(),
{
    let x = s + seq![' '] + w;
    let p = w.drop_last();
    assert(x.last() == w.last());
    assert(x.drop_last() =~= s + seq![' '] + p);
    if p.len() == 0 {
        let y = s + seq![' '];
        assert(x.drop_last() =~= y);
        assert(y.drop_last() =~= s);
        assert(y.last() == ' ');
        assert(x[x.len() - 2] == ' ');
        assert(is_space(' '));
        assert(words(y) == words(s));
        assert(!is_space(w.last()));
        assert(words(x) == words(y).push(seq![w.last()]));
        assert(seq![w.last()] =~= w);
    } else {
        assert(is_word(p)) by {
            assert forall|j: int| 0 <= j < p.len() implies !is_space(#[trigger] p[j]) by {
                assert(p[j] == w[j]);
            }
        }
        lemma_words_append(s, p);
        assert(x[x.len() - 2] == p.last());
        assert(!is_space(p.last()));
        assert(!is_space(w.last()));
        let ws = words(x.drop_last());
        assert(ws == words(s).push(p));
        assert(words(x) == ws.update(ws.len() - 1, ws.last().push(x.last())));
        assert(p.push(w.last()) =~= w);
        assert(words(s).push(p).update(words(s).len() as int, w) =~= words(s).push(w));
    }
}

/// Splitting words joined by spaces at white space gives the words back.
proof fn lemma_words_of_join(ks: Seq<Seq<char>>)
    requires
        forall|i: int| 0 <= i < ks.len() ==> is_word(#[trigger] ks[i]),
    ensures
        words(join_words(ks)) == ks,
    decreases ks.len(),
{
    if ks.len() == 0 {
        assert(words(seq![]) =~= ks);
    } else if ks.len() == 1 {
        lemma_words_of_word(ks[0]);
        assert(seq![ks[0]] =~= ks);
    } else {
        let d = ks.drop_last();
        assert forall|i: int| 0 <= i < d.len() implies is_word(#[trigger] d[i]) by {
            assert(d[i] == ks[i]);
        }
        lemma_words_of_join(d);
        assert(is_word(ks[ks.len() - 1]));
        lemma_words_append(join_words(d), ks.last());
        assert(d.push(ks.last()) =~= ks);
    }
}

/// The UTF-8 bytes of joined words are the words' bytes joined.
proof fn lemma_encode_join(ks: Seq<Seq<char>>)
    ensures
        encode_utf8(join_words(ks)) == join_bytes(ks.map_values(|k: Seq<char>| encode_utf8(k))),
    decreases ks.len(),
{
    let parts = ks.map_values(|k: Seq<char>| encode_utf8(k));
    if ks.len() == 0 {
        assert(encode_utf8(seq![]) =~= seq![]);
    } else if ks.len() == 1 {
    } else {
        let d = ks.drop_last();
        lemma_encode_join(d);
        assert(parts.drop_last() =~= d.map_values(|k: Seq<char>| encode_utf8(k)));
        lemma_encode_concat(join_words(d) + seq![' '], ks.last());
        lemma_encode_concat(join_words(d), seq![' ']);
        lemma_encode_space();
    }
}

/// Joined words end in no white space.
proof fn lemma_join_trimmed(ks: Seq<Seq<char>>)
    requires
        forall|i: int| 0 <= i < ks.len() ==> is_word(#[trigger] ks[i]),
    ensures
        trim_end(join_words(ks)) == join_words(ks),
{
    let j = join_words(ks);
    if ks.len() == 1 {
        assert(is_word(ks[0]));
        assert(!is_space(ks[0][ks[0].len() - 1]));
    } else if ks.len() >= 2 {
        let w = ks.last();
        assert(is_word(ks[ks.len() - 1]));
        assert(j.last() == w[w.len() - 1]);
    }
}

/// A client reads a `GAK` reply back as the keys it lists, in the order listed,
/// where each key is a non-empty run of non-space characters (the client splits
/// the reply at white space).
pub proof fn law_keys_read_back(ks: Seq<Seq<char>>)
    requires
        forall|i: int| 0 <= i < ks.len() ==> is_word(#[trigger] ks[i]),
    ensures
        words(as_read_by_client(keys_reply(ks))) == ks,
{
    let j = join_words(ks);
    lemma_encode_join(ks);
    lemma_encode_push_newline(j);
    lemma_join_trimmed(ks);
    assert(j.push('\n').drop_last() =~= j);
    assert(decode_utf8(keys_reply(ks)) == j.push('\n'));
    assert(trim_end(j.push('\n')) == j);
    lemma_words_of_join(ks);
}


/// Through the protocol, a client that sets a key and then gets it reads back the
/// value it set, without trailing white space, where the key holds no space.
pub proof fn law_client_reads_back_what_it_set(
    m: Map<Seq<char>, Seq<u8>>,
    key: Seq<char>,
    value: Seq<char>,
    m1: Map<Seq<char>, Seq<u8>>,
    s1: StepView,
    m2: Map<Seq<char>, Seq<u8>>,
    s2: StepView,
)
    requires
        !key.contains(' '),
        transition(m, parse_line(request_line(ClientRequestView::SetKey { key, value })), m1, s1),
        transition(m1, parse_line(request_line(ClientRequestView::Get { key })), m2, s2),
    ensures
        s1 == StepView::Reply(ok_reply()),
        s2 matches StepView::Reply(r) && as_read_by_client(r) == trim_end(value),
{
    law_request_line_round_trip(ClientRequestView::SetKey { key, value });
    law_request_line_round_trip(ClientRequestView::Get { key });
    law_value_reads_back(value);
}

/// A start while the server runs is refused and changes nothing.
pub proof fn law_start_while_running_refused(s: ServerState)
    requires
        s.running,
    ensures
        start_spec(s, true) == (s, StartDecision::AlreadyRunning),
{
}

/// A start with an address that cannot be read changes nothing.
pub proof fn law_invalid_address_changes_nothing(s: ServerState)
    ensures
        start_spec(s, false) == (s, StartDecision::InvalidAddress),
{
}

/// Of two starts one after the other on a server that is not running, the first
/// launches and the second is refused.
pub proof fn law_second_start_refused(s: ServerState)
    requires
        !s.running,
    ensures
        start_spec(s, true).1 == StartDecision::Launch,
        start_spec(start_spec(s, true).0, true).1 == StartDecision::AlreadyRunning,
{
}

/// In the simpler protocol too, a `GET` right after a `SET` of the same key
/// answers the value set, followed by a newline.
pub proof fn law_string_get_after_set(
    m: Map<Seq<char>, Seq<char>>,
    key: Seq<char>,
    value: Seq<char>,
    m1: Map<Seq<char>, Seq<char>>,
    s1: StringStepView,
    m2: Map<Seq<char>, Seq<char>>,
    s2: StringStepView,
)
    requires
        string_transition(m, StringRequestView::Put { key, value }, m1, s1),
        string_transition(m1, StringRequestView::Fetch { key }, m2, s2),
    ensures
        s2 == StringStepView::Reply(value.push('\n')),
        m2 == m1,
{
}


/// The reply to a `DEL` is `OK` exactly when the key was in the store before the
/// request; otherwise it is `ERROR Key not found`.
pub proof fn law_delete_reply(
    m: Map<Seq<char>, Seq<u8>>,
    key: Seq<char>,
    m1: Map<Seq<char>, Seq<u8>>,
    s1: StepView,
)
    requires
        transition(m, CommandView::Delete { key }, m1, s1),
    ensures
        s1 == StepView::Reply(ok_reply()) <==> m.contains_key(key),
        !m.contains_key(key) ==> s1 == StepView::Reply(not_found_reply()),
        !m1.contains_key(key),
{
    reveal_strlit("OK\n");
    reveal_strlit("ERROR Key not found\n");
    assert(decode_utf8(ok_reply()) != decode_utf8(not_found_reply())) by {
        assert("OK\n"@.len() != "ERROR Key not found\n"@.len());
    }
}

/// The reply to a `GET` of a key that is not in the store is `ERROR Key not
/// found`; of a key that is, the bytes stored under it and a newline.
pub proof fn law_get_reply(
    m: Map<Seq<char>, Seq<u8>>,
    key: Seq<char>,
    m1: Map<Seq<char>, Seq<u8>>,
    s1: StepView,
)
    requires
        transition(m, CommandView::Get { key }, m1, s1),
    ensures
        !m.contains_key(key) ==> s1 == StepView::Reply(not_found_reply()),
        m.contains_key(key) ==> (s1 matches StepView::Reply(r) && r.drop_last() == m[key]
            && r.last() == 10u8),
        m1 == m,
{
    if m.contains_key(key) {
        assert(m[key].push(10u8).drop_last() =~= m[key]);
    }
}

/// In the simpler protocol, a `SET` of one key leaves every other key as it was.
pub proof fn law_string_set_keeps_other_keys(
    m: Map<Seq<char>, Seq<char>>,
    key: Seq<char>,
    value: Seq<char>,
    other: Seq<char>,
    m1: Map<Seq<char>, Seq<char>>,
    s1: StringStepView,
)
    requires
        string_transition(m, StringRequestView::Put { key, value }, m1, s1),
        other != key,
    ensures
        m1.contains_key(other) == m.contains_key(other),
        m.contains_key(other) ==> m1[other] == m[other],
        m1.contains_key(key) && m1[key] == value,
{
}

/// In the simpler protocol, a `GET` of a key that is not stored answers
/// `ERROR Key not found`, and no `GET` changes the store.
pub proof fn law_string_get_missing(
    m: Map<Seq<char>, Seq<char>>,
    key: Seq<char>,
    m1: Map<Seq<char>, Seq<char>>,
    s1: StringStepView,
)
    requires
        string_transition(m, StringRequestView::Fetch { key }, m1, s1),
    ensures
        !m.contains_key(key) ==> s1 == StringStepView::Reply("ERROR Key not found\n"@),
        m1 == m,
{
}

/// A raw command reaches the server as the very line it was: the client sends it
/// whole, followed by one newline, and the server reads it as if typed.
pub proof fn law_raw_command_sent_whole(command: Seq<char>)
    ensures
        request_line(ClientRequestView::Raw { command }) == command,
        parse_line(request_line(ClientRequestView::Raw { command })) == parse_line(command),
{
}

/// A start that launches the serving thread leaves the server running with no
/// stop request pending, whatever stop was asked before; so the serving loop goes on.
pub proof fn law_launch_clears_stop_request(s: ServerState)
    ensures
        start_spec(s, true).1 == StartDecision::Launch ==> {
            &&& start_spec(s, true).0.running
            &&& !start_spec(s, true).0.stop_requested
        },
        !s.running ==> start_spec(s, true).1 == StartDecision::Launch,
{
}

/// Among ASCII characters, exactly tab, line feed, vertical tab, form feed,
/// carriage return and space are white space, as `char::is_whitespace` says.
pub proof fn law_ascii_white_space(c: char)
    requires
        (c as u32) < 128,
    ensures
        is_space(c) <==> (c == '\t' || c == '\n' || c == '\u{0B}' || c == '\u{0C}' || c == '\r'
            || c == ' '),
{
}

/// Whether `k` is made of visible ASCII characters only (`!` to `~`).
pub open spec fn is_visible_ascii(k: Seq<char>) -> bool {
    k.len() > 0 && forall|j: int| 0 <= j < k.len() ==> 0x21 <= #[trigger] (k[j] as u32) <= 0x7E
}

/// Keys made of visible ASCII characters, punctuation such as `/` or `.` among
/// them, are read back by a client from a `GAK` reply as they were listed.
pub proof fn law_visible_ascii_keys_read_back(ks: Seq<Seq<char>>)
    requires
        forall|i: int| 0 <= i < ks.len() ==> is_visible_ascii(#[trigger] ks[i]),
    ensures
        words(as_read_by_client(keys_reply(ks))) == ks,
{
    assert forall|i: int| 0 <= i < ks.len() implies is_word(#[trigger] ks[i]) by {
        let k = ks[i];
        assert(is_visible_ascii(k));
        assert forall|j: int| 0 <= j < k.len() implies !is_space(#[trigger] k[j]) by {
            assert(0x21 <= (k[j] as u32) <= 0x7E);
        }
    }
    law_keys_read_back(ks);
}

} // verus!
