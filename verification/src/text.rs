//! Character-level helpers shared by the server and the client: Unicode white
//! space, trimming, splitting into words, decimal digits and their parsing.

use vstd::prelude::*;

verus! {

broadcast use vstd::string::group_string_axioms;

/// `String::push` appends one character to the string: the view after the
/// call is the view before it with `ch` added at the end.
pub assume_specification[ String::push ](s: &mut String, ch: char)
    ensures
        final(s)@ == old(s)@.push(ch),
;

/// Whether `c` has the Unicode `White_Space` property, the set of characters that
/// `char::is_whitespace`, `str::trim` and `str::split_whitespace` treat as space.
pub open spec fn is_space(c: char) -> bool {
    let u = c as u32;
    ||| 0x9 <= u <= 0xD
    ||| u == 0x20
    ||| u == 0x85
    ||| u == 0xA0
    ||| u == 0x1680
    ||| 0x2000 <= u <= 0x200A
    ||| u == 0x2028
    ||| u == 0x2029
    ||| u == 0x202F
    ||| u == 0x205F
    ||| u == 0x3000
}

/// Decides `is_space`.
pub fn is_space_char(c: char) -> (b: bool)
    ensures
        b == is_space(c),
{
    let u = c as u32;
    (0x9 <= u && u <= 0xD) || u == 0x20 || u == 0x85 || u == 0xA0 || u == 0x1680 || (0x2000 <= u
        && u <= 0x200A) || u == 0x2028 || u == 0x2029 || u == 0x202F || u == 0x205F || u == 0x3000
}

/// `s` without its trailing white space.
pub open spec fn trim_end(s: Seq<char>) -> Seq<char>
    decreases s.len(),
{
    if s.len() > 0 && is_space(s.last()) {
        trim_end(s.drop_last())
    } else {
        s
    }
}

/// `s` without its leading white space.
pub open spec fn trim_start(s: Seq<char>) -> Seq<char>
    decreases s.len(),
{
    if s.len() > 0 && is_space(s[0]) {
        trim_start(s.drop_first())
    } else {
        s
    }
}

/// `s` without white space at either end.
pub open spec fn trim(s: Seq<char>) -> Seq<char> {
    trim_start(trim_end(s))
}

/// The characters of `s`, in order.
pub fn chars_of(s: &str) -> (v: Vec<char>)
    ensures
        v@ == s@,
{
    let mut v: Vec<char> = Vec::new();
    for c in it: s.chars()
        invariant
            v@ == it.seq().take(it.index()),
    {
        v.push(c);
    }
    v
}

/// The string made of `cs[lo..hi]`.
pub fn string_from(cs: &Vec<char>, lo: usize, hi: usize) -> (s: String)
    requires
        lo <= hi <= cs.len(),
    ensures
        s@ == cs@.subrange(lo as int, hi as int),
{
    let mut s = String::new();
    let mut i = lo;
    while i < hi
        invariant
            lo <= i <= hi <= cs.len(),
            s@ == cs@.subrange(lo as int, i as int),
        decreases hi - i,
    {
        s.push(cs[i]);
        assert(cs@.subrange(lo as int, i + 1) =~= cs@.subrange(lo as int, i as int).push(cs@[i as int]));
        i = i + 1;
    }
    s
}

/// The length of `cs[..hi]` once its trailing white space is cut off.
pub fn trimmed_end(cs: &Vec<char>, hi: usize) -> (end: usize)
    requires
        hi <= cs.len(),
    ensures
        end <= hi,
        trim_end(cs@.subrange(0, hi as int)) == cs@.subrange(0, end as int),
{
    let mut end = hi;
    while end > 0 && is_space_char(cs[end - 1])
        invariant
            end <= hi <= cs.len(),
            trim_end(cs@.subrange(0, hi as int)) == trim_end(cs@.subrange(0, end as int)),
        decreases end,
    {
        assert(cs@.subrange(0, end as int).drop_last() =~= cs@.subrange(0, end - 1));
        end = end - 1;
    }
    end
}

/// Where `cs[lo..hi]` starts once its leading white space is cut off.
pub fn trimmed_start(cs: &Vec<char>, lo: usize, hi: usize) -> (start: usize)
    requires
        lo <= hi <= cs.len(),
    ensures
        lo <= start <= hi,
        trim_start(cs@.subrange(lo as int, hi as int)) == cs@.subrange(start as int, hi as int),
{
    let mut start = lo;
    while start < hi && is_space_char(cs[start])
        invariant
            lo <= start <= hi <= cs.len(),
            trim_start(cs@.subrange(lo as int, hi as int)) == trim_start(
                cs@.subrange(start as int, hi as int),
            ),
        decreases hi - start,
    {
        assert(cs@.subrange(start as int, hi as int).drop_first() =~= cs@.subrange(
            start + 1,
            hi as int,
        ));
        start = start + 1;
    }
    start
}

/// The bounds of `cs` with white space cut off at both ends, as `str::trim` cuts it.
pub fn trimmed(cs: &Vec<char>) -> (bounds: (usize, usize))
    ensures
        bounds.0 <= bounds.1 <= cs.len(),
        trim(cs@) == cs@.subrange(bounds.0 as int, bounds.1 as int),
{
    let end = trimmed_end(cs, cs.len());
    assert(cs@.subrange(0, cs.len() as int) =~= cs@);
    let start = trimmed_start(cs, 0, end);
    (start, end)
}


/// The decimal digit character for `d < 10`.
pub open spec fn digit(d: nat) -> char {
    if d == 0 {
        '0'
    } else if d == 1 {
        '1'
    } else if d == 2 {
        '2'
    } else if d == 3 {
        '3'
    } else if d == 4 {
        '4'
    } else if d == 5 {
        '5'
    } else if d == 6 {
        '6'
    } else if d == 7 {
        '7'
    } else if d == 8 {
        '8'
    } else {
        '9'
    }
}

/// Whether `c` is one of the ASCII digits `0`..`9`.
pub open spec fn is_digit(c: char) -> bool {
    48 <= (c as u32) <= 57
}

/// The decimal representation of `n`, most significant digit first, with no
/// leading zero: what `to_string` gives for an unsigned integer.
pub open spec fn decimal(n: nat) -> Seq<char>
    decreases n,
{
    if n < 10 {
        seq![digit(n)]
    } else {
        decimal(n / 10).push(digit(n % 10))
    }
}

/// The number that the digits `ds` spell in base ten.
pub open spec fn digits_value(ds: Seq<char>) -> nat
    decreases ds.len(),
{
    if ds.len() == 0 {
        0
    } else {
        digits_value(ds.drop_last()) * 10 + ((ds.last() as u32) - 48) as nat
    }
}

/// `s` without the one leading `+` that an unsigned number may carry.
pub open spec fn unsigned_digits(s: Seq<char>) -> Seq<char> {
    if s.len() > 0 && s[0] == '+' {
        s.drop_first()
    } else {
        s
    }
}

/// Whether every character of `ds` is an ASCII digit.
pub open spec fn all_digits(ds: Seq<char>) -> bool {
    forall|i: int| 0 <= i < ds.len() ==> #[trigger] is_digit(ds[i])
}

/// What `str::parse::<u64>` accepts: an optional `+`, then one or more ASCII
/// digits whose value fits in a `u64`.
pub open spec fn parse_u64(s: Seq<char>) -> Option<u64> {
    let ds = unsigned_digits(s);
    if ds.len() > 0 && all_digits(ds) && digits_value(ds) <= u64::MAX {
        Some(digits_value(ds) as u64)
    } else {
        None
    }
}

/// The digit character for `d`.
pub fn digit_char(d: u64) -> (c: char)
    requires
        d < 10,
    ensures
        c == digit(d as nat),
        is_digit(c),
{
    if d == 0 {
        '0'
    } else if d == 1 {
        '1'
    } else if d == 2 {
        '2'
    } else if d == 3 {
        '3'
    } else if d == 4 {
        '4'
    } else if d == 5 {
        '5'
    } else if d == 6 {
        '6'
    } else if d == 7 {
        '7'
    } else if d == 8 {
        '8'
    } else {
        '9'
    }
}

/// The decimal digits of `n`.
pub fn decimal_digits(n: u64) -> (v: Vec<char>)
    ensures
        v@ == decimal(n as nat),
    decreases n,
{
    if n < 10 {
        let mut v: Vec<char> = Vec::new();
        v.push(digit_char(n));
        assert(v@ =~= seq![digit(n as nat)]);
        v
    } else {
        let mut v = decimal_digits(n / 10);
        v.push(digit_char(n % 10));
        v
    }
}

/// A prefix of a run of digits never spells more than the whole run.
pub proof fn lemma_digits_value_prefix(ds: Seq<char>, j: int)
    requires
        0 <= j <= ds.len(),
    ensures
        digits_value(ds.take(j)) <= digits_value(ds),
    decreases ds.len(),
{
    if j < ds.len() {
        lemma_digits_value_prefix(ds.drop_last(), j);
        assert(ds.drop_last().take(j) =~= ds.take(j));
    } else {
        assert(ds.take(j) =~= ds);
    }
}

/// Parses `s` as `str::parse::<u64>` does, `None` where it fails.
pub fn parse_u64_chars(s: &Vec<char>) -> (r: Option<u64>)
    ensures
        r == parse_u64(s@),
{
    let start: usize = if s.len() > 0 && s[0] == '+' {
        1
    } else {
        0
    };
    let ghost ds = unsigned_digits(s@);
    assert(ds =~= s@.subrange(start as int, s@.len() as int));
    if start == s.len() {
        return None;
    }
    let mut acc: u64 = 0;
    let mut i = start;
    while i < s.len()
        invariant
            start <= i <= s.len(),
            ds =~= s@.subrange(start as int, s@.len() as int),
            ds == unsigned_digits(s@),
            forall|k: int| 0 <= k < i - start ==> #[trigger] is_digit(ds[k]),
            acc == digits_value(ds.take(i - start)),
        decreases s.len() - i,
    {
        let c = s[i];
        assert(ds[i - start] == c);
        let u = c as u32;
        if !(48 <= u && u <= 57) {
            assert(!is_digit(ds[i - start]));
            return None;
        }
        let d: u64 = (u - 48) as u64;
        proof {
            assert(ds.take(i - start + 1).drop_last() =~= ds.take(i - start));
            assert(ds.take(i - start + 1).last() == c);
        }
        if acc > (u64::MAX - d) / 10 {
            proof {
                assert(digits_value(ds.take(i - start + 1)) > u64::MAX) by (nonlinear_arith)
                    requires
                        digits_value(ds.take(i - start + 1)) == acc * 10 + d,
                        acc > (u64::MAX - d) / 10,
                        d < 10,
                ;
                lemma_digits_value_prefix(ds, i - start + 1);
            }
            return None;
        }
        assert(acc * 10 + d <= u64::MAX) by (nonlinear_arith)
            requires
                acc <= (u64::MAX - d) / 10,
                d < 10,
        ;
        acc = acc * 10 + d;
        i = i + 1;
    }
    assert(ds.take(s.len() - start) =~= ds);
    Some(acc)
}


/// The maximal runs of non-space characters of `s`, in order: what
/// `str::split_whitespace` yields.
pub open spec fn words(s: Seq<char>) -> Seq<Seq<char>>
    decreases s.len(),
{
    if s.len() == 0 {
        seq![]
    } else {
        let w = words(s.drop_last());
        let c = s.last();
        if is_space(c) {
            w
        } else if s.len() >= 2 && !is_space(s[s.len() - 2]) {
            w.update(w.len() - 1, w.last().push(c))
        } else {
            w.push(seq![c])
        }
    }
}

/// The views of a sequence of strings.
pub open spec fn views(v: Seq<String>) -> Seq<Seq<char>> {
    v.map_values(|x: String| x@)
}

/// Splits `cs` at white space, dropping empty pieces, as `str::split_whitespace` does.
pub fn split_words(cs: &Vec<char>) -> (ws: Vec<String>)
    ensures
        views(ws@) == words(cs@),
{
    let mut done: Vec<String> = Vec::new();
    let mut cur = String::new();
    let mut i: usize = 0;
    while i < cs.len()
        invariant
            i <= cs.len(),
            cur@.len() > 0 <==> (i > 0 && !is_space(cs@[i - 1])),
            words(cs@.take(i as int)) == if cur@.len() > 0 {
                views(done@).push(cur@)
            } else {
                views(done@)
            },
        decreases cs.len() - i,
    {
        let c = cs[i];
        let ghost pre = cs@.take(i as int);
        let ghost post = cs@.take(i + 1);
        assert(post.drop_last() =~= pre);
        assert(post.last() == c);
        if is_space_char(c) {
            if !cur.as_str().is_empty() {
                let ghost before = views(done@);
                let w = cur;
                done.push(w);
                cur = String::new();
                assert(views(done@) =~= before.push(w@));
            }
        } else {
            let ghost old_cur = cur@;
            if !cur.as_str().is_empty() {
                assert(post[post.len() - 2] == cs@[i - 1]);
            }
            cur.push(c);
            proof {
                if old_cur.len() > 0 {
                    assert(views(done@).push(old_cur).update(
                        views(done@).len() as int,
                        old_cur.push(c),
                    ) =~= views(done@).push(cur@));
                } else {
                    assert(cur@ =~= seq![c]);
                }
            }
        }
        i = i + 1;
    }
    assert(cs@.take(cs.len() as int) =~= cs@);
    if !cur.as_str().is_empty() {
        let ghost before = views(done@);
        let w = cur;
        done.push(w);
        assert(views(done@) =~= before.push(w@));
    }
    done
}

/// Whether `s` begins with `p`.
pub open spec fn starts_with(s: Seq<char>, p: Seq<char>) -> bool {
    p.len() <= s.len() && s.take(p.len() as int) == p
}

/// The index of the first space character of `s`, if it has one.
pub open spec fn find_space(s: Seq<char>) -> Option<int>
    decreases s.len(),
{
    if s.len() == 0 {
        None
    } else if s[0] == ' ' {
        Some(0)
    } else {
        match find_space(s.drop_first()) {
            Some(i) => Some(i + 1),
            None => None,
        }
    }
}

/// In a word with no space followed by a space, the first space is the one after the word.
pub proof fn find_space_is_after_word(word: Seq<char>, tail: Seq<char>)
    requires
        !word.contains(' '),
    ensures
        find_space(word + seq![' '] + tail) == Some(word.len() as int),
    decreases word.len(),
{
    let s = word + seq![' '] + tail;
    if word.len() == 0 {
        assert(s[0] == ' ');
    } else {
        assert(s[0] == word[0]);
        assert(!word.drop_first().contains(' ')) by {
            if word.drop_first().contains(' ') {
                let k = choose|k: int| 0 <= k < word.drop_first().len() && word.drop_first()[k] == ' ';
                assert(word[k + 1] == ' ');
            }
        }
        find_space_is_after_word(word.drop_first(), tail);
        assert(s.drop_first() =~= word.drop_first() + seq![' '] + tail);
    }
}

/// `o` moved `d` places to the right.
pub open spec fn shifted(o: Option<int>, d: int) -> Option<int> {
    match o {
        Some(i) => Some(i + d),
        None => None,
    }
}

/// Whether `cs[lo..hi]` is `w`.
pub fn range_equals(cs: &Vec<char>, lo: usize, hi: usize, w: &Vec<char>) -> (b: bool)
    requires
        lo <= hi <= cs.len(),
    ensures
        b == (cs@.subrange(lo as int, hi as int) == w@),
{
    if hi - lo != w.len() {
        return false;
    }
    let mut i: usize = 0;
    while i < w.len()
        invariant
            hi - lo == w.len(),
            lo <= hi <= cs.len(),
            i <= w.len(),
            forall|k: int| 0 <= k < i ==> cs@[lo + k] == w@[k],
        decreases w.len() - i,
    {
        if cs[lo + i] != w[i] {
            assert(cs@.subrange(lo as int, hi as int)[i as int] != w@[i as int]);
            return false;
        }
        i = i + 1;
    }
    assert(cs@.subrange(lo as int, hi as int) =~= w@);
    true
}

/// The index of the first space in `cs[lo..hi]`, counted from the start of `cs`.
pub fn find_space_in(cs: &Vec<char>, lo: usize, hi: usize) -> (r: Option<usize>)
    requires
        lo <= hi <= cs.len(),
    ensures
        shifted(find_space(cs@.subrange(lo as int, hi as int)), lo as int) == match r {
            Some(j) => Some(j as int),
            None => None::<int>,
        },
        r matches Some(j) ==> lo <= j < hi,
{
    let mut j = lo;
    while j < hi
        invariant
            lo <= j <= hi <= cs.len(),
            shifted(find_space(cs@.subrange(lo as int, hi as int)), lo as int) == shifted(
                find_space(cs@.subrange(j as int, hi as int)),
                j as int,
            ),
        decreases hi - j,
    {
        assert(cs@.subrange(j as int, hi as int)[0] == cs@[j as int]);
        if cs[j] == ' ' {
            return Some(j);
        }
        assert(cs@.subrange(j as int, hi as int).drop_first() =~= cs@.subrange(j + 1, hi as int));
        j = j + 1;
    }
    None
}


/// Each digit character stands for its digit.
pub proof fn lemma_digit_value(d: nat)
    requires
        d < 10,
    ensures
        is_digit(digit(d)),
        (digit(d) as u32) - 48 == d,
        !is_space(digit(d)),
        digit(d) != '+',
{
}

/// The decimal digits of `n` are digits, do not start with `+`, end in no
/// white space, and spell `n`.
pub proof fn lemma_decimal(n: nat)
    ensures
        decimal(n).len() > 0,
        all_digits(decimal(n)),
        digits_value(decimal(n)) == n,
        !is_space(decimal(n).last()),
        decimal(n)[0] != '+',
    decreases n,
{
    if n < 10 {
        lemma_digit_value(n);
        assert(decimal(n).drop_last() =~= seq![]);
        assert(digits_value(decimal(n).drop_last()) == 0);
        assert(digits_value(decimal(n)) == digits_value(decimal(n).drop_last()) * 10 + ((
        decimal(n).last() as u32) - 48) as nat);
    } else {
        lemma_decimal(n / 10);
        lemma_digit_value(n % 10);
        let ds = decimal(n);
        assert(ds.drop_last() =~= decimal(n / 10));
        assert(ds.last() == digit(n % 10));
        assert((n / 10) * 10 + n % 10 == n);
        assert(digits_value(ds) == digits_value(decimal(n / 10)) * 10 + ((ds.last() as u32)
            - 48) as nat);
        assert forall|i: int| 0 <= i < ds.len() implies #[trigger] is_digit(ds[i]) by {
            if i < ds.len() - 1 {
                assert(ds[i] == decimal(n / 10)[i]);
            }
        }
    }
}

/// `str::parse::<u64>` reads back what `to_string` writes.
pub proof fn lemma_parse_decimal(n: nat)
    requires
        n <= u64::MAX,
    ensures
        parse_u64(decimal(n)) == Some(n as u64),
{
    lemma_decimal(n);
    assert(unsigned_digits(decimal(n)) == decimal(n));
}

} // verus!
