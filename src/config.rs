//! The allow-list in its text form, `"port:protocol,port:protocol"`.
use vstd::prelude::*;
use crate::wire::{AllowedPort, Protocol};

verus! {

/// Why an allow-list text was refused.
#[derive(Debug, Clone, Copy, PartialEq, Eq, Structural)]
pub enum PortListError {
    /// An entry is not of the form `port:protocol`.
    InvalidFormat,
    /// A port is not a decimal number from 0 to 65535.
    InvalidPort,
    /// A protocol is neither `tcp` nor `udp` (in any case).
    UnsupportedProtocol,
}

/// The characters that `char::is_whitespace` accepts (Unicode White_Space).
pub open spec fn is_space(c: char) -> bool {
    ||| '\u{9}' <= c <= '\u{d}'
    ||| c == ' '
    ||| c == '\u{85}'
    ||| c == '\u{a0}'
    ||| c == '\u{1680}'
    ||| '\u{2000}' <= c <= '\u{200a}'
    ||| c == '\u{2028}'
    ||| c == '\u{2029}'
    ||| c == '\u{202f}'
    ||| c == '\u{205f}'
    ||| c == '\u{3000}'
}

/// The pieces of `s` between occurrences of `sep`, as `str::split` gives them.
pub open spec fn split_by(s: Seq<char>, sep: char) -> Seq<Seq<char>>
    decreases s.len(),
{
    if s.len() == 0 {
        seq![Seq::empty()]
    } else {
        let r = split_by(s.drop_last(), sep);
        if s.last() == sep {
            r.push(Seq::empty())
        } else {
            r.update(r.len() - 1, r.last().push(s.last()))
        }
    }
}

pub open spec fn trim_start(s: Seq<char>) -> Seq<char>
    decreases s.len(),
{
    if s.len() > 0 && is_space(s[0]) {
        trim_start(s.drop_first())
    } else {
        s
    }
}

pub open spec fn trim_end(s: Seq<char>) -> Seq<char>
    decreases s.len(),
{
    if s.len() > 0 && is_space(s.last()) {
        trim_end(s.drop_last())
    } else {
        s
    }
}

/// `s` without leading and trailing white space, as `str::trim` gives it.
pub open spec fn trim(s: Seq<char>) -> Seq<char> {
    trim_end(trim_start(s))
}

pub open spec fn is_digit(c: char) -> bool {
    '0' <= c <= '9'
}

pub open spec fn all_digits(s: Seq<char>) -> bool {
    forall|i: int| 0 <= i < s.len() ==> is_digit(#[trigger] s[i])
}

/// The number that the decimal digits `s` stand for.
pub open spec fn digits_value(s: Seq<char>) -> nat
    decreases s.len(),
{
    if s.len() == 0 {
        0
    } else {
        digits_value(s.drop_last()) * 10 + ((s.last() as u32) - ('0' as u32)) as nat
    }
}

/// `u16::from_str`: an optional `+`, then at least one decimal digit, of a
/// value that fits.
pub open spec fn parse_port(s: Seq<char>) -> Option<u16> {
    let d = if s.len() > 0 && s[0] == '+' { s.drop_first() } else { s };
    if d.len() > 0 && all_digits(d) && digits_value(d) <= 65535 {
        Some(digits_value(d) as u16)
    } else {
        None
    }
}

/// `c` is the letter `lower` or its capital `upper`.
pub open spec fn letter_is(c: char, lower: char, upper: char) -> bool {
    c == lower || c == upper
}

/// `t` names a protocol once lower-cased. (Only `T`/`t` lower-case to `t`,
/// and likewise for `c`, `p`, `u` and `d`, so ASCII folding decides it.)
pub open spec fn protocol_of(t: Seq<char>) -> Option<Protocol> {
    if t.len() == 3 && letter_is(t[0], 't', 'T') && letter_is(t[1], 'c', 'C') && letter_is(t[2], 'p', 'P') {
        Some(Protocol::TCP)
    } else if t.len() == 3 && letter_is(t[0], 'u', 'U') && letter_is(t[1], 'd', 'D') && letter_is(t[2], 'p', 'P') {
        Some(Protocol::UDP)
    } else {
        None
    }
}

/// One trimmed, non-empty entry.
pub open spec fn parse_entry(t: Seq<char>) -> Result<AllowedPort, PortListError> {
    let sub = split_by(t, ':');
    if sub.len() != 2 {
        Err(PortListError::InvalidFormat)
    } else {
        match parse_port(sub[0]) {
            None => Err(PortListError::InvalidPort),
            Some(port) => match protocol_of(sub[1]) {
                None => Err(PortListError::UnsupportedProtocol),
                Some(protocol) => Ok(AllowedPort { port, protocol }),
            },
        }
    }
}

/// The entries of `parts` in order, blank ones skipped; the first bad entry
/// decides the error.
pub open spec fn parse_entries(parts: Seq<Seq<char>>) -> Result<Seq<AllowedPort>, PortListError>
    decreases parts.len(),
{
    if parts.len() == 0 {
        Ok(Seq::empty())
    } else {
        match parse_entries(parts.drop_last()) {
            Err(e) => Err(e),
            Ok(l) => {
                let t = trim(parts.last());
                if t.len() == 0 {
                    Ok(l)
                } else {
                    match parse_entry(t) {
                        Err(e) => Err(e),
                        Ok(a) => Ok(l.push(a)),
                    }
                }
            },
        }
    }
}

/// `a` inserted into `s` after every entry whose port is not larger.
pub open spec fn insert_by_port(s: Seq<AllowedPort>, a: AllowedPort) -> Seq<AllowedPort>
    decreases s.len(),
{
    if s.len() == 0 || s.last().port <= a.port {
        s.push(a)
    } else {
        insert_by_port(s.drop_last(), a).push(s.last())
    }
}

/// `s` in increasing port order; entries with equal ports keep their order.
pub open spec fn sort_by_port(s: Seq<AllowedPort>) -> Seq<AllowedPort>
    decreases s.len(),
{
    if s.len() == 0 {
        s
    } else {
        insert_by_port(sort_by_port(s.drop_last()), s.last())
    }
}

/// What the text `s` stands for.
pub open spec fn allowed_ports_of(s: Seq<char>) -> Result<Seq<AllowedPort>, PortListError> {
    match parse_entries(split_by(s, ',')) {
        Err(e) => Err(e),
        Ok(l) => Ok(sort_by_port(l)),
    }
}

pub open spec fn views(v: Seq<Vec<char>>) -> Seq<Seq<char>> {
    Seq::new(v.len(), |i: int| v[i]@)
}

pub(crate) fn chars_of(s: &str) -> (r: Vec<char>)
    ensures
        r@ == s@,
{
    let n = s.unicode_len();
    let mut r: Vec<char> = Vec::new();
    let mut i: usize = 0;
    while i < n
        invariant
            n == s@.len(),
            i <= n,
            r@ == s@.subrange(0, i as int),
        decreases n - i,
    {
        r.push(s.get_char(i));
        i = i + 1;
        assert(r@ =~= s@.subrange(0, i as int));
    }
    assert(s@.subrange(0, n as int) =~= s@);
    r
}

fn split_chars(s: &Vec<char>, sep: char) -> (r: Vec<Vec<char>>)
    ensures
        views(r@) == split_by(s@, sep),
{
    let mut done: Vec<Vec<char>> = Vec::new();
    let mut cur: Vec<char> = Vec::new();
    let mut i: usize = 0;
    assert(views(done@).push(cur@) =~= split_by(s@.subrange(0, 0), sep));
    while i < s.len()
        invariant
            i <= s@.len(),
            views(done@).push(cur@) == split_by(s@.subrange(0, i as int), sep),
        decreases s@.len() - i,
    {
        let c = s[i];
        let ghost before = views(done@).push(cur@);
        proof {
            assert(s@.subrange(0, i + 1).drop_last() =~= s@.subrange(0, i as int));
        }
        if c == sep {
            done.push(cur);
            cur = Vec::new();
            assert(views(done@).push(cur@) =~= before.push(Seq::empty()));
        } else {
            cur.push(c);
            assert(views(done@).push(cur@) =~= before.update(before.len() - 1, before.last().push(c)));
        }
        i = i + 1;
    }
    done.push(cur);
    assert(s@.subrange(0, s@.len() as int) =~= s@);
    assert(views(done@) =~= split_by(s@, sep));
    done
}

fn is_space_char(c: char) -> (r: bool)
    ensures
        r == is_space(c),
{
    ('\u{9}' <= c && c <= '\u{d}') || c == ' ' || c == '\u{85}' || c == '\u{a0}' || c == '\u{1680}'
        || ('\u{2000}' <= c && c <= '\u{200a}') || c == '\u{2028}' || c == '\u{2029}' || c == '\u{202f}'
        || c == '\u{205f}' || c == '\u{3000}'
}

proof fn lemma_trim_start_skip(s: Seq<char>, i: int)
    requires
        0 <= i <= s.len(),
        forall|j: int| 0 <= j < i ==> is_space(#[trigger] s[j]),
    ensures
        trim_start(s) == trim_start(s.subrange(i, s.len() as int)),
    decreases i,
{
    if i > 0 {
        assert(s.drop_first().subrange(i - 1, s.len() - 1) =~= s.subrange(i, s.len() as int));
        lemma_trim_start_skip(s.drop_first(), i - 1);
    } else {
        assert(s.subrange(0, s.len() as int) =~= s);
    }
}

proof fn lemma_trim_end_skip(s: Seq<char>, k: int)
    requires
        0 <= k <= s.len(),
        forall|j: int| k <= j < s.len() ==> is_space(#[trigger] s[j]),
    ensures
        trim_end(s) == trim_end(s.subrange(0, k)),
    decreases s.len() - k,
{
    if k < s.len() {
        assert(s.drop_last().subrange(0, k) =~= s.subrange(0, k));
        lemma_trim_end_skip(s.drop_last(), k);
    } else {
        assert(s.subrange(0, k) =~= s);
    }
}

fn trim_chars(s: &Vec<char>) -> (r: Vec<char>)
    ensures
        r@ == trim(s@),
{
    let mut a: usize = 0;
    while a < s.len() && is_space_char(s[a])
        invariant
            a <= s@.len(),
            forall|j: int| 0 <= j < a ==> is_space(#[trigger] s@[j]),
        decreases s@.len() - a,
    {
        a = a + 1;
    }
    let ghost t = s@.subrange(a as int, s@.len() as int);
    proof {
        lemma_trim_start_skip(s@, a as int);
        assert(!(t.len() > 0 && is_space(t[0])));
    }
    let mut b: usize = s.len();
    while b > a && is_space_char(s[b - 1])
        invariant
            a <= b <= s@.len(),
            forall|j: int| b <= j < s@.len() ==> is_space(#[trigger] s@[j]),
        decreases b - a,
    {
        b = b - 1;
    }
    let mut r: Vec<char> = Vec::new();
    let mut i: usize = a;
    while i < b
        invariant
            a <= i <= b <= s@.len(),
            r@ == s@.subrange(a as int, i as int),
        decreases b - i,
    {
        r.push(s[i]);
        i = i + 1;
        assert(r@ =~= s@.subrange(a as int, i as int));
    }
    proof {
        assert forall|j: int| (b - a) <= j < t.len() implies is_space(#[trigger] t[j]) by {
            assert(t[j] == s@[a + j]);
        }
        lemma_trim_end_skip(t, b - a);
        assert(t.subrange(0, b - a) =~= r@);
        let u = r@;
        if u.len() > 0 {
            assert(u.last() == s@[b - 1]);
        }
    }
    r
}

proof fn lemma_digits_value_grows(s: Seq<char>, i: int)
    requires
        0 <= i <= s.len(),
        all_digits(s),
    ensures
        digits_value(s.subrange(0, i)) <= digits_value(s),
    decreases s.len() - i,
{
    if i < s.len() {
        lemma_digits_value_grows(s, i + 1);
        assert(s.subrange(0, i + 1).drop_last() =~= s.subrange(0, i));
        assert(is_digit(s[i]));
    } else {
        assert(s.subrange(0, i) =~= s);
    }
}

/// `u16::from_str` on `s[start..end]`.
fn parse_port_chars(s: &Vec<char>) -> (r: Option<u16>)
    ensures
        r == parse_port(s@),
{
    let start: usize = if s.len() > 0 && s[0] == '+' { 1 } else { 0 };
    let ghost d = if s@.len() > 0 && s@[0] == '+' { s@.drop_first() } else { s@ };
    assert(d =~= s@.subrange(start as int, s@.len() as int));
    if start >= s.len() {
        return None;
    }
    let mut v: u32 = 0;
    let mut i: usize = start;
    while i < s.len()
        invariant
            start <= i <= s@.len(),
            d == s@.subrange(start as int, s@.len() as int),
            d == (if s@.len() > 0 && s@[0] == '+' { s@.drop_first() } else { s@ }),
            all_digits(s@.subrange(start as int, i as int)),
            v == digits_value(s@.subrange(start as int, i as int)),
            v <= 65535,
        decreases s@.len() - i,
    {
        let c = s[i];
        if !('0' <= c && c <= '9') {
            proof {
                assert(d[i - start] == c);
                assert(!is_digit(d[i - start]));
                assert(!all_digits(d));
                assert(parse_port(s@) is None);
            }
            return None;
        }
        proof {
            assert(s@.subrange(start as int, i + 1).drop_last() =~= s@.subrange(start as int, i as int));
            assert(all_digits(s@.subrange(start as int, i + 1)));
        }
        v = v * 10 + ((c as u32) - ('0' as u32));
        assert(v == digits_value(s@.subrange(start as int, i + 1)));
        i = i + 1;
        if v > 65535 {
            proof {
                if all_digits(d) {
                    assert(d.subrange(0, i - start) =~= s@.subrange(start as int, i as int));
                    lemma_digits_value_grows(d, i - start);
                    assert(digits_value(d) > 65535);
                }
                assert(parse_port(s@) is None);
            }
            return None;
        }
    }
    assert(s@.subrange(start as int, s@.len() as int) =~= d);
    Some(v as u16)
}

pub(crate) fn protocol_of_chars(t: &Vec<char>) -> (r: Option<Protocol>)
    ensures
        r == protocol_of(t@),
{
    if t.len() != 3 {
        return None;
    }
    let (a, b, c) = (t[0], t[1], t[2]);
    if (a == 't' || a == 'T') && (b == 'c' || b == 'C') && (c == 'p' || c == 'P') {
        Some(Protocol::TCP)
    } else if (a == 'u' || a == 'U') && (b == 'd' || b == 'D') && (c == 'p' || c == 'P') {
        Some(Protocol::UDP)
    } else {
        None
    }
}

fn parse_entry_chars(t: &Vec<char>) -> (r: Result<AllowedPort, PortListError>)
    ensures
        r == parse_entry(t@),
{
    let sub = split_chars(t, ':');
    if sub.len() != 2 {
        return Err(PortListError::InvalidFormat);
    }
    assert(views(sub@)[0] == sub@[0]@ && views(sub@)[1] == sub@[1]@);
    let port = match parse_port_chars(&sub[0]) {
        Some(p) => p,
        None => { return Err(PortListError::InvalidPort); },
    };
    match protocol_of_chars(&sub[1]) {
        Some(protocol) => Ok(AllowedPort { port, protocol }),
        None => Err(PortListError::UnsupportedProtocol),
    }
}

proof fn lemma_insert_at(s: Seq<AllowedPort>, a: AllowedPort, j: int)
    requires
        0 <= j <= s.len(),
        forall|k: int| j <= k < s.len() ==> #[trigger] s[k].port > a.port,
        j == 0 || s[j - 1].port <= a.port,
    ensures
        insert_by_port(s, a) == s.subrange(0, j).push(a) + s.subrange(j, s.len() as int),
    decreases s.len(),
{
    if j == s.len() {
        assert(s.subrange(0, j) =~= s);
        assert(s.subrange(j, s.len() as int) =~= Seq::<AllowedPort>::empty());
        assert(s.push(a) + Seq::<AllowedPort>::empty() =~= s.push(a));
    } else {
        lemma_insert_at(s.drop_last(), a, j);
        assert(s.drop_last().subrange(0, j) =~= s.subrange(0, j));
        assert((s.subrange(0, j).push(a) + s.drop_last().subrange(j, s.len() - 1)).push(s.last())
            =~= s.subrange(0, j).push(a) + s.subrange(j, s.len() as int));
    }
}

/// Inserts `a` into `v` after every entry whose port is not larger.
fn insert_sorted(v: &mut Vec<AllowedPort>, a: AllowedPort)
    ensures
        final(v)@ == insert_by_port(old(v)@, a),
{
    let mut j: usize = v.len();
    while j > 0 && v[j - 1].port > a.port
        invariant
            j <= v@.len(),
            forall|k: int| j <= k < v@.len() ==> #[trigger] v@[k].port > a.port,
        decreases j,
    {
        j = j - 1;
    }
    proof {
        lemma_insert_at(v@, a, j as int);
    }
    v.insert(j, a);
    assert(v@ =~= old(v)@.subrange(0, j as int).push(a) + old(v)@.subrange(j as int, old(v)@.len() as int));
}

/// Parses the allow-list text: comma-separated `port:protocol` entries,
/// blank entries skipped, sorted by port with ties in input order.
pub fn parse_allowed_ports(input: &str) -> (r: Result<Vec<AllowedPort>, PortListError>)
    ensures
        match r {
            Ok(v) => allowed_ports_of(input@) == Ok::<Seq<AllowedPort>, PortListError>(v@),
            Err(e) => allowed_ports_of(input@) == Err::<Seq<AllowedPort>, PortListError>(e),
        },
{
    let chars = chars_of(input);
    let parts = split_chars(&chars, ',');
    let ghost ps = views(parts@);
    let mut entries: Vec<AllowedPort> = Vec::new();
    let mut i: usize = 0;
    while i < parts.len()
        invariant
            i <= parts@.len(),
            ps == views(parts@),
            ps == split_by(input@, ','),
            parse_entries(ps.subrange(0, i as int)) == Ok::<Seq<AllowedPort>, PortListError>(entries@),
        decreases parts@.len() - i,
    {
        proof {
            assert(ps.subrange(0, i + 1).drop_last() =~= ps.subrange(0, i as int));
            assert(ps.subrange(0, i + 1).last() == parts@[i as int]@);
        }
        let t = trim_chars(&parts[i]);
        if t.len() > 0 {
            match parse_entry_chars(&t) {
                Ok(a) => entries.push(a),
                Err(e) => {
                    proof {
                        assert(parse_entries(ps.subrange(0, i + 1)) == Err::<Seq<AllowedPort>, PortListError>(e));
                        lemma_parse_entries_err(ps, i as int + 1, e);
                        assert(split_by(input@, ',') == ps);
                        assert(allowed_ports_of(input@) == Err::<Seq<AllowedPort>, PortListError>(e));
                    }
                    return Err(e);
                },
            }
        }
        i = i + 1;
    }
    assert(ps.subrange(0, ps.len() as int) =~= ps);
    let mut sorted: Vec<AllowedPort> = Vec::new();
    let mut k: usize = 0;
    while k < entries.len()
        invariant
            k <= entries@.len(),
            sorted@ == sort_by_port(entries@.subrange(0, k as int)),
            parse_entries(split_by(input@, ',')) == Ok::<Seq<AllowedPort>, PortListError>(entries@),
        decreases entries@.len() - k,
    {
        proof {
            assert(entries@.subrange(0, k + 1).drop_last() =~= entries@.subrange(0, k as int));
        }
        insert_sorted(&mut sorted, entries[k]);
        k = k + 1;
    }
    assert(entries@.subrange(0, entries@.len() as int) =~= entries@);
    Ok(sorted)
}

/// An error in the first `i` parts stays the result for the whole list.
proof fn lemma_parse_entries_err(ps: Seq<Seq<char>>, i: int, e: PortListError)
    requires
        0 < i <= ps.len(),
        parse_entries(ps.subrange(0, i)) == Err::<Seq<AllowedPort>, PortListError>(e),
    ensures
        parse_entries(ps) == Err::<Seq<AllowedPort>, PortListError>(e),
    decreases ps.len() - i,
{
    if i < ps.len() {
        assert(ps.subrange(0, i + 1).drop_last() =~= ps.subrange(0, i));
        lemma_parse_entries_err(ps, i + 1, e);
    } else {
        assert(ps.subrange(0, i) =~= ps);
    }
}

/// The protocol that `text` names, in any case (`"tcp"`, `"UDP"`, ...).
pub fn protocol_from_text(text: &str) -> (r: Option<Protocol>)
    ensures
        r == protocol_of(text@),
{
    let chars = chars_of(text);
    protocol_of_chars(&chars)
}

} // verus!
