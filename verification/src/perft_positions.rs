//! The text format of the standard perft positions: records separated by `---`,
//! each a list of `key: value` lines (`index`, `description`, `fen`) and, after a
//! line `expected:`, lines of five comma-separated counts (depth, nodes, checks,
//! captures, mates). Blank lines and lines starting with `#` are skipped.
use crate::fen::{all_digits, chars_of, digits_value, is_digit, is_white_space, split_at_separator, split_on, white_space};
use crate::perft::PerftExpected;
use vstd::prelude::*;

verus! {

/// A standard perft position: its number, FEN, description and the counts
/// expected at some depths.
#[derive(Debug, Clone, PartialEq, Eq)]
pub struct PerftPosition {
    /// The position's number in the list (from 1).
    pub index: usize,
    /// The position in FEN notation.
    pub fen: String,
    /// A short description.
    pub description: String,
    /// The expected counts, by depth.
    pub expected: Vec<PerftExpected>,
}

/// The record fields as read so far: the index, description, FEN and expected
/// counts, and whether the `expected:` line has been seen.
pub type RecordState = (int, Seq<char>, Seq<char>, Seq<PerftExpected>, bool);

/// The pieces of `s` between non-overlapping occurrences of `---`, matched from
/// the left, after the piece `cur` read so far (as `str::split("---")` gives them).
pub open spec fn dash_pieces(s: Seq<char>, cur: Seq<char>) -> Seq<Seq<char>>
    decreases s.len(),
{
    if s.len() == 0 {
        seq![cur]
    } else if s.len() >= 3 && s[0] == '-' && s[1] == '-' && s[2] == '-' {
        seq![cur] + dash_pieces(s.skip(3), Seq::empty())
    } else {
        dash_pieces(s.skip(1), cur.push(s[0]))
    }
}

/// `s` without its leading white space.
pub open spec fn trim_start(s: Seq<char>) -> Seq<char>
    decreases s.len(),
{
    if s.len() > 0 && is_white_space(s[0]) {
        trim_start(s.drop_first())
    } else {
        s
    }
}

/// `s` without its trailing white space.
pub open spec fn trim_end(s: Seq<char>) -> Seq<char>
    decreases s.len(),
{
    if s.len() > 0 && is_white_space(s.last()) {
        trim_end(s.drop_last())
    } else {
        s
    }
}

/// `s` without its leading and trailing white space (as `str::trim` gives it).
pub open spec fn trim(s: Seq<char>) -> Seq<char> {
    trim_end(trim_start(s))
}

/// The number written by `t` in decimal, as the `FromStr` of an unsigned integer
/// type whose largest value is `max` reads it: an optional `+` and at least one
/// digit, with a value up to `max`.
pub open spec fn parse_unsigned_spec(t: Seq<char>, max: int) -> Option<int> {
    let d = if t.len() > 0 && t[0] == '+' {
        t.drop_first()
    } else {
        t
    };
    if d.len() > 0 && all_digits(d) && digits_value(d) <= max {
        Some(digits_value(d))
    } else {
        None
    }
}

/// The position of the first `:` in `s`, if any.
pub open spec fn first_colon(s: Seq<char>) -> Option<int>
    decreases s.len(),
{
    if s.len() == 0 {
        None
    } else {
        match first_colon(s.drop_last()) {
            Some(k) => Some(k),
            None => if s.last() == ':' {
                Some(s.len() - 1)
            } else {
                None
            },
        }
    }
}

/// The expected counts a line of five comma-separated numbers gives, if it is one.
pub open spec fn counts_line(line: Seq<char>) -> Option<PerftExpected> {
    let parts = split_on(line, ',');
    if parts.len() == 5 {
        let depth = parse_unsigned_spec(trim(parts[0]), u32::MAX as int);
        let nodes = parse_unsigned_spec(trim(parts[1]), u64::MAX as int);
        let checks = parse_unsigned_spec(trim(parts[2]), u64::MAX as int);
        let captures = parse_unsigned_spec(trim(parts[3]), u64::MAX as int);
        let mates = parse_unsigned_spec(trim(parts[4]), u64::MAX as int);
        if depth is Some && nodes is Some && checks is Some && captures is Some && mates is Some {
            Some(
                PerftExpected {
                    depth: depth->0 as u32,
                    nodes: nodes->0 as u64,
                    checks: checks->0 as u64,
                    captures: captures->0 as u64,
                    mates: mates->0 as u64,
                },
            )
        } else {
            None
        }
    } else {
        None
    }
}

/// The record fields after reading one more line: blank lines and comments
/// change nothing; `expected:` starts the counts; after it each line of five
/// numbers adds counts; before it, `index`, `description` and `fen` lines set
/// their field (an index that does not read as a number is ignored).
pub open spec fn read_line(st: RecordState, raw: Seq<char>) -> RecordState {
    let line = trim(raw);
    if line.len() == 0 || line[0] == '#' {
        st
    } else if line == "expected:"@ {
        (st.0, st.1, st.2, st.3, true)
    } else if st.4 {
        match counts_line(line) {
            Some(e) => (st.0, st.1, st.2, st.3.push(e), st.4),
            None => st,
        }
    } else {
        match first_colon(line) {
            Some(k) => {
                let key = trim(line.take(k));
                let val = trim(line.skip(k + 1));
                if key == "index"@ {
                    match parse_unsigned_spec(val, usize::MAX as int) {
                        Some(i) => (i, st.1, st.2, st.3, st.4),
                        None => st,
                    }
                } else if key == "description"@ {
                    (st.0, val, st.2, st.3, st.4)
                } else if key == "fen"@ {
                    (st.0, st.1, val, st.3, st.4)
                } else {
                    st
                }
            },
            None => st,
        }
    }
}

/// The record fields after reading the first `n` of `lines`.
pub open spec fn read_lines(lines: Seq<Seq<char>>, n: int) -> RecordState
    decreases n,
{
    if n <= 0 {
        (0, Seq::empty(), Seq::empty(), Seq::empty(), false)
    } else {
        read_line(read_lines(lines, n - 1), lines[n - 1])
    }
}

/// The record a piece of the file gives: the fields read from its trimmed lines,
/// kept when the index is positive and the FEN is not empty.
pub open spec fn segment_record(piece: Seq<char>) -> Option<(int, Seq<char>, Seq<char>, Seq<PerftExpected>)> {
    let seg = trim(piece);
    let lines = split_on(seg, '\n');
    let st = read_lines(lines, lines.len() as int);
    if seg.len() > 0 && st.0 > 0 && st.2.len() > 0 {
        Some((st.0, st.2, st.1, st.3))
    } else {
        None
    }
}

/// The records of the first `n` pieces, in order.
pub open spec fn records_of(pieces: Seq<Seq<char>>, n: int) -> Seq<(int, Seq<char>, Seq<char>, Seq<PerftExpected>)>
    decreases n,
{
    if n <= 0 {
        Seq::empty()
    } else {
        let before = records_of(pieces, n - 1);
        match segment_record(pieces[n - 1]) {
            Some(r) => before.push(r),
            None => before,
        }
    }
}

/// The records of a positions file: number, FEN, description and expected counts.
pub open spec fn positions_spec(s: Seq<char>) -> Seq<(int, Seq<char>, Seq<char>, Seq<PerftExpected>)> {
    let pieces = dash_pieces(s, Seq::empty());
    records_of(pieces, pieces.len() as int)
}

/// The view of a parsed position as the fields its record holds.
pub open spec fn position_view(p: PerftPosition) -> (int, Seq<char>, Seq<char>, Seq<PerftExpected>) {
    (p.index as int, p.fen@, p.description@, p.expected@)
}

/// Appends `c` to `s` (`String::push`).
#[verifier::external_body]
pub(crate) fn push_char(s: &mut String, c: char)
    ensures
        final(s)@ == old(s)@.push(c),
{
    s.push(c);
}

/// The string holding the characters of `v`.
fn string_of(v: &Vec<char>) -> (r: String)
    ensures
        r@ == v@,
{
    let mut s = String::new();
    let mut i: usize = 0;
    while i < v.len()
        invariant
            i <= v@.len(),
            s@ == v@.take(i as int),
        decreases v@.len() - i,
    {
        push_char(&mut s, v[i]);
        proof {
            assert(v@.take(i + 1) =~= v@.take(i as int).push(v@[i as int]));
        }
        i = i + 1;
    }
    proof {
        assert(v@.take(v@.len() as int) =~= v@);
    }
    s
}

/// Skipping white space at the front of a string whose first `a` characters are
/// white space leaves the same string as skipping it after them.
proof fn lemma_trim_start_skip(s: Seq<char>, a: int)
    requires
        0 <= a <= s.len(),
        forall|j: int| 0 <= j < a ==> is_white_space(#[trigger] s[j]),
    ensures
        trim_start(s) == trim_start(s.skip(a)),
    decreases a,
{
    if a > 0 {
        assert(s.drop_first().skip(a - 1) =~= s.skip(a));
        lemma_trim_start_skip(s.drop_first(), a - 1);
    } else {
        assert(s.skip(0) =~= s);
    }
}

/// Dropping white space at the end of a string whose characters from `b` on are
/// white space leaves the same string as dropping it before them.
proof fn lemma_trim_end_take(s: Seq<char>, b: int)
    requires
        0 <= b <= s.len(),
        forall|j: int| b <= j < s.len() ==> is_white_space(#[trigger] s[j]),
    ensures
        trim_end(s) == trim_end(s.take(b)),
    decreases s.len() - b,
{
    if b < s.len() {
        assert(s.drop_last().take(b) =~= s.take(b));
        lemma_trim_end_take(s.drop_last(), b);
    } else {
        assert(s.take(b) =~= s);
    }
}

/// `v` without its leading and trailing white space.
fn trim_chars(v: &Vec<char>) -> (r: Vec<char>)
    ensures
        r@ == trim(v@),
{
    let n = v.len();
    let mut a: usize = 0;
    while a < n && white_space(v[a])
        invariant
            a <= n,
            n == v@.len(),
            forall|j: int| 0 <= j < a ==> is_white_space(#[trigger] v@[j]),
        decreases n - a,
    {
        a = a + 1;
    }
    let ghost u = v@.skip(a as int);
    proof {
        lemma_trim_start_skip(v@, a as int);
        if u.len() > 0 {
            assert(u[0] == v@[a as int]);
        }
    }
    assert(trim_start(v@) == u);
    let mut b: usize = n;
    while b > a && white_space(v[b - 1])
        invariant
            a <= b <= n,
            n == v@.len(),
            u == v@.skip(a as int),
            forall|j: int| b - a <= j < u.len() ==> is_white_space(#[trigger] u[j]),
        decreases b,
    {
        b = b - 1;
    }
    proof {
        lemma_trim_end_take(u, b - a);
        let w = u.take(b - a);
        if w.len() > 0 {
            assert(w.last() == v@[b - 1]);
        }
        assert(trim_end(w) == w);
    }
    let mut r: Vec<char> = Vec::new();
    let mut i: usize = a;
    while i < b
        invariant
            a <= i <= b <= n,
            n == v@.len(),
            r@ == v@.subrange(a as int, i as int),
        decreases b - i,
    {
        r.push(v[i]);
        proof {
            assert(v@.subrange(a as int, i + 1) =~= v@.subrange(a as int, i as int).push(v@[i as int]));
        }
        i = i + 1;
    }
    proof {
        assert(r@ =~= u.take(b - a));
    }
    r
}

/// The value of a longer string of digits is at least that of its prefix.
proof fn lemma_digits_prefix(d: Seq<char>, n: int)
    requires
        0 <= n <= d.len(),
        all_digits(d),
    ensures
        0 <= digits_value(d.take(n)) <= digits_value(d),
    decreases d.len() - n,
{
    if n < d.len() {
        lemma_digits_prefix(d, n + 1);
        assert(d.take(n + 1).drop_last() =~= d.take(n));
        assert(is_digit(d[n]));
    } else {
        assert(d.take(n) =~= d);
        lemma_digits_nonneg(d);
    }
}

/// A string of digits has a non-negative value.
proof fn lemma_digits_nonneg(d: Seq<char>)
    requires
        all_digits(d),
    ensures
        digits_value(d) >= 0,
    decreases d.len(),
{
    if d.len() > 0 {
        assert(is_digit(d.last()));
        lemma_digits_nonneg(d.drop_last());
    }
}

/// Reads `t` as an unsigned decimal number no larger than `max`.
fn parse_unsigned(t: &Vec<char>, max: u64) -> (r: Option<u64>)
    ensures
        match r {
            Some(x) => parse_unsigned_spec(t@, max as int) == Some(x as int),
            None => parse_unsigned_spec(t@, max as int) is None,
        },
{
    let start: usize = if t.len() > 0 && t[0] == '+' {
        1
    } else {
        0
    };
    let ghost d = if t@.len() > 0 && t@[0] == '+' {
        t@.drop_first()
    } else {
        t@
    };
    assert(d =~= t@.subrange(start as int, t@.len() as int));
    if start >= t.len() {
        return None;
    }
    let mut value: u64 = 0;
    let mut i: usize = start;
    while i < t.len()
        invariant
            start <= i <= t@.len(),
            d == t@.subrange(start as int, t@.len() as int),
            d == (if t@.len() > 0 && t@[0] == '+' {
                t@.drop_first()
            } else {
                t@
            }),
            d.len() > 0,
            value as int == digits_value(d.take(i - start)),
            value <= max,
            forall|j: int| 0 <= j < i - start ==> is_digit(#[trigger] d[j]),
        decreases t@.len() - i,
    {
        let c = t[i];
        let ghost k = i - start;
        assert(d[k] == c);
        if !('0' <= c && c <= '9') {
            proof {
                assert(!is_digit(d[k]));
                assert(!all_digits(d));
            }
            return None;
        }
        proof {
            assert(d.take(k + 1).drop_last() =~= d.take(k));
            assert(d.take(k + 1).last() == c);
        }
        let digit = (c as u32 - '0' as u32) as u64;
        let next = value as u128 * 10 + digit as u128;
        assert(digits_value(d.take(k + 1)) == next);
        if next > max as u128 {
            proof {
                if all_digits(d) {
                    lemma_digits_prefix(d, k + 1);
                }
            }
            return None;
        }
        value = next as u64;
        i = i + 1;
    }
    proof {
        assert(d.take(d.len() as int) =~= d);
        assert(all_digits(d));
    }
    Some(value)
}

/// Whether `v` holds exactly the characters of `w`.
fn same_chars(v: &Vec<char>, w: &str) -> (r: bool)
    ensures
        r == (v@ == w@),
{
    let c = chars_of(w);
    if v.len() != c.len() {
        return false;
    }
    let mut i: usize = 0;
    while i < v.len()
        invariant
            i <= v@.len(),
            v@.len() == c@.len(),
            c@ == w@,
            forall|j: int| 0 <= j < i ==> v@[j] == c@[j],
        decreases v@.len() - i,
    {
        if v[i] != c[i] {
            return false;
        }
        i = i + 1;
    }
    proof {
        assert(v@ =~= c@);
    }
    true
}

/// The position of the first `:` in `v`, if any.
fn find_colon(v: &Vec<char>) -> (r: Option<usize>)
    ensures
        match r {
            Some(k) => first_colon(v@) == Some(k as int) && k < v@.len(),
            None => first_colon(v@) is None,
        },
{
    let mut i: usize = 0;
    while i < v.len()
        invariant
            i <= v@.len(),
            first_colon(v@.take(i as int)) is None,
        decreases v@.len() - i,
    {
        proof {
            assert(v@.take(i + 1).drop_last() =~= v@.take(i as int));
        }
        if v[i] == ':' {
            proof {
                lemma_first_colon_prefix(v@, i + 1);
            }
            return Some(i);
        }
        i = i + 1;
    }
    proof {
        assert(v@.take(v@.len() as int) =~= v@);
    }
    None
}

/// A colon found in a prefix is the first colon of the whole string.
proof fn lemma_first_colon_prefix(s: Seq<char>, n: int)
    requires
        0 <= n <= s.len(),
        first_colon(s.take(n)) is Some,
    ensures
        first_colon(s) == first_colon(s.take(n)),
    decreases s.len() - n,
{
    if n < s.len() {
        assert(s.take(n + 1).drop_last() =~= s.take(n));
        lemma_first_colon_prefix(s, n + 1);
    } else {
        assert(s.take(n) =~= s);
    }
}

/// The characters of `v` from `a` to `b`.
fn slice_chars(v: &Vec<char>, a: usize, b: usize) -> (r: Vec<char>)
    requires
        a <= b <= v@.len(),
    ensures
        r@ == v@.subrange(a as int, b as int),
{
    let mut r: Vec<char> = Vec::new();
    let mut i: usize = a;
    while i < b
        invariant
            a <= i <= b <= v@.len(),
            r@ == v@.subrange(a as int, i as int),
        decreases b - i,
    {
        r.push(v[i]);
        proof {
            assert(v@.subrange(a as int, i + 1) =~= v@.subrange(a as int, i as int).push(v@[i as int]));
        }
        i = i + 1;
    }
    r
}

/// Reads a line of five comma-separated counts.
fn read_counts(line: &Vec<char>) -> (r: Option<PerftExpected>)
    ensures
        r == counts_line(line@),
{
    let parts = split_at_separator(line, ',');
    let ghost ps = parts.deep_view();
    if parts.len() != 5 {
        return None;
    }
    proof {
        assert(ps.len() == 5);
        assert(parts[0]@ == ps[0] && parts[1]@ == ps[1] && parts[2]@ == ps[2] && parts[3]@ == ps[3] && parts[4]@ == ps[4]);
    }
    let depth = parse_unsigned(&trim_chars(&parts[0]), 4294967295u64);
    let nodes = parse_unsigned(&trim_chars(&parts[1]), 18446744073709551615u64);
    let checks = parse_unsigned(&trim_chars(&parts[2]), 18446744073709551615u64);
    let captures = parse_unsigned(&trim_chars(&parts[3]), 18446744073709551615u64);
    let mates = parse_unsigned(&trim_chars(&parts[4]), 18446744073709551615u64);
    match (depth, nodes, checks, captures, mates) {
        (Some(d), Some(n), Some(c), Some(x), Some(m)) => {
            Some(PerftExpected { depth: d as u32, nodes: n, checks: c, captures: x, mates: m })
        },
        _ => None,
    }
}

/// The record fields as held while reading a record.
struct Fields {
    index: usize,
    description: Vec<char>,
    fen: Vec<char>,
    expected: Vec<PerftExpected>,
    in_expected: bool,
}

impl Fields {
    spec fn state(&self) -> RecordState {
        (self.index as int, self.description@, self.fen@, self.expected@, self.in_expected)
    }
}

/// Reads one more line into the record fields (see [`read_line`]).
fn read_line_into(f: &mut Fields, raw: &Vec<char>)
    ensures
        final(f).state() == read_line(old(f).state(), raw@),
{
    let line = trim_chars(raw);
    if line.len() == 0 || line[0] == '#' {
        return;
    }
    if same_chars(&line, "expected:") {
        f.in_expected = true;
        return;
    }
    if f.in_expected {
        match read_counts(&line) {
            Some(e) => f.expected.push(e),
            None => {},
        }
        return;
    }
    match find_colon(&line) {
        Some(k) => {
            let key = trim_chars(&slice_chars(&line, 0, k));
            let val = trim_chars(&slice_chars(&line, k + 1, line.len()));
            proof {
                assert(line@.subrange(0, k as int) =~= line@.take(k as int));
                assert(line@.subrange(k + 1, line@.len() as int) =~= line@.skip(k + 1));
            }
            if same_chars(&key, "index") {
                match parse_unsigned(&val, usize::MAX as u64) {
                    Some(i) => {
                        f.index = i as usize;
                    },
                    None => {},
                }
            } else if same_chars(&key, "description") {
                f.description = val;
            } else if same_chars(&key, "fen") {
                f.fen = val;
            }
        },
        None => {},
    }
}

/// The record a piece of the file gives (see [`segment_record`]).
fn read_segment(piece: &Vec<char>) -> (r: Option<PerftPosition>)
    ensures
        match r {
            Some(p) => segment_record(piece@) == Some(position_view(p)),
            None => segment_record(piece@) is None,
        },
{
    let seg = trim_chars(piece);
    if seg.len() == 0 {
        return None;
    }
    let lines = split_at_separator(&seg, '\n');
    let ghost ls = lines.deep_view();
    let mut f = Fields {
        index: 0,
        description: Vec::new(),
        fen: Vec::new(),
        expected: Vec::new(),
        in_expected: false,
    };
    let mut i: usize = 0;
    while i < lines.len()
        invariant
            i <= lines@.len(),
            ls == lines.deep_view(),
            ls.len() == lines@.len(),
            f.state() == read_lines(ls, i as int),
        decreases lines@.len() - i,
    {
        assert(lines[i as int]@ == ls[i as int]);
        read_line_into(&mut f, &lines[i]);
        i = i + 1;
    }
    if f.index > 0 && f.fen.len() > 0 {
        let fen = string_of(&f.fen);
        let description = string_of(&f.description);
        Some(PerftPosition { index: f.index, fen, description, expected: f.expected })
    } else {
        None
    }
}

/// Splits `v` at the non-overlapping occurrences of `---`, from the left.
fn split_dashes(v: &Vec<char>) -> (r: Vec<Vec<char>>)
    ensures
        r.deep_view() == dash_pieces(v@, Seq::empty()),
{
    let mut done: Vec<Vec<char>> = Vec::new();
    let mut cur: Vec<char> = Vec::new();
    let mut i: usize = 0;
    proof {
        assert(v@.skip(0) =~= v@);
        assert(done.deep_view() =~= Seq::<Seq<char>>::empty());
        assert(Seq::<Seq<char>>::empty() + dash_pieces(v@, cur@) =~= dash_pieces(v@, cur@));
    }
    while i < v.len()
        invariant
            i <= v@.len(),
            done.deep_view() + dash_pieces(v@.skip(i as int), cur@) == dash_pieces(v@, Seq::empty()),
        decreases v@.len() - i,
    {
        let ghost rest = v@.skip(i as int);
        if v.len() - i >= 3 && v[i] == '-' && v[i + 1] == '-' && v[i + 2] == '-' {
            let ghost d0 = done.deep_view();
            let ghost c0 = cur@;
            proof {
                assert(rest.skip(3) =~= v@.skip(i + 3));
            }
            let w = cur;
            proof {
                assert(w.deep_view() =~= w@);
            }
            done.push(w);
            cur = Vec::new();
            proof {
                assert(done.deep_view() =~= d0.push(c0));
                assert(d0.push(c0) + dash_pieces(v@.skip(i + 3), Seq::empty()) =~= d0 + (seq![c0] + dash_pieces(v@.skip(i + 3), Seq::empty())));
            }
            i = i + 3;
        } else {
            proof {
                assert(rest.skip(1) =~= v@.skip(i + 1));
                assert(rest[0] == v@[i as int]);
            }
            cur.push(v[i]);
            i = i + 1;
        }
    }
    let ghost d0 = done.deep_view();
    proof {
        assert(v@.skip(i as int) =~= Seq::<char>::empty());
    }
    let w = cur;
    proof {
        assert(w.deep_view() =~= w@);
    }
    done.push(w);
    proof {
        assert(done.deep_view() =~= d0.push(w@));
        assert(d0 + seq![w@] =~= d0.push(w@));
    }
    done
}

/// Reads a positions file: for each piece between `---` separators that holds a
/// positive index and a FEN, one position, in the order of the file.
pub fn parse_positions(input: &str) -> (r: Vec<PerftPosition>)
    ensures
        r@.map_values(|p: PerftPosition| position_view(p)) == positions_spec(input@),
{
    let chars = chars_of(input);
    let pieces = split_dashes(&chars);
    let ghost ps = pieces.deep_view();
    let mut out: Vec<PerftPosition> = Vec::new();
    let mut i: usize = 0;
    while i < pieces.len()
        invariant
            i <= pieces@.len(),
            ps == pieces.deep_view(),
            ps == dash_pieces(input@, Seq::empty()),
            ps.len() == pieces@.len(),
            out@.map_values(|p: PerftPosition| position_view(p)) == records_of(ps, i as int),
        decreases pieces@.len() - i,
    {
        assert(pieces[i as int]@ == ps[i as int]);
        let ghost before = out@;
        match read_segment(&pieces[i]) {
            Some(p) => {
                out.push(p);
                proof {
                    assert(out@.map_values(|p: PerftPosition| position_view(p)) =~= before.map_values(
                        |p: PerftPosition| position_view(p),
                    ).push(position_view(p)));
                }
            },
            None => {},
        }
        i = i + 1;
    }
    out
}

} // verus!
