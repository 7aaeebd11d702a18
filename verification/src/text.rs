//! Character-level text handling used by the parsers of the system information
//! files: whitespace, trimming, splitting, line breaking and integer parsing.
//! Texts are handled as sequences of `char`s; every operation is specified by a
//! spec function over `Seq<char>` and proved against it.
use vstd::prelude::*;

verus! {

/// Converts a string slice into its characters.
#[verifier::external_body]
pub(crate) fn chars_of(s: &str) -> (v: Vec<char>)
    ensures
        v@ == s@,
{
    s.chars().collect()
}

/// Builds an owned string from characters.
#[verifier::external_body]
pub(crate) fn string_of(v: &[char]) -> (s: String)
    ensures
        s@ == v@,
{
    v.iter().collect()
}

/// The view of a list of character vectors as a list of character sequences.
pub open spec fn pieces_view(v: Seq<Vec<char>>) -> Seq<Seq<char>> {
    v.map_values(|x: Vec<char>| x@)
}

/// Unicode `White_Space`, as `char::is_whitespace` decides it.
pub open spec fn is_ws(c: char) -> bool {
    let x = c as u32;
    ||| (0x9 <= x && x <= 0xd)
    ||| x == 0x20
    ||| x == 0x85
    ||| x == 0xa0
    ||| x == 0x1680
    ||| (0x2000 <= x && x <= 0x200a)
    ||| x == 0x2028
    ||| x == 0x2029
    ||| x == 0x202f
    ||| x == 0x205f
    ||| x == 0x3000
}

/// Decides `is_ws`.
pub fn is_whitespace(c: char) -> (b: bool)
    ensures
        b == is_ws(c),
{
    let x = c as u32;
    (0x9 <= x && x <= 0xd) || x == 0x20 || x == 0x85 || x == 0xa0 || x == 0x1680 || (0x2000
        <= x && x <= 0x200a) || x == 0x2028 || x == 0x2029 || x == 0x202f || x == 0x205f || x
        == 0x3000
}

/// Index of the first non-whitespace character at or after `i` (the length if none).
pub open spec fn first_non_ws(s: Seq<char>, i: int) -> int
    decreases s.len() - i,
{
    if i >= s.len() {
        s.len() as int
    } else if !is_ws(s[i]) {
        i
    } else {
        first_non_ws(s, i + 1)
    }
}

/// One past the index of the last non-whitespace character before `j` (0 if none).
pub open spec fn end_non_ws(s: Seq<char>, j: int) -> int
    decreases j,
{
    if j <= 0 {
        0
    } else if !is_ws(s[j - 1]) {
        j
    } else {
        end_non_ws(s, j - 1)
    }
}

/// `str::trim_start`.
pub open spec fn trim_start(s: Seq<char>) -> Seq<char> {
    s.subrange(first_non_ws(s, 0), s.len() as int)
}

/// `str::trim_end`.
pub open spec fn trim_end(s: Seq<char>) -> Seq<char> {
    s.subrange(0, end_non_ws(s, s.len() as int))
}

/// `str::trim`.
pub open spec fn trim(s: Seq<char>) -> Seq<char> {
    trim_end(trim_start(s))
}

proof fn lemma_first_non_ws_bounds(s: Seq<char>, i: int)
    requires
        0 <= i <= s.len(),
    ensures
        i <= first_non_ws(s, i) <= s.len(),
    decreases s.len() - i,
{
    if i < s.len() && is_ws(s[i]) {
        lemma_first_non_ws_bounds(s, i + 1);
    }
}

proof fn lemma_end_non_ws_bounds(s: Seq<char>, j: int)
    requires
        0 <= j <= s.len(),
    ensures
        0 <= end_non_ws(s, j) <= j,
    decreases j,
{
    if j > 0 && is_ws(s[j - 1]) {
        lemma_end_non_ws_bounds(s, j - 1);
    }
}

/// Index where `trim_start` begins.
fn trim_start_index(s: &[char]) -> (i: usize)
    ensures
        i as int == first_non_ws(s@, 0),
{
    let mut i: usize = 0;
    while i < s.len() && is_whitespace(s[i])
        invariant
            i <= s@.len(),
            first_non_ws(s@, 0) == first_non_ws(s@, i as int),
        decreases s.len() - i,
    {
        i = i + 1;
    }
    i
}

/// Index where `trim_end` ends.
fn trim_end_index(s: &[char]) -> (j: usize)
    ensures
        j as int == end_non_ws(s@, s@.len() as int),
{
    let mut j: usize = s.len();
    while j > 0 && is_whitespace(s[j - 1])
        invariant
            j <= s@.len(),
            end_non_ws(s@, s@.len() as int) == end_non_ws(s@, j as int),
        decreases j,
    {
        j = j - 1;
    }
    j
}

/// Copies `s[from..to]`.
pub fn slice_to_vec(s: &[char], from: usize, to: usize) -> (v: Vec<char>)
    requires
        from <= to <= s@.len(),
    ensures
        v@ == s@.subrange(from as int, to as int),
{
    let mut v: Vec<char> = Vec::new();
    let mut i = from;
    while i < to
        invariant
            from <= i <= to <= s@.len(),
            v@ == s@.subrange(from as int, i as int),
        decreases to - i,
    {
        v.push(s[i]);
        i = i + 1;
    }
    v
}

/// `str::trim_start`.
pub fn trim_start_chars(s: &[char]) -> (v: Vec<char>)
    ensures
        v@ == trim_start(s@),
{
    let i = trim_start_index(s);
    proof {
        lemma_first_non_ws_bounds(s@, 0);
    }
    slice_to_vec(s, i, s.len())
}

/// `str::trim_end`.
pub fn trim_end_chars(s: &[char]) -> (v: Vec<char>)
    ensures
        v@ == trim_end(s@),
{
    let j = trim_end_index(s);
    proof {
        lemma_end_non_ws_bounds(s@, s@.len() as int);
    }
    slice_to_vec(s, 0, j)
}

/// `str::trim`.
pub fn trim_chars(s: &[char]) -> (v: Vec<char>)
    ensures
        v@ == trim(s@),
{
    let a = trim_start_chars(s);
    trim_end_chars(a.as_slice())
}

/// The pieces of `s[0..n]` split at `sep`, the last piece still open.
pub open spec fn split_upto(s: Seq<char>, sep: char, n: int) -> Seq<Seq<char>>
    decreases n,
{
    if n <= 0 {
        seq![Seq::empty()]
    } else {
        let p = split_upto(s, sep, n - 1);
        if s[n - 1] == sep {
            p.push(Seq::empty())
        } else {
            p.update(p.len() - 1, p.last().push(s[n - 1]))
        }
    }
}

/// `str::split` at a character: the maximal pieces between occurrences of `sep`.
pub open spec fn split(s: Seq<char>, sep: char) -> Seq<Seq<char>> {
    split_upto(s, sep, s.len() as int)
}

/// Splitting gives at least one piece.
pub proof fn lemma_split_upto_nonempty(s: Seq<char>, sep: char, n: int)
    ensures
        split_upto(s, sep, n).len() >= 1,
    decreases n,
{
    if n > 0 {
        lemma_split_upto_nonempty(s, sep, n - 1);
    }
}

/// The open piece of `s[0..n]` split at `sep` is the run of `s` just before `n` that holds
/// no `sep`, starting at the beginning or right after a `sep`.
pub proof fn lemma_split_upto_last(s: Seq<char>, sep: char, n: int)
    requires
        0 <= n <= s.len(),
    ensures
        ({
            let p = split_upto(s, sep, n).last();
            let b = n - p.len();
            &&& 0 <= b <= n
            &&& p == s.subrange(b, n)
            &&& b == 0 || s[b - 1] == sep
            &&& forall|k: int| 0 <= k < p.len() ==> p[k] != sep
        }),
    decreases n,
{
    lemma_split_upto_nonempty(s, sep, n);
    if n > 0 {
        lemma_split_upto_last(s, sep, n - 1);
        lemma_split_upto_nonempty(s, sep, n - 1);
        let q = split_upto(s, sep, n - 1);
        if s[n - 1] != sep {
            assert(split_upto(s, sep, n).last() == q.last().push(s[n - 1]));
            assert(q.last().push(s[n - 1]) =~= s.subrange(n - 1 - q.last().len(), n));
        } else {
            assert(split_upto(s, sep, n).last() =~= s.subrange(n, n));
        }
    } else {
        assert(split_upto(s, sep, 0).last() =~= s.subrange(0, 0));
    }
}

proof fn lemma_split_upto_plain(t: Seq<char>, sep: char, m: int)
    requires
        0 <= m <= t.len(),
        forall|k: int| 0 <= k < m ==> t[k] != sep,
    ensures
        split_upto(t, sep, m) == seq![t.subrange(0, m)],
    decreases m,
{
    if m > 0 {
        lemma_split_upto_plain(t, sep, m - 1);
        assert(t.subrange(0, m - 1).push(t[m - 1]) =~= t.subrange(0, m));
        assert(seq![t.subrange(0, m - 1)].update(0, t.subrange(0, m)) =~= seq![t.subrange(0, m)]);
    } else {
        assert(t.subrange(0, 0) =~= Seq::<char>::empty());
    }
}

proof fn lemma_split_upto_after(x: Seq<char>, sep: char, y: Seq<char>, k: int)
    requires
        forall|i: int| 0 <= i < x.len() ==> x[i] != sep,
        0 <= k <= y.len(),
    ensures
        split_upto(x + seq![sep] + y, sep, x.len() + 1 + k) == seq![x] + split_upto(y, sep, k),
    decreases k,
{
    let t = x + seq![sep] + y;
    if k > 0 {
        lemma_split_upto_after(x, sep, y, k - 1);
        lemma_split_upto_nonempty(y, sep, k - 1);
        assert(t[x.len() + 1 + k - 1] == y[k - 1]);
        let p = split_upto(y, sep, k - 1);
        if y[k - 1] == sep {
            assert((seq![x] + p).push(Seq::<char>::empty()) =~= seq![x] + p.push(Seq::<char>::empty()));
        } else {
            let q = seq![x] + p;
            assert(q.last() == p.last());
            assert(q.update(q.len() - 1, q.last().push(y[k - 1])) =~= seq![x] + p.update(
                p.len() - 1,
                p.last().push(y[k - 1]),
            ));
        }
    } else {
        assert forall|i: int| 0 <= i < x.len() implies t[i] != sep by {
            assert(t[i] == x[i]);
        }
        lemma_split_upto_plain(t, sep, x.len() as int);
        assert(t.subrange(0, x.len() as int) =~= x);
        assert(t[x.len() as int] == sep);
        assert(seq![x].push(Seq::<char>::empty()) =~= seq![x] + seq![Seq::<char>::empty()]);
    }
}

/// Splitting a piece free of `sep`, then `sep`, then more text gives that piece, then the
/// pieces of the rest.
pub proof fn lemma_split_cons(x: Seq<char>, sep: char, y: Seq<char>)
    requires
        forall|i: int| 0 <= i < x.len() ==> x[i] != sep,
    ensures
        split(x + seq![sep] + y, sep) == seq![x] + split(y, sep),
{
    lemma_split_upto_after(x, sep, y, y.len() as int);
}

/// Splitting a text free of `sep` gives the text itself.
pub proof fn lemma_split_single(x: Seq<char>, sep: char)
    requires
        forall|i: int| 0 <= i < x.len() ==> x[i] != sep,
    ensures
        split(x, sep) == seq![x],
{
    lemma_split_upto_plain(x, sep, x.len() as int);
    assert(x.subrange(0, x.len() as int) =~= x);
}

/// `str::split` at the character `sep`.
pub fn split_chars(s: &[char], sep: char) -> (v: Vec<Vec<char>>)
    ensures
        pieces_view(v@) == split(s@, sep),
        v@.len() >= 1,
{
    let mut done: Vec<Vec<char>> = Vec::new();
    let mut cur: Vec<char> = Vec::new();
    let mut i: usize = 0;
    while i < s.len()
        invariant
            i <= s@.len(),
            pieces_view(done@).push(cur@) == split_upto(s@, sep, i as int),
        decreases s.len() - i,
    {
        proof {
            lemma_split_upto_nonempty(s@, sep, i as int);
        }
        let c = s[i];
        if c == sep {
            let ghost before = pieces_view(done@).push(cur@);
            let finished = cur;
            done.push(finished);
            cur = Vec::new();
            assert(pieces_view(done@) =~= before);
        } else {
            let ghost before = pieces_view(done@).push(cur@);
            cur.push(c);
            assert(pieces_view(done@).push(cur@) =~= before.update(
                before.len() - 1,
                before.last().push(c),
            ));
        }
        i = i + 1;
    }
    let ghost before = pieces_view(done@).push(cur@);
    done.push(cur);
    assert(pieces_view(done@) =~= before);
    done
}

/// State after reading `s[0..n]` when splitting at whitespace: the finished pieces and
/// the piece being read.
pub open spec fn ws_upto(s: Seq<char>, n: int) -> (Seq<Seq<char>>, Seq<char>)
    decreases n,
{
    if n <= 0 {
        (Seq::empty(), Seq::empty())
    } else {
        let (d, c) = ws_upto(s, n - 1);
        if is_ws(s[n - 1]) {
            if c.len() > 0 {
                (d.push(c), Seq::empty())
            } else {
                (d, Seq::empty())
            }
        } else {
            (d, c.push(s[n - 1]))
        }
    }
}

/// `str::split_whitespace`: the maximal non-empty runs of non-whitespace characters.
pub open spec fn split_ws(s: Seq<char>) -> Seq<Seq<char>> {
    let (d, c) = ws_upto(s, s.len() as int);
    if c.len() > 0 {
        d.push(c)
    } else {
        d
    }
}

proof fn lemma_ws_upto_lead(c: char, s: Seq<char>, n: int)
    requires
        is_ws(c),
        0 <= n <= s.len(),
    ensures
        ws_upto(seq![c] + s, n + 1) == ws_upto(s, n),
    decreases n,
{
    let t = seq![c] + s;
    if n > 0 {
        lemma_ws_upto_lead(c, s, n - 1);
        assert(t[n] == s[n - 1]);
    } else {
        assert(t[0] == c);
        assert(ws_upto(t, 0) == (Seq::<Seq<char>>::empty(), Seq::<char>::empty()));
        assert(ws_upto(s, 0) == (Seq::<Seq<char>>::empty(), Seq::<char>::empty()));
    }
}

/// A whitespace character in front does not change the words.
pub proof fn lemma_split_ws_lead(c: char, s: Seq<char>)
    requires
        is_ws(c),
    ensures
        split_ws(seq![c] + s) == split_ws(s),
{
    lemma_ws_upto_lead(c, s, s.len() as int);
    assert((seq![c] + s).len() == s.len() + 1);
}

/// `str::split_whitespace`.
pub fn split_ws_chars(s: &[char]) -> (v: Vec<Vec<char>>)
    ensures
        pieces_view(v@) == split_ws(s@),
{
    let mut done: Vec<Vec<char>> = Vec::new();
    let mut cur: Vec<char> = Vec::new();
    let mut i: usize = 0;
    while i < s.len()
        invariant
            i <= s@.len(),
            (pieces_view(done@), cur@) == ws_upto(s@, i as int),
        decreases s.len() - i,
    {
        let c = s[i];
        if is_whitespace(c) {
            if cur.len() > 0 {
                let ghost before = pieces_view(done@);
                let finished = cur;
                done.push(finished);
                cur = Vec::new();
                assert(pieces_view(done@) =~= before.push(finished@));
            } else {
                cur = Vec::new();
            }
        } else {
            cur.push(c);
        }
        i = i + 1;
    }
    if cur.len() > 0 {
        let ghost before = pieces_view(done@);
        let ghost last = cur@;
        done.push(cur);
        assert(pieces_view(done@) =~= before.push(last));
    }
    done
}

/// Drops one trailing carriage return.
pub open spec fn strip_cr(s: Seq<char>) -> Seq<char> {
    if s.len() > 0 && s.last() == '\r' {
        s.drop_last()
    } else {
        s
    }
}

/// `str::lines`: the text split at `'\n'`, without a final empty piece, and each
/// newline-terminated line without one trailing `'\r'`.
pub open spec fn lines(s: Seq<char>) -> Seq<Seq<char>> {
    let p = split(s, '\n');
    let n = p.len() as int;
    let count = if p[n - 1].len() == 0 {
        n - 1
    } else {
        n
    };
    Seq::new(
        count as nat,
        |i: int|
            if i < n - 1 {
                strip_cr(p[i])
            } else {
                p[i]
            },
    )
}

fn strip_cr_chars(v: Vec<char>) -> (r: Vec<char>)
    ensures
        r@ == strip_cr(v@),
{
    let mut v = v;
    if v.len() > 0 && v[v.len() - 1] == '\r' {
        v.pop();
    }
    v
}

/// `str::lines`.
pub fn lines_chars(s: &[char]) -> (v: Vec<Vec<char>>)
    ensures
        pieces_view(v@) == lines(s@),
{
    let p = split_chars(s, '\n');
    let n = p.len();
    let count = if p[n - 1].len() == 0 {
        n - 1
    } else {
        n
    };
    let mut out: Vec<Vec<char>> = Vec::new();
    let mut i: usize = 0;
    while i < count
        invariant
            count <= n == p@.len(),
            n >= 1,
            pieces_view(p@) == split(s@, '\n'),
            count == (if p@[n - 1]@.len() == 0 {
                n - 1
            } else {
                n as int
            }),
            i <= count,
            pieces_view(out@) == lines(s@).subrange(0, i as int),
        decreases count - i,
    {
        let piece = slice_to_vec(p[i].as_slice(), 0, p[i].len());
        let line = if i < n - 1 {
            strip_cr_chars(piece)
        } else {
            piece
        };
        assert(pieces_view(p@)[i as int] == p@[i as int]@);
        assert(line@ == lines(s@)[i as int]);
        let ghost before = pieces_view(out@);
        out.push(line);
        assert(pieces_view(out@) =~= before.push(line@));
        assert(lines(s@).subrange(0, i + 1) =~= lines(s@).subrange(0, i as int).push(line@));
        i = i + 1;
    }
    assert(lines(s@).subrange(0, count as int) =~= lines(s@));
    out
}

/// Why a text is not an unsigned integer, as `IntErrorKind` of the standard library
/// tells it.
#[derive(Debug, Clone, Copy, PartialEq, Eq)]
pub enum IntErrorKind {
    /// The text is empty.
    Empty,
    /// A character is not a decimal digit.
    InvalidDigit,
    /// The value exceeds the largest value of the type.
    PosOverflow,
}

/// Decimal digit characters.
pub open spec fn is_digit(c: char) -> bool {
    48 <= (c as u32) && (c as u32) <= 57
}

/// Value of a decimal digit character.
pub open spec fn digit_value(c: char) -> int {
    (c as u32) - 48
}

/// Reads the digits `d[i..]` onto `acc`, as the standard library does: the first
/// non-digit is an invalid digit, and exceeding `max` is an overflow.
pub open spec fn scan_digits(d: Seq<char>, i: int, acc: int, max: int) -> Result<int, IntErrorKind>
    decreases d.len() - i,
{
    if i >= d.len() {
        Ok(acc)
    } else if !is_digit(d[i]) {
        Err(IntErrorKind::InvalidDigit)
    } else if acc * 10 + digit_value(d[i]) > max {
        Err(IntErrorKind::PosOverflow)
    } else {
        scan_digits(d, i + 1, acc * 10 + digit_value(d[i]), max)
    }
}

/// `FromStr` of an unsigned integer type whose largest value is `max`: an optional
/// `+` followed by at least one decimal digit.
pub open spec fn parse_uint(s: Seq<char>, max: int) -> Result<int, IntErrorKind> {
    if s.len() == 0 {
        Err(IntErrorKind::Empty)
    } else if (s[0] == '+' || s[0] == '-') && s.len() == 1 {
        Err(IntErrorKind::InvalidDigit)
    } else if s[0] == '+' {
        scan_digits(s, 1, 0, max)
    } else {
        scan_digits(s, 0, 0, max)
    }
}

proof fn lemma_scan_bound(d: Seq<char>, i: int, acc: int, max: int)
    requires
        0 <= acc <= max,
    ensures
        scan_digits(d, i, acc, max) matches Ok(v) ==> 0 <= v <= max,
    decreases d.len() - i,
{
    if i < d.len() && is_digit(d[i]) && acc * 10 + digit_value(d[i]) <= max {
        lemma_scan_bound(d, i + 1, acc * 10 + digit_value(d[i]), max);
    }
}

/// A parsed number lies between zero and `max`.
pub proof fn lemma_parse_uint_range(s: Seq<char>, max: int)
    requires
        0 <= max,
    ensures
        parse_uint(s, max) matches Ok(v) ==> 0 <= v <= max,
{
    lemma_scan_bound(s, 0, 0, max);
    lemma_scan_bound(s, 1, 0, max);
}

proof fn lemma_overflow_test(acc: int, dv: int, max: int)
    requires
        0 <= acc,
        0 <= dv <= 9,
        0 <= max,
    ensures
        (acc * 10 + dv > max) == (acc > max / 10 || (acc == max / 10 && dv > max % 10)),
{
    assert((acc * 10 + dv > max) == (acc > max / 10 || (acc == max / 10 && dv > max % 10)))
        by (nonlinear_arith)
        requires
            0 <= acc,
            0 <= dv <= 9,
            0 <= max,
    ;
}

/// Parses `s` as an unsigned integer no larger than `max`.
pub fn parse_uint_chars(s: &[char], max: u64) -> (r: Result<u64, IntErrorKind>)
    ensures
        match r {
            Ok(v) => parse_uint(s@, max as int) == Ok::<int, IntErrorKind>(v as int),
            Err(e) => parse_uint(s@, max as int) == Err::<int, IntErrorKind>(e),
        },
        r matches Ok(v) ==> v <= max,
{
    if s.len() == 0 {
        return Err(IntErrorKind::Empty);
    }
    if (s[0] == '+' || s[0] == '-') && s.len() == 1 {
        return Err(IntErrorKind::InvalidDigit);
    }
    let mut i: usize = if s[0] == '+' {
        1
    } else {
        0
    };
    let ghost start = i as int;
    let mut acc: u64 = 0;
    let q = max / 10;
    let rem = max % 10;
    while i < s.len()
        invariant
            i <= s@.len(),
            acc <= max,
            q == max / 10,
            rem == max % 10,
            parse_uint(s@, max as int) == scan_digits(s@, i as int, acc as int, max as int),
        decreases s.len() - i,
    {
        let c = s[i];
        let x = c as u32;
        assert(x == c as u32);
        if x < 48 || x > 57 {
            return Err(IntErrorKind::InvalidDigit);
        }
        let dv = (x - 48) as u64;
        proof {
            lemma_overflow_test(acc as int, dv as int, max as int);
        }
        if acc > q || (acc == q && dv > rem) {
            return Err(IntErrorKind::PosOverflow);
        }
        acc = acc * 10 + dv;
        i = i + 1;
    }
    Ok(acc)
}

/// Why a text is not a single character.
#[derive(Debug, Clone, Copy, PartialEq, Eq)]
pub enum CharErrorKind {
    /// The text is empty.
    EmptyString,
    /// The text has more than one character.
    TooManyChars,
}

/// `char::from_str`.
pub open spec fn parse_char(s: Seq<char>) -> Result<char, CharErrorKind> {
    if s.len() == 0 {
        Err(CharErrorKind::EmptyString)
    } else if s.len() == 1 {
        Ok(s[0])
    } else {
        Err(CharErrorKind::TooManyChars)
    }
}

/// `char::from_str`.
pub fn parse_char_chars(s: &[char]) -> (r: Result<char, CharErrorKind>)
    ensures
        r == parse_char(s@),
{
    if s.len() == 0 {
        Err(CharErrorKind::EmptyString)
    } else if s.len() == 1 {
        Ok(s[0])
    } else {
        Err(CharErrorKind::TooManyChars)
    }
}

/// `pat` occurs in `s` at index `i`.
pub open spec fn occurs_at(s: Seq<char>, pat: Seq<char>, i: int) -> bool {
    0 <= i && i + pat.len() <= s.len() && s.subrange(i, i + pat.len()) == pat
}

/// `str::contains` with a string pattern.
pub open spec fn contains(s: Seq<char>, pat: Seq<char>) -> bool {
    exists|i: int| occurs_at(s, pat, i)
}

/// `str::starts_with`.
pub open spec fn starts_with(s: Seq<char>, pat: Seq<char>) -> bool {
    occurs_at(s, pat, 0)
}

/// `str::ends_with`.
pub open spec fn ends_with(s: Seq<char>, pat: Seq<char>) -> bool {
    occurs_at(s, pat, s.len() - pat.len())
}

/// The first index at or after `i` where `pat` occurs, or -1.
pub open spec fn find_from(s: Seq<char>, pat: Seq<char>, i: int) -> int
    decreases s.len() + 1 - i,
{
    if i < 0 || i + pat.len() > s.len() {
        -1
    } else if occurs_at(s, pat, i) {
        i
    } else {
        find_from(s, pat, i + 1)
    }
}

/// Decides `occurs_at`.
pub fn occurs_at_chars(s: &[char], pat: &[char], i: usize) -> (b: bool)
    ensures
        b == occurs_at(s@, pat@, i as int),
{
    if pat.len() > s.len() || i > s.len() - pat.len() {
        return false;
    }
    let mut k: usize = 0;
    while k < pat.len()
        invariant
            i + pat@.len() <= s@.len(),
            k <= pat@.len(),
            forall|m: int| 0 <= m < k ==> s@[i + m] == pat@[m],
        decreases pat.len() - k,
    {
        let n = s.len();
        assert(i + k < n);
        if s[i + k] != pat[k] {
            assert(s@.subrange(i as int, i + pat@.len())[k as int] != pat@[k as int]);
            return false;
        }
        k = k + 1;
    }
    assert(s@.subrange(i as int, i + pat@.len()) =~= pat@);
    true
}

pub(crate) proof fn lemma_find_from_found(s: Seq<char>, pat: Seq<char>, i: int)
    requires
        0 <= i,
    ensures
        find_from(s, pat, i) == -1 || (i <= find_from(s, pat, i) && occurs_at(
            s,
            pat,
            find_from(s, pat, i),
        ) && forall|j: int| i <= j < find_from(s, pat, i) ==> !occurs_at(s, pat, j)),
        find_from(s, pat, i) == -1 ==> forall|j: int| i <= j ==> !occurs_at(s, pat, j),
    decreases s.len() + 1 - i,
{
    if i + pat.len() > s.len() {
    } else if occurs_at(s, pat, i) {
    } else {
        lemma_find_from_found(s, pat, i + 1);
    }
}

/// First occurrence of `pat` in `s` at or after `from`.
pub fn find_from_chars(s: &[char], pat: &[char], from: usize) -> (r: Option<usize>)
    ensures
        match r {
            Some(i) => find_from(s@, pat@, from as int) == i as int,
            None => find_from(s@, pat@, from as int) == -1,
        },
{
    let mut i = from;
    if pat.len() > s.len() {
        return None;
    }
    if i > s.len() - pat.len() {
        return None;
    }
    loop
        invariant
            from <= i <= s@.len() - pat@.len(),
            pat@.len() <= s@.len(),
            find_from(s@, pat@, from as int) == find_from(s@, pat@, i as int),
        decreases s.len() - i,
    {
        if occurs_at_chars(s, pat, i) {
            return Some(i);
        }
        if i >= s.len() - pat.len() {
            assert(find_from(s@, pat@, i + 1) == -1);
            return None;
        }
        i = i + 1;
    }
}

/// `str::contains`.
pub fn contains_chars(s: &[char], pat: &[char]) -> (b: bool)
    ensures
        b == contains(s@, pat@),
{
    proof {
        lemma_find_from_found(s@, pat@, 0);
    }
    match find_from_chars(s, pat, 0) {
        Some(_) => true,
        None => false,
    }
}

/// `str::starts_with`.
pub fn starts_with_chars(s: &[char], pat: &[char]) -> (b: bool)
    ensures
        b == starts_with(s@, pat@),
{
    occurs_at_chars(s, pat, 0)
}

/// `str::ends_with`.
pub fn ends_with_chars(s: &[char], pat: &[char]) -> (b: bool)
    ensures
        b == ends_with(s@, pat@),
{
    if pat.len() > s.len() {
        return false;
    }
    occurs_at_chars(s, pat, s.len() - pat.len())
}

/// The last index of `c` in `s[0..j]`, or -1.
pub open spec fn last_index_before(s: Seq<char>, c: char, j: int) -> int
    decreases j,
{
    if j <= 0 {
        -1
    } else if s[j - 1] == c {
        j - 1
    } else {
        last_index_before(s, c, j - 1)
    }
}

/// `str::rfind` of a character, as a character index.
pub open spec fn rfind(s: Seq<char>, c: char) -> int {
    last_index_before(s, c, s.len() as int)
}

/// The last index of `c` before `j` holds `c`, and no later index before `j` does.
pub proof fn lemma_last_index_bounds(s: Seq<char>, c: char, j: int)
    requires
        0 <= j <= s.len(),
    ensures
        -1 <= last_index_before(s, c, j) < j,
        last_index_before(s, c, j) >= 0 ==> s[last_index_before(s, c, j)] == c,
        forall|k: int| last_index_before(s, c, j) < k < j ==> s[k] != c,
    decreases j,
{
    if j > 0 && s[j - 1] != c {
        lemma_last_index_bounds(s, c, j - 1);
    }
}

/// The last index of `c` in a suffix of `s`, where there is one, is the last index in `s`.
pub proof fn lemma_last_index_suffix(s: Seq<char>, c: char, off: int, j: int)
    requires
        0 <= off <= s.len(),
        0 <= j <= s.len() - off,
        last_index_before(s.subrange(off, s.len() as int), c, j) >= 0,
    ensures
        last_index_before(s, c, j + off) == last_index_before(s.subrange(off, s.len() as int), c, j) + off,
    decreases j,
{
    let t = s.subrange(off, s.len() as int);
    if j > 0 {
        assert(t[j - 1] == s[j - 1 + off]);
        if t[j - 1] != c {
            lemma_last_index_suffix(s, c, off, j - 1);
        }
    }
}

/// `str::rfind` of a character.
pub fn rfind_char(s: &[char], c: char) -> (r: Option<usize>)
    ensures
        match r {
            Some(i) => rfind(s@, c) == i as int && i < s@.len(),
            None => rfind(s@, c) == -1,
        },
{
    let mut j = s.len();
    while j > 0
        invariant
            j <= s@.len(),
            rfind(s@, c) == last_index_before(s@, c, j as int),
        decreases j,
    {
        if s[j - 1] == c {
            return Some(j - 1);
        }
        j = j - 1;
    }
    None
}

/// Appends `t` to `s`.
pub fn append_str(s: &mut String, t: &str)
    ensures
        final(s)@ == old(s)@ + t@,
{
    s.append(t);
}

/// The character of a decimal digit.
pub open spec fn digit_char(d: int) -> char {
    (d + 48) as char
}

/// Decimal notation of a natural number, without leading zeros.
pub open spec fn decimal(n: nat) -> Seq<char>
    decreases n,
{
    if n < 10 {
        seq![digit_char(n as int)]
    } else {
        decimal(n / 10).push(digit_char((n % 10) as int))
    }
}

proof fn lemma_scan_push(s: Seq<char>, c: char, i: int, acc: int, max: int)
    requires
        0 <= i <= s.len(),
    ensures
        scan_digits(s.push(c), i, acc, max) == match scan_digits(s, i, acc, max) {
            Ok(v) => if !is_digit(c) {
                Err(IntErrorKind::InvalidDigit)
            } else if v * 10 + digit_value(c) > max {
                Err(IntErrorKind::PosOverflow)
            } else {
                Ok(v * 10 + digit_value(c))
            },
            Err(e) => Err(e),
        },
    decreases s.len() - i,
{
    let t = s.push(c);
    if i < s.len() {
        assert(t[i] == s[i]);
        if is_digit(s[i]) && acc * 10 + digit_value(s[i]) <= max {
            lemma_scan_push(s, c, i + 1, acc * 10 + digit_value(s[i]), max);
        }
    } else {
        assert(t[i] == c);
        assert(scan_digits(t, i + 1, acc * 10 + digit_value(c), max) == Ok::<int, IntErrorKind>(
            acc * 10 + digit_value(c),
        ));
    }
}

proof fn lemma_decimal_digits(n: nat)
    ensures
        decimal(n).len() >= 1,
        forall|k: int| 0 <= k < decimal(n).len() ==> is_digit(#[trigger] decimal(n)[k]),
        scan_digits(decimal(n), 0, 0, n as int) == Ok::<int, IntErrorKind>(n as int),
    decreases n,
{
    if n >= 10 {
        let q = (n / 10) as nat;
        let d = (n % 10) as int;
        lemma_decimal_digits(q);
        lemma_scan_monotone_max(decimal(q), q as int, n as int);
        lemma_scan_push(decimal(q), digit_char(d), 0, 0, n as int);
        assert(digit_value(digit_char(d)) == d);
        assert(q * 10 + d == n);
        let t = decimal(q).push(digit_char(d));
        assert forall|k: int| 0 <= k < t.len() implies is_digit(#[trigger] t[k]) by {
            if k < decimal(q).len() {
                assert(t[k] == decimal(q)[k]);
            }
        }
    } else {
        assert(scan_digits(decimal(n), 1, n as int, n as int) == Ok::<int, IntErrorKind>(n as int));
    }
}

proof fn lemma_scan_monotone_max(s: Seq<char>, small: int, big: int)
    requires
        small <= big,
        scan_digits(s, 0, 0, small) == Ok::<int, IntErrorKind>(small),
    ensures
        scan_digits(s, 0, 0, big) == Ok::<int, IntErrorKind>(small),
{
    lemma_scan_monotone_from(s, 0, 0, small, big);
}

proof fn lemma_scan_monotone_from(s: Seq<char>, i: int, acc: int, small: int, big: int)
    requires
        small <= big,
        scan_digits(s, i, acc, small) is Ok,
    ensures
        scan_digits(s, i, acc, big) == scan_digits(s, i, acc, small),
    decreases s.len() - i,
{
    if i < s.len() {
        lemma_scan_monotone_from(s, i + 1, acc * 10 + digit_value(s[i]), small, big);
    }
}

/// Reading the decimal notation of a number back gives the number, for every bound at
/// least as large; the notation is made of decimal digits.
pub proof fn law_decimal_parses_back(n: nat, max: int)
    requires
        n <= max,
    ensures
        parse_uint(decimal(n), max) == Ok::<int, IntErrorKind>(n as int),
        forall|k: int| 0 <= k < decimal(n).len() ==> is_digit(#[trigger] decimal(n)[k]),
{
    lemma_decimal_digits(n);
    lemma_scan_monotone_max(decimal(n), n as int, max);
    assert(is_digit(decimal(n)[0]));
}

fn digit_to_char(d: u64) -> (c: char)
    requires
        d < 10,
    ensures
        c == digit_char(d as int),
{
    let x = (d as u8) + 48u8;
    x as char
}

/// Decimal notation of `n`.
pub fn decimal_chars(n: u64) -> (v: Vec<char>)
    ensures
        v@ == decimal(n as nat),
    decreases n,
{
    if n < 10 {
        let mut v = Vec::new();
        v.push(digit_to_char(n));
        v
    } else {
        let mut v = decimal_chars(n / 10);
        v.push(digit_to_char(n % 10));
        v
    }
}

/// The lower-case hexadecimal character of a value below 16.
pub open spec fn hex_char(d: int) -> char {
    if d < 10 {
        (d + 48) as char
    } else {
        (d + 87) as char
    }
}

/// Two lower-case hexadecimal digits of a byte, as `{:02x}` writes it.
pub open spec fn hex2(b: u8) -> Seq<char> {
    seq![hex_char(b as int / 16), hex_char(b as int % 16)]
}

/// The two digits of a byte are lower-case hexadecimal digits, the high one first, and they
/// spell the byte.
pub proof fn law_hex2_digits(b: u8)
    ensures
        hex2(b).len() == 2,
        forall|i: int|
            0 <= i < 2 ==> ('0' <= #[trigger] hex2(b)[i] <= '9' || 'a' <= hex2(b)[i] <= 'f'),
        ({
            let v = |c: char| if c <= '9' {
                c as int - '0' as int
            } else {
                c as int - 'a' as int + 10
            };
            v(hex2(b)[0]) * 16 + v(hex2(b)[1]) == b
        }),
{
    assert(hex2(b)[0] == hex_char(b as int / 16));
    assert(hex2(b)[1] == hex_char(b as int % 16));
}

fn hex_digit(d: u8) -> (c: char)
    requires
        d < 16,
    ensures
        c == hex_char(d as int),
{
    if d < 10 {
        (d + 48u8) as char
    } else {
        (d + 87u8) as char
    }
}

/// Appends the two hexadecimal digits of `b` to `v`.
pub fn push_hex2(v: &mut Vec<char>, b: u8)
    ensures
        final(v)@ == old(v)@ + hex2(b),
{
    v.push(hex_digit(b / 16));
    v.push(hex_digit(b % 16));
    assert(final(v)@ =~= old(v)@ + hex2(b));
}

/// Appends the characters of `s` to `v`.
pub fn push_all(v: &mut Vec<char>, s: &[char])
    ensures
        final(v)@ == old(v)@ + s@,
{
    let mut i: usize = 0;
    while i < s.len()
        invariant
            i <= s@.len(),
            v@ == old(v)@ + s@.subrange(0, i as int),
        decreases s.len() - i,
    {
        v.push(s[i]);
        i = i + 1;
        assert(v@ =~= old(v)@ + s@.subrange(0, i as int));
    }
    assert(s@.subrange(0, s@.len() as int) =~= s@);
}

/// Appends the characters of `s` to `v`.
pub fn push_str(v: &mut Vec<char>, s: &str)
    ensures
        final(v)@ == old(v)@ + s@,
{
    let c = chars_of(s);
    push_all(v, c.as_slice());
}

/// ASCII characters.
pub open spec fn is_ascii_char(c: char) -> bool {
    (c as u32) < 128
}

} // verus!
