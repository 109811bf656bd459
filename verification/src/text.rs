//! Character-level text handling shared by the rest of the library:
//! trimming, searching, line splitting and decimal rendering, each stated
//! over the `Seq<char>` view of the strings involved.
use vstd::prelude::*;

verus! {

/// The view of an optional text.
pub open spec fn opt_view(o: Option<String>) -> Option<Seq<char>> {
    match o {
        Some(s) => Some(s@),
        None => None,
    }
}

// ---------------------------------------------------------------------------
// Character classes
// ---------------------------------------------------------------------------

/// The Unicode `White_Space` property, which `char::is_whitespace` reports.
pub open spec fn is_white_space(c: char) -> bool {
    let u = c as u32;
    ||| 0x9 <= u <= 0xd
    ||| u == 0x20
    ||| u == 0x85
    ||| u == 0xa0
    ||| u == 0x1680
    ||| 0x2000 <= u <= 0x200a
    ||| u == 0x2028
    ||| u == 0x2029
    ||| u == 0x202f
    ||| u == 0x205f
    ||| u == 0x3000
}

/// Which characters a trim removes from both ends of a text.
#[derive(Clone, Copy, Debug, PartialEq, Eq)]
pub enum TrimClass {
    WhiteSpace,
    DoubleQuote,
}

pub open spec fn in_trim_class(k: TrimClass, c: char) -> bool {
    match k {
        TrimClass::WhiteSpace => is_white_space(c),
        TrimClass::DoubleQuote => c == '"',
    }
}

pub fn char_in_trim_class(k: TrimClass, c: char) -> (r: bool)
    ensures
        r == in_trim_class(k, c),
{
    match k {
        TrimClass::WhiteSpace => {
            let u = c as u32;
            (0x9 <= u && u <= 0xd) || u == 0x20 || u == 0x85 || u == 0xa0 || u == 0x1680 || (
            0x2000 <= u && u <= 0x200a) || u == 0x2028 || u == 0x2029 || u == 0x202f || u
                == 0x205f || u == 0x3000
        },
        TrimClass::DoubleQuote => c == '"',
    }
}

// ---------------------------------------------------------------------------
// Trimming
// ---------------------------------------------------------------------------

/// `s` without the leading characters of class `k`.
pub open spec fn trim_start_by(s: Seq<char>, k: TrimClass) -> Seq<char>
    decreases s.len(),
{
    if s.len() > 0 && in_trim_class(k, s[0]) {
        trim_start_by(s.drop_first(), k)
    } else {
        s
    }
}

/// `s` without the trailing characters of class `k`.
pub open spec fn trim_end_by(s: Seq<char>, k: TrimClass) -> Seq<char>
    decreases s.len(),
{
    if s.len() > 0 && in_trim_class(k, s.last()) {
        trim_end_by(s.drop_last(), k)
    } else {
        s
    }
}

/// `s` without the characters of class `k` at either end (`str::trim_matches`).
pub open spec fn trim_by(s: Seq<char>, k: TrimClass) -> Seq<char> {
    trim_end_by(trim_start_by(s, k), k)
}

/// `s` without white space at either end (`str::trim`).
pub open spec fn trimmed(s: Seq<char>) -> Seq<char> {
    trim_by(s, TrimClass::WhiteSpace)
}

proof fn lemma_trim_start_skip(s: Seq<char>, k: TrimClass, i: int)
    requires
        0 <= i <= s.len(),
        forall|j: int| 0 <= j < i ==> in_trim_class(k, #[trigger] s[j]),
    ensures
        trim_start_by(s, k) == trim_start_by(s.skip(i), k),
    decreases i,
{
    if i > 0 {
        assert(in_trim_class(k, s[0]));
        let t = s.drop_first();
        assert forall|j: int| 0 <= j < i - 1 implies in_trim_class(k, #[trigger] t[j]) by {
            assert(t[j] == s[j + 1]);
        }
        lemma_trim_start_skip(t, k, i - 1);
        assert(t.skip(i - 1) =~= s.skip(i));
    } else {
        assert(s.skip(0) =~= s);
    }
}

proof fn lemma_trim_end_take(s: Seq<char>, k: TrimClass, j: int)
    requires
        0 <= j <= s.len(),
        forall|m: int| j <= m < s.len() ==> in_trim_class(k, #[trigger] s[m]),
    ensures
        trim_end_by(s, k) == trim_end_by(s.take(j), k),
    decreases s.len() - j,
{
    if j < s.len() {
        assert(in_trim_class(k, s.last()));
        let t = s.drop_last();
        assert forall|m: int| j <= m < t.len() implies in_trim_class(k, #[trigger] t[m]) by {
            assert(t[m] == s[m]);
        }
        lemma_trim_end_take(t, k, j);
        assert(t.take(j) =~= s.take(j));
    } else {
        assert(s.take(j) =~= s);
    }
}

/// The trimmed text is the window `[a, b)` of `s` whose ends are not in class `k`.
proof fn lemma_trim_window(s: Seq<char>, k: TrimClass, a: int, b: int)
    requires
        0 <= a <= b <= s.len(),
        forall|j: int| 0 <= j < a ==> in_trim_class(k, #[trigger] s[j]),
        forall|m: int| b <= m < s.len() ==> in_trim_class(k, #[trigger] s[m]),
        a < s.len() ==> !in_trim_class(k, s[a]),
        a < b ==> !in_trim_class(k, s[b - 1]),
        a == s.len() ==> b == a,
    ensures
        trim_by(s, k) == s.subrange(a, b),
{
    lemma_trim_start_skip(s, k, a);
    let t = s.skip(a);
    if a < s.len() {
        assert(trim_start_by(t, k) == t);
    } else {
        assert(t.len() == 0);
    }
    assert forall|m: int| b - a <= m < t.len() implies in_trim_class(k, #[trigger] t[m]) by {
        assert(t[m] == s[m + a]);
    }
    lemma_trim_end_take(t, k, b - a);
    let u = t.take(b - a);
    assert(u =~= s.subrange(a, b));
    if a < b {
        assert(u.last() == s[b - 1]);
    }
}

proof fn lemma_trim_start_shape(s: Seq<char>, k: TrimClass)
    ensures
        trim_start_by(s, k).len() <= s.len(),
        trim_start_by(s, k).len() > 0 ==> !in_trim_class(k, trim_start_by(s, k)[0]),
    decreases s.len(),
{
    if s.len() > 0 && in_trim_class(k, s[0]) {
        lemma_trim_start_shape(s.drop_first(), k);
    }
}

proof fn lemma_trim_end_shape(s: Seq<char>, k: TrimClass)
    ensures
        trim_end_by(s, k).len() <= s.len(),
        trim_end_by(s, k) == s.take(trim_end_by(s, k).len() as int),
        trim_end_by(s, k).len() > 0 ==> !in_trim_class(k, trim_end_by(s, k).last()),
    decreases s.len(),
{
    if s.len() > 0 && in_trim_class(k, s.last()) {
        lemma_trim_end_shape(s.drop_last(), k);
        let u = trim_end_by(s.drop_last(), k);
        assert(s.drop_last().take(u.len() as int) =~= s.take(u.len() as int));
    } else {
        assert(s.take(s.len() as int) =~= s);
    }
}

/// Trimming removes characters only, and trimming again changes nothing.
pub proof fn lemma_trim_by_idempotent(s: Seq<char>, k: TrimClass)
    ensures
        trim_by(s, k).len() <= s.len(),
        trim_by(trim_by(s, k), k) == trim_by(s, k),
{
    let w = trim_start_by(s, k);
    lemma_trim_start_shape(s, k);
    lemma_trim_end_shape(w, k);
    let u = trim_end_by(w, k);
    if u.len() > 0 {
        assert(u[0] == w[0]);
        lemma_trim_window(u, k, 0, u.len() as int);
        assert(u.subrange(0, u.len() as int) =~= u);
    } else {
        assert(trim_start_by(u, k) == u);
        assert(trim_end_by(u, k) == u);
    }
}

/// Bounds `[a, b)` of the part of `v` left after trimming class `k` from both ends.
pub fn trim_bounds(v: &Vec<char>, k: TrimClass) -> (r: (usize, usize))
    ensures
        r.0 <= r.1 <= v.len(),
        trim_by(v@, k) == v@.subrange(r.0 as int, r.1 as int),
{
    let n = v.len();
    let mut a: usize = 0;
    while a < n && char_in_trim_class(k, v[a])
        invariant
            n == v.len(),
            a <= n,
            forall|j: int| 0 <= j < a ==> in_trim_class(k, #[trigger] v@[j]),
        decreases n - a,
    {
        a = a + 1;
    }
    let mut b: usize = n;
    while b > a && char_in_trim_class(k, v[b - 1])
        invariant
            n == v.len(),
            a <= b <= n,
            forall|m: int| b <= m < n ==> in_trim_class(k, #[trigger] v@[m]),
        decreases b - a,
    {
        b = b - 1;
    }
    proof {
        lemma_trim_window(v@, k, a as int, b as int);
    }
    (a, b)
}

// ---------------------------------------------------------------------------
// Moving between `str` and characters
// ---------------------------------------------------------------------------

/// The characters of `s`, in order.
pub fn chars_of(s: &str) -> (v: Vec<char>)
    ensures
        v@ == s@,
{
    let n = s.unicode_len();
    let mut v: Vec<char> = Vec::new();
    let mut i: usize = 0;
    while i < n
        invariant
            n == s@.len(),
            i <= n,
            v@ == s@.take(i as int),
        decreases n - i,
    {
        let c = s.get_char(i);
        v.push(c);
        i = i + 1;
        assert(v@ =~= s@.take(i as int));
    }
    assert(s@.take(n as int) =~= s@);
    v
}

/// The characters of `s` in positions `[from, to)`, as an owned string.
pub fn substring(s: &str, from: usize, to: usize) -> (r: String)
    requires
        from <= to <= s@.len(),
    ensures
        r@ == s@.subrange(from as int, to as int),
{
    String::from_str(s.substring_char(from, to))
}

/// `s` trimmed of class `k` at both ends.
pub fn trim_str_by(s: &str, k: TrimClass) -> (r: String)
    ensures
        r@ == trim_by(s@, k),
{
    let v = chars_of(s);
    let (a, b) = trim_bounds(&v, k);
    substring(s, a, b)
}

/// `s` trimmed of white space at both ends (`str::trim`).
pub fn trim_str(s: &str) -> (r: String)
    ensures
        r@ == trimmed(s@),
{
    trim_str_by(s, TrimClass::WhiteSpace)
}

// ---------------------------------------------------------------------------
// Searching
// ---------------------------------------------------------------------------

/// `p` occurs in `s` as a contiguous run (`str::contains` with a string pattern).
pub open spec fn has_infix(s: Seq<char>, p: Seq<char>) -> bool {
    exists|i: int| 0 <= i && i + p.len() <= s.len() && #[trigger] s.subrange(i, i + p.len()) == p
}

/// `s` begins with `p` (`str::starts_with`).
pub open spec fn has_prefix(s: Seq<char>, p: Seq<char>) -> bool {
    p.len() <= s.len() && s.take(p.len() as int) == p
}

/// Whether `s[at..]` begins with `p`.
fn matches_at(s: &Vec<char>, p: &Vec<char>, at: usize) -> (r: bool)
    requires
        at <= s.len(),
    ensures
        r == (at + p.len() <= s.len() && s@.subrange(at as int, at + p.len()) == p@),
{
    if p.len() > s.len() - at {
        return false;
    }
    let mut j: usize = 0;
    while j < p.len()
        invariant
            at + p.len() <= s.len(),
            j <= p.len(),
            forall|m: int| 0 <= m < j ==> s@[at + m] == p@[m],
        decreases p.len() - j,
    {
        if s[at + j] != p[j] {
            assert(s@.subrange(at as int, at + p.len())[j as int] != p@[j as int]);
            return false;
        }
        j = j + 1;
    }
    assert(s@.subrange(at as int, at + p.len()) =~= p@);
    true
}

/// Whether `p` occurs in `s`.
pub fn chars_contain(s: &Vec<char>, p: &Vec<char>) -> (r: bool)
    ensures
        r == has_infix(s@, p@),
{
    if p.len() > s.len() {
        return false;
    }
    if p.len() == 0 {
        assert(s@.subrange(0int, 0int + p@.len()) =~= p@);
        return true;
    }
    let last = s.len() - p.len();
    let mut i: usize = 0;
    while i <= last
        invariant
            last == s.len() - p.len(),
            0 < p.len() <= s.len(),
            i <= last + 1,
            forall|m: int| 0 <= m < i ==> #[trigger] s@.subrange(m, m + p.len()) != p@,
        decreases last + 1 - i,
    {
        if matches_at(s, p, i) {
            return true;
        }
        i = i + 1;
    }
    assert forall|m: int| 0 <= m && m + p@.len() <= s@.len() implies #[trigger] s@.subrange(
        m,
        m + p@.len(),
    ) != p@ by {}
    false
}

/// Whether `p` occurs in `s` (`str::contains`).
pub fn str_contains(s: &str, p: &str) -> (r: bool)
    ensures
        r == has_infix(s@, p@),
{
    let sv = chars_of(s);
    let pv = chars_of(p);
    chars_contain(&sv, &pv)
}

/// Whether `s` begins with `p` (`str::starts_with`).
pub fn str_starts_with(s: &str, p: &str) -> (r: bool)
    ensures
        r == has_prefix(s@, p@),
{
    let sv = chars_of(s);
    let pv = chars_of(p);
    let r = matches_at(&sv, &pv, 0);
    assert(sv@.subrange(0, pv@.len() as int) =~= sv@.take(pv@.len() as int));
    r
}

/// Whether `s` and `p` hold the same characters.
pub fn str_equal(s: &str, p: &str) -> (r: bool)
    ensures
        r == (s@ == p@),
{
    let sv = chars_of(s);
    let pv = chars_of(p);
    if sv.len() != pv.len() {
        return false;
    }
    let r = matches_at(&sv, &pv, 0);
    assert(sv@.subrange(0, pv@.len() as int) =~= sv@);
    r
}

// ---------------------------------------------------------------------------
// Lines
// ---------------------------------------------------------------------------

/// Position of the first `c` in `s`, or `-1` when `c` does not occur.
pub open spec fn index_of(s: Seq<char>, c: char) -> int
    decreases s.len(),
{
    if s.len() == 0 {
        -1
    } else if s[0] == c {
        0
    } else {
        let r = index_of(s.drop_first(), c);
        if r < 0 {
            -1
        } else {
            r + 1
        }
    }
}

/// The lines of `s` as `str::lines` yields them: split after each `'\n'`, the
/// `'\n'` and a `'\r'` right before it removed, and no empty line after a final `'\n'`.
pub open spec fn lines(s: Seq<char>) -> Seq<Seq<char>>
    decreases s.len(),
{
    if s.len() == 0 {
        Seq::empty()
    } else {
        let k = index_of(s, '\n');
        if k < 0 {
            seq![s]
        } else {
            let line = if k > 0 && s[k - 1] == '\r' {
                s.take(k - 1)
            } else {
                s.take(k)
            };
            if 0 <= k < s.len() {
                seq![line] + lines(s.skip(k + 1))
            } else {
                seq![line]
            }
        }
    }
}

proof fn lemma_index_of_bounds(s: Seq<char>, c: char)
    ensures
        -1 <= index_of(s, c) < s.len(),
        index_of(s, c) >= 0 ==> s[index_of(s, c)] == c,
        forall|j: int| 0 <= j < s.len() && (index_of(s, c) < 0 || j < index_of(s, c)) ==> s[j]
            != c,
    decreases s.len(),
{
    if s.len() > 0 && s[0] != c {
        lemma_index_of_bounds(s.drop_first(), c);
        assert forall|j: int|
            0 <= j < s.len() && (index_of(s, c) < 0 || j < index_of(s, c)) implies s[j] != c by {
            if j > 0 {
                assert(s[j] == s.drop_first()[j - 1]);
            }
        }
    }
}

/// The first position at or after `from` holding `c`, or `-1`, is `index_of` of the rest.
proof fn lemma_index_of_scan(s: Seq<char>, c: char, from: int, found: int)
    requires
        0 <= from <= found <= s.len(),
        forall|j: int| from <= j < found ==> s[j] != c,
        found < s.len() ==> s[found] == c,
    ensures
        index_of(s.skip(from), c) == (if found < s.len() {
            found - from
        } else {
            -1
        }),
    decreases found - from,
{
    let t = s.skip(from);
    if from == found {
        if found < s.len() {
            assert(t[0] == c);
        } else {
            assert(t.len() == 0);
        }
    } else {
        assert(t[0] == s[from]);
        lemma_index_of_scan(s, c, from + 1, found);
        assert(t.drop_first() =~= s.skip(from + 1));
    }
}

/// A text without line breaks, ended by one `'\n'`, is a single line.
pub proof fn lemma_single_line(s: Seq<char>)
    requires
        !s.contains('\n'),
        s.len() == 0 || s.last() != '\r',
    ensures
        lines(s.push('\n')) == seq![s],
{
    let t = s.push('\n');
    assert forall|j: int| 0 <= j < s.len() implies t[j] != '\n' by {
        assert(t[j] == s[j]);
        if s[j] == '\n' {
            assert(s.contains('\n'));
        }
    }
    lemma_index_of_scan(t, '\n', 0, s.len() as int);
    assert(t.skip(0) =~= t);
    assert(t.take(s.len() as int) =~= s);
    assert(t.skip(s.len() as int + 1).len() == 0);
    assert(lines(t.skip(s.len() as int + 1)) == Seq::<Seq<char>>::empty());
    assert(lines(t) =~= seq![s]);
}

/// The lines of `s`, each as an owned string.
pub fn split_lines(s: &str) -> (r: Vec<String>)
    ensures
        r@.len() == lines(s@).len(),
        forall|i: int| 0 <= i < r@.len() ==> #[trigger] r@[i]@ == lines(s@)[i],
{
    let v = chars_of(s);
    let n = v.len();
    let mut out: Vec<String> = Vec::new();
    let mut pos: usize = 0;
    let ghost done: Seq<Seq<char>> = Seq::empty();
    assert(s@.skip(0) =~= s@);
    assert(done + lines(s@) =~= lines(s@));
    while pos < n
        invariant
            n == v.len(),
            v@ == s@,
            pos <= n,
            out@.len() == done.len(),
            forall|i: int| 0 <= i < out@.len() ==> #[trigger] out@[i]@ == done[i],
            lines(s@) == done + lines(s@.skip(pos as int)),
        decreases n - pos,
    {
        let mut e: usize = pos;
        while e < n && v[e] != '\n'
            invariant
                n == v.len(),
                pos <= e <= n,
                forall|j: int| pos <= j < e ==> v@[j] != '\n',
            decreases n - e,
        {
            e = e + 1;
        }
        let ghost rest = s@.skip(pos as int);
        proof {
            lemma_index_of_scan(s@, '\n', pos as int, e as int);
        }
        let end = if e < n && e > pos && v[e - 1] == '\r' {
            e - 1
        } else {
            e
        };
        let line = substring(s, pos, end);
        proof {
            if e < n {
                if e > pos {
                    assert(rest[e - pos - 1] == s@[e - 1]);
                }
                assert(line@ =~= (if e - pos > 0 && rest[e - pos - 1] == '\r' {
                    rest.take(e - pos - 1)
                } else {
                    rest.take(e - pos)
                }));
                assert(rest.skip(e - pos + 1) =~= s@.skip(e + 1));
            } else {
                assert(line@ =~= rest);
            }
        }
        out.push(line);
        proof {
            done = done.push(line@);
        }
        let next = if e < n {
            e + 1
        } else {
            e
        };
        proof {
            if e >= n {
                assert(s@.skip(n as int).len() == 0);
            }
            assert(lines(s@) =~= done + lines(s@.skip(next as int)));
        }
        pos = next;
    }
    proof {
        assert(s@.skip(n as int).len() == 0);
        assert(lines(s@) =~= done);
    }
    out
}

// ---------------------------------------------------------------------------
// Joining and decimal rendering
// ---------------------------------------------------------------------------

/// The items of `items` with `sep` between neighbours (`[T]::join`).
pub open spec fn joined(items: Seq<Seq<char>>, sep: Seq<char>) -> Seq<char>
    decreases items.len(),
{
    if items.len() == 0 {
        Seq::empty()
    } else if items.len() == 1 {
        items[0]
    } else {
        joined(items.drop_last(), sep) + sep + items.last()
    }
}

pub open spec fn digit_char(d: nat) -> char {
    if d == 0 {
        '0'
    } else if d == 1 {
        '1'
    } else if d == 2 {
        '2'
    } else if d == 3 {
        '3'
    } else if d == 4 {
        '4'
    } else if d == 5 {
        '5'
    } else if d == 6 {
        '6'
    } else if d == 7 {
        '7'
    } else if d == 8 {
        '8'
    } else {
        '9'
    }
}

/// The decimal digits of `n`, most significant first, without leading zeros.
pub open spec fn decimal(n: nat) -> Seq<char>
    decreases n,
{
    if n < 10 {
        seq![digit_char(n)]
    } else {
        decimal(n / 10) + seq![digit_char(n % 10)]
    }
}

fn digit_str(d: u32) -> (r: &'static str)
    requires
        d < 10,
    ensures
        r@ == seq![digit_char(d as nat)],
{
    proof {
        reveal_strlit("0");
        reveal_strlit("1");
        reveal_strlit("2");
        reveal_strlit("3");
        reveal_strlit("4");
        reveal_strlit("5");
        reveal_strlit("6");
        reveal_strlit("7");
        reveal_strlit("8");
        reveal_strlit("9");
    }
    let r = if d == 0 {
        "0"
    } else if d == 1 {
        "1"
    } else if d == 2 {
        "2"
    } else if d == 3 {
        "3"
    } else if d == 4 {
        "4"
    } else if d == 5 {
        "5"
    } else if d == 6 {
        "6"
    } else if d == 7 {
        "7"
    } else if d == 8 {
        "8"
    } else {
        "9"
    };
    assert(r@ =~= seq![digit_char(d as nat)]);
    r
}

/// `n` written in decimal (`u32::to_string`).
pub fn decimal_string(n: u32) -> (r: String)
    ensures
        r@ == decimal(n as nat),
    decreases n,
{
    if n < 10 {
        String::from_str(digit_str(n))
    } else {
        let mut s = decimal_string(n / 10);
        s.append(digit_str(n % 10));
        s
    }
}

// ---------------------------------------------------------------------------
// Lower case
// ---------------------------------------------------------------------------

/// What `str::to_lowercase` gives for a text: each character replaced by its
/// Unicode lowercase mapping (a table of its own, not restated here).
pub uninterp spec fn lowercase(s: Seq<char>) -> Seq<char>;

/// `str::to_lowercase` of `s`: the result is `lowercase` of its characters.
#[verifier::external_body]
pub fn to_lowercase(s: &str) -> (r: String)
    ensures
        r@ == lowercase(s@),
{
    s.to_lowercase()
}

// ---------------------------------------------------------------------------
// Keyed lines
// ---------------------------------------------------------------------------

/// What follows `p` on the first of `ls` that begins with `p` (`str::strip_prefix`
/// on each line in turn), if any does.
pub open spec fn first_with_prefix(ls: Seq<Seq<char>>, p: Seq<char>) -> Option<Seq<char>>
    decreases ls.len(),
{
    if ls.len() == 0 {
        None
    } else if has_prefix(ls[0], p) {
        Some(ls[0].skip(p.len() as int))
    } else {
        first_with_prefix(ls.drop_first(), p)
    }
}

proof fn lemma_first_with_prefix_skip(ls: Seq<Seq<char>>, p: Seq<char>, i: int)
    requires
        0 <= i <= ls.len(),
        forall|j: int| 0 <= j < i ==> !has_prefix(#[trigger] ls[j], p),
    ensures
        first_with_prefix(ls, p) == first_with_prefix(ls.skip(i), p),
    decreases i,
{
    if i > 0 {
        let t = ls.drop_first();
        assert forall|j: int| 0 <= j < i - 1 implies !has_prefix(#[trigger] t[j], p) by {
            assert(t[j] == ls[j + 1]);
        }
        lemma_first_with_prefix_skip(t, p, i - 1);
        assert(t.skip(i - 1) =~= ls.skip(i));
    } else {
        assert(ls.skip(0) =~= ls);
    }
}

/// What follows `p` on the first line of `ls` that begins with it.
pub fn find_prefixed_line(ls: &Vec<String>, p: &str) -> (r: Option<String>)
    ensures
        opt_view(r) == first_with_prefix(ls@.map_values(|x: String| x@), p@),
{
    let ghost lv = ls@.map_values(|x: String| x@);
    let pn = p.unicode_len();
    let mut i: usize = 0;
    while i < ls.len()
        invariant
            i <= ls.len(),
            lv == ls@.map_values(|x: String| x@),
            pn == p@.len(),
            forall|j: int| 0 <= j < i ==> !has_prefix(#[trigger] lv[j], p@),
        decreases ls.len() - i,
    {
        let line = ls[i].as_str();
        if str_starts_with(line, p) {
            proof {
                lemma_first_with_prefix_skip(lv, p@, i as int);
                assert(lv.skip(i as int)[0] == lv[i as int]);
            }
            let n = line.unicode_len();
            return Some(substring(line, pn, n));
        }
        i = i + 1;
    }
    proof {
        lemma_first_with_prefix_skip(lv, p@, i as int);
        assert(lv.skip(i as int).len() == 0);
    }
    None
}

} // verus!
