//! Character-level text handling: whitespace trimming, line splitting,
//! substring search and the rendering of numbers as digits.
use vstd::prelude::*;

verus! {

// ---------------------------------------------------------------------------
// Characters of a string
// ---------------------------------------------------------------------------

/// The characters of `s`, in order.
pub fn chars_of(s: &str) -> (r: Vec<char>)
    ensures
        r@ == s@,
{
    let mut r: Vec<char> = Vec::new();
    for c in it: s.chars()
        invariant
            r@ == it.seq().take(it.index() as int),
    {
        r.push(c);
    }
    r
}

// ---------------------------------------------------------------------------
// Whitespace and trimming
// ---------------------------------------------------------------------------

/// The characters with the Unicode `White_Space` property, which is what
/// `char::is_whitespace` (and so `str::trim`) treats as whitespace.
pub open spec fn is_whitespace(c: char) -> bool {
    let u = c as u32;
    ||| 0x9 <= u <= 0xD
    ||| u == 0x20
    ||| u == 0x85
    ||| u == 0xA0
    ||| u == 0x1680
    ||| 0x2000 <= u <= 0x200A
    ||| u == 0x2028
    ||| u == 0x2029
    ||| u == 0x202F
    ||| u == 0x205F
    ||| u == 0x3000
}

/// `s` without its leading whitespace.
pub open spec fn trim_start(s: Seq<char>) -> Seq<char>
    decreases s.len(),
{
    if s.len() > 0 && is_whitespace(s[0]) {
        trim_start(s.drop_first())
    } else {
        s
    }
}

/// `s` without its trailing whitespace.
pub open spec fn trim_end(s: Seq<char>) -> Seq<char>
    decreases s.len(),
{
    if s.len() > 0 && is_whitespace(s.last()) {
        trim_end(s.drop_last())
    } else {
        s
    }
}

/// `s` without leading and trailing whitespace.
pub open spec fn trim(s: Seq<char>) -> Seq<char> {
    trim_end(trim_start(s))
}

/// Whether `c` is whitespace.
pub fn is_whitespace_char(c: char) -> (r: bool)
    ensures
        r == is_whitespace(c),
{
    let u = c as u32;
    (0x9 <= u && u <= 0xD) || u == 0x20 || u == 0x85 || u == 0xA0 || u == 0x1680 || (0x2000
        <= u && u <= 0x200A) || u == 0x2028 || u == 0x2029 || u == 0x202F || u == 0x205F || u
        == 0x3000
}

/// The bounds of the part of `cs` that trimming keeps.
fn trim_bounds(cs: &Vec<char>) -> (r: (usize, usize))
    ensures
        r.0 <= r.1 <= cs.len(),
        cs@.subrange(r.0 as int, r.1 as int) == trim(cs@),
{
    let n = cs.len();
    let mut i: usize = 0;
    assert(cs@.subrange(0, n as int) =~= cs@);
    while i < n && is_whitespace_char(cs[i])
        invariant
            i <= n,
            n == cs.len(),
            trim_start(cs@) == trim_start(cs@.subrange(i as int, n as int)),
        decreases n - i,
    {
        assert(cs@.subrange(i as int, n as int).drop_first() =~= cs@.subrange(i + 1, n as int));
        i = i + 1;
    }
    assert(trim_start(cs@) == cs@.subrange(i as int, n as int));
    let mut j: usize = n;
    while j > i && is_whitespace_char(cs[j - 1])
        invariant
            i <= j <= n,
            n == cs.len(),
            trim(cs@) == trim_end(cs@.subrange(i as int, j as int)),
        decreases j,
    {
        assert(cs@.subrange(i as int, j as int).drop_last() =~= cs@.subrange(i as int, j - 1));
        j = j - 1;
    }
    (i, j)
}

/// `s` with leading and trailing whitespace removed, as `str::trim` does.
pub fn trim_text(s: &str) -> (r: String)
    ensures
        r@ == trim(s@),
{
    let cs = chars_of(s);
    let (i, j) = trim_bounds(&cs);
    String::from_str(s.substring_char(i, j))
}

// ---------------------------------------------------------------------------
// Lines
// ---------------------------------------------------------------------------

/// `l` without one trailing carriage return.
pub open spec fn strip_cr(l: Seq<char>) -> Seq<char> {
    if l.len() > 0 && l.last() == '\r' {
        l.drop_last()
    } else {
        l
    }
}

/// The index of the first line feed at or after `i`, or the length of `s`.
pub open spec fn line_end(s: Seq<char>, i: int) -> int
    decreases s.len() - i,
{
    if i >= s.len() {
        s.len() as int
    } else if s[i] == '\n' {
        i
    } else {
        line_end(s, i + 1)
    }
}

/// `line_end` never moves backwards and never passes the end.
pub proof fn lemma_line_end_bounds(s: Seq<char>, i: int)
    requires
        0 <= i,
    ensures
        i <= s.len() ==> i <= line_end(s, i) <= s.len(),
        line_end(s, i) < s.len() ==> s[line_end(s, i)] == '\n',
    decreases s.len() - i,
{
    if i < s.len() && s[i] != '\n' {
        lemma_line_end_bounds(s, i + 1);
    }
}

/// The lines of `s` that start at or after index `i`: text between line feeds,
/// a carriage return before a line feed dropped, and no empty line after a
/// final line feed.
pub open spec fn lines_from(s: Seq<char>, i: int) -> Seq<Seq<char>>
    decreases s.len() - i,
{
    if i < 0 || i >= s.len() {
        seq![]
    } else {
        let j = line_end(s, i);
        proof {
            lemma_line_end_bounds(s, i);
        }
        if j >= s.len() {
            seq![s.subrange(i, s.len() as int)]
        } else {
            seq![strip_cr(s.subrange(i, j))] + lines_from(s, j + 1)
        }
    }
}

/// The lines of `s`, as `str::lines` yields them.
pub open spec fn lines(s: Seq<char>) -> Seq<Seq<char>> {
    lines_from(s, 0)
}

/// The view of an optional string.
pub open spec fn opt_view(s: Option<String>) -> Option<Seq<char>> {
    match s {
        Some(t) => Some(t@),
        None => None,
    }
}

/// The views of a sequence of strings.
pub open spec fn views(v: Seq<String>) -> Seq<Seq<char>> {
    v.map_values(|x: String| x@)
}

/// The lines of `s`.
pub fn split_lines(s: &str) -> (r: Vec<String>)
    ensures
        views(r@) == lines(s@),
{
    let cs = chars_of(s);
    let n = cs.len();
    let mut r: Vec<String> = Vec::new();
    let mut i: usize = 0;
    while i < n
        invariant
            n == cs.len(),
            cs@ == s@,
            i <= n,
            views(r@) + lines_from(s@, i as int) == lines(s@),
        decreases n - i,
    {
        let mut j = i;
        while j < n && cs[j] != '\n'
            invariant
                n == cs.len(),
                cs@ == s@,
                i <= j <= n,
                line_end(s@, i as int) == line_end(s@, j as int),
            decreases n - j,
        {
            j = j + 1;
        }
        proof {
            lemma_line_end_bounds(s@, i as int);
        }
        let ghost before = views(r@);
        if j >= n {
            r.push(String::from_str(s.substring_char(i, n)));
            assert(views(r@) =~= before.push(s@.subrange(i as int, n as int)));
            assert(lines_from(s@, n as int) =~= Seq::<Seq<char>>::empty());
            i = n;
        } else {
            let mut k = j;
            if k > i && cs[k - 1] == '\r' {
                k = k - 1;
            }
            r.push(String::from_str(s.substring_char(i, k)));
            assert(s@.subrange(i as int, k as int) =~= strip_cr(s@.subrange(i as int, j as int)));
            assert(views(r@) =~= before.push(strip_cr(s@.subrange(i as int, j as int))));
            i = j + 1;
        }
    }
    assert(lines_from(s@, i as int) =~= Seq::<Seq<char>>::empty());
    assert(views(r@) + Seq::<Seq<char>>::empty() =~= views(r@));
    r
}

/// What trimming keeps is one stretch of `s`: everything before it and after
/// it is whitespace, and it neither starts nor ends with whitespace.
pub proof fn lemma_trim_keeps_inner_stretch(s: Seq<char>)
    ensures
        exists|i: int, j: int|
            {
                &&& 0 <= i <= j <= s.len()
                &&& trim(s) == s.subrange(i, j)
                &&& forall|k: int| 0 <= k < i ==> is_whitespace(#[trigger] s[k])
                &&& forall|k: int| j <= k < s.len() ==> is_whitespace(#[trigger] s[k])
            },
        trim(s).len() > 0 ==> !is_whitespace(trim(s)[0]) && !is_whitespace(trim(s).last()),
{
    let i = lemma_trim_start_shape(s);
    let t = trim_start(s);
    let j = lemma_trim_end_shape(t);
    assert(trim(s) == s.subrange(i, i + j));
    assert forall|k: int| i + j <= k < s.len() implies is_whitespace(#[trigger] s[k]) by {
        assert(t[k - i] == s[k]);
    }
    if trim(s).len() > 0 {
        assert(trim(s)[0] == t[0]);
    }
}

proof fn lemma_trim_start_shape(s: Seq<char>) -> (i: int)
    ensures
        0 <= i <= s.len(),
        trim_start(s) == s.subrange(i, s.len() as int),
        forall|k: int| 0 <= k < i ==> is_whitespace(#[trigger] s[k]),
        trim_start(s).len() > 0 ==> !is_whitespace(trim_start(s)[0]),
    decreases s.len(),
{
    if s.len() > 0 && is_whitespace(s[0]) {
        let i0 = lemma_trim_start_shape(s.drop_first());
        assert(s.drop_first().subrange(i0, s.len() - 1) =~= s.subrange(i0 + 1, s.len() as int));
        assert forall|k: int| 0 <= k < i0 + 1 implies is_whitespace(#[trigger] s[k]) by {
            if k > 0 {
                assert(s.drop_first()[k - 1] == s[k]);
            }
        }
        i0 + 1
    } else {
        assert(s.subrange(0, s.len() as int) =~= s);
        0
    }
}

proof fn lemma_trim_end_shape(s: Seq<char>) -> (j: int)
    ensures
        0 <= j <= s.len(),
        trim_end(s) == s.subrange(0, j),
        forall|k: int| j <= k < s.len() ==> is_whitespace(#[trigger] s[k]),
        trim_end(s).len() > 0 ==> !is_whitespace(trim_end(s).last()),
        trim_end(s).len() > 0 ==> trim_end(s)[0] == s[0],
    decreases s.len(),
{
    if s.len() > 0 && is_whitespace(s.last()) {
        let j0 = lemma_trim_end_shape(s.drop_last());
        assert(s.drop_last().subrange(0, j0) =~= s.subrange(0, j0));
        assert forall|k: int| j0 <= k < s.len() implies is_whitespace(#[trigger] s[k]) by {
            if k < s.len() - 1 {
                assert(s.drop_last()[k] == s[k]);
            }
        }
        j0
    } else {
        assert(s.subrange(0, s.len() as int) =~= s);
        s.len() as int
    }
}

/// No line holds a line feed.
pub proof fn lemma_lines_have_no_line_feed(s: Seq<char>, i: int)
    requires
        0 <= i,
    ensures
        forall|n: int, k: int|
            0 <= n < lines_from(s, i).len() && 0 <= k < lines_from(s, i)[n].len() ==> #[trigger] lines_from(
                s,
                i,
            )[n][k] != '\n',
    decreases s.len() - i,
{
    if i < s.len() {
        let j = line_end(s, i);
        lemma_line_end_bounds(s, i);
        lemma_line_end_clear(s, i);
        if j < s.len() {
            lemma_lines_have_no_line_feed(s, j + 1);
            let first = strip_cr(s.subrange(i, j));
            assert forall|n: int, k: int|
                0 <= n < lines_from(s, i).len() && 0 <= k < lines_from(s, i)[n].len() implies #[trigger] lines_from(
                s,
                i,
            )[n][k] != '\n' by {
                if n == 0 {
                    assert(lines_from(s, i)[0] == first);
                    assert(first[k] == s[i + k]);
                } else {
                    assert(lines_from(s, i)[n] == lines_from(s, j + 1)[n - 1]);
                }
            }
        } else {
            assert forall|n: int, k: int|
                0 <= n < lines_from(s, i).len() && 0 <= k < lines_from(s, i)[n].len() implies #[trigger] lines_from(
                s,
                i,
            )[n][k] != '\n' by {
                assert(lines_from(s, i)[n] == s.subrange(i, s.len() as int));
            }
        }
    }
}

/// Between `i` and `line_end(s, i)` there is no line feed.
proof fn lemma_line_end_clear(s: Seq<char>, i: int)
    requires
        0 <= i,
    ensures
        forall|k: int| i <= k < line_end(s, i) && k < s.len() ==> s[k] != '\n',
    decreases s.len() - i,
{
    if i < s.len() && s[i] != '\n' {
        lemma_line_end_clear(s, i + 1);
    }
}

// ---------------------------------------------------------------------------
// Substrings
// ---------------------------------------------------------------------------

/// `pat` occurs in `s` starting at index `k`.
pub open spec fn occurs_at(s: Seq<char>, pat: Seq<char>, k: int) -> bool {
    0 <= k && k + pat.len() <= s.len() && s.subrange(k, k + pat.len()) == pat
}

/// `pat` occurs somewhere in `s`, as `str::contains` finds it.
pub open spec fn has_substring(s: Seq<char>, pat: Seq<char>) -> bool {
    exists|k: int| occurs_at(s, pat, k)
}

/// Whether `pat` occurs in `s` at index `k`.
fn matches_at(s: &Vec<char>, pat: &Vec<char>, k: usize) -> (r: bool)
    requires
        k + pat.len() <= s.len(),
    ensures
        r == occurs_at(s@, pat@, k as int),
{
    let m = pat.len();
    let mut t: usize = 0;
    while t < m
        invariant
            m == pat.len(),
            k + m <= s.len(),
            t <= m,
            forall|q: int| 0 <= q < t ==> s@[k + q] == pat@[q],
        decreases m - t,
    {
        if s[k + t] != pat[t] {
            assert(s@.subrange(k as int, k + m)[t as int] != pat@[t as int]);
            return false;
        }
        t = t + 1;
    }
    assert(s@.subrange(k as int, k + m) =~= pat@);
    true
}

/// Whether `pat` occurs in `s`.
pub fn contains_chars(s: &Vec<char>, pat: &Vec<char>) -> (r: bool)
    ensures
        r == has_substring(s@, pat@),
{
    let n = s.len();
    let m = pat.len();
    if m > n {
        assert(forall|k: int| !occurs_at(s@, pat@, k));
        return false;
    }
    let last = n - m;
    let mut k: usize = 0;
    loop
        invariant
            n == s.len(),
            m == pat.len(),
            m <= n,
            last == n - m,
            k <= last,
            forall|q: int| 0 <= q < k ==> !occurs_at(s@, pat@, q),
        ensures
            forall|q: int| 0 <= q <= last ==> !occurs_at(s@, pat@, q),
        decreases last - k,
    {
        if matches_at(s, pat, k) {
            return true;
        }
        if k == last {
            break;
        }
        k = k + 1;
    }
    assert(forall|q: int| !occurs_at(s@, pat@, q));
    false
}

// ---------------------------------------------------------------------------
// Numbers
// ---------------------------------------------------------------------------

/// The digit of value `d` (`0`-`9`, then `a`-`f`).
pub open spec fn digit_char(d: nat) -> char {
    "0123456789abcdef"@[d as int]
}

/// The decimal digits of `n`, most significant first, without leading zeros.
pub open spec fn decimal(n: nat) -> Seq<char>
    decreases n,
{
    if n < 10 {
        seq![digit_char(n)]
    } else {
        decimal(n / 10).push(digit_char(n % 10))
    }
}

/// The lower-case hexadecimal digits of `n`, most significant first, without
/// leading zeros.
pub open spec fn hexadecimal(n: nat) -> Seq<char>
    decreases n,
{
    if n < 16 {
        seq![digit_char(n)]
    } else {
        hexadecimal(n / 16).push(digit_char(n % 16))
    }
}

/// Appends the digit of value `d`.
fn push_digit(out: &mut String, d: usize)
    requires
        d < 16,
    ensures
        final(out)@ == old(out)@.push(digit_char(d as nat)),
{
    proof {
        reveal_strlit("0123456789abcdef");
    }
    let piece = "0123456789abcdef".substring_char(d, d + 1);
    assert(piece@ =~= seq![digit_char(d as nat)]);
    out.append(piece);
}

/// Appends the decimal digits of `n`.
pub fn push_decimal(out: &mut String, n: u128)
    ensures
        final(out)@ == old(out)@ + decimal(n as nat),
    decreases n,
{
    let ghost start = out@;
    if n >= 10 {
        push_decimal(out, n / 10);
    }
    let d = (n % 10) as usize;
    push_digit(out, d);
    assert(out@ =~= start + decimal(n as nat));
}

/// Appends the lower-case hexadecimal digits of `n`.
pub fn push_hexadecimal(out: &mut String, n: u64)
    ensures
        final(out)@ == old(out)@ + hexadecimal(n as nat),
    decreases n,
{
    let ghost start = out@;
    if n >= 16 {
        push_hexadecimal(out, n / 16);
    }
    let d = (n % 16) as usize;
    push_digit(out, d);
    assert(out@ =~= start + hexadecimal(n as nat));
}

/// The decimal rendering of `n`.
pub fn decimal_string(n: u128) -> (r: String)
    ensures
        r@ == decimal(n as nat),
{
    let mut r = String::new();
    push_decimal(&mut r, n);
    assert(r@ =~= decimal(n as nat));
    r
}

// ---------------------------------------------------------------------------
// Paths
// ---------------------------------------------------------------------------

/// `name` placed in the directory `dir`, as `Path::join` does for a relative
/// `name`: a separator is put between them unless `dir` is empty or already
/// ends with one.
pub open spec fn path_join(dir: Seq<char>, name: Seq<char>) -> Seq<char> {
    if dir.len() == 0 || dir.last() == '/' {
        dir + name
    } else {
        dir + seq!['/'] + name
    }
}

/// The last component of a path: what follows its last separator.
pub open spec fn file_name(p: Seq<char>) -> Seq<char>
    decreases p.len(),
{
    if p.len() == 0 || p.last() == '/' {
        seq![]
    } else {
        file_name(p.drop_last()).push(p.last())
    }
}

/// `s` holds no separator.
pub open spec fn no_separator(s: Seq<char>) -> bool {
    forall|i: int| 0 <= i < s.len() ==> s[i] != '/'
}

/// Joining a name without separators makes it the last component.
pub proof fn lemma_file_name_of_join(dir: Seq<char>, name: Seq<char>)
    requires
        no_separator(name),
    ensures
        file_name(path_join(dir, name)) == name,
    decreases name.len(),
{
    let base = if dir.len() == 0 || dir.last() == '/' {
        dir
    } else {
        dir + seq!['/']
    };
    assert(path_join(dir, name) == base + name);
    if name.len() == 0 {
        assert(base + name =~= base);
        if base.len() > 0 {
            assert(base.last() == '/');
        }
    } else {
        let init = name.drop_last();
        lemma_file_name_of_join(dir, init);
        assert(path_join(dir, init) == base + init);
        assert((base + name).drop_last() =~= base + init);
        assert(name =~= init.push(name.last()));
    }
}

/// `name` placed in the directory `dir`.
pub fn join_path(dir: &str, name: &str) -> (r: String)
    ensures
        r@ == path_join(dir@, name@),
{
    let n = dir.unicode_len();
    let mut r = String::from_str(dir);
    if n == 0 || dir.get_char(n - 1) == '/' {
        r.append(name);
    } else {
        r.append("/");
        proof {
            reveal_strlit("/");
        }
        r.append(name);
        assert(r@ =~= path_join(dir@, name@));
    }
    r
}

} // verus!
