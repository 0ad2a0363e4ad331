//! Character-level text primitives shared by the feed parser and the digest formatter.

use vstd::prelude::*;

verus! {

/// Unicode `White_Space`, the property that `char::is_whitespace` tests.
pub open spec fn is_ws(c: char) -> bool {
    ||| c == ' '
    ||| ('\u{9}' <= c && c <= '\u{d}')
    ||| c == '\u{85}'
    ||| c == '\u{a0}'
    ||| c == '\u{1680}'
    ||| ('\u{2000}' <= c && c <= '\u{200a}')
    ||| c == '\u{2028}'
    ||| c == '\u{2029}'
    ||| c == '\u{202f}'
    ||| c == '\u{205f}'
    ||| c == '\u{3000}'
}

/// Whether `c` is white space.
pub fn is_whitespace_char(c: char) -> (r: bool)
    ensures
        r == is_ws(c),
{
    c == ' ' || ('\u{9}' <= c && c <= '\u{d}') || c == '\u{85}' || c == '\u{a0}' || c
        == '\u{1680}' || ('\u{2000}' <= c && c <= '\u{200a}') || c == '\u{2028}' || c
        == '\u{2029}' || c == '\u{202f}' || c == '\u{205f}' || c == '\u{3000}'
}

/// The characters of `s`, in order.
pub fn chars_of(s: &str) -> (v: Vec<char>)
    ensures
        v@ == s@,
{
    let mut v: Vec<char> = Vec::new();
    for c in it: s.chars()
        invariant
            v@ == it.seq().take(it.index() as int),
    {
        v.push(c);
    }
    v
}

/// Builds a `String` from its characters.
#[verifier::external_body]
fn string_from_chars(v: &[char]) -> (s: String)
    ensures
        s@ == v@,
{
    v.iter().collect()
}


/// `p` occurs in `s` starting at index `i`.
pub open spec fn occurs_at(s: Seq<char>, p: Seq<char>, i: int) -> bool {
    0 <= i && i + p.len() <= s.len() && s.subrange(i, i + p.len()) == p
}

/// The first index at or after `from` where `p` occurs in `s`, as `str::find` reports it.
pub open spec fn find_from(s: Seq<char>, p: Seq<char>, from: int) -> Option<int>
    decreases s.len() + 1 - from,
{
    if from < 0 || from + p.len() > s.len() {
        None
    } else if occurs_at(s, p, from) {
        Some(from)
    } else {
        find_from(s, p, from + 1)
    }
}

/// `p` occurs somewhere in `s`, as `str::contains` reports it.
pub open spec fn contains_seq(s: Seq<char>, p: Seq<char>) -> bool {
    find_from(s, p, 0) is Some
}

/// What `find_from` returns: the first occurrence at or after `from`, or none at all.
pub proof fn lemma_find_from(s: Seq<char>, p: Seq<char>, from: int)
    requires
        0 <= from,
    ensures
        find_from(s, p, from) matches Some(k) ==> {
            &&& from <= k
            &&& occurs_at(s, p, k)
            &&& forall|j: int| from <= j < k ==> !occurs_at(s, p, j)
        },
        find_from(s, p, from) is None ==> forall|j: int| from <= j ==> !occurs_at(s, p, j),
    decreases s.len() + 1 - from,
{
    if from + p.len() > s.len() {
    } else if occurs_at(s, p, from) {
    } else {
        lemma_find_from(s, p, from + 1);
    }
}

/// Whether `p` occurs in `s` at index `i`.
fn matches_at(s: &[char], p: &[char], i: usize) -> (r: bool)
    requires
        i <= s@.len(),
    ensures
        r == occurs_at(s@, p@, i as int),
{
    if p.len() > s.len() - i {
        return false;
    }
    let mut k: usize = 0;
    while k < p.len()
        invariant
            i + p@.len() <= s@.len(),
            s@.len() == s.len(),
            k <= p@.len(),
            forall|j: int| 0 <= j < k ==> s@[i + j] == p@[j],
        decreases p@.len() - k,
    {
        if s[i + k] != p[k] {
            assert(s@.subrange(i as int, i + p@.len())[k as int] != p@[k as int]);
            return false;
        }
        k = k + 1;
    }
    assert(s@.subrange(i as int, i + p@.len()) =~= p@);
    true
}

/// The first index at or after `from` where `p` occurs in `s`.
pub fn find_in(s: &[char], p: &[char], from: usize) -> (r: Option<usize>)
    ensures
        r matches Some(k) ==> find_from(s@, p@, from as int) == Some(k as int),
        r is None ==> find_from(s@, p@, from as int) is None,
{
    proof {
        lemma_find_from(s@, p@, from as int);
    }
    if from > s.len() {
        return None;
    }
    let mut i: usize = from;
    loop
        invariant
            from <= i <= s@.len(),
            from <= s@.len(),
            forall|j: int| from <= j < i ==> !occurs_at(s@, p@, j),
            find_from(s@, p@, from as int) matches Some(k) ==> {
                &&& from <= k
                &&& occurs_at(s@, p@, k)
                &&& forall|j: int| from <= j < k ==> !occurs_at(s@, p@, j)
            },
            find_from(s@, p@, from as int) is None ==> forall|j: int|
                from <= j ==> !occurs_at(s@, p@, j),
        decreases s@.len() + 1 - i,
    {
        if matches_at(s, p, i) {
            return Some(i);
        }
        if i == s.len() {
            return None;
        }
        i = i + 1;
    }
}


/// Appends the characters of `s` to `out`.
pub fn append_chars(out: &mut Vec<char>, s: &[char])
    ensures
        final(out)@ == old(out)@ + s@,
{
    let mut i: usize = 0;
    while i < s.len()
        invariant
            i <= s@.len(),
            out@ == old(out)@ + s@.subrange(0, i as int),
        decreases s@.len() - i,
    {
        out.push(s[i]);
        i = i + 1;
        assert(out@ =~= old(out)@ + s@.subrange(0, i as int));
    }
    assert(s@.subrange(0, s@.len() as int) =~= s@);
}

/// Appends the characters of `s` to `out`.
pub fn append_str(out: &mut Vec<char>, s: &str)
    ensures
        final(out)@ == old(out)@ + s@,
{
    let v = chars_of(s);
    append_chars(out, v.as_slice());
}

/// The characters `s[a..b]` as a new vector.
pub fn sub_chars(s: &[char], a: usize, b: usize) -> (v: Vec<char>)
    requires
        a <= b <= s@.len(),
    ensures
        v@ == s@.subrange(a as int, b as int),
{
    let mut v: Vec<char> = Vec::new();
    let mut i: usize = a;
    while i < b
        invariant
            a <= i <= b,
            b <= s@.len(),
            v@ == s@.subrange(a as int, i as int),
        decreases b - i,
    {
        v.push(s[i]);
        i = i + 1;
        assert(v@ =~= s@.subrange(a as int, i as int));
    }
    v
}

/// `s` without leading white space, as `str::trim_start` gives it.
pub open spec fn trim_start(s: Seq<char>) -> Seq<char>
    decreases s.len(),
{
    if s.len() > 0 && is_ws(s[0]) {
        trim_start(s.skip(1))
    } else {
        s
    }
}

/// `s` without trailing white space, as `str::trim_end` gives it.
pub open spec fn trim_end(s: Seq<char>) -> Seq<char>
    decreases s.len(),
{
    if s.len() > 0 && is_ws(s.last()) {
        trim_end(s.drop_last())
    } else {
        s
    }
}

/// `s` without leading and trailing white space, as `str::trim` gives it.
pub open spec fn trim(s: Seq<char>) -> Seq<char> {
    trim_end(trim_start(s))
}

/// The bounds `(a, b)` of the trimmed part of `s`.
pub fn trim_range(s: &[char]) -> (r: (usize, usize))
    ensures
        r.0 <= r.1 <= s@.len(),
        s@.subrange(r.0 as int, r.1 as int) == trim(s@),
{
    let mut a: usize = 0;
    assert(s@.skip(0) =~= s@);
    while a < s.len() && is_whitespace_char(s[a])
        invariant
            a <= s@.len(),
            trim_start(s@) == trim_start(s@.skip(a as int)),
        decreases s@.len() - a,
    {
        assert(s@.skip(a as int).skip(1) =~= s@.skip(a + 1));
        a = a + 1;
    }
    let ghost t = s@.skip(a as int);
    assert(trim_start(s@) == t);
    let mut b: usize = s.len();
    assert(t.take((b - a) as int) =~= t);
    while b > a && is_whitespace_char(s[b - 1])
        invariant
            a <= b <= s@.len(),
            t == s@.skip(a as int),
            trim_end(t) == trim_end(t.take((b - a) as int)),
        decreases b,
    {
        assert(t.take((b - a) as int).drop_last() =~= t.take((b - 1 - a) as int));
        b = b - 1;
    }
    assert(t.take((b - a) as int) =~= s@.subrange(a as int, b as int));
    (a, b)
}

/// The trimmed characters of `s`.
pub fn trim_chars(s: &[char]) -> (v: Vec<char>)
    ensures
        v@ == trim(s@),
{
    let (a, b) = trim_range(s);
    sub_chars(s, a, b)
}

/// The trimmed characters of `s`.
pub fn trim_str(s: &str) -> (v: Vec<char>)
    ensures
        v@ == trim(s@),
{
    let c = chars_of(s);
    trim_chars(c.as_slice())
}


/// `s` with every non-overlapping occurrence of `from`, scanning left to right, replaced by
/// `to`, as `str::replace` gives it for a non-empty pattern.
pub open spec fn replace_all(s: Seq<char>, from: Seq<char>, to: Seq<char>) -> Seq<char>
    decreases s.len(),
{
    if s.len() == 0 || from.len() == 0 {
        s
    } else if occurs_at(s, from, 0) {
        to + replace_all(s.skip(from.len() as int), from, to)
    } else {
        seq![s[0]] + replace_all(s.skip(1), from, to)
    }
}

proof fn lemma_occurs_skip(s: Seq<char>, p: Seq<char>, i: int)
    requires
        0 <= i <= s.len(),
    ensures
        occurs_at(s, p, i) == occurs_at(s.skip(i), p, 0),
{
    if i + p.len() <= s.len() {
        assert(s.skip(i).subrange(0, p.len() as int) =~= s.subrange(i, i + p.len()));
    }
}

/// `s` with every occurrence of `from` replaced by `to`.
pub fn replace_chars(s: &[char], from: &[char], to: &[char]) -> (v: Vec<char>)
    requires
        from@.len() > 0,
    ensures
        v@ == replace_all(s@, from@, to@),
{
    let mut out: Vec<char> = Vec::new();
    let mut i: usize = 0;
    assert(s@.skip(0) =~= s@);
    while i < s.len()
        invariant
            i <= s@.len(),
            from@.len() > 0,
            replace_all(s@, from@, to@) == out@ + replace_all(s@.skip(i as int), from@, to@),
        decreases s@.len() - i,
    {
        proof {
            lemma_occurs_skip(s@, from@, i as int);
        }
        if matches_at(s, from, i) {
            append_chars(&mut out, to);
            assert(s@.skip(i as int).skip(from@.len() as int) =~= s@.skip(i + from@.len()));
            i = i + from.len();
        } else {
            out.push(s[i]);
            assert(s@.skip(i as int).skip(1) =~= s@.skip(i + 1));
            i = i + 1;
        }
    }
    assert(s@.skip(i as int).len() == 0);
    out
}

/// `s` with every occurrence of `from` replaced by `to`.
pub fn replace_str(s: &[char], from: &str, to: &str) -> (v: Vec<char>)
    requires
        from@.len() > 0,
    ensures
        v@ == replace_all(s@, from@, to@),
{
    let f = chars_of(from);
    let t = chars_of(to);
    replace_chars(s, f.as_slice(), t.as_slice())
}

/// The length of the run of non-white-space characters that starts `s`.
pub open spec fn run_len(s: Seq<char>) -> nat
    decreases s.len(),
{
    if s.len() == 0 || is_ws(s[0]) {
        0
    } else {
        1 + run_len(s.skip(1))
    }
}

proof fn lemma_run_len(s: Seq<char>, m: int)
    requires
        0 <= m <= s.len(),
        forall|k: int| 0 <= k < m ==> !is_ws(#[trigger] s[k]),
        m == s.len() || is_ws(s[m]),
    ensures
        run_len(s) == m,
    decreases m,
{
    if m > 0 {
        lemma_run_len(s.skip(1), m - 1);
    }
}

pub proof fn lemma_run_len_bounds(s: Seq<char>)
    ensures
        run_len(s) <= s.len(),
        s.len() > 0 && !is_ws(s[0]) ==> run_len(s) >= 1,
        forall|k: int| 0 <= k < run_len(s) ==> !is_ws(#[trigger] s[k]),
    decreases s.len(),
{
    if s.len() > 0 && !is_ws(s[0]) {
        lemma_run_len_bounds(s.skip(1));
        assert forall|k: int| 0 <= k < run_len(s) implies !is_ws(#[trigger] s[k]) by {
            if k > 0 {
                assert(s[k] == s.skip(1)[k - 1]);
            }
        }
    }
}

/// The words of `s`: its maximal runs of non-white-space characters, in order, as
/// `str::split_whitespace` yields them.
pub open spec fn words(s: Seq<char>) -> Seq<Seq<char>>
    decreases s.len(),
{
    if s.len() == 0 {
        seq![]
    } else if is_ws(s[0]) {
        words(s.skip(1))
    } else {
        proof {
            lemma_run_len_bounds(s);
        }
        seq![s.take(run_len(s) as int)] + words(s.skip(run_len(s) as int))
    }
}

/// The pieces of `list` with `sep` between each two neighbours, as `join` gives it.
pub open spec fn join(list: Seq<Seq<char>>, sep: Seq<char>) -> Seq<char>
    decreases list.len(),
{
    if list.len() == 0 {
        seq![]
    } else if list.len() == 1 {
        list[0]
    } else {
        join(list.drop_last(), sep) + sep + list.last()
    }
}

/// Joining one more piece adds the separator (if anything came before) and the piece.
pub proof fn lemma_join_push(list: Seq<Seq<char>>, sep: Seq<char>, w: Seq<char>)
    ensures
        join(list.push(w), sep) == join(list, sep) + (if list.len() > 0 {
            sep
        } else {
            seq![]
        }) + w,
{
    assert(list.push(w).drop_last() =~= list);
    if list.len() == 0 {
        assert(join(list, sep) + seq![] + w =~= w);
    }
}

/// The words of `s` joined by single spaces: `s.split_whitespace().collect::<Vec<_>>().join(" ")`.
pub open spec fn collapse_ws(s: Seq<char>) -> Seq<char> {
    join(words(s), seq![' '])
}

/// The words of `s` joined by single spaces.
pub fn collapse_whitespace(s: &[char]) -> (v: Vec<char>)
    ensures
        v@ == collapse_ws(s@),
{
    let mut out: Vec<char> = Vec::new();
    let ghost mut done: Seq<Seq<char>> = seq![];
    let mut any = false;
    let mut i: usize = 0;
    let n = s.len();
    assert(s@.skip(0) =~= s@);
    while i < n
        invariant
            i <= n == s@.len(),
            any == (done.len() > 0),
            out@ == join(done, seq![' ']),
            words(s@) == done + words(s@.skip(i as int)),
        decreases n - i,
    {
        if is_whitespace_char(s[i]) {
            assert(s@.skip(i as int).skip(1) =~= s@.skip(i + 1));
            i = i + 1;
        } else {
            let start = i;
            while i < n && !is_whitespace_char(s[i])
                invariant
                    start <= i <= n == s@.len(),
                    forall|k: int| start <= k < i ==> !is_ws(#[trigger] s@[k]),
                decreases n - i,
            {
                i = i + 1;
            }
            let ghost t = s@.skip(start as int);
            proof {
                assert forall|k: int| 0 <= k < i - start implies !is_ws(#[trigger] t[k]) by {
                    assert(t[k] == s@[start + k]);
                }
                lemma_run_len(t, i - start);
                assert(t.take(i - start) =~= s@.subrange(start as int, i as int));
                assert(t.skip(i - start) =~= s@.skip(i as int));
                lemma_join_push(done, seq![' '], s@.subrange(start as int, i as int));
            }
            if any {
                out.push(' ');
            }
            any = true;
            let w = sub_chars(s, start, i);
            append_chars(&mut out, w.as_slice());
            proof {
                done = done.push(s@.subrange(start as int, i as int));
            }
            assert(words(s@) =~= done + words(s@.skip(i as int)));
        }
    }
    assert(s@.skip(n as int) =~= Seq::<char>::empty());
    assert(done + words(s@.skip(n as int)) =~= done);
    out
}


/// `s` with every leading repetition of `p` removed, as `str::trim_start_matches` gives it.
pub open spec fn strip_prefix_all(s: Seq<char>, p: Seq<char>) -> Seq<char>
    decreases s.len(),
{
    if p.len() > 0 && occurs_at(s, p, 0) {
        strip_prefix_all(s.skip(p.len() as int), p)
    } else {
        s
    }
}

/// `s` with every trailing repetition of `p` removed, as `str::trim_end_matches` gives it.
pub open spec fn strip_suffix_all(s: Seq<char>, p: Seq<char>) -> Seq<char>
    decreases s.len(),
{
    if p.len() > 0 && occurs_at(s, p, s.len() - p.len()) {
        strip_suffix_all(s.take(s.len() - p.len()), p)
    } else {
        s
    }
}

/// The characters of `s` with every leading repetition of `p` removed.
pub fn strip_prefix_chars(s: &[char], p: &[char]) -> (v: Vec<char>)
    ensures
        v@ == strip_prefix_all(s@, p@),
{
    let mut i: usize = 0;
    assert(s@.skip(0) =~= s@);
    while p.len() > 0 && matches_at(s, p, i)
        invariant
            i <= s@.len(),
            s@.len() == s.len(),
            strip_prefix_all(s@, p@) == strip_prefix_all(s@.skip(i as int), p@),
        decreases s@.len() - i,
    {
        proof {
            lemma_occurs_skip(s@, p@, i as int);
        }
        assert(s@.skip(i as int).skip(p@.len() as int) =~= s@.skip(i + p@.len()));
        i = i + p.len();
    }
    proof {
        lemma_occurs_skip(s@, p@, i as int);
    }
    assert(s@.skip(i as int) =~= s@.subrange(i as int, s@.len() as int));
    sub_chars(s, i, s.len())
}

/// The characters of `s` with every trailing repetition of `p` removed.
pub fn strip_suffix_chars(s: &[char], p: &[char]) -> (v: Vec<char>)
    ensures
        v@ == strip_suffix_all(s@, p@),
{
    let mut j: usize = s.len();
    assert(s@.take(j as int) =~= s@);
    while p.len() > 0 && p.len() <= j && matches_at(s, p, j - p.len())
        invariant
            j <= s@.len(),
            strip_suffix_all(s@, p@) == strip_suffix_all(s@.take(j as int), p@),
        decreases j,
    {
        assert(s@.take(j as int).subrange(j - p@.len(), j as int) =~= s@.subrange(
            j - p@.len(),
            j as int,
        ));
        assert(s@.take(j as int).take(j - p@.len()) =~= s@.take(j - p@.len()));
        j = j - p.len();
    }
    proof {
        let t = s@.take(j as int);
        if p@.len() > 0 && p@.len() <= j {
            assert(t.subrange(j - p@.len(), j as int) =~= s@.subrange(j - p@.len(), j as int));
        }
    }
    assert(s@.take(j as int) =~= s@.subrange(0, j as int));
    sub_chars(s, 0, j)
}

/// The decimal numeral of `n`, as `format!("{}", n)` writes it.
pub open spec fn decimal(n: nat) -> Seq<char>
    decreases n,
{
    if n < 10 {
        seq![digit_char(n)]
    } else {
        decimal(n / 10) + seq![digit_char(n % 10)]
    }
}

/// The character of the decimal digit `d`.
pub open spec fn digit_char(d: nat) -> char {
    if d == 0 {
        '0'
    } else if d == 1 {
        '1'
    } else if d == 2 {
        '2'
    } else if d == 3 {
        '3'
    } else if d == 4 {
        '4'
    } else if d == 5 {
        '5'
    } else if d == 6 {
        '6'
    } else if d == 7 {
        '7'
    } else if d == 8 {
        '8'
    } else {
        '9'
    }
}

fn digit(d: u64) -> (c: char)
    requires
        d < 10,
    ensures
        c == digit_char(d as nat),
{
    if d == 0 {
        '0'
    } else if d == 1 {
        '1'
    } else if d == 2 {
        '2'
    } else if d == 3 {
        '3'
    } else if d == 4 {
        '4'
    } else if d == 5 {
        '5'
    } else if d == 6 {
        '6'
    } else if d == 7 {
        '7'
    } else if d == 8 {
        '8'
    } else {
        '9'
    }
}

/// Appends the decimal numeral of `n` to `out`.
pub fn append_decimal(out: &mut Vec<char>, n: u64)
    ensures
        final(out)@ == old(out)@ + decimal(n as nat),
    decreases n,
{
    if n < 10 {
        out.push(digit(n));
    } else {
        append_decimal(out, n / 10);
        out.push(digit(n % 10));
        assert(final(out)@ =~= old(out)@ + decimal(n as nat));
    }
}

/// The characters as a `String`.
pub fn to_string(v: &Vec<char>) -> (s: String)
    ensures
        s@ == v@,
{
    string_from_chars(v.as_slice())
}

/// The text of the string, where there is one.
pub open spec fn option_view(value: Option<String>) -> Option<Seq<char>> {
    match value {
        Some(v) => Some(v@),
        None => None,
    }
}

/// The character sequences that the strings hold.
pub open spec fn string_views(v: Seq<String>) -> Seq<Seq<char>> {
    Seq::new(v.len(), |i: int| v[i]@)
}

/// The character sequences that the vectors hold.
pub open spec fn char_views(v: Seq<Vec<char>>) -> Seq<Seq<char>> {
    Seq::new(v.len(), |i: int| v[i]@)
}

/// The vectors' characters as strings.
pub fn to_strings(v: &Vec<Vec<char>>) -> (r: Vec<String>)
    ensures
        string_views(r@) == char_views(v@),
{
    let mut out: Vec<String> = Vec::new();
    let mut i: usize = 0;
    while i < v.len()
        invariant
            i <= v@.len(),
            string_views(out@) == char_views(v@).take(i as int),
        decreases v@.len() - i,
    {
        let t = to_string(&v[i]);
        let ghost prev = string_views(out@);
        out.push(t);
        i = i + 1;
        assert(string_views(out@) =~= prev.push(v@[i - 1]@));
        assert(string_views(out@) =~= char_views(v@).take(i as int));
    }
    assert(char_views(v@).take(i as int) =~= char_views(v@));
    out
}


/// Whether the list holds the characters `key`.
pub fn contains_chars(list: &Vec<Vec<char>>, key: &[char]) -> (r: bool)
    ensures
        r == char_views(list@).contains(key@),
{
    let mut i: usize = 0;
    while i < list.len()
        invariant
            i <= list@.len(),
            forall|j: int| 0 <= j < i ==> list@[j]@ != key@,
        decreases list@.len() - i,
    {
        if chars_eq(list[i].as_slice(), key) {
            assert(char_views(list@)[i as int] == key@);
            return true;
        }
        i = i + 1;
    }
    assert forall|j: int| 0 <= j < char_views(list@).len() implies char_views(list@)[j]
        != key@ by {}
    false
}

/// The first `n` characters of `s`, or all of them where it has fewer:
/// `s.chars().take(n).collect::<String>()`.
pub open spec fn take_chars(s: Seq<char>, n: nat) -> Seq<char> {
    if s.len() <= n {
        s
    } else {
        s.take(n as int)
    }
}

/// Whether the two character sequences are the same.
pub fn chars_eq(a: &[char], b: &[char]) -> (r: bool)
    ensures
        r == (a@ == b@),
{
    if a.len() != b.len() {
        return false;
    }
    let mut i: usize = 0;
    while i < a.len()
        invariant
            i <= a@.len() == b@.len(),
            forall|k: int| 0 <= k < i ==> a@[k] == b@[k],
        decreases a@.len() - i,
    {
        if a[i] != b[i] {
            return false;
        }
        i = i + 1;
    }
    assert(a@ =~= b@);
    true
}

/// `c` with an ASCII capital letter made small.
pub open spec fn ascii_lower(c: char) -> char {
    if 'A' <= c && c <= 'Z' {
        ((c as u32) + 32) as char
    } else {
        c
    }
}

/// The characters of `s` with their ASCII capitals made small, as `str::to_ascii_lowercase`
/// gives them.
pub open spec fn ascii_lowercase(s: Seq<char>) -> Seq<char> {
    s.map_values(|c: char| ascii_lower(c))
}

fn lower_char(c: char) -> (r: char)
    ensures
        r == ascii_lower(c),
{
    if 'A' <= c && c <= 'Z' {
        let b: u8 = c as u8;
        (b + 32) as char
    } else {
        c
    }
}

/// The characters of `s` with their ASCII capitals made small.
pub fn ascii_lowercase_chars(s: &[char]) -> (v: Vec<char>)
    ensures
        v@ == ascii_lowercase(s@),
{
    let mut v: Vec<char> = Vec::new();
    let mut i: usize = 0;
    while i < s.len()
        invariant
            i <= s@.len(),
            v@ == ascii_lowercase(s@.take(i as int)),
        decreases s@.len() - i,
    {
        v.push(lower_char(s[i]));
        i = i + 1;
        assert(v@ =~= ascii_lowercase(s@.take(i as int)));
    }
    assert(s@.take(i as int) =~= s@);
    v
}


/// The present values, in order.
pub open spec fn keep_some<T>(s: Seq<Option<T>>) -> Seq<T>
    decreases s.len(),
{
    if s.len() == 0 {
        seq![]
    } else {
        keep_some(s.drop_last()) + match s.last() {
            Some(x) => seq![x],
            None => seq![],
        }
    }
}

/// The first `n` elements of `s`, or all of them where it has fewer: `iter().take(n)`.
pub open spec fn take_first<T>(s: Seq<T>, n: nat) -> Seq<T> {
    if s.len() <= n {
        s
    } else {
        s.take(n as int)
    }
}

/// The pieces joined with `sep` between each two neighbours.
pub fn join_chars(list: &Vec<Vec<char>>, sep: &[char]) -> (v: Vec<char>)
    ensures
        v@ == join(char_views(list@), sep@),
{
    let mut out: Vec<char> = Vec::new();
    let mut i: usize = 0;
    while i < list.len()
        invariant
            i <= list@.len(),
            out@ == join(char_views(list@).take(i as int), sep@),
        decreases list@.len() - i,
    {
        proof {
            lemma_join_push(char_views(list@).take(i as int), sep@, list@[i as int]@);
            assert(char_views(list@).take(i as int).push(list@[i as int]@) =~= char_views(
                list@,
            ).take(i + 1));
        }
        if i > 0 {
            append_chars(&mut out, sep);
        }
        append_chars(&mut out, list[i].as_slice());
        i = i + 1;
    }
    assert(char_views(list@).take(i as int) =~= char_views(list@));
    out
}


/// Text whose only white space is single spaces between non-white-space characters: no
/// white space at either end, none twice in a row, and no other white space character.
pub open spec fn single_spaced(r: Seq<char>) -> bool {
    forall|i: int|
        0 <= i < r.len() && is_ws(#[trigger] r[i]) ==> r[i] == ' ' && 0 < i && i + 1 < r.len()
            && !is_ws(r[i + 1])
}

/// A piece with at least one character and no white space.
pub open spec fn is_word(w: Seq<char>) -> bool {
    w.len() > 0 && forall|k: int| 0 <= k < w.len() ==> !is_ws(#[trigger] w[k])
}

/// Every word is non-empty and free of white space.
pub proof fn lemma_words_are_words(s: Seq<char>)
    ensures
        forall|j: int| 0 <= j < words(s).len() ==> is_word(#[trigger] words(s)[j]),
    decreases s.len(),
{
    if s.len() == 0 {
    } else if is_ws(s[0]) {
        lemma_words_are_words(s.skip(1));
        assert(words(s) == words(s.skip(1)));
    } else {
        lemma_run_len_bounds(s);
        let n = run_len(s) as int;
        lemma_words_are_words(s.skip(n));
        let w = s.take(n);
        assert(words(s) == seq![w] + words(s.skip(n)));
        assert forall|k: int| 0 <= k < w.len() implies !is_ws(#[trigger] w[k]) by {
            assert(w[k] == s[k]);
        }
        assert forall|j: int| 0 <= j < words(s).len() implies is_word(#[trigger] words(s)[j]) by {
            if j > 0 {
                assert(words(s)[j] == words(s.skip(n))[j - 1]);
            } else {
                assert(words(s)[j] == w);
            }
        }
    }
}

/// Words joined by single spaces are single-spaced, and end in a character of the last word.
pub proof fn lemma_join_words_single_spaced(list: Seq<Seq<char>>)
    requires
        forall|j: int| 0 <= j < list.len() ==> is_word(#[trigger] list[j]),
    ensures
        single_spaced(join(list, seq![' '])),
        list.len() > 0 ==> join(list, seq![' ']).len() > 0 && !is_ws(join(list, seq![' ']).last()),
    decreases list.len(),
{
    if list.len() == 0 {
    } else if list.len() == 1 {
        assert(is_word(list[0]));
        let w = list[0];
        assert(w.last() == w[w.len() - 1]);
    } else {
        let init = list.drop_last();
        let w = list.last();
        assert(is_word(list[list.len() - 1]));
        assert forall|j: int| 0 <= j < init.len() implies is_word(#[trigger] init[j]) by {
            assert(init[j] == list[j]);
        }
        lemma_join_words_single_spaced(init);
        let a = join(init, seq![' ']);
        let r = join(list, seq![' ']);
        assert(r == a + seq![' '] + w);
        assert forall|i: int| 0 <= i < r.len() && is_ws(#[trigger] r[i]) implies r[i] == ' ' && 0
            < i && i + 1 < r.len() && !is_ws(r[i + 1]) by {
            if i < a.len() {
                assert(r[i] == a[i]);
                if i + 1 < a.len() {
                    assert(r[i + 1] == a[i + 1]);
                } else {
                    assert(a[i] == a.last());
                }
            } else if i == a.len() {
                assert(r[i + 1] == w[0]);
            } else {
                assert(r[i] == w[i - a.len() - 1]);
            }
        }
        assert(r.last() == w[w.len() - 1]);
    }
}

/// Collapsed text is single-spaced.
pub proof fn lemma_collapse_ws_single_spaced(s: Seq<char>)
    ensures
        single_spaced(collapse_ws(s)),
{
    lemma_words_are_words(s);
    lemma_join_words_single_spaced(words(s));
}


/// `p` occurs somewhere in `s`.
pub open spec fn occurs_in(s: Seq<char>, p: Seq<char>) -> bool {
    exists|k: int| occurs_at(s, p, k)
}

/// What occurs in a piece occurs in any text that the piece stands in.
pub proof fn lemma_occurs_within(a: Seq<char>, b: Seq<char>, c: Seq<char>, p: Seq<char>, k: int)
    requires
        occurs_at(b, p, k),
    ensures
        occurs_at(a + b + c, p, a.len() + k),
{
    assert((a + b + c).subrange(a.len() + k, a.len() + k + p.len()) =~= b.subrange(
        k,
        k + p.len(),
    ));
}

/// Each piece that is joined occurs in the joined text.
pub proof fn lemma_join_holds_each(list: Seq<Seq<char>>, sep: Seq<char>, i: int)
    requires
        0 <= i < list.len(),
    ensures
        exists|k: int| #[trigger] occurs_at(join(list, sep), list[i], k),
    decreases list.len(),
{
    if list.len() == 1 {
        assert(join(list, sep).subrange(0, list[0].len() as int) =~= list[0]);
        assert(occurs_at(join(list, sep), list[i], 0));
    } else {
        let init = list.drop_last();
        let j0 = join(init, sep);
        assert(join(list, sep) == j0 + sep + list.last());
        if i == list.len() - 1 {
            let k: int = (j0.len() + sep.len()) as int;
            assert((j0 + sep + list.last()).subrange(k, k + list.last().len() as int) =~= list.last());
            assert(occurs_at(join(list, sep), list[i], k));
        } else {
            lemma_join_holds_each(init, sep, i);
            let k = choose|k: int| occurs_at(j0, init[i], k);
            lemma_occurs_within(seq![], j0, sep + list.last(), init[i], k);
            assert(seq![] + j0 + (sep + list.last()) =~= j0 + sep + list.last());
            assert(init[i] == list[i]);
            assert(occurs_at(join(list, sep), list[i], k));
        }
    }
}

/// A part of a text without the character `c` holds none either.
pub proof fn lemma_subrange_free(s: Seq<char>, a: int, b: int, c: char)
    requires
        0 <= a <= b <= s.len(),
        !s.contains(c),
    ensures
        !s.subrange(a, b).contains(c),
{
    assert forall|i: int| 0 <= i < b - a implies s.subrange(a, b)[i] != c by {
        assert(s.subrange(a, b)[i] == s[a + i]);
    }
}

/// Two texts without the character `c` run together hold none either.
pub proof fn lemma_concat_free(x: Seq<char>, y: Seq<char>, c: char)
    requires
        !x.contains(c),
        !y.contains(c),
    ensures
        !(x + y).contains(c),
{
    assert forall|i: int| 0 <= i < (x + y).len() implies (x + y)[i] != c by {
        if i < x.len() {
            assert((x + y)[i] == x[i]);
        } else {
            assert((x + y)[i] == y[i - x.len()]);
        }
    }
}

/// Trimming brings in no character.
pub proof fn lemma_trim_free(s: Seq<char>, c: char)
    requires
        !s.contains(c),
    ensures
        !trim_start(s).contains(c),
        !trim(s).contains(c),
{
    lemma_trim_start_free(s, c);
    lemma_trim_end_free(trim_start(s), c);
}

proof fn lemma_trim_start_free(s: Seq<char>, c: char)
    requires
        !s.contains(c),
    ensures
        !trim_start(s).contains(c),
    decreases s.len(),
{
    if s.len() > 0 && is_ws(s[0]) {
        lemma_subrange_free(s, 1, s.len() as int, c);
        assert(s.skip(1) =~= s.subrange(1, s.len() as int));
        lemma_trim_start_free(s.skip(1), c);
    }
}

proof fn lemma_trim_end_free(s: Seq<char>, c: char)
    requires
        !s.contains(c),
    ensures
        !trim_end(s).contains(c),
    decreases s.len(),
{
    if s.len() > 0 && is_ws(s.last()) {
        lemma_subrange_free(s, 0, s.len() - 1, c);
        assert(s.drop_last() =~= s.subrange(0, s.len() - 1));
        lemma_trim_end_free(s.drop_last(), c);
    }
}

/// `keep_some` of two sequences run together is what it keeps of each, in turn.
pub proof fn lemma_keep_some_append<T>(a: Seq<Option<T>>, b: Seq<Option<T>>)
    ensures
        keep_some(a + b) == keep_some(a) + keep_some(b),
    decreases b.len(),
{
    if b.len() == 0 {
        assert(a + b =~= a);
        assert(keep_some(a) + keep_some(b) =~= keep_some(a));
    } else {
        lemma_keep_some_append(a, b.drop_last());
        assert((a + b).drop_last() =~= a + b.drop_last());
        assert((a + b).last() == b.last());
    }
}

/// Each value that `keep_some` keeps stands in `s`.
pub proof fn lemma_keep_some_elements<T>(s: Seq<Option<T>>)
    ensures
        keep_some(s).len() <= s.len(),
        forall|j: int|
            0 <= j < keep_some(s).len() ==> exists|i: int|
                0 <= i < s.len() && s[i] == Some(#[trigger] keep_some(s)[j]),
    decreases s.len(),
{
    if s.len() > 0 {
        let init = s.drop_last();
        lemma_keep_some_elements(init);
        assert forall|j: int| 0 <= j < keep_some(s).len() implies exists|i: int|
            0 <= i < s.len() && s[i] == Some(#[trigger] keep_some(s)[j]) by {
            if j < keep_some(init).len() {
                assert(keep_some(s)[j] == keep_some(init)[j]);
                let i = choose|i: int| 0 <= i < init.len() && init[i] == Some(keep_some(init)[j]);
                assert(s[i] == init[i]);
            } else {
                assert(s[s.len() - 1] == Some(keep_some(s)[j]));
            }
        }
    }
}

/// Replacing a one-character pattern leaves no occurrence of it where the replacement holds
/// none, and brings in no character that neither the text nor the replacement holds.
pub proof fn lemma_replace_char_free(s: Seq<char>, c: char, to: Seq<char>, d: char)
    requires
        !to.contains(d),
        d == c || !s.contains(d),
    ensures
        !replace_all(s, seq![c], to).contains(d),
    decreases s.len(),
{
    if s.len() > 0 {
        let rest = s.skip(1);
        if d != c {
            assert forall|i: int| 0 <= i < rest.len() implies rest[i] != d by {
                assert(rest[i] == s[i + 1]);
            }
        }
        lemma_replace_char_free(rest, c, to, d);
        let r = replace_all(s, seq![c], to);
        if occurs_at(s, seq![c], 0) {
            assert(r == to + replace_all(rest, seq![c], to));
        } else {
            assert(s.subrange(0, 1) =~= seq![s[0]]);
            assert(s[0] != c);
            assert(r == seq![s[0]] + replace_all(rest, seq![c], to));
            if d != c {
                assert(s[0] != d);
            }
        }
        assert forall|i: int| 0 <= i < r.len() implies r[i] != d by {
            if occurs_at(s, seq![c], 0) {
                if i < to.len() {
                    assert(r[i] == to[i]);
                } else {
                    assert(r[i] == replace_all(rest, seq![c], to)[i - to.len()]);
                }
            } else {
                if i > 0 {
                    assert(r[i] == replace_all(rest, seq![c], to)[i - 1]);
                }
            }
        }
    }
}

} // verus!
