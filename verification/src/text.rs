//! Character-level helpers: whitespace, trimming, line splitting, tokens,
//! decimal numbers, and building strings from characters.
use vstd::prelude::*;

verus! {

/// Appends one character to a string by calling `String::push`, which std
/// documents as appending the given `char` to the end of the `String`. The
/// contract claims exactly that: the characters afterwards are the ones
/// before, followed by `c`.
#[verifier::external_body]
pub(crate) fn push_char(s: &mut String, c: char)
    ensures
        final(s)@ == old(s)@.push(c),
{
    s.push(c);
}

/// The characters of a string slice, in order.
pub fn chars_of(s: &str) -> (v: Vec<char>)
    ensures
        v@ == s@,
{
    broadcast use vstd::string::axiom_spec_iter;

    let mut v: Vec<char> = Vec::new();
    for c in it: s.chars()
        invariant
            v@ == it.seq().subrange(0, it.index() as int),
            it.seq() == s@,
    {
        v.push(c);
    }
    v
}

/// A string holding exactly the given characters.
pub fn string_of(v: &[char]) -> (s: String)
    ensures
        s@ == v@,
{
    let mut s = String::new();
    let mut i: usize = 0;
    while i < v.len()
        invariant
            i <= v.len(),
            s@ == v@.subrange(0, i as int),
        decreases v.len() - i,
    {
        push_char(&mut s, v[i]);
        i = i + 1;
    }
    s
}

/// Appends the given characters to a string.
pub fn push_chars(s: &mut String, v: &[char])
    ensures
        final(s)@ == old(s)@ + v@,
{
    let mut i: usize = 0;
    while i < v.len()
        invariant
            i <= v.len(),
            s@ == old(s)@ + v@.subrange(0, i as int),
        decreases v.len() - i,
    {
        push_char(s, v[i]);
        i = i + 1;
    }
}

/// Whether two character sequences are equal.
pub fn same_chars(a: &[char], b: &[char]) -> (r: bool)
    ensures
        r == (a@ == b@),
{
    if a.len() != b.len() {
        return false;
    }
    let mut i: usize = 0;
    while i < a.len()
        invariant
            a.len() == b.len(),
            i <= a.len(),
            forall|k: int| 0 <= k < i ==> a@[k] == b@[k],
        decreases a.len() - i,
    {
        if a[i] != b[i] {
            return false;
        }
        i = i + 1;
    }
    assert(a@ =~= b@);
    true
}

/// Whether `s` is the word `w`. Besides `s == w`, the first characters are
/// compared one by one, so that two different literal words are told apart
/// without a search for the position where they differ.
pub open spec fn word(s: Seq<char>, w: Seq<char>) -> bool {
    &&& s.len() == w.len()
    &&& (w.len() > 0 ==> s[0] == w[0])
    &&& (w.len() > 1 ==> s[1] == w[1])
    &&& (w.len() > 2 ==> s[2] == w[2])
    &&& (w.len() > 3 ==> s[3] == w[3])
    &&& s == w
}

pub fn is_word(v: &[char], w: &[char]) -> (r: bool)
    ensures
        r == word(v@, w@),
{
    same_chars(v, w)
}

/// A copy of `v[lo..hi]`.
pub fn copy_range(v: &[char], lo: usize, hi: usize) -> (r: Vec<char>)
    requires
        lo <= hi <= v.len(),
    ensures
        r@ == v@.subrange(lo as int, hi as int),
{
    let mut r: Vec<char> = Vec::new();
    let mut i = lo;
    while i < hi
        invariant
            lo <= i <= hi <= v.len(),
            r@ == v@.subrange(lo as int, i as int),
        decreases hi - i,
    {
        r.push(v[i]);
        i = i + 1;
    }
    r
}

// ---------------------------------------------------------------------
// Whitespace and trimming
// ---------------------------------------------------------------------

/// The Unicode `White_Space` property, as used by Rust's `char::is_whitespace`.
pub open spec fn is_ws(c: char) -> bool {
    let u = c as u32;
    ||| 9 <= u <= 13
    ||| u == 32
    ||| u == 0x85
    ||| u == 0xA0
    ||| u == 0x1680
    ||| 0x2000 <= u <= 0x200A
    ||| u == 0x2028
    ||| u == 0x2029
    ||| u == 0x202F
    ||| u == 0x205F
    ||| u == 0x3000
}

pub fn is_ws_char(c: char) -> (r: bool)
    ensures
        r == is_ws(c),
{
    let u = c as u32;
    (9 <= u && u <= 13) || u == 32 || u == 0x85 || u == 0xA0 || u == 0x1680 || (0x2000 <= u
        && u <= 0x200A) || u == 0x2028 || u == 0x2029 || u == 0x202F || u == 0x205F || u
        == 0x3000
}

/// `s` without trailing whitespace.
pub open spec fn trim_end(s: Seq<char>) -> Seq<char>
    decreases s.len(),
{
    if s.len() > 0 && is_ws(s.last()) {
        trim_end(s.drop_last())
    } else {
        s
    }
}

/// `s` without leading whitespace.
pub open spec fn trim_start(s: Seq<char>) -> Seq<char>
    decreases s.len(),
{
    if s.len() > 0 && is_ws(s[0]) {
        trim_start(s.drop_first())
    } else {
        s
    }
}

/// `s` without leading or trailing whitespace.
pub open spec fn trim(s: Seq<char>) -> Seq<char> {
    trim_start(trim_end(s))
}

pub fn trim_end_vec(v: &[char]) -> (r: Vec<char>)
    ensures
        r@ == trim_end(v@),
{
    let mut j = v.len();
    assert(v@.subrange(0, j as int) =~= v@);
    while j > 0 && is_ws_char(v[j - 1])
        invariant
            j <= v.len(),
            trim_end(v@) == trim_end(v@.subrange(0, j as int)),
        decreases j,
    {
        assert(v@.subrange(0, j as int).drop_last() =~= v@.subrange(0, j - 1));
        j = j - 1;
    }
    copy_range(v, 0, j)
}

pub fn trim_start_vec(v: &[char]) -> (r: Vec<char>)
    ensures
        r@ == trim_start(v@),
{
    let mut i: usize = 0;
    assert(v@.subrange(0, v.len() as int) =~= v@);
    while i < v.len() && is_ws_char(v[i])
        invariant
            i <= v.len(),
            trim_start(v@) == trim_start(v@.subrange(i as int, v.len() as int)),
        decreases v.len() - i,
    {
        assert(v@.subrange(i as int, v.len() as int).drop_first() =~= v@.subrange(
            i + 1,
            v.len() as int,
        ));
        i = i + 1;
    }
    copy_range(v, i, v.len())
}

pub fn trim_vec(v: &[char]) -> (r: Vec<char>)
    ensures
        r@ == trim(v@),
{
    let e = trim_end_vec(v);
    trim_start_vec(&e)
}

pub proof fn lemma_trim_end_prefix(s: Seq<char>)
    ensures
        trim_end(s).len() <= s.len(),
        trim_end(s) == s.subrange(0, trim_end(s).len() as int),
    decreases s.len(),
{
    if s.len() > 0 && is_ws(s.last()) {
        lemma_trim_end_prefix(s.drop_last());
        assert(s.drop_last().subrange(0, trim_end(s).len() as int) =~= s.subrange(
            0,
            trim_end(s).len() as int,
        ));
    } else {
        assert(s.subrange(0, s.len() as int) =~= s);
    }
}

// ---------------------------------------------------------------------
// Lines
// ---------------------------------------------------------------------

/// The index of the first `'\n'` at or after `i`, or `s.len()` when there is none.
pub open spec fn next_newline(s: Seq<char>, i: int) -> int
    decreases s.len() - i,
{
    if i >= s.len() {
        s.len() as int
    } else if s[i] == '\n' {
        i
    } else {
        next_newline(s, i + 1)
    }
}

/// A line that ended with a line feed loses one trailing carriage return.
pub open spec fn strip_cr(s: Seq<char>) -> Seq<char> {
    if s.len() > 0 && s.last() == '\r' {
        s.drop_last()
    } else {
        s
    }
}

/// The lines of `s` from index `i` on, as Rust's `str::lines` yields them.
pub open spec fn lines_from(s: Seq<char>, i: int) -> Seq<Seq<char>>
    decreases s.len() - i,
{
    if i < 0 || i >= s.len() {
        seq![]
    } else {
        let j = next_newline(s, i);
        if j < s.len() && j >= i {
            seq![strip_cr(s.subrange(i, j))] + lines_from(s, j + 1)
        } else {
            seq![s.subrange(i, s.len() as int)]
        }
    }
}

/// The lines of `s`, as Rust's `str::lines` yields them.
pub open spec fn lines(s: Seq<char>) -> Seq<Seq<char>> {
    lines_from(s, 0)
}

pub open spec fn views(v: Seq<Vec<char>>) -> Seq<Seq<char>> {
    v.map_values(|l: Vec<char>| l@)
}

proof fn lemma_next_newline_bounds(s: Seq<char>, i: int)
    requires
        0 <= i,
    ensures
        i <= next_newline(s, i) <= s.len() || (i > s.len() && next_newline(s, i) == s.len()),
        next_newline(s, i) < s.len() ==> s[next_newline(s, i)] == '\n',
    decreases s.len() - i,
{
    if i < s.len() && s[i] != '\n' {
        lemma_next_newline_bounds(s, i + 1);
    }
}

proof fn lemma_next_newline_before(s: Seq<char>, i: int, m: int)
    requires
        0 <= i <= m < s.len(),
        s[m] == '\n',
    ensures
        i <= next_newline(s, i) <= m,
    decreases m - i,
{
    if s[i] != '\n' {
        lemma_next_newline_before(s, i + 1, m);
    }
}

proof fn lemma_next_newline_append(a: Seq<char>, x: Seq<char>, i: int)
    requires
        0 <= i <= next_newline(a, i) < a.len(),
    ensures
        next_newline(a + x, i) == next_newline(a, i),
    decreases a.len() - i,
{
    if a[i] != '\n' {
        assert(next_newline(a, i) == next_newline(a, i + 1));
        lemma_next_newline_bounds(a, i + 1);
        assert((a + x)[i] == a[i]);
        lemma_next_newline_append(a, x, i + 1);
    }
}

proof fn lemma_next_newline_shift(p: Seq<char>, x: Seq<char>, k: int)
    requires
        0 <= k,
    ensures
        next_newline(p + x, p.len() + k) == p.len() + next_newline(x, k),
    decreases x.len() - k,
{
    if k < x.len() && x[k] != '\n' {
        lemma_next_newline_shift(p, x, k + 1);
    }
}

proof fn lemma_lines_shift(p: Seq<char>, x: Seq<char>, k: int)
    requires
        0 <= k,
    ensures
        lines_from(p + x, p.len() + k) == lines_from(x, k),
    decreases x.len() - k,
{
    if k < x.len() {
        lemma_next_newline_shift(p, x, k);
        lemma_next_newline_bounds(x, k);
        let j = next_newline(x, k);
        assert((p + x).subrange(p.len() + k, p.len() + j) =~= x.subrange(k, j));
        assert((p + x).subrange(p.len() + k, (p + x).len() as int) =~= x.subrange(k, x.len() as int));
        if j < x.len() {
            lemma_lines_shift(p, x, j + 1);
        }
    }
}

proof fn lemma_lines_append_from(a: Seq<char>, x: Seq<char>, i: int)
    requires
        0 <= i <= a.len(),
        a.len() > 0,
        a.last() == '\n',
    ensures
        lines_from(a + x, i) == lines_from(a, i) + lines(x),
    decreases a.len() - i,
{
    if i == a.len() {
        lemma_lines_shift(a, x, 0);
        assert(lines_from(a, i) + lines(x) =~= lines(x));
    } else {
        lemma_next_newline_before(a, i, a.len() - 1);
        lemma_next_newline_append(a, x, i);
        lemma_next_newline_bounds(a, i);
        let j = next_newline(a, i);
        assert((a + x).subrange(i, j) =~= a.subrange(i, j));
        lemma_lines_append_from(a, x, j + 1);
        assert(lines_from(a + x, i) =~= seq![strip_cr(a.subrange(i, j))] + (lines_from(a, j + 1)
            + lines(x)));
    }
}

/// Text that ends with a line feed keeps its lines when more text follows it.
pub proof fn lemma_lines_append(a: Seq<char>, x: Seq<char>)
    requires
        a.len() > 0,
        a.last() == '\n',
    ensures
        lines(a + x) == lines(a) + lines(x),
{
    lemma_lines_append_from(a, x, 0);
}

/// Every character of `s` is whitespace.
pub open spec fn all_ws(s: Seq<char>) -> bool {
    forall|i: int| 0 <= i < s.len() ==> is_ws(#[trigger] s[i])
}

proof fn lemma_trim_end_all_ws(s: Seq<char>)
    ensures
        all_ws(s) <==> trim_end(s).len() == 0,
        trim_end(s).len() > 0 ==> !is_ws(trim_end(s).last()),
    decreases s.len(),
{
    if s.len() > 0 && is_ws(s.last()) {
        lemma_trim_end_all_ws(s.drop_last());
        if all_ws(s.drop_last()) {
            assert forall|i: int| 0 <= i < s.len() implies is_ws(#[trigger] s[i]) by {
                if i < s.len() - 1 {
                    assert(s[i] == s.drop_last()[i]);
                }
            }
        }
        if all_ws(s) {
            assert forall|i: int| 0 <= i < s.drop_last().len() implies is_ws(
                #[trigger] s.drop_last()[i],
            ) by {
                assert(s[i] == s.drop_last()[i]);
            }
        }
    } else if s.len() > 0 {
        assert(!is_ws(s[s.len() - 1]));
    }
}

proof fn lemma_trim_start_all_ws(s: Seq<char>)
    ensures
        all_ws(s) <==> trim_start(s).len() == 0,
    decreases s.len(),
{
    if s.len() > 0 && is_ws(s[0]) {
        lemma_trim_start_all_ws(s.drop_first());
        if all_ws(s.drop_first()) {
            assert forall|i: int| 0 <= i < s.len() implies is_ws(#[trigger] s[i]) by {
                if i > 0 {
                    assert(s[i] == s.drop_first()[i - 1]);
                }
            }
        }
        if all_ws(s) {
            assert forall|i: int| 0 <= i < s.drop_first().len() implies is_ws(
                #[trigger] s.drop_first()[i],
            ) by {
                assert(s[i + 1] == s.drop_first()[i]);
            }
        }
    } else if s.len() > 0 {
        assert(!is_ws(s[0]));
    }
}

/// `s` trims to nothing exactly when every character of it is whitespace.
pub proof fn lemma_trim_empty(s: Seq<char>)
    ensures
        trim(s).len() == 0 <==> all_ws(s),
{
    lemma_trim_end_all_ws(s);
    let t = trim_end(s);
    lemma_trim_start_all_ws(t);
    if t.len() > 0 {
        assert(!is_ws(t[t.len() - 1]));
    }
}

pub fn split_lines(v: &[char]) -> (r: Vec<Vec<char>>)
    ensures
        views(r@) == lines(v@),
{
    let mut r: Vec<Vec<char>> = Vec::new();
    let mut i: usize = 0;
    while i < v.len()
        invariant
            i <= v.len(),
            views(r@) + lines_from(v@, i as int) == lines(v@),
        decreases v.len() - i,
    {
        let mut j = i;
        while j < v.len() && v[j] != '\n'
            invariant
                i <= j <= v.len(),
                next_newline(v@, i as int) == next_newline(v@, j as int),
            decreases v.len() - j,
        {
            j = j + 1;
        }
        proof {
            lemma_next_newline_bounds(v@, i as int);
        }
        let ghost old_r = r@;
        if j < v.len() {
            let mut line = copy_range(v, i, j);
            if line.len() > 0 && line[line.len() - 1] == '\r' {
                line.pop();
                assert(line@ =~= strip_cr(v@.subrange(i as int, j as int)));
            }
            r.push(line);
            assert(views(r@) =~= views(old_r).push(strip_cr(v@.subrange(i as int, j as int))));
            assert(views(r@) + lines_from(v@, j + 1) =~= views(old_r) + lines_from(v@, i as int));
            i = j + 1;
        } else {
            let line = copy_range(v, i, j);
            r.push(line);
            assert(views(r@) =~= views(old_r).push(v@.subrange(i as int, v.len() as int)));
            assert(lines_from(v@, v.len() as int) =~= seq![]);
            assert(views(r@) + lines_from(v@, v.len() as int) =~= views(old_r) + lines_from(
                v@,
                i as int,
            ));
            i = v.len();
        }
    }
    assert(lines_from(v@, i as int) =~= seq![]);
    assert(views(r@) =~= views(r@) + lines_from(v@, i as int));
    r
}

// ---------------------------------------------------------------------
// Searching and tokens
// ---------------------------------------------------------------------

/// The index of the first `c` at or after `i`, or `s.len()` when there is none.
pub open spec fn find_from(s: Seq<char>, c: char, i: int) -> int
    decreases s.len() - i,
{
    if i >= s.len() {
        s.len() as int
    } else if s[i] == c {
        i
    } else {
        find_from(s, c, i + 1)
    }
}

pub proof fn lemma_find_from(s: Seq<char>, c: char, i: int)
    requires
        0 <= i <= s.len(),
    ensures
        i <= find_from(s, c, i) <= s.len(),
        find_from(s, c, i) < s.len() ==> s[find_from(s, c, i)] == c,
        forall|k: int| i <= k < find_from(s, c, i) ==> s[k] != c,
    decreases s.len() - i,
{
    if i < s.len() && s[i] != c {
        lemma_find_from(s, c, i + 1);
    }
}

pub fn find_char(v: &[char], c: char, start: usize) -> (r: usize)
    requires
        start <= v.len(),
    ensures
        r as int == find_from(v@, c, start as int),
        start <= r <= v.len(),
{
    let mut j = start;
    while j < v.len() && v[j] != c
        invariant
            start <= j <= v.len(),
            find_from(v@, c, start as int) == find_from(v@, c, j as int),
        decreases v.len() - j,
    {
        j = j + 1;
    }
    j
}

/// Whether `s` contains `c`.
pub open spec fn has_char(s: Seq<char>, c: char) -> bool {
    find_from(s, c, 0) < s.len()
}

/// Whether `s` begins with `p`.
pub open spec fn starts_with(s: Seq<char>, p: Seq<char>) -> bool {
    s.len() >= p.len() && s.subrange(0, p.len() as int) == p
}

pub fn starts_with_chars(v: &[char], p: &[char]) -> (r: bool)
    ensures
        r == starts_with(v@, p@),
{
    if v.len() < p.len() {
        return false;
    }
    let mut i: usize = 0;
    while i < p.len()
        invariant
            p.len() <= v.len(),
            i <= p.len(),
            forall|k: int| 0 <= k < i ==> v@[k] == p@[k],
        decreases p.len() - i,
    {
        if v[i] != p[i] {
            assert(v@.subrange(0, p.len() as int)[i as int] != p@[i as int]);
            return false;
        }
        i = i + 1;
    }
    assert(v@.subrange(0, p.len() as int) =~= p@);
    true
}

/// The index just past the run of non-whitespace characters that starts at `i`.
pub open spec fn word_end(s: Seq<char>, i: int) -> int
    decreases s.len() - i,
{
    if i >= s.len() || is_ws(s[i]) {
        i
    } else {
        word_end(s, i + 1)
    }
}

pub proof fn lemma_word_end(s: Seq<char>, i: int)
    requires
        0 <= i <= s.len(),
    ensures
        i <= word_end(s, i) <= s.len(),
        word_end(s, i) < s.len() ==> is_ws(s[word_end(s, i)]),
        forall|k: int| i <= k < word_end(s, i) ==> !is_ws(#[trigger] s[k]),
    decreases s.len() - i,
{
    if i < s.len() && !is_ws(s[i]) {
        lemma_word_end(s, i + 1);
    }
}

/// The whitespace-separated words of `s` from index `i` on, each with the
/// index of its first character.
pub open spec fn words_from(s: Seq<char>, i: int) -> Seq<(int, Seq<char>)>
    decreases s.len() - i, 1int,
{
    if i < 0 || i >= s.len() {
        seq![]
    } else if is_ws(s[i]) {
        words_from(s, i + 1)
    } else {
        let j = word_end(s, i);
        if i < j <= s.len() {
            seq![(i, s.subrange(i, j))] + words_from(s, j)
        } else {
            seq![]
        }
    }
}

/// The whitespace-separated words of `s`, each with its starting index.
pub open spec fn words(s: Seq<char>) -> Seq<(int, Seq<char>)> {
    words_from(s, 0)
}

/// The first whitespace-separated word of `s`, or nothing when there is none.
pub open spec fn first_word(s: Seq<char>) -> Seq<char> {
    if words(s).len() > 0 {
        words(s)[0].1
    } else {
        seq![]
    }
}

/// The end of the word starting at `i`.
pub fn word_end_at(v: &[char], i: usize) -> (r: usize)
    requires
        i <= v.len(),
    ensures
        r as int == word_end(v@, i as int),
        i <= r <= v.len(),
{
    let mut j = i;
    while j < v.len() && !is_ws_char(v[j])
        invariant
            i <= j <= v.len(),
            word_end(v@, i as int) == word_end(v@, j as int),
        decreases v.len() - j,
    {
        j = j + 1;
    }
    j
}

pub open spec fn word_views(s: Seq<(usize, Vec<char>)>) -> Seq<(int, Seq<char>)> {
    s.map_values(|w: (usize, Vec<char>)| (w.0 as int, w.1@))
}

/// The whitespace-separated words of `v`, each with its starting index.
pub fn words_of(v: &[char]) -> (r: Vec<(usize, Vec<char>)>)
    ensures
        word_views(r@) == words(v@),
{
    let mut r: Vec<(usize, Vec<char>)> = Vec::new();
    let mut i: usize = 0;
    while i < v.len()
        invariant
            i <= v.len(),
            word_views(r@) + words_from(v@, i as int) == words(v@),
        decreases v.len() - i,
    {
        if is_ws_char(v[i]) {
            i = i + 1;
        } else {
            let j = word_end_at(v, i);
            proof {
                lemma_word_end(v@, i as int);
            }
            let ghost prev = r@;
            let w = copy_range(v, i, j);
            r.push((i, w));
            assert(word_views(r@) =~= word_views(prev).push((i as int, v@.subrange(i as int, j as int))));
            assert(word_views(r@) + words_from(v@, j as int) =~= word_views(prev) + words_from(v@, i as int));
            i = j;
        }
    }
    assert(words_from(v@, i as int) =~= seq![]);
    assert(word_views(r@) =~= word_views(r@) + words_from(v@, i as int));
    r
}

/// The first whitespace-separated word, or an empty vector.
pub fn first_word_of(v: &[char]) -> (r: Vec<char>)
    ensures
        r@ == first_word(v@),
{
    let mut i: usize = 0;
    while i < v.len() && is_ws_char(v[i])
        invariant
            i <= v.len(),
            words(v@) == words_from(v@, i as int),
        decreases v.len() - i,
    {
        i = i + 1;
    }
    if i == v.len() {
        assert(words_from(v@, i as int) =~= seq![]);
        return Vec::new();
    }
    let j = word_end_at(v, i);
    proof {
        lemma_word_end(v@, i as int);
    }
    copy_range(v, i, j)
}

// ---------------------------------------------------------------------
// Decimal numbers
// ---------------------------------------------------------------------

pub open spec fn is_digit(c: char) -> bool {
    48 <= (c as u32) <= 57
}

pub open spec fn digit_value(c: char) -> nat {
    ((c as u32) - 48) as nat
}

pub open spec fn all_digits(s: Seq<char>) -> bool {
    forall|i: int| 0 <= i < s.len() ==> is_digit(#[trigger] s[i])
}

/// The value of a string of decimal digits.
pub open spec fn digits_value(s: Seq<char>) -> nat
    decreases s.len(),
{
    if s.len() == 0 {
        0
    } else {
        digits_value(s.drop_last()) * 10 + digit_value(s.last())
    }
}

/// The digits after an optional leading sign character `sign`.
pub open spec fn unsigned_digits(s: Seq<char>) -> Seq<char> {
    if s.len() > 0 && s[0] == '+' {
        s.drop_first()
    } else {
        s
    }
}

/// What Rust's `str::parse` gives for an unsigned integer type whose largest
/// value is `max`: an optional `+`, then one or more decimal digits, with a
/// value no larger than `max`.
pub open spec fn parse_unsigned(s: Seq<char>, max: nat) -> Option<nat> {
    let d = unsigned_digits(s);
    if d.len() == 0 || !all_digits(d) || digits_value(d) > max {
        None
    } else {
        Some(digits_value(d))
    }
}

/// What Rust's `str::parse::<i16>` gives: an optional sign, then one or more
/// decimal digits, within `i16`'s range.
pub open spec fn parse_i16_spec(s: Seq<char>) -> Option<int> {
    let neg = s.len() > 0 && s[0] == '-';
    let d = if s.len() > 0 && (s[0] == '+' || s[0] == '-') {
        s.drop_first()
    } else {
        s
    };
    if d.len() == 0 || !all_digits(d) {
        None
    } else if neg {
        if digits_value(d) > 32768 {
            None
        } else {
            Some(-(digits_value(d) as int))
        }
    } else if digits_value(d) > 32767 {
        None
    } else {
        Some(digits_value(d) as int)
    }
}

pub proof fn lemma_digits_prefix(s: Seq<char>, k: int)
    requires
        all_digits(s),
        0 <= k <= s.len(),
    ensures
        digits_value(s.subrange(0, k)) <= digits_value(s),
    decreases s.len(),
{
    if k < s.len() {
        assert(s.drop_last().subrange(0, k) =~= s.subrange(0, k));
        assert(all_digits(s.drop_last())) by {
            assert forall|i: int| 0 <= i < s.drop_last().len() implies is_digit(
                #[trigger] s.drop_last()[i],
            ) by {
                assert(s.drop_last()[i] == s[i]);
            }
        }
        lemma_digits_prefix(s.drop_last(), k);
    } else {
        assert(s.subrange(0, k) =~= s);
    }
}

/// The value of the decimal digits `v[start..]`, when they are all digits and
/// the value is at most `max`.
fn digits_at_most(v: &[char], start: usize, max: u64) -> (r: Option<u64>)
    requires
        start <= v.len(),
        max <= u32::MAX,
    ensures
        ({
            let d = v@.subrange(start as int, v.len() as int);
            match r {
                Some(x) => all_digits(d) && digits_value(d) <= max && x == digits_value(d),
                None => !all_digits(d) || digits_value(d) > max,
            }
        }),
{
    let ghost d = v@.subrange(start as int, v.len() as int);
    let mut value: u64 = 0;
    let mut i = start;
    while i < v.len()
        invariant
            start <= i <= v.len(),
            max <= u32::MAX,
            d == v@.subrange(start as int, v.len() as int),
            all_digits(d.subrange(0, i - start)),
            value == digits_value(d.subrange(0, i - start)),
            value <= max,
        decreases v.len() - i,
    {
        let c = v[i];
        let u = c as u32;
        assert(d[i - start] == c);
        if u < 48 || u > 57 {
            assert(!is_digit(d[i - start]));
            return None;
        }
        let next = value * 10 + (u - 48) as u64;
        assert(d.subrange(0, i + 1 - start).drop_last() =~= d.subrange(0, i - start));
        assert(all_digits(d.subrange(0, i + 1 - start))) by {
            assert forall|k: int| 0 <= k < i + 1 - start implies is_digit(
                #[trigger] d.subrange(0, i + 1 - start)[k],
            ) by {
                if k < i - start {
                    assert(d.subrange(0, i + 1 - start)[k] == d.subrange(0, i - start)[k]);
                }
            }
        }
        if next > max {
            proof {
                if all_digits(d) {
                    lemma_digits_prefix(d, i + 1 - start);
                }
            }
            return None;
        }
        value = next;
        i = i + 1;
    }
    assert(d.subrange(0, i - start) =~= d);
    Some(value)
}

/// Rust's `str::parse` for an unsigned type whose largest value is `max`.
pub fn parse_uint(v: &[char], max: u64) -> (r: Option<u64>)
    requires
        max <= u32::MAX,
    ensures
        match r {
            Some(x) => parse_unsigned(v@, max as nat) == Some(x as nat),
            None => parse_unsigned(v@, max as nat).is_none(),
        },
{
    let start: usize = if v.len() > 0 && v[0] == '+' {
        1
    } else {
        0
    };
    assert(unsigned_digits(v@) =~= v@.subrange(start as int, v.len() as int));
    if start == v.len() {
        return None;
    }
    digits_at_most(v, start, max)
}

/// Rust's `str::parse::<i16>`.
pub fn parse_i16(v: &[char]) -> (r: Option<i16>)
    ensures
        match r {
            Some(x) => parse_i16_spec(v@) == Some(x as int),
            None => parse_i16_spec(v@).is_none(),
        },
{
    let neg = v.len() > 0 && v[0] == '-';
    let start: usize = if v.len() > 0 && (v[0] == '+' || v[0] == '-') {
        1
    } else {
        0
    };
    assert(v@.subrange(start as int, v.len() as int) =~= (if v@.len() > 0 && (v@[0] == '+'
        || v@[0] == '-') {
        v@.drop_first()
    } else {
        v@
    }));
    if start == v.len() {
        return None;
    }
    let limit: u64 = if neg {
        32768
    } else {
        32767
    };
    match digits_at_most(v, start, limit) {
        None => None,
        Some(x) => {
            if neg {
                Some((0 - (x as i32)) as i16)
            } else {
                Some(x as i16)
            }
        },
    }
}

pub open spec fn digit_char(d: nat) -> char {
    if d == 0 {
        '0'
    } else if d == 1 {
        '1'
    } else if d == 2 {
        '2'
    } else if d == 3 {
        '3'
    } else if d == 4 {
        '4'
    } else if d == 5 {
        '5'
    } else if d == 6 {
        '6'
    } else if d == 7 {
        '7'
    } else if d == 8 {
        '8'
    } else {
        '9'
    }
}

/// The decimal representation of `n`, without leading zeros.
pub open spec fn decimal(n: nat) -> Seq<char>
    decreases n,
{
    if n < 10 {
        seq![digit_char(n)]
    } else {
        decimal(n / 10).push(digit_char(n % 10))
    }
}

fn digit_char_exec(d: u64) -> (c: char)
    requires
        d < 10,
    ensures
        c == digit_char(d as nat),
{
    if d == 0 {
        '0'
    } else if d == 1 {
        '1'
    } else if d == 2 {
        '2'
    } else if d == 3 {
        '3'
    } else if d == 4 {
        '4'
    } else if d == 5 {
        '5'
    } else if d == 6 {
        '6'
    } else if d == 7 {
        '7'
    } else if d == 8 {
        '8'
    } else {
        '9'
    }
}

/// Appends the decimal representation of `n`.
pub fn push_decimal(s: &mut String, n: u64)
    ensures
        final(s)@ == old(s)@ + decimal(n as nat),
    decreases n,
{
    if n >= 10 {
        push_decimal(s, n / 10);
    }
    let c = digit_char_exec(n % 10);
    push_char(s, c);
    assert(s@ =~= old(s)@ + decimal(n as nat));
}

/// Appends a string literal.
pub fn push_str(s: &mut String, t: &str)
    ensures
        final(s)@ == old(s)@ + t@,
{
    s.append(t);
}

} // verus!
