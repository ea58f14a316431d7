use vstd::prelude::*;

verus! {

/// The Unicode `White_Space` characters: exactly those for which
/// `char::is_whitespace` holds.
pub open spec fn is_ws(c: char) -> bool {
    let u = c as u32;
    ||| 0x09 <= u <= 0x0d
    ||| u == 0x20
    ||| u == 0x85
    ||| u == 0xa0
    ||| u == 0x1680
    ||| 0x2000 <= u <= 0x200a
    ||| u == 0x2028
    ||| u == 0x2029
    ||| u == 0x202f
    ||| u == 0x205f
    ||| u == 0x3000
}

/// Decides `is_ws`.
pub fn is_whitespace(c: char) -> (r: bool)
    ensures
        r == is_ws(c),
{
    let u = c as u32;
    (0x09 <= u && u <= 0x0d) || u == 0x20 || u == 0x85 || u == 0xa0 || u == 0x1680 || (0x2000
        <= u && u <= 0x200a) || u == 0x2028 || u == 0x2029 || u == 0x202f || u == 0x205f || u
        == 0x3000
}

/// Appends one character to a `String` (`String::push`).
#[verifier::external_body]
pub fn push_char(s: &mut String, c: char)
    ensures
        final(s)@ == old(s)@.push(c),
{
    s.push(c);
}

/// The characters of a string slice, in order.
pub fn chars_of(s: &str) -> (v: Vec<char>)
    ensures
        v@ == s@,
{
    let mut v: Vec<char> = Vec::new();
    for c in it: s.chars()
        invariant
            v@ == it.seq().take(it.index() as int),
    {
        v.push(c);
    }
    v
}

/// Builds a `String` from characters.
pub fn string_from(v: &[char]) -> (s: String)
    ensures
        s@ == v@,
{
    let mut s = String::new();
    let mut i: usize = 0;
    while i < v.len()
        invariant
            i <= v.len(),
            s@ == v@.take(i as int),
        decreases v.len() - i,
    {
        push_char(&mut s, v[i]);
        assert(v@.take(i as int).push(v@[i as int]) =~= v@.take(i + 1));
        i = i + 1;
    }
    assert(v@.take(v.len() as int) =~= v@);
    s
}


pub open spec fn is_ascii_digit(c: char) -> bool {
    '0' <= c && c <= '9'
}

pub open spec fn is_ascii_alnum(c: char) -> bool {
    ||| '0' <= c && c <= '9'
    ||| 'a' <= c && c <= 'z'
    ||| 'A' <= c && c <= 'Z'
}

/// Whether `c` is alphabetic or numeric in the Unicode sense: a name for what
/// `char::is_alphanumeric` returns.
pub uninterp spec fn unicode_alphanumeric(c: char) -> bool;

/// Calls `char::is_alphanumeric`. The contract names its result
/// `unicode_alphanumeric(c)` and states the one fact std documents for ASCII:
/// there it holds of the letters `a-z`, `A-Z` and the digits `0-9` alone. The
/// Unicode tables for other characters are not restated.
#[verifier::external_body]
pub fn is_alphanumeric(c: char) -> (r: bool)
    ensures
        r == unicode_alphanumeric(c),
        (c as u32) < 128 ==> (r == is_ascii_alnum(c)),
{
    c.is_alphanumeric()
}

// ───────────────────────── trimming ─────────────────────────

pub open spec fn trim_start_ws(s: Seq<char>) -> Seq<char>
    decreases s.len(),
{
    if s.len() > 0 && is_ws(s[0]) {
        trim_start_ws(s.drop_first())
    } else {
        s
    }
}

pub open spec fn trim_end_ws(s: Seq<char>) -> Seq<char>
    decreases s.len(),
{
    if s.len() > 0 && is_ws(s.last()) {
        trim_end_ws(s.drop_last())
    } else {
        s
    }
}

/// `str::trim`: whitespace removed from both ends.
pub open spec fn trim_ws(s: Seq<char>) -> Seq<char> {
    trim_end_ws(trim_start_ws(s))
}

pub open spec fn trim_start_char(s: Seq<char>, c: char) -> Seq<char>
    decreases s.len(),
{
    if s.len() > 0 && s[0] == c {
        trim_start_char(s.drop_first(), c)
    } else {
        s
    }
}

pub open spec fn trim_end_char(s: Seq<char>, c: char) -> Seq<char>
    decreases s.len(),
{
    if s.len() > 0 && s.last() == c {
        trim_end_char(s.drop_last(), c)
    } else {
        s
    }
}

/// `str::trim_matches` with one character.
pub open spec fn trim_char(s: Seq<char>, c: char) -> Seq<char> {
    trim_end_char(trim_start_char(s, c), c)
}

/// A copy of `v[lo..hi]`.
pub fn slice_chars(v: &[char], lo: usize, hi: usize) -> (r: Vec<char>)
    requires
        lo <= hi <= v.len(),
    ensures
        r@ == v@.subrange(lo as int, hi as int),
{
    let mut r: Vec<char> = Vec::new();
    let mut i = lo;
    while i < hi
        invariant
            lo <= i <= hi <= v.len(),
            r@ == v@.subrange(lo as int, i as int),
        decreases hi - i,
    {
        r.push(v[i]);
        assert(v@.subrange(lo as int, i as int).push(v@[i as int]) =~= v@.subrange(
            lo as int,
            i + 1,
        ));
        i = i + 1;
    }
    r
}

/// `str::trim`.
pub fn trim(v: &[char]) -> (r: Vec<char>)
    ensures
        r@ == trim_ws(v@),
{
    let mut lo: usize = 0;
    assert(v@.subrange(0, v.len() as int) =~= v@);
    while lo < v.len() && is_whitespace(v[lo])
        invariant
            lo <= v.len(),
            trim_start_ws(v@) == trim_start_ws(v@.subrange(lo as int, v.len() as int)),
        decreases v.len() - lo,
    {
        assert(v@.subrange(lo as int, v.len() as int).drop_first() =~= v@.subrange(
            lo + 1,
            v.len() as int,
        ));
        lo = lo + 1;
    }
    assert(trim_start_ws(v@) == v@.subrange(lo as int, v.len() as int));
    let mut hi: usize = v.len();
    while hi > lo && is_whitespace(v[hi - 1])
        invariant
            lo <= hi <= v.len(),
            trim_ws(v@) == trim_end_ws(v@.subrange(lo as int, hi as int)),
        decreases hi - lo,
    {
        assert(v@.subrange(lo as int, hi as int).drop_last() =~= v@.subrange(
            lo as int,
            hi - 1,
        ));
        hi = hi - 1;
    }
    slice_chars(v, lo, hi)
}


/// `str::trim_start_matches` with one character.
pub fn trim_start_matches(v: &[char], c: char) -> (r: Vec<char>)
    ensures
        r@ == trim_start_char(v@, c),
{
    let mut lo: usize = 0;
    assert(v@.subrange(0, v.len() as int) =~= v@);
    while lo < v.len() && v[lo] == c
        invariant
            lo <= v.len(),
            trim_start_char(v@, c) == trim_start_char(v@.subrange(lo as int, v.len() as int), c),
        decreases v.len() - lo,
    {
        assert(v@.subrange(lo as int, v.len() as int).drop_first() =~= v@.subrange(
            lo + 1,
            v.len() as int,
        ));
        lo = lo + 1;
    }
    slice_chars(v, lo, v.len())
}

/// `str::trim_end_matches` with one character.
pub fn trim_end_matches(v: &[char], c: char) -> (r: Vec<char>)
    ensures
        r@ == trim_end_char(v@, c),
{
    let mut hi: usize = v.len();
    assert(v@.subrange(0, v.len() as int) =~= v@);
    while hi > 0 && v[hi - 1] == c
        invariant
            hi <= v.len(),
            trim_end_char(v@, c) == trim_end_char(v@.subrange(0, hi as int), c),
        decreases hi,
    {
        assert(v@.subrange(0, hi as int).drop_last() =~= v@.subrange(0, hi - 1));
        hi = hi - 1;
    }
    slice_chars(v, 0, hi)
}

/// `str::trim_matches` with one character.
pub fn trim_matches(v: &[char], c: char) -> (r: Vec<char>)
    ensures
        r@ == trim_char(v@, c),
{
    let a = trim_start_matches(v, c);
    trim_end_matches(&a, c)
}

// ───────────────────────── searching ─────────────────────────

pub open spec fn starts_with(s: Seq<char>, p: Seq<char>) -> bool {
    p.len() <= s.len() && s.subrange(0, p.len() as int) == p
}

pub open spec fn ends_with(s: Seq<char>, p: Seq<char>) -> bool {
    p.len() <= s.len() && s.subrange(s.len() - p.len(), s.len() as int) == p
}

/// `p` occurs in `s` at index `i`.
pub open spec fn occurs_at(s: Seq<char>, p: Seq<char>, i: int) -> bool {
    0 <= i && i + p.len() <= s.len() && s.subrange(i, i + p.len()) == p
}

/// The first index at or after `i` where `p` occurs in `s`.
pub open spec fn find_from(s: Seq<char>, p: Seq<char>, i: int) -> Option<int>
    decreases s.len() + 1 - i,
{
    if i < 0 || i + p.len() > s.len() {
        None
    } else if occurs_at(s, p, i) {
        Some(i)
    } else {
        find_from(s, p, i + 1)
    }
}

/// `str::find` with a string pattern, counted in characters.
pub open spec fn find(s: Seq<char>, p: Seq<char>) -> Option<int> {
    find_from(s, p, 0)
}

/// The first index of `c` in `s`, if any.
pub open spec fn index_of(s: Seq<char>, c: char) -> Option<int> {
    find(s, seq![c])
}

/// Whether `p` is a prefix of `s`.
pub fn has_prefix(s: &[char], p: &[char]) -> (r: bool)
    ensures
        r == starts_with(s@, p@),
{
    if p.len() > s.len() {
        return false;
    }
    let mut i: usize = 0;
    while i < p.len()
        invariant
            p.len() <= s.len(),
            i <= p.len(),
            forall|k: int| 0 <= k < i ==> s@[k] == p@[k],
        decreases p.len() - i,
    {
        if s[i] != p[i] {
            assert(s@.subrange(0, p.len() as int)[i as int] != p@[i as int]);
            return false;
        }
        i = i + 1;
    }
    assert(s@.subrange(0, p.len() as int) =~= p@);
    true
}

/// Whether `p` occurs in `s` at index `i`.
pub fn matches_at(s: &[char], p: &[char], i: usize) -> (r: bool)
    ensures
        r == occurs_at(s@, p@, i as int),
{
    if i > s.len() || p.len() > s.len() - i {
        return false;
    }
    let mut k: usize = 0;
    while k < p.len()
        invariant
            i + p.len() <= s.len(),
            k <= p.len(),
            forall|j: int| 0 <= j < k ==> s@[i + j] == p@[j],
        decreases p.len() - k,
    {
        if s[i + k] != p[k] {
            assert(s@.subrange(i as int, i + p.len())[k as int] != p@[k as int]);
            return false;
        }
        k = k + 1;
    }
    assert(s@.subrange(i as int, i + p.len()) =~= p@);
    true
}

/// `str::find` with a string pattern.
pub fn find_chars(s: &[char], p: &[char]) -> (r: Option<usize>)
    ensures
        match r {
            Some(i) => find(s@, p@) == Some(i as int),
            None => find(s@, p@) is None,
        },
{
    if p.len() > s.len() {
        return None;
    }
    let mut i: usize = 0;
    while i <= s.len() - p.len()
        invariant
            p.len() <= s.len(),
            i <= s.len() - p.len() + 1,
            find(s@, p@) == find_from(s@, p@, i as int),
        decreases s.len() - p.len() + 1 - i,
    {
        if matches_at(s, p, i) {
            return Some(i);
        }
        if i == s.len() - p.len() {
            assert(find_from(s@, p@, i + 1) is None);
            return None;
        }
        i = i + 1;
    }
    None
}

/// The first index of `c` in `s`.
pub fn find_char(s: &[char], c: char) -> (r: Option<usize>)
    ensures
        match r {
            Some(i) => index_of(s@, c) == Some(i as int) && i < s.len() && s@[i as int] == c,
            None => index_of(s@, c) is None,
        },
{
    let p = vec![c];
    assert(p@ =~= seq![c]);
    let r = find_chars(s, &p);
    proof {
        if let Some(i) = r {
            lemma_find_occurs(s@, p@, 0);
            assert(s@.subrange(i as int, i + 1)[0] == s@[i as int]);
        }
    }
    r
}

/// What `find_from` returns is an occurrence.
pub proof fn lemma_find_occurs(s: Seq<char>, p: Seq<char>, i: int)
    requires
        0 <= i,
    ensures
        find_from(s, p, i) matches Some(j) ==> occurs_at(s, p, j) && i <= j,
        find_from(s, p, i) matches Some(j) ==> forall|k: int| i <= k < j ==> !occurs_at(s, p, k),
        find_from(s, p, i) is None ==> forall|k: int| i <= k ==> !occurs_at(s, p, k),
    decreases s.len() + 1 - i,
{
    if i + p.len() > s.len() {
    } else if occurs_at(s, p, i) {
    } else {
        if p.len() == 0 {
            assert(s.subrange(i, i) =~= p);
        }
        lemma_find_occurs(s, p, i + 1);
    }
}

/// Whether two character sequences are equal.
pub fn chars_eq(a: &[char], b: &[char]) -> (r: bool)
    ensures
        r == (a@ == b@),
{
    if a.len() != b.len() {
        return false;
    }
    let mut i: usize = 0;
    while i < a.len()
        invariant
            a.len() == b.len(),
            i <= a.len(),
            forall|k: int| 0 <= k < i ==> a@[k] == b@[k],
        decreases a.len() - i,
    {
        if a[i] != b[i] {
            return false;
        }
        i = i + 1;
    }
    assert(a@ =~= b@);
    true
}

/// The characters of each string.
pub open spec fn string_views(s: Seq<String>) -> Seq<Seq<char>> {
    s.map_values(|x: String| x@)
}

/// Appending a string appends its characters.
pub proof fn lemma_string_views_push(s: Seq<String>, x: String)
    ensures
        string_views(s.push(x)) == string_views(s).push(x@),
{
    assert(string_views(s.push(x)) =~= string_views(s).push(x@));
}

/// An owned copy of a string slice.
pub fn owned(s: &str) -> (r: String)
    ensures
        r@ == s@,
{
    string_from(&chars_of(s))
}

/// Whether two string slices hold the same characters.
pub fn str_eq(a: &str, b: &str) -> (r: bool)
    ensures
        r == (a@ == b@),
{
    chars_eq(&chars_of(a), &chars_of(b))
}

/// `str::contains` with a string pattern.
pub fn contains_str(s: &str, p: &str) -> (r: bool)
    ensures
        r == (find(s@, p@) is Some),
{
    find_chars(&chars_of(s), &chars_of(p)).is_some()
}

/// Concatenation of two character sequences.
pub fn concat(a: &[char], b: &[char]) -> (r: Vec<char>)
    ensures
        r@ == a@ + b@,
{
    let mut r = slice_chars(a, 0, a.len());
    assert(a@.subrange(0, a.len() as int) =~= a@);
    let mut i: usize = 0;
    while i < b.len()
        invariant
            i <= b.len(),
            r@ == a@ + b@.take(i as int),
        decreases b.len() - i,
    {
        r.push(b[i]);
        assert(a@ + b@.take(i as int).push(b@[i as int]) =~= a@ + b@.take(i + 1));
        i = i + 1;
    }
    assert(b@.take(b.len() as int) =~= b@);
    r
}


// ───────────────────────── splitting ─────────────────────────

pub open spec fn eq_char(c: char) -> spec_fn(char) -> bool {
    |x: char| x == c
}

pub open spec fn ws_pred() -> spec_fn(char) -> bool {
    |x: char| is_ws(x)
}

pub open spec fn not_alnum_pred() -> spec_fn(char) -> bool {
    |x: char| !unicode_alphanumeric(x)
}

/// The first index `k' >= k` with `pred(s[k'])`.
pub open spec fn next_match(s: Seq<char>, pred: spec_fn(char) -> bool, k: int) -> Option<int>
    decreases s.len() - k,
{
    if k < 0 || k >= s.len() {
        None
    } else if pred(s[k]) {
        Some(k)
    } else {
        next_match(s, pred, k + 1)
    }
}

/// The pieces of `s[lo..]` between the characters that satisfy `pred`
/// (`str::split` with a character pattern).
pub open spec fn split_from(s: Seq<char>, pred: spec_fn(char) -> bool, lo: int) -> Seq<Seq<char>>
    decreases s.len() - lo,
{
    if lo < 0 || lo > s.len() {
        seq![]
    } else {
        match next_match(s, pred, lo) {
            None => seq![s.subrange(lo, s.len() as int)],
            Some(j) => if lo <= j < s.len() {
                seq![s.subrange(lo, j)] + split_from(s, pred, j + 1)
            } else {
                seq![]
            },
        }
    }
}

pub open spec fn split_by(s: Seq<char>, pred: spec_fn(char) -> bool) -> Seq<Seq<char>> {
    split_from(s, pred, 0)
}

/// `str::split` on one character.
pub open spec fn split_char(s: Seq<char>, c: char) -> Seq<Seq<char>> {
    split_by(s, eq_char(c))
}

/// `str::split_whitespace`: the non-empty pieces between whitespace.
pub open spec fn words(s: Seq<char>) -> Seq<Seq<char>> {
    split_by(s, ws_pred()).filter(nonempty())
}

pub open spec fn nonempty() -> spec_fn(Seq<char>) -> bool {
    |w: Seq<char>| w.len() > 0
}

pub open spec fn strip_cr(x: Seq<char>) -> Seq<char> {
    if x.len() > 0 && x.last() == '\r' {
        x.drop_last()
    } else {
        x
    }
}

/// The lines of `s[lo..]` as `str::lines` yields them: split after each
/// `'\n'`, the `'\n'` and one `'\r'` before it dropped, no empty last line.
pub open spec fn lines_from(s: Seq<char>, lo: int) -> Seq<Seq<char>>
    decreases s.len() - lo,
{
    if lo < 0 || lo >= s.len() {
        seq![]
    } else {
        match next_match(s, eq_char('\n'), lo) {
            None => seq![s.subrange(lo, s.len() as int)],
            Some(j) => if lo <= j < s.len() {
                seq![strip_cr(s.subrange(lo, j))] + lines_from(s, j + 1)
            } else {
                seq![]
            },
        }
    }
}

/// `str::lines`.
pub open spec fn lines(s: Seq<char>) -> Seq<Seq<char>> {
    lines_from(s, 0)
}

/// `next_match` finds a matching index in range, and none before it.
pub proof fn lemma_next_match(s: Seq<char>, pred: spec_fn(char) -> bool, k: int)
    requires
        0 <= k,
    ensures
        next_match(s, pred, k) matches Some(j) ==> k <= j < s.len() && pred(s[j]),
        next_match(s, pred, k) matches Some(j) ==> forall|m: int| k <= m < j ==> !pred(s[m]),
        next_match(s, pred, k) is None ==> forall|m: int| k <= m < s.len() ==> !pred(s[m]),
    decreases s.len() - k,
{
    if k < s.len() && !pred(s[k]) {
        lemma_next_match(s, pred, k + 1);
    }
}

/// `split_char`, computed.
pub fn split_on(s: &[char], c: char) -> (r: Vec<Vec<char>>)
    ensures
        r@.len() == split_char(s@, c).len(),
        forall|i: int| 0 <= i < r@.len() ==> #[trigger] r@[i]@ == split_char(s@, c)[i],
{
    let mut r: Vec<Vec<char>> = Vec::new();
    let ghost mut pieces: Seq<Seq<char>> = seq![];
    let mut lo: usize = 0;
    let mut i: usize = 0;
    while i < s.len()
        invariant
            lo <= i <= s.len(),
            split_char(s@, c) == pieces + split_from(s@, eq_char(c), lo as int),
            next_match(s@, eq_char(c), lo as int) == next_match(s@, eq_char(c), i as int),
            r@.len() == pieces.len(),
            forall|k: int| 0 <= k < r@.len() ==> #[trigger] r@[k]@ == pieces[k],
        decreases s.len() - i,
    {
        if s[i] == c {
            let piece = slice_chars(s, lo, i);
            proof {
                assert(next_match(s@, eq_char(c), i as int) == Some(i as int));
                assert(split_from(s@, eq_char(c), lo as int) == seq![s@.subrange(lo as int, i as int)]
                    + split_from(s@, eq_char(c), i + 1));
                pieces = pieces.push(piece@);
                assert(split_char(s@, c) =~= pieces + split_from(s@, eq_char(c), i + 1));
            }
            r.push(piece);
            lo = i + 1;
        } else {
            assert(next_match(s@, eq_char(c), i as int) == next_match(s@, eq_char(c), i + 1));
        }
        i = i + 1;
    }
    let piece = slice_chars(s, lo, s.len());
    proof {
        assert(next_match(s@, eq_char(c), s.len() as int) is None);
        pieces = pieces.push(piece@);
        assert(split_char(s@, c) =~= pieces);
    }
    r.push(piece);
    r
}

/// `str::lines`, computed.
pub fn lines_of(s: &[char]) -> (r: Vec<Vec<char>>)
    ensures
        r@.len() == lines(s@).len(),
        forall|i: int| 0 <= i < r@.len() ==> #[trigger] r@[i]@ == lines(s@)[i],
{
    let mut r: Vec<Vec<char>> = Vec::new();
    let ghost mut done: Seq<Seq<char>> = seq![];
    let mut lo: usize = 0;
    let mut i: usize = 0;
    while i < s.len()
        invariant
            lo <= i <= s.len(),
            lines(s@) == done + lines_from(s@, lo as int),
            next_match(s@, eq_char('\n'), lo as int) == next_match(s@, eq_char('\n'), i as int),
            r@.len() == done.len(),
            forall|k: int| 0 <= k < r@.len() ==> #[trigger] r@[k]@ == done[k],
        decreases s.len() - i,
    {
        if s[i] == '\n' {
            let mut hi = i;
            if hi > lo && s[hi - 1] == '\r' {
                hi = hi - 1;
            }
            let line = slice_chars(s, lo, hi);
            proof {
                assert(next_match(s@, eq_char('\n'), i as int) == Some(i as int));
                assert(line@ =~= strip_cr(s@.subrange(lo as int, i as int)));
                assert(lines_from(s@, lo as int) == seq![line@] + lines_from(s@, i + 1));
                done = done.push(line@);
                assert(lines(s@) =~= done + lines_from(s@, i + 1));
            }
            r.push(line);
            lo = i + 1;
        } else {
            assert(next_match(s@, eq_char('\n'), i as int) == next_match(s@, eq_char('\n'), i + 1));
        }
        i = i + 1;
    }
    if lo < s.len() {
        let line = slice_chars(s, lo, s.len());
        proof {
            assert(next_match(s@, eq_char('\n'), s.len() as int) is None);
            done = done.push(line@);
            assert(lines(s@) =~= done);
        }
        r.push(line);
    } else {
        assert(lines(s@) =~= done);
    }
    r
}


/// `split_by(s, ws_pred())`, computed.
pub fn split_ws_pieces(s: &[char]) -> (r: Vec<Vec<char>>)
    ensures
        r@.len() == split_by(s@, ws_pred()).len(),
        forall|i: int| 0 <= i < r@.len() ==> #[trigger] r@[i]@ == split_by(s@, ws_pred())[i],
{
    let mut r: Vec<Vec<char>> = Vec::new();
    let ghost mut pieces: Seq<Seq<char>> = seq![];
    let mut lo: usize = 0;
    let mut i: usize = 0;
    while i < s.len()
        invariant
            lo <= i <= s.len(),
            split_by(s@, ws_pred()) == pieces + split_from(s@, ws_pred(), lo as int),
            next_match(s@, ws_pred(), lo as int) == next_match(s@, ws_pred(), i as int),
            r@.len() == pieces.len(),
            forall|k: int| 0 <= k < r@.len() ==> #[trigger] r@[k]@ == pieces[k],
        decreases s.len() - i,
    {
        if is_whitespace(s[i]) {
            let piece = slice_chars(s, lo, i);
            proof {
                assert(next_match(s@, ws_pred(), i as int) == Some(i as int));
                assert(split_from(s@, ws_pred(), lo as int) == seq![s@.subrange(lo as int, i as int)]
                    + split_from(s@, ws_pred(), i + 1));
                pieces = pieces.push(piece@);
                assert(split_by(s@, ws_pred()) =~= pieces + split_from(s@, ws_pred(), i + 1));
            }
            r.push(piece);
            lo = i + 1;
        } else {
            assert(next_match(s@, ws_pred(), i as int) == next_match(s@, ws_pred(), i + 1));
        }
        i = i + 1;
    }
    let piece = slice_chars(s, lo, s.len());
    proof {
        assert(next_match(s@, ws_pred(), s.len() as int) is None);
        pieces = pieces.push(piece@);
        assert(split_by(s@, ws_pred()) =~= pieces);
    }
    r.push(piece);
    r
}

/// `split_by(s, not_alnum_pred())`, computed.
pub fn split_not_alnum(s: &[char]) -> (r: Vec<Vec<char>>)
    ensures
        r@.len() == split_by(s@, not_alnum_pred()).len(),
        forall|i: int| 0 <= i < r@.len() ==> #[trigger] r@[i]@ == split_by(s@, not_alnum_pred())[i],
{
    let mut r: Vec<Vec<char>> = Vec::new();
    let ghost mut pieces: Seq<Seq<char>> = seq![];
    let mut lo: usize = 0;
    let mut i: usize = 0;
    while i < s.len()
        invariant
            lo <= i <= s.len(),
            split_by(s@, not_alnum_pred()) == pieces + split_from(s@, not_alnum_pred(), lo as int),
            next_match(s@, not_alnum_pred(), lo as int) == next_match(s@, not_alnum_pred(), i as int),
            r@.len() == pieces.len(),
            forall|k: int| 0 <= k < r@.len() ==> #[trigger] r@[k]@ == pieces[k],
        decreases s.len() - i,
    {
        if !is_alphanumeric(s[i]) {
            let piece = slice_chars(s, lo, i);
            proof {
                assert(next_match(s@, not_alnum_pred(), i as int) == Some(i as int));
                assert(split_from(s@, not_alnum_pred(), lo as int) == seq![s@.subrange(lo as int, i as int)]
                    + split_from(s@, not_alnum_pred(), i + 1));
                pieces = pieces.push(piece@);
                assert(split_by(s@, not_alnum_pred()) =~= pieces + split_from(s@, not_alnum_pred(), i + 1));
            }
            r.push(piece);
            lo = i + 1;
        } else {
            assert(next_match(s@, not_alnum_pred(), i as int) == next_match(s@, not_alnum_pred(), i + 1));
        }
        i = i + 1;
    }
    let piece = slice_chars(s, lo, s.len());
    proof {
        assert(next_match(s@, not_alnum_pred(), s.len() as int) is None);
        pieces = pieces.push(piece@);
        assert(split_by(s@, not_alnum_pred()) =~= pieces);
    }
    r.push(piece);
    r
}

/// `str::split_whitespace`.
pub fn split_whitespace(s: &[char]) -> (r: Vec<Vec<char>>)
    ensures
        r@.len() == words(s@).len(),
        forall|i: int| 0 <= i < r@.len() ==> #[trigger] r@[i]@ == words(s@)[i],
{
    let pieces = split_ws_pieces(s);
    let ghost ps = split_by(s@, ws_pred());
    let ghost f = nonempty();
    let mut r: Vec<Vec<char>> = Vec::new();
    let mut k: usize = 0;
    while k < pieces.len()
        invariant
            k <= pieces.len(),
            f == nonempty(),
            ps == split_by(s@, ws_pred()),
            pieces@.len() == ps.len(),
            forall|i: int| 0 <= i < pieces@.len() ==> #[trigger] pieces@[i]@ == ps[i],
            r@.len() == ps.take(k as int).filter(f).len(),
            forall|i: int| 0 <= i < r@.len() ==> #[trigger] r@[i]@ == ps.take(k as int).filter(f)[i],
        decreases pieces.len() - k,
    {
        proof {
            assert(ps.take(k + 1) =~= ps.take(k as int).push(ps[k as int]));
            ps.take(k as int).lemma_filter_push(ps[k as int], f);
            assert(pieces@[k as int]@ == ps[k as int]);
        }
        if pieces[k].len() > 0 {
            let w = slice_chars(&pieces[k], 0, pieces[k].len());
            proof {
                assert(w@ =~= ps[k as int]);
                assert(ps[k as int].len() > 0);
                assert(f(ps[k as int]));
                assert(ps.take(k + 1).filter(f) == ps.take(k as int).filter(f).push(ps[k as int]));
            }
            r.push(w);
            assert(r@.len() == ps.take(k + 1).filter(f).len());
            assert(forall|i: int| 0 <= i < r@.len() ==> #[trigger] r@[i]@ == ps.take(k + 1).filter(f)[i]);
        } else {
            assert(!f(ps[k as int]));
            assert(ps.take(k + 1).filter(f) == ps.take(k as int).filter(f));
        }
        k = k + 1;
    }
    assert(ps.take(ps.len() as int) =~= ps);
    r
}


/// Whether two strings hold the same characters.
pub fn same_string(a: &String, b: &String) -> (r: bool)
    ensures
        r == (a@ == b@),
{
    a.eq(b)
}


// ───────────────────────── numbers ─────────────────────────

pub open spec fn digit_char(d: nat) -> char {
    if d == 0 { '0' }
    else if d == 1 { '1' }
    else if d == 2 { '2' }
    else if d == 3 { '3' }
    else if d == 4 { '4' }
    else if d == 5 { '5' }
    else if d == 6 { '6' }
    else if d == 7 { '7' }
    else if d == 8 { '8' }
    else { '9' }
}

/// The decimal digits of `n`, as `to_string` writes an unsigned integer.
pub open spec fn decimal(n: nat) -> Seq<char>
    decreases n,
{
    if n < 10 {
        seq![digit_char(n)]
    } else {
        decimal(n / 10).push(digit_char(n % 10))
    }
}

fn digit_of(d: u64) -> (c: char)
    requires
        d < 10,
    ensures
        c == digit_char(d as nat),
{
    if d == 0 { '0' }
    else if d == 1 { '1' }
    else if d == 2 { '2' }
    else if d == 3 { '3' }
    else if d == 4 { '4' }
    else if d == 5 { '5' }
    else if d == 6 { '6' }
    else if d == 7 { '7' }
    else if d == 8 { '8' }
    else { '9' }
}

/// The decimal digits of `n`.
pub fn decimal_chars(n: u64) -> (r: Vec<char>)
    ensures
        r@ == decimal(n as nat),
    decreases n,
{
    if n < 10 {
        let r = vec![digit_of(n)];
        assert(r@ =~= seq![digit_char(n as nat)]);
        r
    } else {
        let mut r = decimal_chars(n / 10);
        r.push(digit_of(n % 10));
        r
    }
}

} // verus!
