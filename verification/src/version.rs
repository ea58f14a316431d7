use vstd::prelude::*;
use crate::text::{
    chars_of, has_prefix, is_ascii_digit, not_alnum_pred, split_by, split_not_alnum, trim,
    trim_start_char, trim_start_matches, trim_ws,
};

verus! {

/// A version string with a leading run of `v` removed, then trimmed.
pub open spec fn clean_version(s: Seq<char>) -> Seq<char> {
    trim_ws(trim_start_char(s, 'v'))
}

/// `c` starts with an epoch that ends at `k`: a run of digits that reads
/// as a `u64`, then `:` at index `k`, as in "1:2.0".
pub open spec fn epoch_at(c: Seq<char>, k: int) -> bool {
    &&& 0 < k < c.len()
    &&& c[k] == ':'
    &&& is_u64_digits(c.subrange(0, k))
}

pub open spec fn has_epoch(c: Seq<char>) -> bool {
    exists|k: int| epoch_at(c, k)
}

/// The epoch of a cleaned version (0 where it has none) and the rest of it.
pub open spec fn epoch_of(c: Seq<char>) -> (nat, Seq<char>) {
    if has_epoch(c) {
        let k = choose|k: int| epoch_at(c, k);
        (digits_value(c.subrange(0, k)), c.subrange(k + 1, c.len() as int))
    } else {
        (0, c)
    }
}

/// The epoch of a version string; a version without one has epoch 0.
pub open spec fn version_epoch(s: Seq<char>) -> nat {
    epoch_of(clean_version(s)).0
}

/// The parts of a version after its epoch: the pieces between
/// non-alphanumeric characters.
pub open spec fn version_parts(s: Seq<char>) -> Seq<Seq<char>> {
    split_by(epoch_of(clean_version(s)).1, not_alnum_pred())
}

/// At most one index ends an epoch.
pub proof fn lemma_epoch_unique(c: Seq<char>, k1: int, k2: int)
    requires
        epoch_at(c, k1),
        epoch_at(c, k2),
    ensures
        k1 == k2,
{
    if k1 < k2 {
        assert(c.subrange(0, k2)[k1] == c[k1]);
    } else if k2 < k1 {
        assert(c.subrange(0, k1)[k2] == c[k2]);
    }
}

/// The `i`-th part, or the empty string past the end.
pub open spec fn part_at(ps: Seq<Seq<char>>, i: int) -> Seq<char> {
    if 0 <= i < ps.len() {
        ps[i]
    } else {
        seq![]
    }
}

pub open spec fn digit_value(c: char) -> nat {
    ((c as u32) - ('0' as u32)) as nat
}

/// The value of a string of decimal digits.
pub open spec fn digits_value(s: Seq<char>) -> nat
    decreases s.len(),
{
    if s.len() == 0 {
        0
    } else {
        digits_value(s.drop_last()) * 10 + digit_value(s.last())
    }
}

pub open spec fn all_digits(s: Seq<char>) -> bool {
    forall|i: int| 0 <= i < s.len() ==> is_ascii_digit(#[trigger] s[i])
}

/// The digits of a number as `str::parse::<u64>` reads it: after an
/// optional `+`.
pub open spec fn unsigned_digits(s: Seq<char>) -> Seq<char> {
    if s.len() > 0 && s[0] == '+' {
        s.skip(1)
    } else {
        s
    }
}

/// A non-empty run of digits whose value fits in a `u64`.
pub open spec fn is_u64_digits(d: Seq<char>) -> bool {
    d.len() > 0 && all_digits(d) && digits_value(d) <= u64::MAX
}

/// The part reads as a `u64` (`str::parse::<u64>` succeeds on it).
pub open spec fn is_u64_number(s: Seq<char>) -> bool {
    is_u64_digits(unsigned_digits(s))
}

/// The value `str::parse::<u64>` reads.
pub open spec fn u64_value(s: Seq<char>) -> nat {
    digits_value(unsigned_digits(s))
}

/// Lexicographic order of code points: -1, 0 or 1.
pub open spec fn lex_order(a: Seq<char>, b: Seq<char>) -> int
    decreases a.len(),
{
    if a.len() == 0 && b.len() == 0 {
        0
    } else if a.len() == 0 {
        -1
    } else if b.len() == 0 {
        1
    } else if (a[0] as u32) < (b[0] as u32) {
        -1
    } else if (a[0] as u32) > (b[0] as u32) {
        1
    } else {
        lex_order(a.drop_first(), b.drop_first())
    }
}

/// Swapping the operands negates the lexicographic order.
pub proof fn lemma_lex_order_flip(a: Seq<char>, b: Seq<char>)
    ensures
        lex_order(a, b) == -lex_order(b, a),
    decreases a.len(),
{
    if a.len() > 0 && b.len() > 0 && (a[0] as u32) == (b[0] as u32) {
        lemma_lex_order_flip(a.drop_first(), b.drop_first());
    }
}

/// The lexicographic order is transitive.
pub proof fn lemma_lex_order_trans(a: Seq<char>, b: Seq<char>, c: Seq<char>)
    requires
        lex_order(a, b) <= 0,
        lex_order(b, c) <= 0,
    ensures
        lex_order(a, c) <= 0,
    decreases a.len(),
{
    if a.len() > 0 && b.len() > 0 && c.len() > 0 && (a[0] as u32) == (b[0] as u32) && (b[0] as u32)
        == (c[0] as u32) {
        lemma_lex_order_trans(a.drop_first(), b.drop_first(), c.drop_first());
    }
}

/// `x` is the number `y` followed by a release-candidate tag `rc`, as
/// "0rc1" is to "0": such a part marks a pre-release, ordered before `y`.
pub open spec fn is_prerelease_of(x: Seq<char>, y: Seq<char>) -> bool {
    &&& y.len() > 0
    &&& all_digits(y)
    &&& x.len() >= y.len() + 2
    &&& x.subrange(0, y.len() as int) == y
    &&& x[y.len() as int] == 'r'
    &&& x[y.len() as int + 1] == 'c'
}

/// Order of two version parts: numerically when both are numbers, a
/// pre-release tag before the bare part, lexicographically otherwise.
pub open spec fn part_order(x: Seq<char>, y: Seq<char>) -> int {
    if is_u64_number(x) && is_u64_number(y) {
        if u64_value(x) < u64_value(y) {
            -1
        } else if u64_value(x) > u64_value(y) {
            1
        } else {
            0
        }
    } else if is_prerelease_of(x, y) {
        -1
    } else if is_prerelease_of(y, x) {
        1
    } else {
        lex_order(x, y)
    }
}

pub open spec fn max_len(a: Seq<Seq<char>>, b: Seq<Seq<char>>) -> int {
    if a.len() >= b.len() {
        a.len() as int
    } else {
        b.len() as int
    }
}

/// The first non-zero part order from index `i` on.
pub open spec fn parts_order_from(pa: Seq<Seq<char>>, pb: Seq<Seq<char>>, i: int) -> int
    decreases max_len(pa, pb) - i,
{
    if i < 0 || i >= max_len(pa, pb) {
        0
    } else {
        let o = part_order(part_at(pa, i), part_at(pb, i));
        if o != 0 {
            o
        } else {
            parts_order_from(pa, pb, i + 1)
        }
    }
}

/// The order of two version strings: -1 (older), 0 (same) or 1 (newer).
/// The higher epoch wins; with equal epochs the parts decide.
pub open spec fn version_order(a: Seq<char>, b: Seq<char>) -> int {
    if version_epoch(a) < version_epoch(b) {
        -1
    } else if version_epoch(a) > version_epoch(b) {
        1
    } else {
        parts_order_from(version_parts(a), version_parts(b), 0)
    }
}

/// Part orders are -1, 0 or 1.
pub proof fn lemma_part_order_range(x: Seq<char>, y: Seq<char>)
    ensures
        -1 <= part_order(x, y) <= 1,
{
    lemma_lex_order_range(x, y);
}

pub proof fn lemma_lex_order_range(a: Seq<char>, b: Seq<char>)
    ensures
        -1 <= lex_order(a, b) <= 1,
    decreases a.len(),
{
    if a.len() > 0 && b.len() > 0 {
        lemma_lex_order_range(a.drop_first(), b.drop_first());
    }
}

pub proof fn lemma_parts_order_range(pa: Seq<Seq<char>>, pb: Seq<Seq<char>>, i: int)
    ensures
        -1 <= parts_order_from(pa, pb, i) <= 1,
    decreases max_len(pa, pb) - i,
{
    if 0 <= i < max_len(pa, pb) {
        lemma_part_order_range(part_at(pa, i), part_at(pb, i));
        lemma_parts_order_range(pa, pb, i + 1);
    }
}

/// Version orders are -1, 0 or 1.
pub proof fn lemma_version_order_range(a: Seq<char>, b: Seq<char>)
    ensures
        -1 <= version_order(a, b) <= 1,
{
    if version_epoch(a) == version_epoch(b) {
        lemma_parts_order_range(version_parts(a), version_parts(b), 0);
    }
}

/// Every sequence is level with itself in the lexicographic order.
pub proof fn lemma_lex_order_refl(a: Seq<char>)
    ensures
        lex_order(a, a) == 0,
    decreases a.len(),
{
    if a.len() > 0 {
        lemma_lex_order_refl(a.drop_first());
    }
}

/// Swapping two version parts negates their order.
pub proof fn lemma_part_order_flip(x: Seq<char>, y: Seq<char>)
    ensures
        part_order(x, y) == -part_order(y, x),
{
    lemma_lex_order_flip(x, y);
}

proof fn lemma_parts_order_flip(pa: Seq<Seq<char>>, pb: Seq<Seq<char>>, i: int)
    ensures
        parts_order_from(pa, pb, i) == -parts_order_from(pb, pa, i),
    decreases max_len(pa, pb) - i,
{
    assert(max_len(pa, pb) == max_len(pb, pa));
    if 0 <= i < max_len(pa, pb) {
        lemma_part_order_flip(part_at(pa, i), part_at(pb, i));
        lemma_parts_order_flip(pa, pb, i + 1);
    }
}

proof fn lemma_parts_order_refl(pa: Seq<Seq<char>>, i: int)
    ensures
        parts_order_from(pa, pa, i) == 0,
    decreases max_len(pa, pa) - i,
{
    if 0 <= i < max_len(pa, pa) {
        lemma_lex_order_refl(part_at(pa, i));
        lemma_parts_order_refl(pa, i + 1);
    }
}

/// Every version compares equal to itself.
pub proof fn lemma_version_order_reflexive(a: Seq<char>)
    ensures
        version_order(a, a) == 0,
{
    lemma_parts_order_refl(version_parts(a), 0);
}

/// Comparing the other way round gives the opposite answer: `a` is older
/// than `b` exactly when `b` is newer than `a`.
pub proof fn lemma_version_order_antisymmetric(a: Seq<char>, b: Seq<char>)
    ensures
        version_order(a, b) == -version_order(b, a),
{
    lemma_parts_order_flip(version_parts(a), version_parts(b), 0);
}

/// A higher epoch outranks whatever follows it: "1:1.0" is newer than "2.0".
pub proof fn lemma_epoch_decides(a: Seq<char>, b: Seq<char>)
    requires
        version_epoch(a) > version_epoch(b),
    ensures
        version_order(a, b) == 1,
        version_order(b, a) == -1,
{
}

/// A part is level with itself.
pub proof fn lemma_part_order_refl(x: Seq<char>)
    ensures
        part_order(x, x) == 0,
{
    lemma_lex_order_refl(x);
}

/// Past the end of the shorter part list, a missing part counts as empty:
/// empty parts of the longer list are level with it, and the first
/// non-empty one makes the longer version the newer.
proof fn lemma_extra_parts(pa: Seq<Seq<char>>, pb: Seq<Seq<char>>, i: int)
    requires
        pa.len() <= i <= pb.len(),
        exists|k: int| i <= k < pb.len() && (#[trigger] pb[k]).len() > 0,
    ensures
        parts_order_from(pa, pb, i) == -1,
    decreases pb.len() - i,
{
    assert(max_len(pa, pb) == pb.len());
    assert(part_at(pa, i) == Seq::<char>::empty());
    if pb[i].len() > 0 {
        assert(!is_u64_number(Seq::<char>::empty()));
        assert(part_order(part_at(pa, i), part_at(pb, i)) == -1);
    } else {
        assert(part_at(pb, i) =~= Seq::<char>::empty());
        lemma_lex_order_refl(Seq::<char>::empty());
        assert(part_order(part_at(pa, i), part_at(pb, i)) == 0);
        let k = choose|k: int| i <= k < pb.len() && (#[trigger] pb[k]).len() > 0;
        assert(k != i);
        lemma_extra_parts(pa, pb, i + 1);
    }
}

/// The parts both lists share leave the order to what follows them.
proof fn lemma_shared_parts(pa: Seq<Seq<char>>, pb: Seq<Seq<char>>, i: int)
    requires
        0 <= i <= pa.len() <= pb.len(),
        pb.take(pa.len() as int) == pa,
    ensures
        parts_order_from(pa, pb, i) == parts_order_from(pa, pb, pa.len() as int),
    decreases pa.len() - i,
{
    if i < pa.len() {
        assert(pb.take(pa.len() as int)[i] == pb[i]);
        lemma_part_order_refl(pa[i]);
        lemma_shared_parts(pa, pb, i + 1);
    }
}

/// A version whose parts continue those of another (same epoch) with at
/// least one more non-empty part is the newer one: "1.0" is older than
/// "1.0.1". Parts are compared up to the longer list, a missing part
/// counting as empty.
pub proof fn lemma_longer_version_is_newer(a: Seq<char>, b: Seq<char>)
    requires
        version_epoch(a) == version_epoch(b),
        version_parts(a).len() <= version_parts(b).len(),
        version_parts(b).take(version_parts(a).len() as int) == version_parts(a),
        exists|k: int| version_parts(a).len() <= k < version_parts(b).len() && (#[trigger] version_parts(b)[k]).len() > 0,
    ensures
        version_order(a, b) == -1,
        version_order(b, a) == 1,
{
    let pa = version_parts(a);
    let pb = version_parts(b);
    lemma_shared_parts(pa, pb, 0);
    lemma_extra_parts(pa, pb, pa.len() as int);
    lemma_version_order_antisymmetric(a, b);
}

/// Values of digit strings only grow when digits are appended.
pub proof fn lemma_digits_value_prefix(s: Seq<char>, k: int)
    requires
        0 <= k <= s.len(),
        all_digits(s),
    ensures
        digits_value(s.take(k)) <= digits_value(s),
    decreases s.len() - k,
{
    if k < s.len() {
        lemma_digits_value_prefix(s, k + 1);
        assert(s.take(k + 1).drop_last() =~= s.take(k));
        assert(is_ascii_digit(s[k]));
    } else {
        assert(s.take(k) =~= s);
    }
}

/// `str::parse::<u64>` on a run of characters.
pub fn parse_u64(s: &[char]) -> (r: Option<u64>)
    ensures
        r is Some <==> is_u64_number(s@),
        r matches Some(v) ==> v == u64_value(s@),
{
    if s.len() > 0 && s[0] == '+' {
        let d = crate::text::slice_chars(s, 1, s.len());
        assert(d@ =~= s@.skip(1));
        parse_digits(&d)
    } else {
        parse_digits(s)
    }
}

/// A run of decimal digits read as a `u64`, if it is one that fits.
pub fn parse_digits(s: &[char]) -> (r: Option<u64>)
    ensures
        r is Some <==> is_u64_digits(s@),
        r matches Some(v) ==> v == digits_value(s@),
{
    if s.len() == 0 {
        return None;
    }
    let mut acc: u64 = 0;
    let mut i: usize = 0;
    while i < s.len()
        invariant
            i <= s.len(),
            all_digits(s@.take(i as int)),
            acc == digits_value(s@.take(i as int)),
        decreases s.len() - i,
    {
        let c = s[i];
        if !('0' <= c && c <= '9') {
            assert(!all_digits(s@));
            return None;
        }
        let d = (c as u32 - '0' as u32) as u64;
        assert(s@.take(i + 1).drop_last() =~= s@.take(i as int));
        assert(s@.take(i + 1).last() == c);
        if acc > (u64::MAX - d) / 10 {
            proof {
                assert(all_digits(s@.take(i + 1)));
                assert(digits_value(s@.take(i + 1)) == acc * 10 + d);
                assert(acc * 10 + d > u64::MAX) by (nonlinear_arith)
                    requires acc > (u64::MAX - d) / 10, d <= 9;
                if all_digits(s@) {
                    lemma_digits_value_prefix(s@, i + 1);
                }
            }
            return None;
        }
        assert(acc * 10 + d <= u64::MAX) by (nonlinear_arith)
            requires acc <= (u64::MAX - d) / 10, d <= 9;
        acc = acc * 10 + d;
        i = i + 1;
    }
    assert(s@.take(s.len() as int) =~= s@);
    Some(acc)
}

/// Lexicographic order of two character runs.
pub fn lex_order_of(a: &[char], b: &[char]) -> (r: i8)
    ensures
        r == lex_order(a@, b@),
{
    let mut i: usize = 0;
    assert(a@.skip(0) =~= a@);
    assert(b@.skip(0) =~= b@);
    while i < a.len() && i < b.len()
        invariant
            i <= a.len(),
            i <= b.len(),
            lex_order(a@, b@) == lex_order(a@.skip(i as int), b@.skip(i as int)),
        decreases a.len() - i,
    {
        assert(a@.skip(i as int)[0] == a@[i as int]);
        assert(b@.skip(i as int)[0] == b@[i as int]);
        if (a[i] as u32) < (b[i] as u32) {
            return -1;
        }
        if (a[i] as u32) > (b[i] as u32) {
            return 1;
        }
        assert(a@.skip(i as int).drop_first() =~= a@.skip(i + 1));
        assert(b@.skip(i as int).drop_first() =~= b@.skip(i + 1));
        i = i + 1;
    }
    if i == a.len() && i == b.len() {
        0
    } else if i == a.len() {
        -1
    } else {
        1
    }
}

/// Whether `x` is a pre-release of `y`.
pub fn prerelease_of(x: &[char], y: &[char]) -> (r: bool)
    ensures
        r == is_prerelease_of(x@, y@),
{
    if y.len() == 0 || x.len() < 2 || x.len() - 2 < y.len() {
        return false;
    }
    let mut i: usize = 0;
    while i < y.len()
        invariant
            i <= y.len(),
            forall|j: int| 0 <= j < i ==> is_ascii_digit(#[trigger] y@[j]),
        decreases y.len() - i,
    {
        if !('0' <= y[i] && y[i] <= '9') {
            return false;
        }
        i = i + 1;
    }
    has_prefix(x, y) && x[y.len()] == 'r' && x[y.len() + 1] == 'c'
}

/// Order of two version parts.
pub fn part_order_of(x: &[char], y: &[char]) -> (r: i8)
    ensures
        r == part_order(x@, y@),
{
    let nx = parse_u64(x);
    let ny = parse_u64(y);
    if let (Some(a), Some(b)) = (nx, ny) {
        if a < b {
            return -1;
        } else if a > b {
            return 1;
        } else {
            return 0;
        }
    }
    if prerelease_of(x, y) {
        -1
    } else if prerelease_of(y, x) {
        1
    } else {
        lex_order_of(x, y)
    }
}

/// Splits the epoch off a cleaned version.
pub fn split_epoch(c: &[char]) -> (r: (u64, Vec<char>))
    ensures
        r.0 == epoch_of(c@).0,
        r.1@ == epoch_of(c@).1,
{
    let mut i: usize = 0;
    while i < c.len() && '0' <= c[i] && c[i] <= '9'
        invariant
            i <= c.len(),
            forall|j: int| 0 <= j < i ==> is_ascii_digit(#[trigger] c@[j]),
        decreases c.len() - i,
    {
        i = i + 1;
    }
    proof {
        assert forall|k: int| epoch_at(c@, k) implies k == i by {
            if k < i {
                assert(is_ascii_digit(c@[k]));
            } else if k > i {
                assert(c@.subrange(0, k)[i as int] == c@[i as int]);
            }
        }
    }
    if i > 0 && i < c.len() && c[i] == ':' {
        let d = crate::text::slice_chars(c, 0, i);
        proof {
            assert forall|j: int| 0 <= j < d@.len() implies is_ascii_digit(#[trigger] d@[j]) by {
                assert(d@[j] == c@[j]);
            }
        }
        if let Some(e) = parse_digits(&d) {
            assert(epoch_at(c@, i as int));
            let rest = crate::text::slice_chars(c, i + 1, c.len());
            return (e, rest);
        }
    }
    let whole = crate::text::slice_chars(c, 0, c.len());
    assert(whole@ =~= c@);
    (0, whole)
}

/// The parts of a version string after its epoch, and the epoch.
pub fn parts_of(s: &str) -> (r: (u64, Vec<Vec<char>>))
    ensures
        r.0 == version_epoch(s@),
        r.1@.len() == version_parts(s@).len(),
        forall|i: int| 0 <= i < r.1@.len() ==> #[trigger] r.1@[i]@ == version_parts(s@)[i],
{
    let cs = chars_of(s);
    let a = trim_start_matches(&cs, 'v');
    let b = trim(&a);
    let (e, rest) = split_epoch(&b);
    (e, split_not_alnum(&rest))
}

/// The order of two version strings.
pub fn version_order_of(a: &str, b: &str) -> (r: i8)
    ensures
        r == version_order(a@, b@),
{
    let (ea, pa) = parts_of(a);
    let (eb, pb) = parts_of(b);
    if ea < eb {
        return -1;
    } else if ea > eb {
        return 1;
    }
    let ghost sa = version_parts(a@);
    let ghost sb = version_parts(b@);
    let n = if pa.len() >= pb.len() { pa.len() } else { pb.len() };
    let empty: Vec<char> = Vec::new();
    let mut i: usize = 0;
    while i < n
        invariant
            n == max_len(sa, sb),
            i <= n,
            pa@.len() == sa.len(),
            pb@.len() == sb.len(),
            forall|k: int| 0 <= k < pa@.len() ==> #[trigger] pa@[k]@ == sa[k],
            forall|k: int| 0 <= k < pb@.len() ==> #[trigger] pb@[k]@ == sb[k],
            empty@ == Seq::<char>::empty(),
            version_epoch(a@) == version_epoch(b@),
            version_order(a@, b@) == parts_order_from(sa, sb, i as int),
        decreases n - i,
    {
        let x: &Vec<char> = if i < pa.len() { &pa[i] } else { &empty };
        let y: &Vec<char> = if i < pb.len() { &pb[i] } else { &empty };
        assert(x@ == part_at(sa, i as int));
        assert(y@ == part_at(sb, i as int));
        let o = part_order_of(x, y);
        if o != 0 {
            return o;
        }
        i = i + 1;
    }
    0
}

} // verus!
