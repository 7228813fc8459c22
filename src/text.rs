use vstd::prelude::*;

verus! {

/// ASCII whitespace: space, tab, line feed, vertical tab, form feed and
/// carriage return.
pub open spec fn is_ws(b: u8) -> bool {
    b == 32 || (9 <= b && b <= 13)
}

/// The first position at or after `i` that holds no whitespace (or the end).
pub open spec fn skip_ws(s: Seq<u8>, i: int) -> int
    decreases s.len() - i,
{
    if 0 <= i < s.len() && is_ws(s[i]) {
        skip_ws(s, i + 1)
    } else {
        i
    }
}

/// The first position at or after `i` that holds whitespace (or the end).
pub open spec fn skip_word(s: Seq<u8>, i: int) -> int
    decreases s.len() - i,
{
    if 0 <= i < s.len() && !is_ws(s[i]) {
        skip_word(s, i + 1)
    } else {
        i
    }
}

pub proof fn lemma_skip_bounds(s: Seq<u8>, i: int)
    requires
        0 <= i <= s.len(),
    ensures
        i <= skip_ws(s, i) <= s.len(),
        i <= skip_word(s, i) <= s.len(),
        skip_ws(s, i) < s.len() ==> !is_ws(s[skip_ws(s, i)]),
        skip_ws(s, i) < s.len() ==> skip_word(s, skip_ws(s, i)) > skip_ws(s, i),
    decreases s.len() - i,
{
    if i < s.len() {
        lemma_skip_bounds(s, i + 1);
    }
    if skip_ws(s, i) < s.len() {
        let a = skip_ws(s, i);
        lemma_skip_bounds_word(s, a);
    }
}

proof fn lemma_skip_bounds_word(s: Seq<u8>, a: int)
    requires
        0 <= a <= s.len(),
    ensures
        a <= skip_word(s, a) <= s.len(),
        a < s.len() && !is_ws(s[a]) ==> skip_word(s, a) > a,
    decreases s.len() - a,
{
    if a < s.len() {
        lemma_skip_bounds_word(s, a + 1);
    }
}

/// The whitespace-separated words of `s`, scanning from position `i`, where
/// `start` is the position at which the word being scanned began, or -1
/// where the scan is between words.
pub open spec fn words_in(s: Seq<u8>, i: int, start: int) -> Seq<Seq<u8>>
    decreases s.len() - i,
{
    if i < 0 || i >= s.len() {
        if 0 <= start <= s.len() {
            seq![s.subrange(start, s.len() as int)]
        } else {
            Seq::empty()
        }
    } else if is_ws(s[i]) {
        let done = if 0 <= start <= i {
            seq![s.subrange(start, i)]
        } else {
            Seq::<Seq<u8>>::empty()
        };
        done + words_in(s, i + 1, -1)
    } else {
        words_in(s, i + 1, if start >= 0 { start } else { i })
    }
}

/// The whitespace-separated words of `s`.
pub open spec fn words(s: Seq<u8>) -> Seq<Seq<u8>> {
    words_in(s, 0, -1)
}

proof fn lemma_words_skip_ws(s: Seq<u8>, i: int)
    requires
        0 <= i <= s.len(),
    ensures
        words_in(s, i, -1) == words_in(s, skip_ws(s, i), -1),
    decreases s.len() - i,
{
    if i < s.len() && is_ws(s[i]) {
        lemma_words_skip_ws(s, i + 1);
        assert(Seq::<Seq<u8>>::empty() + words_in(s, i + 1, -1) =~= words_in(s, i + 1, -1));
    }
}

proof fn lemma_words_in_word(s: Seq<u8>, a: int, j: int)
    requires
        0 <= a < j <= skip_word(s, a) <= s.len(),
    ensures
        words_in(s, j, a) == seq![s.subrange(a, skip_word(s, a))] + words_in(s, skip_word(s, a), -1),
    decreases s.len() - j,
{
    let b = skip_word(s, a);
    lemma_skip_word_stops(s, a);
    if j < b {
        lemma_skip_word_inside(s, a, j);
        lemma_words_in_word(s, a, j + 1);
    } else if b < s.len() {
        assert(Seq::<Seq<u8>>::empty() + words_in(s, b + 1, -1) =~= words_in(s, b + 1, -1));
    } else {
        assert(seq![s.subrange(a, b)] + Seq::<Seq<u8>>::empty() =~= seq![s.subrange(a, b)]);
    }
}

proof fn lemma_skip_word_stops(s: Seq<u8>, a: int)
    requires
        0 <= a <= s.len(),
    ensures
        skip_word(s, a) < s.len() ==> is_ws(s[skip_word(s, a)]),
    decreases s.len() - a,
{
    if a < s.len() && !is_ws(s[a]) {
        lemma_skip_word_stops(s, a + 1);
    }
}

proof fn lemma_skip_word_inside(s: Seq<u8>, a: int, j: int)
    requires
        0 <= a <= j < skip_word(s, a) <= s.len(),
    ensures
        !is_ws(s[j]),
    decreases j - a,
{
    if a < j {
        lemma_skip_word_inside(s, a + 1, j);
    }
}

/// The words of `s` from `i` on: the one that the next non-whitespace byte
/// begins, then the words after it.
pub proof fn lemma_next_word(s: Seq<u8>, i: int)
    requires
        0 <= i <= s.len(),
    ensures
        skip_ws(s, i) >= s.len() ==> words_in(s, i, -1).len() == 0,
        skip_ws(s, i) < s.len() ==> words_in(s, i, -1) == seq![
            s.subrange(skip_ws(s, i), skip_word(s, skip_ws(s, i))),
        ] + words_in(s, skip_word(s, skip_ws(s, i)), -1),
{
    lemma_words_skip_ws(s, i);
    lemma_skip_bounds(s, i);
    let a = skip_ws(s, i);
    if a < s.len() {
        lemma_skip_bounds(s, a);
        lemma_words_in_word(s, a, a + 1);
    }
}

/// The position after the last byte of `s[..j]` that is not whitespace.
pub open spec fn trim_end(s: Seq<u8>, j: int) -> int
    decreases j,
{
    if 0 < j <= s.len() && is_ws(s[j - 1]) {
        trim_end(s, j - 1)
    } else {
        j
    }
}

/// `s` without leading and trailing whitespace.
pub open spec fn trim(s: Seq<u8>) -> Seq<u8> {
    let a = skip_ws(s, 0);
    if a >= s.len() {
        Seq::empty()
    } else {
        s.subrange(a, trim_end(s, s.len() as int))
    }
}

pub open spec fn is_digit(b: u8) -> bool {
    48 <= b && b <= 57
}

pub open spec fn all_digits(s: Seq<u8>) -> bool {
    forall|i: int| 0 <= i < s.len() ==> is_digit(#[trigger] s[i])
}

/// The number that the decimal digits `s` write.
pub open spec fn digits_value(s: Seq<u8>) -> int
    decreases s.len(),
{
    if s.len() == 0 {
        0
    } else {
        digits_value(s.drop_last()) * 10 + (s.last() - 48)
    }
}

/// The digits of an unsigned decimal: the text without an optional `+`.
pub open spec fn unsigned_digits(t: Seq<u8>) -> Seq<u8> {
    if t.len() > 0 && t[0] == 43 {
        t.drop_first()
    } else {
        t
    }
}

/// The digits of a signed decimal: the text without an optional `+` or `-`.
pub open spec fn signed_digits(t: Seq<u8>) -> Seq<u8> {
    if t.len() > 0 && (t[0] == 43 || t[0] == 45) {
        t.drop_first()
    } else {
        t
    }
}

/// An unsigned decimal: an optional `+`, then one digit or more, naming a
/// number that fits a `usize`.
pub open spec fn parse_usize(t: Seq<u8>) -> Option<usize> {
    let d = unsigned_digits(t);
    if d.len() > 0 && all_digits(d) && digits_value(d) <= usize::MAX {
        Some(digits_value(d) as usize)
    } else {
        None
    }
}

/// A signed decimal: an optional `+` or `-`, then one digit or more, naming a
/// number that fits an `i32`.
pub open spec fn parse_i32(t: Seq<u8>) -> Option<i32> {
    let d = signed_digits(t);
    let v = if t.len() > 0 && t[0] == 45 {
        -digits_value(d)
    } else {
        digits_value(d)
    };
    if d.len() > 0 && all_digits(d) && i32::MIN <= v <= i32::MAX {
        Some(v as i32)
    } else {
        None
    }
}

proof fn lemma_digits_value_mono(s: Seq<u8>, k: int, m: int)
    requires
        0 <= k <= m <= s.len(),
        all_digits(s.subrange(0, m)),
    ensures
        0 <= digits_value(s.subrange(0, k)) <= digits_value(s.subrange(0, m)),
    decreases m,
{
    if m > 0 {
        assert(s.subrange(0, m).drop_last() =~= s.subrange(0, m - 1));
        assert(is_digit(s.subrange(0, m)[m - 1]));
        assert(all_digits(s.subrange(0, m - 1))) by {
            assert forall|i: int| 0 <= i < m - 1 implies is_digit(#[trigger] s.subrange(0, m - 1)[i]) by {
                assert(s.subrange(0, m - 1)[i] == s.subrange(0, m)[i]);
            }
        }
        if k < m {
            lemma_digits_value_mono(s, k, m - 1);
        } else {
            lemma_digits_value_mono(s, m - 1, m - 1);
        }
    }
}

/// Position of the first byte at or after `i` that is not whitespace.
pub fn skip_ws_at(s: &[u8], i: usize) -> (r: usize)
    requires
        i <= s@.len(),
    ensures
        r == skip_ws(s@, i as int),
{
    let mut j = i;
    while j < s.len() && (s[j] == 32 || (9 <= s[j] && s[j] <= 13))
        invariant
            i <= j <= s@.len(),
            skip_ws(s@, j as int) == skip_ws(s@, i as int),
        decreases s@.len() - j,
    {
        j = j + 1;
    }
    j
}

/// Position of the first whitespace byte at or after `i`.
pub fn skip_word_at(s: &[u8], i: usize) -> (r: usize)
    requires
        i <= s@.len(),
    ensures
        r == skip_word(s@, i as int),
{
    let mut j = i;
    while j < s.len() && !(s[j] == 32 || (9 <= s[j] && s[j] <= 13))
        invariant
            i <= j <= s@.len(),
            skip_word(s@, j as int) == skip_word(s@, i as int),
        decreases s@.len() - j,
    {
        j = j + 1;
    }
    j
}

/// Position after the last byte of `s[..j]` that is not whitespace.
pub fn trim_end_at(s: &[u8], j: usize) -> (r: usize)
    requires
        j <= s@.len(),
    ensures
        r == trim_end(s@, j as int),
{
    let mut k = j;
    while k > 0 && (s[k - 1] == 32 || (9 <= s[k - 1] && s[k - 1] <= 13))
        invariant
            k <= j <= s@.len(),
            trim_end(s@, k as int) == trim_end(s@, j as int),
        decreases k,
    {
        k = k - 1;
    }
    k
}

/// The texts in `s` at the ranges `r`.
pub open spec fn range_texts(s: Seq<u8>, r: Seq<(usize, usize)>) -> Seq<Seq<u8>> {
    Seq::new(r.len(), |k: int| s.subrange(r[k].0 as int, r[k].1 as int))
}

/// The ranges `(start, end)` of the whitespace-separated words of `s`, in
/// order.
pub fn word_ranges(s: &[u8]) -> (r: Vec<(usize, usize)>)
    ensures
        words(s@) == range_texts(s@, r@),
        forall|k: int| 0 <= k < r@.len() ==> (#[trigger] r@[k]).0 <= r@[k].1 <= s@.len(),
{
    let mut r: Vec<(usize, usize)> = Vec::new();
    let mut i: usize = 0;
    let mut a = skip_ws_at(s, 0);
    proof {
        lemma_skip_bounds(s@, 0);
        assert(words(s@) =~= range_texts(s@, r@) + words_in(s@, 0, -1));
    }
    while a < s.len()
        invariant
            i <= a <= s@.len(),
            a == skip_ws(s@, i as int),
            words(s@) == range_texts(s@, r@) + words_in(s@, i as int, -1),
            forall|k: int| 0 <= k < r@.len() ==> (#[trigger] r@[k]).0 <= r@[k].1 <= s@.len(),
        decreases s@.len() - i,
    {
        proof {
            lemma_next_word(s@, i as int);
            lemma_skip_bounds(s@, i as int);
            lemma_skip_bounds(s@, a as int);
        }
        let b = skip_word_at(s, a);
        let ghost before = r@;
        r.push((a, b));
        assert(range_texts(s@, r@) =~= range_texts(s@, before) + seq![s@.subrange(a as int, b as int)]);
        i = b;
        a = skip_ws_at(s, b);
        proof {
            lemma_skip_bounds(s@, b as int);
        }
    }
    proof {
        lemma_next_word(s@, i as int);
        assert(range_texts(s@, r@) + words_in(s@, i as int, -1) =~= range_texts(s@, r@));
    }
    r
}

/// A copy of `s[a..b]`.
pub fn copy_range(s: &[u8], a: usize, b: usize) -> (r: Vec<u8>)
    requires
        a <= b <= s@.len(),
    ensures
        r@ == s@.subrange(a as int, b as int),
{
    let mut r: Vec<u8> = Vec::new();
    let mut k = a;
    while k < b
        invariant
            a <= k <= b <= s@.len(),
            r@ == s@.subrange(a as int, k as int),
        decreases b - k,
    {
        r.push(s[k]);
        k = k + 1;
    }
    r
}

/// `s` without leading and trailing whitespace.
pub fn trim_copy(s: &[u8]) -> (r: Vec<u8>)
    ensures
        r@ == trim(s@),
{
    let a = skip_ws_at(s, 0);
    if a >= s.len() {
        return Vec::new();
    }
    proof {
        lemma_skip_bounds(s@, 0);
    }
    let e = trim_end_at(s, s.len());
    proof {
        lemma_trim_end_bound(s@, a as int, s@.len() as int);
    }
    copy_range(s, a, e)
}

proof fn lemma_trim_end_bound(s: Seq<u8>, a: int, j: int)
    requires
        0 <= a < j <= s.len(),
        !is_ws(s[a]),
    ensures
        a < trim_end(s, j) <= j,
    decreases j,
{
    if is_ws(s[j - 1]) {
        lemma_trim_end_bound(s, a, j - 1);
    }
}

/// The value of the decimal digits `s[a..b]` where it is at most `limit`;
/// `None` where some byte is no digit or the value exceeds `limit`.
fn digits_at_most(s: &[u8], a: usize, b: usize, limit: u64) -> (r: Option<u64>)
    requires
        a <= b <= s@.len(),
    ensures
        r == (if all_digits(s@.subrange(a as int, b as int)) && digits_value(s@.subrange(a as int, b as int)) <= limit {
            Some(digits_value(s@.subrange(a as int, b as int)) as u64)
        } else {
            None::<u64>
        }),
        r matches Some(v) ==> v == digits_value(s@.subrange(a as int, b as int)) && v <= limit,
{
    let ghost d = s@.subrange(a as int, b as int);
    let mut acc: u64 = 0;
    let mut k = a;
    while k < b
        invariant
            a <= k <= b <= s@.len(),
            d == s@.subrange(a as int, b as int),
            all_digits(d.subrange(0, k - a)),
            acc == digits_value(d.subrange(0, k - a)),
            acc <= limit,
        decreases b - k,
    {
        let c = s[k];
        assert(d.subrange(0, k - a + 1).drop_last() =~= d.subrange(0, k - a));
        if c < 48 || c > 57 {
            assert(!is_digit(d[k - a]));
            return None;
        }
        assert(all_digits(d.subrange(0, k - a + 1)));
        let next = match acc.checked_mul(10) {
            Some(m) => m.checked_add((c - 48) as u64),
            None => None,
        };
        match next {
            Some(v) if v <= limit => {
                acc = v;
            },
            _ => {
                proof {
                    if all_digits(d) {
                        lemma_digits_value_mono(d, k - a + 1, d.len() as int);
                        assert(d.subrange(0, d.len() as int) =~= d);
                    }
                }
                return None;
            },
        }
        k = k + 1;
    }
    assert(d.subrange(0, k - a) =~= d);
    Some(acc)
}

/// Parses `s[a..b]` as an unsigned decimal; see `parse_usize`.
pub fn parse_usize_at(s: &[u8], a: usize, b: usize) -> (r: Option<usize>)
    requires
        a <= b <= s@.len(),
    ensures
        r == parse_usize(s@.subrange(a as int, b as int)),
{
    let ghost t = s@.subrange(a as int, b as int);
    let start = if a < b && s[a] == 43 { a + 1 } else { a };
    assert(unsigned_digits(t) =~= s@.subrange(start as int, b as int));
    if start == b {
        return None;
    }
    match digits_at_most(s, start, b, usize::MAX as u64) {
        Some(v) => Some(v as usize),
        None => None,
    }
}

/// Parses `s[a..b]` as a signed decimal; see `parse_i32`.
pub fn parse_i32_at(s: &[u8], a: usize, b: usize) -> (r: Option<i32>)
    requires
        a <= b <= s@.len(),
    ensures
        r == parse_i32(s@.subrange(a as int, b as int)),
{
    let ghost t = s@.subrange(a as int, b as int);
    let neg = a < b && s[a] == 45;
    let start = if a < b && (s[a] == 43 || s[a] == 45) { a + 1 } else { a };
    assert(signed_digits(t) =~= s@.subrange(start as int, b as int));
    if start == b {
        return None;
    }
    let limit: u64 = if neg { 2147483648 } else { 2147483647 };
    match digits_at_most(s, start, b, limit) {
        Some(v) => {
            if neg {
                Some((0 - (v as i64)) as i32)
            } else {
                Some(v as i32)
            }
        },
        None => None,
    }
}

} // verus!
