//! Character sequences: the searching, trimming and converting that the
//! parsers are built on.
//!
//! Every specification here speaks of a string through its view, the
//! sequence of its characters. Positions are counted in characters, never in
//! bytes.

use vstd::prelude::*;
use vstd::string::StrSliceExecFns;

verus! {

/// The characters of an optional string.
pub open spec fn option_view(s: Option<String>) -> Option<Seq<char>> {
    match s {
        Some(t) => Some(t@),
        None => None,
    }
}

/// A copy of an optional string.
pub fn clone_option(s: &Option<String>) -> (r: Option<String>)
    ensures
        option_view(r) == option_view(*s),
{
    match s {
        Some(t) => Some(t.clone()),
        None => None,
    }
}

/// `pat` stands in `s` at position `i`.
pub open spec fn occurs_at(s: Seq<char>, pat: Seq<char>, i: int) -> bool {
    &&& 0 <= i
    &&& i + pat.len() <= s.len()
    &&& s.subrange(i, i + pat.len()) == pat
}

/// `pat` stands somewhere in `s`.
pub open spec fn contains(s: Seq<char>, pat: Seq<char>) -> bool {
    exists|i: int| occurs_at(s, pat, i)
}

/// `i` is the leftmost position at which `pat` stands in `s`.
pub open spec fn is_first_occurrence(s: Seq<char>, pat: Seq<char>, i: int) -> bool {
    &&& occurs_at(s, pat, i)
    &&& forall|j: int| 0 <= j < i ==> !occurs_at(s, pat, j)
}

/// The leftmost position at which `pat` stands in `s`, if it stands there at
/// all.
pub open spec fn index_of(s: Seq<char>, pat: Seq<char>) -> Option<int> {
    if contains(s, pat) {
        Some(choose|i: int| is_first_occurrence(s, pat, i))
    } else {
        None
    }
}

/// `s` cut in two at the leftmost occurrence of `pat`: what stands before it
/// and what stands after it.
pub open spec fn split_once(s: Seq<char>, pat: Seq<char>) -> Option<(Seq<char>, Seq<char>)> {
    match index_of(s, pat) {
        Some(i) => Some((s.take(i), s.skip(i + pat.len()))),
        None => None,
    }
}

/// Among the occurrences of `pat` in `s` there is a leftmost one.
pub proof fn lemma_first_occurrence_exists(s: Seq<char>, pat: Seq<char>, i: int)
    requires
        occurs_at(s, pat, i),
    ensures
        exists|k: int| 0 <= k <= i && is_first_occurrence(s, pat, k),
    decreases i,
{
    if exists|j: int| 0 <= j < i && occurs_at(s, pat, j) {
        let j = choose|j: int| 0 <= j < i && occurs_at(s, pat, j);
        lemma_first_occurrence_exists(s, pat, j);
    } else {
        assert(is_first_occurrence(s, pat, i));
    }
}

/// A leftmost occurrence is the one that `index_of` names.
pub proof fn lemma_index_of_first(s: Seq<char>, pat: Seq<char>, i: int)
    requires
        is_first_occurrence(s, pat, i),
    ensures
        index_of(s, pat) == Some(i),
        split_once(s, pat) == Some((s.take(i), s.skip(i + pat.len()))),
{
    let k = choose|k: int| is_first_occurrence(s, pat, k);
    if k < i {
        assert(!occurs_at(s, pat, k));
    } else if i < k {
        assert(!occurs_at(s, pat, i));
    }
}

/// Whatever `index_of` names is a leftmost occurrence.
pub proof fn lemma_index_of_some(s: Seq<char>, pat: Seq<char>)
    requires
        contains(s, pat),
    ensures
        index_of(s, pat) is Some,
        is_first_occurrence(s, pat, index_of(s, pat)->0),
{
    let i = choose|i: int| occurs_at(s, pat, i);
    lemma_first_occurrence_exists(s, pat, i);
}

/// Collects the characters of `s`.
pub fn chars_of(s: &str) -> (v: Vec<char>)
    ensures
        v@ == s@,
{
    broadcast use vstd::string::axiom_spec_iter;

    let mut v: Vec<char> = Vec::new();
    for c in it: s.chars()
        invariant
            it.seq() == s@,
            v@ == s@.take(it.index()),
    {
        v.push(c);
    }
    v
}

/// Tells whether `pat` stands in `v` at position `i`.
pub fn matches_at(v: &Vec<char>, i: usize, pat: &Vec<char>) -> (r: bool)
    ensures
        r == occurs_at(v@, pat@, i as int),
{
    let n = pat.len();
    if n > v.len() || i > v.len() - n {
        return false;
    }
    let mut k: usize = 0;
    while k < n
        invariant
            n == pat.len(),
            i + n <= v.len(),
            k <= n,
            forall|j: int| 0 <= j < k ==> v@[i + j] == pat@[j],
        decreases n - k,
    {
        if v[i + k] != pat[k] {
            return false;
        }
        k += 1;
    }
    assert(v@.subrange(i as int, i + n) =~= pat@);
    true
}

/// Finds the leftmost occurrence of `pat` in the part of `v` between `lo` and
/// `hi`. The position returned counts from the start of `v`.
pub fn find_in(v: &Vec<char>, lo: usize, hi: usize, pat: &Vec<char>) -> (r: Option<usize>)
    requires
        lo <= hi <= v.len(),
    ensures
        match r {
            Some(i) => lo <= i && i + pat.len() <= hi && is_first_occurrence(
                v@.subrange(lo as int, hi as int),
                pat@,
                i - lo,
            ),
            None => !contains(v@.subrange(lo as int, hi as int), pat@),
        },
        r == match index_of(v@.subrange(lo as int, hi as int), pat@) {
            Some(k) => Some((lo + k) as usize),
            None => None,
        },
{
    let ghost s = v@.subrange(lo as int, hi as int);
    let n = pat.len();
    if n > hi - lo {
        return None;
    }
    let last = hi - n;
    let mut i: usize = lo;
    loop
        invariant
            n == pat.len(),
            lo <= i <= last,
            last == hi - n,
            lo <= hi <= v.len(),
            s == v@.subrange(lo as int, hi as int),
            forall|j: int| 0 <= j < i - lo ==> !occurs_at(s, pat@, j),
        decreases last - i,
    {
        if matches_at(v, i, pat) {
            assert(s.subrange(i - lo, i - lo + n) =~= v@.subrange(i as int, i + n));
            proof {
                lemma_index_of_first(s, pat@, i - lo);
            }
            return Some(i);
        }
        assert(!occurs_at(s, pat@, i - lo)) by {
            if occurs_at(s, pat@, i - lo) {
                assert(s.subrange(i - lo, i - lo + n) =~= v@.subrange(i as int, i + n));
            }
        }
        if i == last {
            return None;
        }
        i += 1;
    }
}

/// Cuts the part of `v` between `lo` and `hi` in two at the leftmost
/// occurrence of `pat` in it: says where the occurrence begins and where it
/// ends.
pub fn split_in(v: &Vec<char>, lo: usize, hi: usize, pat: &Vec<char>) -> (r: Option<(usize, usize)>)
    requires
        lo <= hi <= v.len(),
    ensures
        match r {
            Some((i, j)) => lo <= i <= j <= hi && j == i + pat.len() && split_once(
                v@.subrange(lo as int, hi as int),
                pat@,
            ) == Some((v@.subrange(lo as int, i as int), v@.subrange(j as int, hi as int))),
            None => split_once(v@.subrange(lo as int, hi as int), pat@) is None,
        },
{
    let ghost s = v@.subrange(lo as int, hi as int);
    match find_in(v, lo, hi, pat) {
        None => None,
        Some(i) => {
            assert(s.take(i - lo) =~= v@.subrange(lo as int, i as int));
            assert(s.skip(i - lo + pat.len()) =~= v@.subrange(i + pat.len(), hi as int));
            Some((i, i + pat.len()))
        },
    }
}

/// Cuts `s` in two at the leftmost occurrence of `pat`.
pub fn split_at_first(s: &str, pat: &Vec<char>) -> (r: Option<(String, String)>)
    ensures
        match r {
            Some((before, after)) => split_once(s@, pat@) == Some((before@, after@)),
            None => split_once(s@, pat@) is None,
        },
{
    let v = chars_of(s);
    let n = v.len();
    assert(v@.subrange(0, n as int) =~= v@);
    match split_in(&v, 0, n, pat) {
        None => None,
        Some((i, j)) => Some((substring(s, 0, i), substring(s, j, n))),
    }
}

/// Tells whether two strings hold the same characters.
pub fn str_eq(a: &str, b: &str) -> (r: bool)
    ensures
        r == (a@ == b@),
{
    let x = chars_of(a);
    let y = chars_of(b);
    if x.len() != y.len() {
        return false;
    }
    let mut k: usize = 0;
    while k < x.len()
        invariant
            x@ == a@,
            y@ == b@,
            x.len() == y.len(),
            k <= x.len(),
            forall|j: int| 0 <= j < k ==> x@[j] == y@[j],
        decreases x.len() - k,
    {
        if x[k] != y[k] {
            return false;
        }
        k += 1;
    }
    assert(x@ =~= y@);
    true
}

/// The characters of `s` from position `from` up to, not including, `to`, as
/// a string of their own.
pub fn substring(s: &str, from: usize, to: usize) -> (r: String)
    requires
        from <= to <= s@.len(),
    ensures
        r@ == s@.subrange(from as int, to as int),
{
    s.substring_char(from, to).to_owned()
}

/// The characters that count as whitespace: those with the Unicode property
/// `White_Space`.
pub open spec fn is_whitespace(c: char) -> bool {
    let n = c as u32;
    ||| 0x09 <= n <= 0x0D
    ||| n == 0x20
    ||| n == 0x85
    ||| n == 0xA0
    ||| n == 0x1680
    ||| 0x2000 <= n <= 0x200A
    ||| n == 0x2028
    ||| n == 0x2029
    ||| n == 0x202F
    ||| n == 0x205F
    ||| n == 0x3000
}

/// `s` without the whitespace it begins with.
pub open spec fn trim_start(s: Seq<char>) -> Seq<char>
    decreases s.len(),
{
    if s.len() > 0 && is_whitespace(s[0]) {
        trim_start(s.skip(1))
    } else {
        s
    }
}

/// `s` without the whitespace it ends with.
pub open spec fn trim_end(s: Seq<char>) -> Seq<char>
    decreases s.len(),
{
    if s.len() > 0 && is_whitespace(s.last()) {
        trim_end(s.drop_last())
    } else {
        s
    }
}

/// `s` without the whitespace at either end.
pub open spec fn trim(s: Seq<char>) -> Seq<char> {
    trim_end(trim_start(s))
}

/// Tells whether `c` is whitespace.
pub fn char_is_whitespace(c: char) -> (r: bool)
    ensures
        r == is_whitespace(c),
{
    let n: u32 = c as u32;
    (0x09 <= n && n <= 0x0D) || n == 0x20 || n == 0x85 || n == 0xA0 || n == 0x1680 || (0x2000 <= n
        && n <= 0x200A) || n == 0x2028 || n == 0x2029 || n == 0x202F || n == 0x205F || n == 0x3000
}

/// Narrows the part of `v` between `lo` and `hi` to what is left of it when
/// the whitespace at either end is taken away.
pub fn trim_range(v: &Vec<char>, lo: usize, hi: usize) -> (r: (usize, usize))
    requires
        lo <= hi <= v.len(),
    ensures
        lo <= r.0 <= r.1 <= hi,
        v@.subrange(r.0 as int, r.1 as int) == trim(v@.subrange(lo as int, hi as int)),
{
    let mut a: usize = lo;
    while a < hi && char_is_whitespace(v[a])
        invariant
            lo <= a <= hi <= v.len(),
            trim_start(v@.subrange(lo as int, hi as int)) == trim_start(
                v@.subrange(a as int, hi as int),
            ),
        decreases hi - a,
    {
        assert(v@.subrange(a as int, hi as int).skip(1) =~= v@.subrange(a + 1, hi as int));
        a += 1;
    }
    let mut b: usize = hi;
    while a < b && char_is_whitespace(v[b - 1])
        invariant
            a <= b <= hi <= v.len(),
            trim_end(v@.subrange(a as int, hi as int)) == trim_end(v@.subrange(a as int, b as int)),
        decreases b - a,
    {
        assert(v@.subrange(a as int, b as int).drop_last() =~= v@.subrange(a as int, b - 1));
        b -= 1;
    }
    (a, b)
}

/// The lowercase form of a string, as Unicode defines it for whole strings.
pub uninterp spec fn lowercase_of(s: Seq<char>) -> Seq<char>;

/// Calls `str::to_lowercase`. Nothing is proved of the result: the contract
/// only gives it its name, `lowercase_of`.
#[verifier::external_body]
pub(crate) fn to_lowercase(s: &str) -> (r: String)
    ensures
        r@ == lowercase_of(s@),
{
    s.to_lowercase()
}

/// The first character of `pat` does not come again in it.
pub open spec fn starts_once(pat: Seq<char>) -> bool {
    &&& pat.len() > 0
    &&& forall|k: int| 0 < k < pat.len() ==> #[trigger] pat[k] != pat[0]
}

/// Where `a` holds no `pat`, and the first character of `pat` does not come
/// again in it, the first `pat` of `a`, `pat` and `b` put together is the one
/// in the middle.
pub proof fn lemma_split_at_pattern(a: Seq<char>, pat: Seq<char>, b: Seq<char>)
    requires
        !contains(a, pat),
        starts_once(pat),
    ensures
        is_first_occurrence(a + pat + b, pat, a.len() as int),
        split_once(a + pat + b, pat) == Some((a, b)),
{
    let s = a + pat + b;
    let n = a.len() as int;
    let m = pat.len() as int;
    assert(s.subrange(n, n + m) =~= pat);
    assert forall|j: int| 0 <= j < n implies !occurs_at(s, pat, j) by {
        if occurs_at(s, pat, j) {
            let w = s.subrange(j, j + m);
            if j + m <= n {
                assert(a.subrange(j, j + m) =~= w);
                assert(occurs_at(a, pat, j));
            } else {
                let k = n - j;
                assert(w[k] == pat[k]);
            }
        }
    }
    lemma_index_of_first(s, pat, n);
}

/// Where `a` holds no `c`, the first `c` of `a`, `c` and `b` put together is
/// the one in the middle.
pub proof fn lemma_split_at_char(a: Seq<char>, c: char, b: Seq<char>)
    requires
        !contains(a, seq![c]),
    ensures
        is_first_occurrence(a + seq![c] + b, seq![c], a.len() as int),
        split_once(a + seq![c] + b, seq![c]) == Some((a, b)),
{
    lemma_split_at_pattern(a, seq![c], b);
}

/// The ten decimal digits.
pub open spec fn is_digit(c: char) -> bool {
    0x30 <= c as u32 <= 0x39
}

/// The number that a digit stands for.
pub open spec fn digit_value(c: char) -> nat {
    if is_digit(c) {
        (c as u32 - 0x30) as nat
    } else {
        0
    }
}

/// Every character of `s` is a digit.
pub open spec fn all_digits(s: Seq<char>) -> bool {
    forall|i: int| 0 <= i < s.len() ==> is_digit(#[trigger] s[i])
}

/// The number that a run of digits stands for in base ten.
pub open spec fn decimal_value(s: Seq<char>) -> nat
    decreases s.len(),
{
    if s.len() == 0 {
        0
    } else {
        decimal_value(s.drop_last()) * 10 + digit_value(s.last())
    }
}

/// The number below 65536 that a text stands for: one digit or more, with
/// nothing around them but a `+` that may stand in front.
pub open spec fn parse_u16_spec(s: Seq<char>) -> Option<u16> {
    let digits = if s.len() > 0 && s[0] == '+' {
        s.skip(1)
    } else {
        s
    };
    if digits.len() > 0 && all_digits(digits) && decimal_value(digits) <= u16::MAX {
        Some(decimal_value(digits) as u16)
    } else {
        None
    }
}

/// A run of digits stands for no less than any run that it begins with.
pub proof fn lemma_decimal_value_grows(s: Seq<char>, k: int)
    requires
        0 <= k <= s.len(),
    ensures
        decimal_value(s.take(k)) <= decimal_value(s),
    decreases s.len(),
{
    if k == s.len() {
        assert(s.take(k) =~= s);
    } else {
        assert(s.drop_last().take(k) =~= s.take(k));
        lemma_decimal_value_grows(s.drop_last(), k);
    }
}

/// Reads the part of `v` between `lo` and `hi` as a number below 65536.
#[verifier::loop_isolation(false)]
pub fn parse_u16(v: &Vec<char>, lo: usize, hi: usize) -> (r: Option<u16>)
    requires
        lo <= hi <= v.len(),
    ensures
        r == parse_u16_spec(v@.subrange(lo as int, hi as int)),
{
    let ghost s = v@.subrange(lo as int, hi as int);
    let start: usize = if lo < hi && v[lo] == '+' {
        lo + 1
    } else {
        lo
    };
    let ghost digits = v@.subrange(start as int, hi as int);
    assert(digits =~= if s.len() > 0 && s[0] == '+' {
        s.skip(1)
    } else {
        s
    });
    if start == hi {
        return None;
    }
    let mut acc: u32 = 0;
    let mut i: usize = start;
    while i < hi
        invariant
            start <= i <= hi <= v.len(),
            digits == v@.subrange(start as int, hi as int),
            all_digits(digits.take(i - start)),
            acc == decimal_value(digits.take(i - start)),
            acc <= u16::MAX,
        decreases hi - i,
    {
        let n: u32 = v[i] as u32;
        if n < 0x30 || n > 0x39 {
            assert(!is_digit(digits[i - start]));
            return None;
        }
        let ghost next = digits.take(i - start + 1);
        assert(next.drop_last() =~= digits.take(i - start));
        assert(all_digits(next)) by {
            assert forall|j: int| 0 <= j < next.len() implies is_digit(#[trigger] next[j]) by {
                if j < i - start {
                    assert(next[j] == digits.take(i - start)[j]);
                }
            }
        }
        let grown: u32 = acc * 10 + (n - 0x30);
        if grown > 65535 {
            proof {
                lemma_decimal_value_grows(digits, i - start + 1);
            }
            return None;
        }
        acc = grown;
        i += 1;
    }
    assert(digits.take(i - start) =~= digits);
    Some(acc as u16)
}

} // verus!
