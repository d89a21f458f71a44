//! Character-level text handling: whitespace trimming, pattern search,
//! splitting and decimal numbers, each specified over `Seq<char>`.
use vstd::prelude::*;

verus! {

// ---------------------------------------------------------------------------
// Specifications
// ---------------------------------------------------------------------------

/// The characters with the Unicode `White_Space` property (what `char::is_whitespace` accepts).
pub open spec fn is_ws(c: char) -> bool {
    let x = c as u32;
    ||| 9 <= x <= 13
    ||| x == 32
    ||| x == 0x85
    ||| x == 0xA0
    ||| x == 0x1680
    ||| 0x2000 <= x <= 0x200A
    ||| x == 0x2028
    ||| x == 0x2029
    ||| x == 0x202F
    ||| x == 0x205F
    ||| x == 0x3000
}

/// `s` without its leading whitespace.
pub open spec fn trim_start(s: Seq<char>) -> Seq<char>
    decreases s.len(),
{
    if s.len() > 0 && is_ws(s[0]) {
        trim_start(s.drop_first())
    } else {
        s
    }
}

/// `s` without its trailing whitespace.
pub open spec fn trim_end(s: Seq<char>) -> Seq<char>
    decreases s.len(),
{
    if s.len() > 0 && is_ws(s.last()) {
        trim_end(s.drop_last())
    } else {
        s
    }
}

/// `s` without leading and trailing whitespace (`str::trim`).
pub open spec fn trim(s: Seq<char>) -> Seq<char> {
    trim_end(trim_start(s))
}

/// `s` begins with `p`.
pub open spec fn starts_with(s: Seq<char>, p: Seq<char>) -> bool {
    p.len() <= s.len() && s.take(p.len() as int) == p
}

/// `s` ends with `p`.
pub open spec fn ends_with(s: Seq<char>, p: Seq<char>) -> bool {
    p.len() <= s.len() && s.skip(s.len() - p.len()) == p
}

/// `s` with every leading repetition of the non-empty pattern `p` removed
/// (`str::trim_start_matches`).
pub open spec fn strip_prefixes(s: Seq<char>, p: Seq<char>) -> Seq<char>
    decreases s.len(),
{
    if p.len() > 0 && starts_with(s, p) {
        strip_prefixes(s.skip(p.len() as int), p)
    } else {
        s
    }
}

/// `s` with every trailing repetition of the non-empty pattern `p` removed
/// (`str::trim_end_matches`).
pub open spec fn strip_suffixes(s: Seq<char>, p: Seq<char>) -> Seq<char>
    decreases s.len(),
{
    if p.len() > 0 && ends_with(s, p) {
        strip_suffixes(s.take(s.len() - p.len()), p)
    } else {
        s
    }
}

/// Index of the leftmost occurrence of the non-empty pattern `p` in `s`,
/// or `s.len()` when there is none.
pub open spec fn find(s: Seq<char>, p: Seq<char>) -> nat
    decreases s.len(),
{
    if s.len() < p.len() || p.len() == 0 {
        s.len()
    } else if s.take(p.len() as int) == p {
        0
    } else {
        1 + find(s.drop_first(), p)
    }
}

/// `s` contains the non-empty pattern `p`.
pub open spec fn contains(s: Seq<char>, p: Seq<char>) -> bool {
    find(s, p) < s.len()
}

/// The pieces of `s` between the occurrences of the non-empty pattern `p`,
/// searched left to right (`str::split`); there is always at least one piece.
pub open spec fn split(s: Seq<char>, p: Seq<char>) -> Seq<Seq<char>>
    decreases s.len(),
{
    let i = find(s, p);
    if i >= s.len() {
        seq![s]
    } else {
        proof {
            lemma_find_match(s, p);
        }
        seq![s.take(i as int)] + split(s.skip((i + p.len()) as int), p)
    }
}

/// Index of the first whitespace character of `s`, or `s.len()`.
pub open spec fn find_ws(s: Seq<char>) -> nat
    decreases s.len(),
{
    if s.len() == 0 || is_ws(s[0]) {
        0
    } else {
        1 + find_ws(s.drop_first())
    }
}

/// The non-empty runs of non-whitespace characters of `s` (`str::split_whitespace`).
pub open spec fn split_ws(s: Seq<char>) -> Seq<Seq<char>>
    decreases s.len(),
{
    let t = trim_start(s);
    if t.len() == 0 {
        seq![]
    } else {
        proof {
            lemma_trim_start(s);
            lemma_find_ws(t);
        }
        let e = find_ws(t);
        seq![t.take(e as int)] + split_ws(t.skip(e as int))
    }
}

pub open spec fn is_digit(c: char) -> bool {
    48 <= (c as u32) <= 57
}

pub open spec fn digit_value(c: char) -> nat {
    ((c as u32) - 48) as nat
}

pub open spec fn all_digits(s: Seq<char>) -> bool {
    forall|i: int| 0 <= i < s.len() ==> is_digit(#[trigger] s[i])
}

/// The number that the decimal digits `s` denote.
pub open spec fn digits_value(s: Seq<char>) -> nat
    decreases s.len(),
{
    if s.len() == 0 {
        0
    } else {
        digits_value(s.drop_last()) * 10 + digit_value(s.last())
    }
}

/// What `str::parse::<u8>` gives: an optional `+`, then decimal digits whose value fits.
pub open spec fn parse_u8(s: Seq<char>) -> Option<u8> {
    let d = if s.len() >= 2 && s[0] == '+' { s.drop_first() } else { s };
    if d.len() > 0 && all_digits(d) && digits_value(d) <= 255 {
        Some(digits_value(d) as u8)
    } else {
        None
    }
}

/// What `str::parse::<i32>` gives: an optional sign, then decimal digits whose value fits.
pub open spec fn parse_i32(s: Seq<char>) -> Option<i32> {
    let neg = s.len() >= 2 && s[0] == '-';
    let d = if s.len() >= 2 && (s[0] == '+' || s[0] == '-') { s.drop_first() } else { s };
    if d.len() > 0 && all_digits(d) {
        if neg && digits_value(d) <= 0x8000_0000 {
            Some((-digits_value(d)) as i32)
        } else if !neg && digits_value(d) <= 0x7fff_ffff {
            Some(digits_value(d) as i32)
        } else {
            None
        }
    } else {
        None
    }
}

pub open spec fn digit_char(d: nat) -> char {
    if d == 0 { '0' }
    else if d == 1 { '1' }
    else if d == 2 { '2' }
    else if d == 3 { '3' }
    else if d == 4 { '4' }
    else if d == 5 { '5' }
    else if d == 6 { '6' }
    else if d == 7 { '7' }
    else if d == 8 { '8' }
    else { '9' }
}

/// The decimal notation of `n`, without leading zeros (what `Display` prints for an integer).
pub open spec fn decimal(n: nat) -> Seq<char>
    decreases n,
{
    if n < 10 {
        seq![digit_char(n)]
    } else {
        decimal(n / 10).push(digit_char(n % 10))
    }
}

// ---------------------------------------------------------------------------
// Lemmas
// ---------------------------------------------------------------------------

pub proof fn lemma_find_bound(s: Seq<char>, p: Seq<char>)
    ensures
        find(s, p) <= s.len(),
    decreases s.len(),
{
    if !(s.len() < p.len() || p.len() == 0) && s.take(p.len() as int) != p {
        lemma_find_bound(s.drop_first(), p);
    }
}

/// A found occurrence lies inside `s` and really is `p`.
pub proof fn lemma_find_match(s: Seq<char>, p: Seq<char>)
    ensures
        find(s, p) <= s.len(),
        find(s, p) < s.len() ==> p.len() > 0 && find(s, p) + p.len() <= s.len()
            && s.subrange(find(s, p) as int, (find(s, p) + p.len()) as int) == p,
    decreases s.len(),
{
    lemma_find_bound(s, p);
    if !(s.len() < p.len() || p.len() == 0) && s.take(p.len() as int) != p {
        lemma_find_match(s.drop_first(), p);
        let i = find(s, p);
        if i < s.len() {
            assert(s.subrange(i as int, (i + p.len()) as int) =~= s.drop_first().subrange(
                i - 1,
                i - 1 + p.len(),
            ));
        }
    }
}

pub proof fn lemma_trim_start(s: Seq<char>)
    ensures
        trim_start(s).len() <= s.len(),
        trim_start(s) == s.skip(s.len() - trim_start(s).len()),
        trim_start(s).len() > 0 ==> !is_ws(trim_start(s)[0]),
        forall|i: int| 0 <= i < s.len() - trim_start(s).len() ==> is_ws(#[trigger] s[i]),
    decreases s.len(),
{
    if s.len() > 0 && is_ws(s[0]) {
        lemma_trim_start(s.drop_first());
        let t = trim_start(s);
        assert(s.drop_first().skip(s.drop_first().len() - t.len()) =~= s.skip(s.len() - t.len()));
        assert forall|i: int| 0 <= i < s.len() - t.len() implies is_ws(#[trigger] s[i]) by {
            if i > 0 {
                assert(s[i] == s.drop_first()[i - 1]);
            }
        }
    } else {
        assert(s.skip(0) =~= s);
    }
}

pub proof fn lemma_trim_end(s: Seq<char>)
    ensures
        trim_end(s).len() <= s.len(),
        trim_end(s) == s.take(trim_end(s).len() as int),
        trim_end(s).len() > 0 ==> !is_ws(trim_end(s).last()),
        forall|i: int| trim_end(s).len() <= i < s.len() ==> is_ws(#[trigger] s[i]),
    decreases s.len(),
{
    if s.len() > 0 && is_ws(s.last()) {
        lemma_trim_end(s.drop_last());
        let t = trim_end(s);
        assert(s.drop_last().take(t.len() as int) =~= s.take(t.len() as int));
        assert forall|i: int| t.len() <= i < s.len() implies is_ws(#[trigger] s[i]) by {
            if i < s.len() - 1 {
                assert(s[i] == s.drop_last()[i]);
            }
        }
    } else {
        assert(s.take(s.len() as int) =~= s);
    }
}

/// Trimming a range whose edges are not whitespace gives the range back.
pub proof fn lemma_trim_exact(s: Seq<char>, lo: int, hi: int)
    requires
        0 <= lo <= hi <= s.len(),
        forall|i: int| 0 <= i < lo ==> is_ws(#[trigger] s[i]),
        forall|i: int| hi <= i < s.len() ==> is_ws(#[trigger] s[i]),
        lo < hi ==> !is_ws(s[lo]) && !is_ws(s[hi - 1]),
        lo == hi ==> hi == s.len(),
    ensures
        trim_start(s) == s.skip(lo),
        trim(s) == s.subrange(lo, hi),
{
    lemma_trim_start_exact(s, lo);
    lemma_trim_end_exact(s.skip(lo), hi - lo);
    assert(s.skip(lo).take(hi - lo) =~= s.subrange(lo, hi));
}

pub proof fn lemma_trim_start_exact(s: Seq<char>, lo: int)
    requires
        0 <= lo <= s.len(),
        forall|i: int| 0 <= i < lo ==> is_ws(#[trigger] s[i]),
        lo < s.len() ==> !is_ws(s[lo]),
    ensures
        trim_start(s) == s.skip(lo),
    decreases lo,
{
    if lo == 0 {
        assert(s.skip(0) =~= s);
    } else {
        assert forall|i: int| 0 <= i < lo - 1 implies is_ws(#[trigger] s.drop_first()[i]) by {
            assert(s.drop_first()[i] == s[i + 1]);
        }
        lemma_trim_start_exact(s.drop_first(), lo - 1);
        assert(s.drop_first().skip(lo - 1) =~= s.skip(lo));
    }
}

pub proof fn lemma_trim_end_exact(s: Seq<char>, hi: int)
    requires
        0 <= hi <= s.len(),
        forall|i: int| hi <= i < s.len() ==> is_ws(#[trigger] s[i]),
        hi > 0 ==> !is_ws(s[hi - 1]),
    ensures
        trim_end(s) == s.take(hi),
    decreases s.len() - hi,
{
    if hi == s.len() {
        assert(s.take(hi) =~= s);
    } else {
        assert forall|i: int| hi <= i < s.len() - 1 implies is_ws(#[trigger] s.drop_last()[i]) by {
            assert(s.drop_last()[i] == s[i]);
        }
        lemma_trim_end_exact(s.drop_last(), hi);
        assert(s.drop_last().take(hi) =~= s.take(hi));
    }
}

pub proof fn lemma_find_ws(s: Seq<char>)
    ensures
        find_ws(s) <= s.len(),
        forall|i: int| 0 <= i < find_ws(s) ==> !is_ws(#[trigger] s[i]),
        find_ws(s) < s.len() ==> is_ws(s[find_ws(s) as int]),
        s.len() > 0 && !is_ws(s[0]) ==> find_ws(s) > 0,
    decreases s.len(),
{
    if !(s.len() == 0 || is_ws(s[0])) {
        lemma_find_ws(s.drop_first());
        assert forall|i: int| 0 <= i < find_ws(s) implies !is_ws(#[trigger] s[i]) by {
            if i > 0 {
                assert(s[i] == s.drop_first()[i - 1]);
            }
        }
    }
}

/// A run of non-whitespace characters ending at whitespace or at the end is what `find_ws` measures.
pub proof fn lemma_find_ws_exact(s: Seq<char>, e: int)
    requires
        0 <= e <= s.len(),
        forall|i: int| 0 <= i < e ==> !is_ws(#[trigger] s[i]),
        e < s.len() ==> is_ws(s[e]),
    ensures
        find_ws(s) == e,
    decreases e,
{
    if e > 0 {
        assert forall|i: int| 0 <= i < e - 1 implies !is_ws(#[trigger] s.drop_first()[i]) by {
            assert(s.drop_first()[i] == s[i + 1]);
        }
        lemma_find_ws_exact(s.drop_first(), e - 1);
    }
}

/// A value computed from a prefix of the digits never exceeds the value of all of them.
pub proof fn lemma_digits_value_prefix(s: Seq<char>, j: int)
    requires
        0 <= j <= s.len(),
    ensures
        digits_value(s.take(j)) <= digits_value(s),
    decreases s.len() - j,
{
    if j < s.len() {
        lemma_digits_value_prefix(s.drop_last(), j);
        assert(s.drop_last().take(j) =~= s.take(j));
    } else {
        assert(s.take(j) =~= s);
    }
}

pub proof fn lemma_decimal_digits(n: nat)
    ensures
        decimal(n).len() > 0,
        all_digits(decimal(n)),
        digits_value(decimal(n)) == n,
        decimal(n)[0] != '+' && decimal(n)[0] != '-',
        forall|i: int| 0 <= i < decimal(n).len() ==> !is_ws(#[trigger] decimal(n)[i]) && decimal(n)[i] != '.'
            && decimal(n)[i] != '_',
    decreases n,
{
    if n >= 10 {
        lemma_decimal_digits(n / 10);
        let d = decimal(n);
        assert(d.drop_last() =~= decimal(n / 10));
        assert(digit_value(digit_char(n % 10)) == n % 10);
        assert(n == (n / 10) * 10 + n % 10) by (nonlinear_arith);
        assert(d.last() == digit_char(n % 10));
        assert(digits_value(d) == digits_value(decimal(n / 10)) * 10 + digit_value(digit_char(n % 10)));
        assert forall|i: int| 0 <= i < d.len() implies is_digit(#[trigger] d[i]) by {
            if i < d.len() - 1 {
                assert(d[i] == decimal(n / 10)[i]);
            }
        }
    } else {
        assert(digit_value(digit_char(n)) == n);
        assert(decimal(n).drop_last() =~= Seq::<char>::empty());
        assert(digits_value(Seq::<char>::empty()) == 0);
    }
}

/// The first occurrence of a single character is where `find` stops.
pub proof fn lemma_find_char_exact(s: Seq<char>, c: char, k: int)
    requires
        0 <= k <= s.len(),
        forall|i: int| 0 <= i < k ==> #[trigger] s[i] != c,
        k < s.len() ==> s[k] == c,
    ensures
        find(s, seq![c]) == k,
    decreases k,
{
    if k == 0 {
        if s.len() > 0 {
            assert(s.take(1) =~= seq![c]);
        }
    } else {
        assert(s.take(1) != seq![c]) by {
            assert(s.take(1)[0] == s[0]);
        }
        assert forall|i: int| 0 <= i < k - 1 implies #[trigger] s.drop_first()[i] != c by {
            assert(s.drop_first()[i] == s[i + 1]);
        }
        lemma_find_char_exact(s.drop_first(), c, k - 1);
    }
}

/// Digits parse back to the number they denote.
pub proof fn lemma_parse_u8_decimal(n: u8)
    ensures
        parse_u8(decimal(n as nat)) == Some(n),
{
    lemma_decimal_digits(n as nat);
}

/// A pattern whose first character never occurs is not found.
pub proof fn lemma_find_absent(s: Seq<char>, p: Seq<char>)
    requires
        p.len() > 0,
        forall|i: int| 0 <= i < s.len() ==> #[trigger] s[i] != p[0],
    ensures
        find(s, p) == s.len(),
    decreases s.len(),
{
    if s.len() >= p.len() {
        assert(s.take(p.len() as int)[0] == s[0]);
        assert forall|i: int| 0 <= i < s.drop_first().len() implies #[trigger] s.drop_first()[i] != p[0] by {
            assert(s.drop_first()[i] == s[i + 1]);
        }
        lemma_find_absent(s.drop_first(), p);
    }
}

/// Trimming twice is trimming once.
pub proof fn lemma_trim_idempotent(s: Seq<char>)
    ensures
        trim(trim(s)) == trim(s),
{
    let a = trim_start(s);
    let u = trim(s);
    lemma_trim_start(s);
    lemma_trim_end(a);
    if u.len() > 0 {
        assert(u[0] == a[0]);
    }
    lemma_trim_exact(u, 0, u.len() as int);
    assert(u.subrange(0, u.len() as int) =~= u);
}

/// An occurrence of a character bounds where `find` stops.
pub proof fn lemma_find_char_upper(s: Seq<char>, c: char, k: int)
    requires
        0 <= k < s.len(),
        s[k] == c,
    ensures
        find(s, seq![c]) <= k,
    decreases k,
{
    if s.take(1) != seq![c] {
        if k == 0 {
            assert(s.take(1) =~= seq![c]);
        } else {
            assert(s.drop_first()[k - 1] == c);
            lemma_find_char_upper(s.drop_first(), c, k - 1);
        }
    }
}

/// A match of `p` at `k` with none before it is where `find` stops.
pub proof fn lemma_find_at(s: Seq<char>, p: Seq<char>, k: int)
    requires
        p.len() > 0,
        0 <= k,
        k + p.len() <= s.len(),
        s.subrange(k, k + p.len()) == p,
        forall|i: int| 0 <= i < k ==> #[trigger] s.subrange(i, i + p.len()) != p,
    ensures
        find(s, p) == k,
    decreases k,
{
    assert(s.take(p.len() as int) =~= s.subrange(0, p.len() as int));
    if k > 0 {
        let z: int = 0;
        assert(s.subrange(z, z + p.len()) != p);
        assert(s.subrange(0, p.len() as int) != p);
        let t = s.drop_first();
        assert forall|i: int| 0 <= i < k - 1 implies #[trigger] t.subrange(i, i + p.len()) != p by {
            assert(t.subrange(i, i + p.len()) =~= s.subrange(i + 1, i + 1 + p.len()));
        }
        assert(t.subrange(k - 1, k - 1 + p.len()) =~= s.subrange(k, k + p.len()));
        lemma_find_at(t, p, k - 1);
    }
}

/// An occurrence of `p` at `k` bounds where `find` stops.
pub proof fn lemma_find_upper(s: Seq<char>, p: Seq<char>, k: int)
    requires
        p.len() > 0,
        0 <= k,
        k + p.len() <= s.len(),
        s.subrange(k, k + p.len()) == p,
    ensures
        find(s, p) <= k,
    decreases k,
{
    if s.take(p.len() as int) != p {
        if k == 0 {
            assert(s.take(p.len() as int) =~= s.subrange(0, p.len() as int));
        } else {
            let t = s.drop_first();
            assert(t.subrange(k - 1, k - 1 + p.len()) =~= s.subrange(k, k + p.len()));
            lemma_find_upper(t, p, k - 1);
        }
    }
}

/// A pattern that matches nowhere is not found.
pub proof fn lemma_find_none(s: Seq<char>, p: Seq<char>)
    requires
        p.len() > 0,
        forall|i: int| 0 <= i && i + p.len() <= s.len() ==> #[trigger] s.subrange(i, i + p.len()) != p,
    ensures
        find(s, p) == s.len(),
    decreases s.len(),
{
    if s.len() >= p.len() {
        let z: int = 0;
        assert(s.subrange(z, z + p.len()) != p);
        assert(s.take(p.len() as int) =~= s.subrange(0, p.len() as int));
        let t = s.drop_first();
        assert forall|i: int| 0 <= i && i + p.len() <= t.len() implies #[trigger] t.subrange(i, i + p.len()) != p by {
            assert(t.subrange(i, i + p.len()) =~= s.subrange(i + 1, i + 1 + p.len()));
        }
        lemma_find_none(t, p);
    }
}

/// Nothing is stripped from a text that does not begin with the pattern's first character.
pub proof fn lemma_strip_prefixes_noop(s: Seq<char>, p: Seq<char>)
    requires
        p.len() > 0,
        s.len() > 0 ==> s[0] != p[0],
    ensures
        strip_prefixes(s, p) == s,
{
    if p.len() <= s.len() {
        assert(s.take(p.len() as int)[0] == s[0]);
    }
}

/// Nothing is stripped from a text that does not end with the pattern's last character.
pub proof fn lemma_strip_suffixes_noop(s: Seq<char>, p: Seq<char>)
    requires
        p.len() > 0,
        s.len() > 0 ==> s.last() != p.last(),
    ensures
        strip_suffixes(s, p) == s,
{
    if p.len() <= s.len() {
        let t = s.skip(s.len() - p.len());
        assert(t[t.len() - 1] == s.last());
    }
}

// ---------------------------------------------------------------------------
// Executable functions
// ---------------------------------------------------------------------------

/// The characters of `s`.
pub fn chars_of(s: &str) -> (v: Vec<char>)
    ensures
        v@ == s@,
{
    let mut v: Vec<char> = Vec::new();
    for c in it: s.chars()
        invariant
            v@ == it.seq().take(it.index() as int),
            it.seq() == s@,
    {
        v.push(c);
    }
    v
}

pub fn is_ws_char(c: char) -> (b: bool)
    ensures
        b == is_ws(c),
{
    let x = c as u32;
    (9 <= x && x <= 13) || x == 32 || x == 0x85 || x == 0xA0 || x == 0x1680 || (0x2000 <= x && x
        <= 0x200A) || x == 0x2028 || x == 0x2029 || x == 0x202F || x == 0x205F || x == 0x3000
}

/// The range of `s[lo..hi]` that is left after trimming whitespace at both ends.
pub fn trim_range(s: &[char], lo: usize, hi: usize) -> (r: (usize, usize))
    requires
        lo <= hi <= s.len(),
    ensures
        lo <= r.0 <= r.1 <= hi,
        trim(s@.subrange(lo as int, hi as int)) == s@.subrange(r.0 as int, r.1 as int),
        trim_start(s@.subrange(lo as int, hi as int)) == s@.subrange(r.0 as int, hi as int),
{
    let ghost t = s@.subrange(lo as int, hi as int);
    let mut a = lo;
    while a < hi && is_ws_char(s[a])
        invariant
            lo <= a <= hi <= s.len(),
            forall|i: int| lo <= i < a ==> is_ws(#[trigger] s@[i]),
        decreases hi - a,
    {
        a = a + 1;
    }
    let mut b = hi;
    while b > a && is_ws_char(s[b - 1])
        invariant
            lo <= a <= b <= hi <= s.len(),
            forall|i: int| b <= i < hi ==> is_ws(#[trigger] s@[i]),
        decreases b - a,
    {
        b = b - 1;
    }
    proof {
        assert forall|i: int| 0 <= i < a - lo implies is_ws(#[trigger] t[i]) by {
            assert(t[i] == s@[lo + i]);
        }
        assert forall|i: int| b - lo <= i < t.len() implies is_ws(#[trigger] t[i]) by {
            assert(t[i] == s@[lo + i]);
        }
        if a < b {
            assert(t[a - lo] == s@[a as int]);
            assert(t[b - lo - 1] == s@[b - 1]);
        }
        lemma_trim_exact(t, a - lo, b - lo);
        assert(t.subrange(a - lo, b - lo) =~= s@.subrange(a as int, b as int));
        assert(t.skip(a - lo) =~= s@.subrange(a as int, hi as int));
    }
    (a, b)
}

/// `s[i..end]` begins with `p`.
pub fn matches_at(s: &[char], i: usize, end: usize, p: &[char]) -> (b: bool)
    requires
        i <= end <= s.len(),
    ensures
        b == starts_with(s@.subrange(i as int, end as int), p@),
{
    if p.len() > end - i {
        return false;
    }
    let ghost t = s@.subrange(i as int, end as int);
    let mut k: usize = 0;
    while k < p.len()
        invariant
            i + p.len() <= end <= s.len(),
            t == s@.subrange(i as int, end as int),
            k <= p.len(),
            forall|j: int| 0 <= j < k ==> s@[i + j] == p@[j],
        decreases p.len() - k,
    {
        if s[i + k] != p[k] {
            assert(t.take(p.len() as int)[k as int] == s@[i + k]);
            return false;
        }
        k = k + 1;
    }
    assert(t.take(p.len() as int) =~= p@);
    true
}

/// Start of the leftmost occurrence of the non-empty pattern `p` in `s[start..end]`, or `end`.
pub fn find_in(s: &[char], start: usize, end: usize, p: &[char]) -> (r: usize)
    requires
        start <= end <= s.len(),
        p.len() > 0,
    ensures
        r == start + find(s@.subrange(start as int, end as int), p@),
        start <= r <= end,
{
    let mut i = start;
    while i < end
        invariant
            start <= i <= end <= s.len(),
            p.len() > 0,
            find(s@.subrange(start as int, end as int), p@) == (i - start) + find(
                s@.subrange(i as int, end as int),
                p@,
            ),
        decreases end - i,
    {
        if p.len() > end - i {
            return end;
        }
        if matches_at(s, i, end, p) {
            return i;
        }
        assert(s@.subrange(i as int, end as int).drop_first() =~= s@.subrange(i + 1, end as int));
        i = i + 1;
    }
    i
}

/// Skips every leading repetition of the non-empty pattern `p` in `s[start..end]`.
pub fn strip_prefixes_from(s: &[char], start: usize, end: usize, p: &[char]) -> (r: usize)
    requires
        start <= end <= s.len(),
        p.len() > 0,
    ensures
        start <= r <= end,
        strip_prefixes(s@.subrange(start as int, end as int), p@) == s@.subrange(r as int, end as int),
{
    let mut i = start;
    while matches_at(s, i, end, p)
        invariant
            start <= i <= end <= s.len(),
            p.len() > 0,
            strip_prefixes(s@.subrange(start as int, end as int), p@) == strip_prefixes(
                s@.subrange(i as int, end as int),
                p@,
            ),
        decreases end - i,
    {
        assert(s@.subrange(i as int, end as int).skip(p.len() as int) =~= s@.subrange(
            i + p.len(),
            end as int,
        ));
        i = i + p.len();
    }
    i
}

/// Skips the whitespace at the start of `s[start..end]`.
pub fn skip_ws(s: &[char], start: usize, end: usize) -> (k: usize)
    requires
        start <= end <= s.len(),
    ensures
        start <= k <= end,
        trim_start(s@.subrange(start as int, end as int)) == s@.subrange(k as int, end as int),
        k < end ==> !is_ws(s@[k as int]),
{
    let (a, _b) = trim_range(s, start, end);
    if a < end {
        proof {
            lemma_trim_start(s@.subrange(start as int, end as int));
            assert(s@.subrange(a as int, end as int)[0] == s@[a as int]);
        }
    }
    a
}

/// Index of the first whitespace character of `s[start..end]`, or `end`.
pub fn find_ws_in(s: &[char], start: usize, end: usize) -> (e: usize)
    requires
        start <= end <= s.len(),
    ensures
        start <= e <= end,
        e == start + find_ws(s@.subrange(start as int, end as int)),
{
    let mut e = start;
    while e < end && !is_ws_char(s[e])
        invariant
            start <= e <= end <= s.len(),
            forall|i: int| start <= i < e ==> !is_ws(#[trigger] s@[i]),
        decreases end - e,
    {
        e = e + 1;
    }
    proof {
        let t = s@.subrange(start as int, end as int);
        assert forall|i: int| 0 <= i < e - start implies !is_ws(#[trigger] t[i]) by {
            assert(t[i] == s@[start + i]);
        }
        if e < end {
            assert(t[e - start] == s@[e as int]);
        }
        lemma_find_ws_exact(t, e - start);
    }
    e
}

/// `s[lo..hi]` ends with `p`.
pub fn ends_at(s: &[char], lo: usize, hi: usize, p: &[char]) -> (b: bool)
    requires
        lo <= hi <= s.len(),
    ensures
        b == ends_with(s@.subrange(lo as int, hi as int), p@),
{
    if p.len() > hi - lo {
        return false;
    }
    let start = hi - p.len();
    let mut k: usize = 0;
    let ghost t = s@.subrange(lo as int, hi as int);
    while k < p.len()
        invariant
            lo <= start,
            start + p.len() == hi,
            hi <= s.len(),
            t == s@.subrange(lo as int, hi as int),
            k <= p.len(),
            forall|j: int| 0 <= j < k ==> s@[start + j] == p@[j],
        decreases p.len() - k,
    {
        if s[start + k] != p[k] {
            assert(t.skip(t.len() - p.len())[k as int] == s@[start + k]);
            return false;
        }
        k = k + 1;
    }
    assert(t.skip(t.len() - p.len()) =~= p@);
    true
}

/// Drops every trailing repetition of the non-empty pattern `p` from `s[lo..hi]`.
pub fn strip_suffixes_range(s: &[char], lo: usize, hi: usize, p: &[char]) -> (r: usize)
    requires
        lo <= hi <= s.len(),
        p.len() > 0,
    ensures
        lo <= r <= hi,
        strip_suffixes(s@.subrange(lo as int, hi as int), p@) == s@.subrange(lo as int, r as int),
{
    let mut e = hi;
    while ends_at(s, lo, e, p)
        invariant
            lo <= e <= hi <= s.len(),
            p.len() > 0,
            strip_suffixes(s@.subrange(lo as int, hi as int), p@) == strip_suffixes(
                s@.subrange(lo as int, e as int),
                p@,
            ),
        decreases e - lo,
    {
        assert(s@.subrange(lo as int, e as int).take(e - lo - p.len()) =~= s@.subrange(
            lo as int,
            e - p.len(),
        ));
        e = e - p.len();
    }
    e
}

/// `s[lo..hi]` contains the non-empty pattern `p`.
pub fn contains_in(s: &[char], lo: usize, hi: usize, p: &[char]) -> (b: bool)
    requires
        lo <= hi <= s.len(),
        p.len() > 0,
    ensures
        b == contains(s@.subrange(lo as int, hi as int), p@),
{
    find_in(s, lo, hi, p) < hi
}

/// The value of the decimal digits `s[lo..hi]` when it is at most `limit`.
pub fn digits_upto(s: &[char], lo: usize, hi: usize, limit: u64) -> (r: Option<u64>)
    requires
        lo <= hi <= s.len(),
        limit < 0x1_0000_0000,
    ensures
        match r {
            Some(v) => all_digits(s@.subrange(lo as int, hi as int)) && v == digits_value(
                s@.subrange(lo as int, hi as int),
            ) && v <= limit,
            None => !all_digits(s@.subrange(lo as int, hi as int)) || digits_value(
                s@.subrange(lo as int, hi as int),
            ) > limit,
        },
{
    let ghost t = s@.subrange(lo as int, hi as int);
    let mut acc: u64 = 0;
    let mut i = lo;
    while i < hi
        invariant
            lo <= i <= hi <= s.len(),
            limit < 0x1_0000_0000,
            t == s@.subrange(lo as int, hi as int),
            acc <= limit,
            all_digits(s@.subrange(lo as int, i as int)),
            acc == digits_value(s@.subrange(lo as int, i as int)),
        decreases hi - i,
    {
        let c = s[i];
        let x = c as u32;
        if !(48 <= x && x <= 57) {
            assert(t[i - lo] == c);
            return None;
        }
        let next = acc * 10 + (x - 48) as u64;
        proof {
            let u = s@.subrange(lo as int, i + 1);
            assert(u.drop_last() =~= s@.subrange(lo as int, i as int));
            assert(u.last() == c);
        }
        if next > limit {
            proof {
                assert(t.take(i + 1 - lo) =~= s@.subrange(lo as int, i + 1));
                lemma_digits_value_prefix(t, i + 1 - lo);
            }
            return None;
        }
        acc = next;
        i = i + 1;
    }
    Some(acc)
}

/// `str::parse::<u8>` on `s[lo..hi]`.
pub fn parse_u8_range(s: &[char], lo: usize, hi: usize) -> (r: Option<u8>)
    requires
        lo <= hi <= s.len(),
    ensures
        r == parse_u8(s@.subrange(lo as int, hi as int)),
{
    let ghost t = s@.subrange(lo as int, hi as int);
    let mut a = lo;
    if hi - lo >= 2 && s[lo] == '+' {
        a = lo + 1;
        assert(t.drop_first() =~= s@.subrange(a as int, hi as int));
    } else {
        assert(t =~= s@.subrange(a as int, hi as int));
    }
    if a == hi {
        return None;
    }
    match digits_upto(s, a, hi, 255) {
        Some(v) => Some(v as u8),
        None => None,
    }
}

/// `str::parse::<i32>` on `s[lo..hi]`.
pub fn parse_i32_range(s: &[char], lo: usize, hi: usize) -> (r: Option<i32>)
    requires
        lo <= hi <= s.len(),
    ensures
        r == parse_i32(s@.subrange(lo as int, hi as int)),
{
    let ghost t = s@.subrange(lo as int, hi as int);
    let mut a = lo;
    let mut neg = false;
    if hi - lo >= 2 && (s[lo] == '+' || s[lo] == '-') {
        neg = s[lo] == '-';
        a = lo + 1;
        assert(t.drop_first() =~= s@.subrange(a as int, hi as int));
    } else {
        assert(t =~= s@.subrange(a as int, hi as int));
    }
    if a == hi {
        return None;
    }
    if neg {
        match digits_upto(s, a, hi, 0x8000_0000) {
            Some(v) => {
                let w: i64 = -(v as i64);
                Some(w as i32)
            },
            None => None,
        }
    } else {
        match digits_upto(s, a, hi, 0x7fff_ffff) {
            Some(v) => Some(v as i32),
            None => None,
        }
    }
}

/// The text of `content` without surrounding whitespace, unless nothing is left.
pub fn trimmed_nonempty(content: &str) -> (r: Option<String>)
    ensures
        match r {
            Some(t) => trim(content@).len() > 0 && t@ == trim(content@),
            None => trim(content@).len() == 0,
        },
{
    let v = chars_of(content);
    proof {
        assert(v@.subrange(0, v@.len() as int) =~= content@);
    }
    let (a, b) = trim_range(v.as_slice(), 0, v.len());
    if a == b {
        None
    } else {
        Some(String::from_str(content.substring_char(a, b)))
    }
}

} // verus!
