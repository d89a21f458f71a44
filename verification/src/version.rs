//! PHP versions (`major.minor`) and Composer version constraints.
use vstd::prelude::*;
use crate::text::{
    chars_of, contains, contains_in, decimal, digit_char, ends_at, ends_with, find_in, find_ws_in,
    is_digit, is_ws, lemma_decimal_digits, lemma_find_absent, lemma_find_at, lemma_find_char_exact, lemma_find_none,
    lemma_find_char_upper, lemma_find_match, lemma_find_ws, lemma_parse_u8_decimal,
    lemma_strip_prefixes_noop, lemma_strip_suffixes_noop, lemma_trim_exact, lemma_trim_idempotent,
    matches_at, parse_u8, parse_u8_range, skip_ws, split, split_ws, starts_with, strip_prefixes,
    strip_prefixes_from, strip_suffixes, strip_suffixes_range, trim, trim_range,
};

verus! {

/// A PHP release line, identified by its major and minor numbers.
/// Versions are ordered by major number, then by minor number.
#[derive(Debug, Clone, Copy, PartialEq, Eq, Structural, PartialOrd, Ord, Hash)]
pub struct PhpVersion {
    pub major: u8,
    pub minor: u8,
}

/// How far above its target a constraint lets a version go.
#[derive(Debug, Clone, Copy, PartialEq, Eq, Structural)]
pub enum UpperBound {
    /// Only the target's release line (`8.4.*`, `8.4`, `~8.4.0`, an explicit version).
    SameMinor,
    /// Any release of the target's major version (`^8.4`, `~8.4`).
    SameMajor,
    /// No upper limit (`>=8.4`).
    Unbounded,
}

/// A version requirement: a lowest acceptable version and an upper bound.
#[derive(Debug, Clone, Copy, PartialEq, Eq, Structural)]
pub struct VersionConstraint {
    pub target: PhpVersion,
    pub upper: UpperBound,
}

// ---------------------------------------------------------------------------
// Specifications
// ---------------------------------------------------------------------------

/// `a` comes no later than `b`: the derived order, major number first.
pub open spec fn version_le(a: PhpVersion, b: PhpVersion) -> bool {
    a.major < b.major || (a.major == b.major && a.minor <= b.minor)
}

/// Of two alternatives of an OR constraint, the one to keep: a missing one loses; otherwise
/// the higher major version wins, and within the same major version the lower target wins
/// (on a tie, `a`).
pub open spec fn preferred(a: Option<VersionConstraint>, b: Option<VersionConstraint>) -> Option<VersionConstraint> {
    match (a, b) {
        (None, _) => b,
        (_, None) => a,
        (Some(x), Some(y)) => if y.target.major > x.target.major || (y.target.major == x.target.major
            && y.target.minor < x.target.minor) {
            Some(y)
        } else {
            Some(x)
        },
    }
}

/// `v` meets the constraint `c`: at least its target and within its upper bound.
pub open spec fn satisfies(c: VersionConstraint, v: PhpVersion) -> bool {
    &&& version_le(c.target, v)
    &&& match c.upper {
        UpperBound::SameMinor => v.major == c.target.major && v.minor == c.target.minor,
        UpperBound::SameMajor => v.major == c.target.major,
        UpperBound::Unbounded => true,
    }
}

/// How a version prints: `major.minor` in decimal.
pub open spec fn version_text(v: PhpVersion) -> Seq<char> {
    decimal(v.major as nat) + seq!['.'] + decimal(v.minor as nat)
}

/// What `PhpVersion::parse` gives: after trimming, the text is split at `.`;
/// the first two pieces are the major and minor numbers, and the rest is ignored.
pub open spec fn parsed_version(s: Seq<char>) -> Option<PhpVersion> {
    let parts = split(trim(s), seq!['.']);
    if parts.len() < 2 {
        None
    } else {
        match (parse_u8(parts[0]), parse_u8(parts[1])) {
            (Some(major), Some(minor)) => Some(PhpVersion { major, minor }),
            _ => None,
        }
    }
}

/// A single Composer constraint with its operator (`>=`, `<=`, `>`, `<`, `^`, `~`)
/// and a trailing wildcard `.*` taken off.
pub open spec fn single_constraint_version(s: Seq<char>) -> Option<PhpVersion> {
    let t = trim(s);
    let a = strip_prefixes(t, seq!['>', '=']);
    let b = strip_prefixes(a, seq!['<', '=']);
    let c = strip_prefixes(b, seq!['>']);
    let d = strip_prefixes(c, seq!['<']);
    let e = strip_prefixes(d, seq!['^']);
    let f = strip_prefixes(e, seq!['~']);
    let g = trim(f);
    let h = strip_suffixes(strip_suffixes(g, seq!['.', '*']), seq!['.', '*']);
    parsed_version(h)
}

/// The upper bound that a single constraint's operator implies, Composer style:
/// comparison operators leave it open, a trailing `.*` or a bare version keeps the release line,
/// `^` keeps the major version, and `~` keeps the major version, or the release line when
/// the version has three parts.
pub open spec fn upper_bound_of(s: Seq<char>) -> UpperBound {
    let t = trim(s);
    if starts_with(t, seq!['>']) || starts_with(t, seq!['<']) {
        UpperBound::Unbounded
    } else if ends_with(t, seq!['.', '*']) {
        UpperBound::SameMinor
    } else if starts_with(t, seq!['^']) {
        UpperBound::SameMajor
    } else if starts_with(t, seq!['~']) {
        if split(t, seq!['.']).len() >= 3 {
            UpperBound::SameMinor
        } else {
            UpperBound::SameMajor
        }
    } else {
        UpperBound::SameMinor
    }
}

/// A single Composer constraint as a target version and an upper bound.
pub open spec fn single_constraint(s: Seq<char>) -> Option<VersionConstraint> {
    match single_constraint_version(s) {
        Some(v) => Some(VersionConstraint { target: v, upper: upper_bound_of(s) }),
        None => None,
    }
}

/// The alternative that an OR constraint resolves to among the single constraints `parts`:
/// the lowest target within the highest major version (the first such one on a tie).
pub open spec fn preferred_alternative(parts: Seq<Seq<char>>) -> Option<VersionConstraint>
    decreases parts.len(),
{
    if parts.len() == 0 {
        None
    } else {
        preferred(preferred_alternative(parts.drop_last()), single_constraint(parts.last()))
    }
}

/// The lower bound that a `>`/`>=` part of an AND constraint names, if it parses.
pub open spec fn lower_bound(part: Seq<char>) -> Option<PhpVersion> {
    if starts_with(part, seq!['>', '=']) || starts_with(part, seq!['>']) {
        parsed_version(strip_prefixes(strip_prefixes(part, seq!['>', '=']), seq!['>']))
    } else {
        None
    }
}

/// The first lower bound among `parts`, in order.
pub open spec fn first_lower_bound(parts: Seq<Seq<char>>) -> Option<PhpVersion>
    decreases parts.len(),
{
    if parts.len() == 0 {
        None
    } else {
        match first_lower_bound(parts.drop_last()) {
            Some(v) => Some(v),
            None => lower_bound(parts.last()),
        }
    }
}

/// A Composer constraint read as a target and an upper bound: for an OR constraint
/// (`||` or `|`) the lowest alternative within the highest major version; for an AND constraint (parts
/// separated by spaces) its first lower bound, open above, or else its first part;
/// otherwise the single constraint.
pub open spec fn composer_constraint(s: Seq<char>) -> Option<VersionConstraint> {
    let t = trim(s);
    if contains(t, seq!['|', '|']) || contains(t, seq!['|']) {
        let parts = if contains(t, seq!['|', '|']) {
            split(t, seq!['|', '|'])
        } else {
            split(t, seq!['|'])
        };
        preferred_alternative(parts)
    } else if contains(t, seq![' ']) && !contains(t, seq!['|', '|']) {
        let parts = split_ws(t);
        match first_lower_bound(parts) {
            Some(v) => Some(VersionConstraint { target: v, upper: UpperBound::Unbounded }),
            None => if parts.len() > 0 {
                single_constraint(parts[0])
            } else {
                None
            },
        }
    } else {
        single_constraint(t)
    }
}

/// What `PhpVersion::from_constraint` gives: the target of the Composer constraint.
pub open spec fn constraint_version(s: Seq<char>) -> Option<PhpVersion> {
    match composer_constraint(s) {
        Some(c) => Some(c.target),
        None => None,
    }
}

/// `v` is the lowest version in `installed` that meets `c`.
pub open spec fn is_lowest_satisfying(installed: Seq<PhpVersion>, c: VersionConstraint, v: PhpVersion) -> bool {
    &&& installed.contains(v)
    &&& satisfies(c, v)
    &&& forall|i: int| 0 <= i < installed.len() && satisfies(c, installed[i]) ==> version_le(v, #[trigger] installed[i])
}

/// No version in `installed` meets `c`.
pub open spec fn none_satisfying(installed: Seq<PhpVersion>, c: VersionConstraint) -> bool {
    forall|i: int| 0 <= i < installed.len() ==> !satisfies(c, #[trigger] installed[i])
}

// ---------------------------------------------------------------------------
// Lemmas
// ---------------------------------------------------------------------------

proof fn lemma_first_lower_bound_append(x: Seq<Seq<char>>, y: Seq<Seq<char>>)
    requires
        first_lower_bound(x) is Some,
    ensures
        first_lower_bound(x + y) == first_lower_bound(x),
    decreases y.len(),
{
    if y.len() == 0 {
        assert(x + y =~= x);
    } else {
        lemma_first_lower_bound_append(x, y.drop_last());
        assert((x + y).drop_last() =~= x + y.drop_last());
    }
}

/// Printing a version and parsing the text gives the version back.
pub proof fn law_parse_inverts_to_string(v: PhpVersion)
    ensures
        parsed_version(version_text(v)) == Some(v),
{
    let a = decimal(v.major as nat);
    let b = decimal(v.minor as nat);
    let s = version_text(v);
    lemma_decimal_digits(v.major as nat);
    lemma_decimal_digits(v.minor as nat);
    assert forall|i: int| 0 <= i < s.len() implies !is_ws(#[trigger] s[i]) by {
        if i < a.len() {
            assert(s[i] == a[i]);
        } else if i > a.len() {
            assert(s[i] == b[i - a.len() - 1]);
        }
    }
    lemma_trim_exact(s, 0, s.len() as int);
    assert(s.subrange(0, s.len() as int) =~= s);
    assert forall|i: int| 0 <= i < a.len() implies #[trigger] s[i] != '.' by {
        assert(s[i] == a[i]);
    }
    lemma_find_char_exact(s, '.', a.len() as int);
    let rest = s.skip((a.len() + 1) as int);
    assert(rest =~= b);
    assert(s.take(a.len() as int) =~= a);
    assert forall|i: int| 0 <= i < b.len() implies #[trigger] b[i] != '.' by {}
    lemma_find_char_exact(b, '.', b.len() as int);
    assert(split(b, seq!['.']) =~= seq![b]);
    assert(split(s, seq!['.']) =~= seq![a] + seq![b]);
    lemma_parse_u8_decimal(v.major);
    lemma_parse_u8_decimal(v.minor);
}

/// A printed version, used as a Composer constraint, requires exactly that release line.
pub proof fn law_version_text_is_exact_constraint(v: PhpVersion)
    ensures
        composer_constraint(version_text(v)) == Some(VersionConstraint { target: v, upper: UpperBound::SameMinor }),
        constraint_version(version_text(v)) == Some(v),
{
    let a = decimal(v.major as nat);
    let b = decimal(v.minor as nat);
    let s = version_text(v);
    lemma_decimal_digits(v.major as nat);
    lemma_decimal_digits(v.minor as nat);
    assert forall|i: int| 0 <= i < s.len() implies !is_ws(#[trigger] s[i]) && s[i] != '|' && s[i] != ' ' by {
        if i < a.len() {
            assert(s[i] == a[i]);
            assert(is_digit(a[i]));
        } else if i > a.len() {
            assert(s[i] == b[i - a.len() - 1]);
            assert(is_digit(b[i - a.len() - 1]));
        }
    }
    lemma_trim_exact(s, 0, s.len() as int);
    assert(s.subrange(0, s.len() as int) =~= s);
    assert(trim(s) == s);
    lemma_find_absent(s, seq!['|', '|']);
    lemma_find_absent(s, seq!['|']);
    lemma_find_absent(s, seq![' ']);
    assert(s[0] == a[0] && is_digit(a[0]));
    assert(s.last() == b.last() && is_digit(b[b.len() - 1]));
    lemma_strip_prefixes_noop(s, seq!['>', '=']);
    lemma_strip_prefixes_noop(s, seq!['<', '=']);
    lemma_strip_prefixes_noop(s, seq!['>']);
    lemma_strip_prefixes_noop(s, seq!['<']);
    lemma_strip_prefixes_noop(s, seq!['^']);
    lemma_strip_prefixes_noop(s, seq!['~']);
    lemma_strip_suffixes_noop(s, seq!['.', '*']);
    assert(!starts_with(s, seq!['>'])) by {
        assert(s.take(1)[0] == s[0]);
    }
    assert(!starts_with(s, seq!['<'])) by {
        assert(s.take(1)[0] == s[0]);
    }
    assert(!starts_with(s, seq!['^'])) by {
        assert(s.take(1)[0] == s[0]);
    }
    assert(!starts_with(s, seq!['~'])) by {
        assert(s.take(1)[0] == s[0]);
    }
    assert(!ends_with(s, seq!['.', '*'])) by {
        let t = s.skip(s.len() - 2);
        assert(t[1] == s.last());
    }
    law_parse_inverts_to_string(v);
}

/// A wildcard constraint such as `8.4.*` stays on its release line: every version it accepts
/// has the target's major and minor numbers, so it never falls back to a later release.
pub proof fn law_wildcard_stays_on_release_line(s: Seq<char>, v: PhpVersion)
    requires
        !contains(trim(s), seq!['|']),
        !contains(trim(s), seq![' ']),
        ends_with(trim(s), seq!['.', '*']),
        !starts_with(trim(s), seq!['>']),
        !starts_with(trim(s), seq!['<']),
    ensures
        match composer_constraint(s) {
            Some(c) => satisfies(c, v) ==> v.major == c.target.major && v.minor == c.target.minor,
            None => true,
        },
{
    let t = trim(s);
    lemma_trim_idempotent(s);
    if contains(t, seq!['|', '|']) {
        lemma_find_match(t, seq!['|', '|']);
        let i = crate::text::find(t, seq!['|', '|']);
        assert(t[i as int] == t.subrange(i as int, (i + 2) as int)[0]);
        lemma_find_char_upper(t, '|', i as int);
    }
}

/// An alternative of an OR constraint as written by hand: non-empty, with no `|` and no whitespace.
pub open spec fn plain_alternative(a: Seq<char>) -> bool {
    &&& a.len() > 0
    &&& forall|i: int| 0 <= i < a.len() ==> #[trigger] a[i] != '|' && !is_ws(a[i])
}

/// A single constraint depends only on its trimmed text.
proof fn lemma_single_constraint_trim(s: Seq<char>)
    ensures
        single_constraint(s) == single_constraint(trim(s)),
{
    lemma_trim_idempotent(s);
}

/// A plain alternative, with one space after it or one space before it, trims back to itself.
proof fn lemma_plain_padded(a: Seq<char>)
    requires
        plain_alternative(a),
    ensures
        trim(a) == a,
        trim(a + seq![' ']) == a,
        trim(seq![' '] + a) == a,
{
    let n = a.len() as int;
    lemma_trim_exact(a, 0, n);
    assert(a.subrange(0, n) =~= a);
    let x = a + seq![' '];
    assert(x[0] == a[0] && x[n - 1] == a[n - 1] && x[n] == ' ');
    lemma_trim_exact(x, 0, n);
    assert(x.subrange(0, n) =~= a);
    let y = seq![' '] + a;
    assert(y[0] == ' ' && y[1] == a[0] && y[n] == a[n - 1]);
    lemma_trim_exact(y, 1, n + 1);
    assert(y.subrange(1, n + 1) =~= a);
}

/// A plain alternative on its own is read as a single constraint.
proof fn lemma_plain_single(a: Seq<char>)
    requires
        plain_alternative(a),
    ensures
        composer_constraint(a) == single_constraint(a),
{
    lemma_plain_padded(a);
    lemma_find_absent(a, seq!['|', '|']);
    lemma_find_absent(a, seq!['|']);
    lemma_find_absent(a, seq![' ']);
}

/// Of two alternatives, the preferred one is chosen.
proof fn lemma_two_alternatives(x: Seq<char>, y: Seq<char>)
    ensures
        preferred_alternative(seq![x, y]) == preferred(single_constraint(x), single_constraint(y)),
{
    let parts = seq![x, y];
    assert(parts.drop_last() =~= seq![x]);
    assert(parts.drop_last().drop_last() =~= Seq::<Seq<char>>::empty());
    assert(preferred_alternative(Seq::<Seq<char>>::empty()) is None);
    assert(preferred_alternative(seq![x]) == single_constraint(x));
}

/// `a || b` is already trimmed, holds `||`, and splits at it into `a ` and ` b`.
proof fn lemma_spaced_split(a: Seq<char>, b: Seq<char>)
    requires
        plain_alternative(a),
        plain_alternative(b),
    ensures
        ({
            let s = a + seq![' ', '|', '|', ' '] + b;
            &&& trim(s) == s
            &&& contains(s, seq!['|', '|'])
            &&& split(s, seq!['|', '|']) == seq![a + seq![' '], seq![' '] + b]
        }),
{
    let n = a.len() as int;
    let m = b.len() as int;
    let pp = seq!['|', '|'];
    let s = a + seq![' ', '|', '|', ' '] + b;
    assert(s.len() == n + 4 + m);
    assert forall|i: int| 0 <= i < s.len() implies (i < n ==> #[trigger] s[i] == a[i]) && (i == n ==> s[i] == ' ')
        && (i == n + 1 ==> s[i] == '|') && (i == n + 2 ==> s[i] == '|') && (i == n + 3 ==> s[i] == ' ')
        && (n + 4 <= i ==> s[i] == b[i - n - 4]) by {}
    assert(s[0] == a[0] && s[n + 3 + m] == b[m - 1]);
    lemma_trim_exact(s, 0, s.len() as int);
    assert(s.subrange(0, s.len() as int) =~= s);
    assert(s.subrange(n + 1, n + 1 + pp.len()) =~= pp);
    assert forall|i: int| 0 <= i < n + 1 implies #[trigger] s.subrange(i, i + pp.len()) != pp by {
        assert(s.subrange(i, i + pp.len())[0] == s[i]);
    }
    lemma_find_at(s, pp, n + 1);
    let rest = s.skip(n + 3);
    assert(rest =~= seq![' '] + b);
    assert forall|i: int| 0 <= i && i + pp.len() <= rest.len() implies #[trigger] rest.subrange(i, i + pp.len()) != pp by {
        assert(rest.subrange(i, i + pp.len())[0] == rest[i]);
        if i > 0 {
            assert(rest[i] == b[i - 1]);
        }
    }
    lemma_find_none(rest, pp);
    assert(split(rest, pp) =~= seq![rest]);
    assert(s.take(n + 1) =~= a + seq![' ']);
    assert(split(s, pp) =~= seq![s.take(n + 1)] + split(rest, pp));
}

/// `a|b` is already trimmed, holds `|` but not `||`, and splits at `|` into `a` and `b`.
proof fn lemma_bare_split(a: Seq<char>, b: Seq<char>)
    requires
        plain_alternative(a),
        plain_alternative(b),
    ensures
        ({
            let t = a + seq!['|'] + b;
            &&& trim(t) == t
            &&& !contains(t, seq!['|', '|'])
            &&& contains(t, seq!['|'])
            &&& split(t, seq!['|']) == seq![a, b]
        }),
{
    let n = a.len() as int;
    let m = b.len() as int;
    let pp = seq!['|', '|'];
    let t = a + seq!['|'] + b;
    assert forall|i: int| 0 <= i < t.len() implies (i < n ==> #[trigger] t[i] == a[i]) && (i == n ==> t[i] == '|')
        && (n < i ==> t[i] == b[i - n - 1]) by {}
    assert(t[0] == a[0] && t[n + m] == b[m - 1]);
    lemma_trim_exact(t, 0, t.len() as int);
    assert(t.subrange(0, t.len() as int) =~= t);
    assert forall|i: int| 0 <= i && i + pp.len() <= t.len() implies #[trigger] t.subrange(i, i + pp.len()) != pp by {
        assert(t.subrange(i, i + pp.len())[0] == t[i]);
        assert(t.subrange(i, i + pp.len())[1] == t[i + 1]);
    }
    lemma_find_none(t, pp);
    assert forall|i: int| 0 <= i < n implies #[trigger] t[i] != '|' by {}
    lemma_find_char_exact(t, '|', n);
    assert(t.skip(n + 1) =~= b);
    assert(t.take(n) =~= a);
    lemma_find_char_exact(b, '|', m);
    assert(split(b, seq!['|']) =~= seq![b]);
    assert(split(t, seq!['|']) =~= seq![t.take(n)] + split(t.skip(n + 1), seq!['|']));
}

/// Two plain alternatives joined by ` || ` or by `|` are read as the preferred of the two.
proof fn lemma_or_parts(a: Seq<char>, b: Seq<char>)
    requires
        plain_alternative(a),
        plain_alternative(b),
    ensures
        composer_constraint(a + seq![' ', '|', '|', ' '] + b) == preferred(single_constraint(a), single_constraint(b)),
        composer_constraint(a + seq!['|'] + b) == preferred(single_constraint(a), single_constraint(b)),
{
    lemma_plain_padded(a);
    lemma_plain_padded(b);
    lemma_single_constraint_trim(a + seq![' ']);
    lemma_single_constraint_trim(seq![' '] + b);
    lemma_single_constraint_trim(a);
    lemma_single_constraint_trim(b);
    lemma_spaced_split(a, b);
    lemma_bare_split(a, b);
    lemma_two_alternatives(a + seq![' '], seq![' '] + b);
    lemma_two_alternatives(a, b);
}

/// An OR of two hand-written alternatives (each non-empty, with no `|` and no whitespace):
/// it is read as the preferred of the two alternatives, whichever of ` || ` and `|` joins them;
/// swapping the alternatives does not change the version chosen; a missing alternative gives way
/// to the other; the higher major version wins; and within one major version the lower version wins.
#[verifier::rlimit(50)]
pub proof fn law_or_constraint(a: Seq<char>, b: Seq<char>)
    requires
        plain_alternative(a),
        plain_alternative(b),
    ensures
        composer_constraint(a + seq![' ', '|', '|', ' '] + b) == preferred(composer_constraint(a), composer_constraint(b)),
        composer_constraint(a + seq!['|'] + b) == composer_constraint(a + seq![' ', '|', '|', ' '] + b),
        constraint_version(b + seq![' ', '|', '|', ' '] + a) == constraint_version(a + seq![' ', '|', '|', ' '] + b),
        constraint_version(b) is None ==> constraint_version(a + seq![' ', '|', '|', ' '] + b) == constraint_version(a),
        constraint_version(a) is None ==> constraint_version(a + seq![' ', '|', '|', ' '] + b) == constraint_version(b),
        constraint_version(a) is Some && constraint_version(b) is Some
            && constraint_version(a).unwrap().major < constraint_version(b).unwrap().major
            ==> constraint_version(a + seq![' ', '|', '|', ' '] + b) == constraint_version(b),
        constraint_version(a) is Some && constraint_version(b) is Some
            && constraint_version(a).unwrap().major == constraint_version(b).unwrap().major
            ==> constraint_version(a + seq![' ', '|', '|', ' '] + b) == (if version_le(
            constraint_version(a).unwrap(),
            constraint_version(b).unwrap(),
        ) {
            constraint_version(a)
        } else {
            constraint_version(b)
        }),
{
    lemma_or_parts(a, b);
    lemma_or_parts(b, a);
    lemma_plain_single(a);
    lemma_plain_single(b);
}

/// Stripping an operator `p` from `p + d` leaves `d` when `d` does not start like `p`.
proof fn lemma_strip_operator_once(p: Seq<char>, d: Seq<char>)
    requires
        p.len() > 0,
        d.len() > 0,
        d[0] != p[0],
    ensures
        strip_prefixes(p + d, p) == d,
{
    let s = p + d;
    assert(s.take(p.len() as int) =~= p);
    assert(s.skip(p.len() as int) =~= d);
    lemma_strip_prefixes_noop(d, p);
}

/// The operators that a single constraint may start with are all removed from `op + d`,
/// where `d` starts with a digit, and nothing else is.
proof fn lemma_strip_operators(op: Seq<char>, d: Seq<char>)
    requires
        op == Seq::<char>::empty() || op == seq!['>', '='] || op == seq!['>'] || op == seq!['^'] || op == seq!['~'],
        d.len() > 0,
        is_digit(d[0]),
    ensures
        strip_prefixes(strip_prefixes(strip_prefixes(strip_prefixes(strip_prefixes(strip_prefixes(
            op + d, seq!['>', '=']), seq!['<', '=']), seq!['>']), seq!['<']), seq!['^']), seq!['~']) == d,
{
    let s = op + d;
    lemma_strip_prefixes_noop(d, seq!['>', '=']);
    lemma_strip_prefixes_noop(d, seq!['<', '=']);
    lemma_strip_prefixes_noop(d, seq!['>']);
    lemma_strip_prefixes_noop(d, seq!['<']);
    lemma_strip_prefixes_noop(d, seq!['^']);
    lemma_strip_prefixes_noop(d, seq!['~']);
    if op == Seq::<char>::empty() {
        assert(s =~= d);
    } else if op == seq!['>', '='] {
        lemma_strip_operator_once(op, d);
    } else if op == seq!['>'] {
        assert(s.take(2)[1] == d[0]);
        assert(!starts_with(s, seq!['>', '=']));
        assert(strip_prefixes(s, seq!['>', '=']) == s);
        lemma_strip_prefixes_noop(s, seq!['<', '=']);
        lemma_strip_operator_once(op, d);
    } else if op == seq!['^'] {
        assert(s[0] == '^');
        lemma_strip_prefixes_noop(s, seq!['>', '=']);
        lemma_strip_prefixes_noop(s, seq!['<', '=']);
        lemma_strip_prefixes_noop(s, seq!['>']);
        lemma_strip_prefixes_noop(s, seq!['<']);
        lemma_strip_operator_once(op, d);
    } else {
        assert(s[0] == '~');
        lemma_strip_prefixes_noop(s, seq!['>', '=']);
        lemma_strip_prefixes_noop(s, seq!['<', '=']);
        lemma_strip_prefixes_noop(s, seq!['>']);
        lemma_strip_prefixes_noop(s, seq!['<']);
        lemma_strip_prefixes_noop(s, seq!['^']);
        lemma_strip_operator_once(op, d);
    }
}

/// A printed version followed by a patch level `.n` parses to the version.
proof fn lemma_parse_patch(v: PhpVersion, n: nat)
    ensures
        parsed_version(version_text(v) + seq!['.'] + decimal(n)) == Some(v),
{
    let a = decimal(v.major as nat);
    let b = decimal(v.minor as nat);
    let z = decimal(n);
    let s = version_text(v) + seq!['.'] + z;
    lemma_decimal_digits(v.major as nat);
    lemma_decimal_digits(v.minor as nat);
    lemma_decimal_digits(n);
    assert(s =~= a + seq!['.'] + b + seq!['.'] + z);
    let la = a.len() as int;
    let lb = b.len() as int;
    assert forall|i: int| 0 <= i < s.len() implies !is_ws(#[trigger] s[i]) by {
        if i < la {
            assert(s[i] == a[i]);
        } else if la < i < la + 1 + lb {
            assert(s[i] == b[i - la - 1]);
        } else if i > la + 1 + lb {
            assert(s[i] == z[i - la - 2 - lb]);
        }
    }
    lemma_trim_exact(s, 0, s.len() as int);
    assert(s.subrange(0, s.len() as int) =~= s);
    assert forall|i: int| 0 <= i < la implies #[trigger] s[i] != '.' by {
        assert(s[i] == a[i]);
    }
    lemma_find_char_exact(s, '.', la);
    let rest = s.skip(la + 1);
    assert(rest =~= b + seq!['.'] + z);
    assert(s.take(la) =~= a);
    assert forall|i: int| 0 <= i < lb implies #[trigger] rest[i] != '.' by {
        assert(rest[i] == b[i]);
    }
    lemma_find_char_exact(rest, '.', lb);
    assert(rest.take(lb) =~= b);
    assert(rest.skip(lb + 1) =~= z);
    assert forall|i: int| 0 <= i < z.len() implies #[trigger] z[i] != '.' by {}
    lemma_find_char_exact(z, '.', z.len() as int);
    assert(split(z, seq!['.']) =~= seq![z]);
    assert(split(rest, seq!['.']) =~= seq![b] + split(z, seq!['.']));
    assert(split(s, seq!['.']) =~= seq![a] + split(rest, seq!['.']));
    lemma_parse_u8_decimal(v.major);
    lemma_parse_u8_decimal(v.minor);
}

/// The characters of a printed version with an operator and a suffix: none is whitespace or `|`,
/// and what follows the operator starts with a digit and, unless the suffix is `.*`, ends with one.
proof fn lemma_form_chars(v: PhpVersion, op: Seq<char>, sfx: Seq<char>, n: nat)
    requires
        op == Seq::<char>::empty() || op == seq!['>', '='] || op == seq!['>'] || op == seq!['^'] || op == seq!['~'],
        sfx == Seq::<char>::empty() || sfx == seq!['.', '*'] || sfx == seq!['.'] + decimal(n),
    ensures
        op + version_text(v) + sfx == op + (version_text(v) + sfx),
        plain_alternative(op + version_text(v) + sfx),
        plain_alternative(version_text(v) + sfx),
        is_digit((version_text(v) + sfx)[0]),
        sfx != seq!['.', '*'] ==> is_digit((version_text(v) + sfx).last()),
{
    let a = decimal(v.major as nat);
    let b = decimal(v.minor as nat);
    let z = decimal(n);
    lemma_decimal_digits(v.major as nat);
    lemma_decimal_digits(v.minor as nat);
    lemma_decimal_digits(n);
    let x = version_text(v);
    let d = x + sfx;
    let s = op + version_text(v) + sfx;
    assert(s =~= op + d);
    assert forall|i: int| 0 <= i < x.len() implies is_digit(#[trigger] x[i]) || x[i] == '.' by {
        if i < a.len() {
            assert(x[i] == a[i]);
        } else if i > a.len() {
            assert(x[i] == b[i - a.len() - 1]);
        }
    }
    assert(x[0] == a[0] && is_digit(a[0]));
    assert(x.last() == b.last() && is_digit(b[b.len() - 1]));
    if sfx != seq!['.', '*'] && sfx != Seq::<char>::empty() {
        assert(sfx =~= seq!['.'] + z);
        assert(sfx.last() == z.last() && is_digit(z[z.len() - 1]));
    }
    assert forall|i: int| 0 <= i < sfx.len() implies #[trigger] sfx[i] != '|' && !is_ws(sfx[i]) by {
        if i > 0 && sfx != seq!['.', '*'] {
            assert(sfx[i] == z[i - 1]);
        }
    }
    assert forall|i: int| 0 <= i < d.len() implies #[trigger] d[i] != '|' && !is_ws(d[i]) by {
        if i < x.len() {
            assert(d[i] == x[i]);
        } else {
            assert(d[i] == sfx[i - x.len()]);
        }
    }
    assert forall|i: int| 0 <= i < s.len() implies #[trigger] s[i] != '|' && !is_ws(s[i]) by {
        if i >= op.len() {
            assert(s[i] == d[i - op.len()]);
        }
    }
    assert(d[0] == x[0]);
    assert(d.last() == x.last() || d.last() == sfx.last());
}

/// Taking trailing `.*` off a printed version with a suffix (`.*`, a patch level `.n`, or none)
/// leaves text that parses to the version.
proof fn lemma_version_suffix(v: PhpVersion, sfx: Seq<char>, n: nat)
    requires
        sfx == Seq::<char>::empty() || sfx == seq!['.', '*'] || sfx == seq!['.'] + decimal(n),
    ensures
        parsed_version(strip_suffixes(strip_suffixes(version_text(v) + sfx, seq!['.', '*']), seq!['.', '*'])) == Some(v),
        sfx != seq!['.', '*'] ==> !ends_with(version_text(v) + sfx, seq!['.', '*']),
{
    let x = version_text(v);
    let d = x + sfx;
    let e = Seq::<char>::empty();
    lemma_form_chars(v, e, sfx, n);
    lemma_form_chars(v, e, e, n);
    assert(x + e =~= x);
    lemma_strip_suffixes_noop(x, seq!['.', '*']);
    if sfx == seq!['.', '*'] {
        assert(d.skip(d.len() - 2) =~= seq!['.', '*']);
        assert(d.take(d.len() - 2) =~= x);
        assert(strip_suffixes(d, seq!['.', '*']) == x);
        assert(strip_suffixes(strip_suffixes(d, seq!['.', '*']), seq!['.', '*']) == x);
        law_parse_inverts_to_string(v);
    } else {
        lemma_strip_suffixes_noop(d, seq!['.', '*']);
        assert(!ends_with(d, seq!['.', '*'])) by {
            assert(d.skip(d.len() - 2)[1] == d.last());
        }
        assert(strip_suffixes(strip_suffixes(d, seq!['.', '*']), seq!['.', '*']) == d);
        if sfx == e {
            assert(d =~= x);
            law_parse_inverts_to_string(v);
        } else {
            lemma_parse_patch(v, n);
            assert(d =~= x + seq!['.'] + decimal(n));
        }
    }
}

/// A printed version with an operator in front (`>=`, `>`, `^`, `~` or none) and a suffix after
/// it (`.*`, a patch level `.n`, or none) is a single constraint, already trimmed, targeting
/// that version.
proof fn lemma_constraint_form(v: PhpVersion, op: Seq<char>, sfx: Seq<char>, n: nat)
    requires
        op == Seq::<char>::empty() || op == seq!['>', '='] || op == seq!['>'] || op == seq!['^'] || op == seq!['~'],
        sfx == Seq::<char>::empty() || sfx == seq!['.', '*'] || sfx == seq!['.'] + decimal(n),
    ensures
        trim(op + version_text(v) + sfx) == op + version_text(v) + sfx,
        composer_constraint(op + version_text(v) + sfx) == single_constraint(op + version_text(v) + sfx),
        single_constraint_version(op + version_text(v) + sfx) == Some(v),
        sfx != seq!['.', '*'] ==> !ends_with(op + version_text(v) + sfx, seq!['.', '*']),
{
    let x = version_text(v);
    let d = x + sfx;
    let s = op + version_text(v) + sfx;
    lemma_form_chars(v, op, sfx, n);
    lemma_plain_single(s);
    lemma_plain_padded(s);
    lemma_plain_padded(d);
    lemma_strip_operators(op, d);
    lemma_version_suffix(v, sfx, n);
    if sfx != seq!['.', '*'] {
        assert(!ends_with(s, seq!['.', '*'])) by {
            assert(s.skip(s.len() - 2) =~= d.skip(d.len() - 2));
        }
    }
}

/// The usual single-constraint forms name the version they are written with: a
/// printed version, with any of the operators `>=`, `>`, `^`, `~` or none in front, and with
/// `.*`, `.0` or nothing after it, targets that version.
pub proof fn law_constraint_table(v: PhpVersion, op: Seq<char>, sfx: Seq<char>)
    requires
        op == Seq::<char>::empty() || op == seq!['>', '='] || op == seq!['>'] || op == seq!['^'] || op == seq!['~'],
        sfx == Seq::<char>::empty() || sfx == seq!['.', '*'] || sfx == seq!['.', '0'],
    ensures
        constraint_version(op + version_text(v) + sfx) == Some(v),
{
    assert(decimal(0) =~= seq!['0']);
    assert(seq!['.', '0'] =~= seq!['.'] + decimal(0));
    lemma_constraint_form(v, op, sfx, 0);
}

/// A caret constraint keeps the whole major version of the version it names, whatever patch
/// level it is written with (`^8.0`, `^8.0.2`): it targets that version, and exactly the
/// versions of the same major number at or above it satisfy it.
pub proof fn law_caret_keeps_major(v: PhpVersion, patch: Option<nat>)
    ensures
        ({
            let s = seq!['^'] + version_text(v) + match patch {
                Some(n) => seq!['.'] + decimal(n),
                None => Seq::<char>::empty(),
            };
            &&& composer_constraint(s) == Some(VersionConstraint { target: v, upper: UpperBound::SameMajor })
            &&& forall|w: PhpVersion| satisfies(
                composer_constraint(s).unwrap(),
                w,
            ) <==> w.major == v.major && (v.minor <= w.minor)
        }),
{
    let sfx = match patch {
        Some(n) => seq!['.'] + decimal(n),
        None => Seq::<char>::empty(),
    };
    let n: nat = match patch {
        Some(n) => n,
        None => 0,
    };
    let s = seq!['^'] + version_text(v) + sfx;
    lemma_constraint_form(v, seq!['^'], sfx, n);
    assert(s[0] == '^');
    assert(s.take(1)[0] == '^');
    assert(starts_with(s, seq!['^']));
    assert(!starts_with(s, seq!['>']));
    assert(!starts_with(s, seq!['<']));
}

// ---------------------------------------------------------------------------
// Executable functions
// ---------------------------------------------------------------------------

/// The one-character pattern `a`.
fn one(a: char) -> (p: Vec<char>)
    ensures
        p@ == seq![a],
{
    vec![a]
}

/// The two-character pattern `ab`.
fn two(a: char, b: char) -> (p: Vec<char>)
    ensures
        p@ == seq![a, b],
{
    vec![a, b]
}

/// Appends the decimal notation of `n`.
pub fn push_decimal(out: &mut String, n: u128)
    ensures
        final(out)@ == old(out)@ + decimal(n as nat),
    decreases n,
{
    if n >= 10 {
        push_decimal(out, n / 10);
    }
    let d = n % 10;
    proof {
        reveal_strlit("0");
        reveal_strlit("1");
        reveal_strlit("2");
        reveal_strlit("3");
        reveal_strlit("4");
        reveal_strlit("5");
        reveal_strlit("6");
        reveal_strlit("7");
        reveal_strlit("8");
        reveal_strlit("9");
    }
    if d == 0 {
        out.append("0");
    } else if d == 1 {
        out.append("1");
    } else if d == 2 {
        out.append("2");
    } else if d == 3 {
        out.append("3");
    } else if d == 4 {
        out.append("4");
    } else if d == 5 {
        out.append("5");
    } else if d == 6 {
        out.append("6");
    } else if d == 7 {
        out.append("7");
    } else if d == 8 {
        out.append("8");
    } else {
        out.append("9");
    }
    proof {
        if n >= 10 {
            assert(decimal(n as nat) == decimal((n / 10) as nat).push(digit_char((n % 10) as nat)));
        }
        assert(final(out)@ =~= old(out)@ + decimal(n as nat));
    }
}

impl PhpVersion {
    /// Builds a version from its two numbers.
    pub fn new(major: u8, minor: u8) -> (v: Self)
        ensures
            v.major == major,
            v.minor == minor,
    {
        PhpVersion { major, minor }
    }

    /// The version as it prints, `major.minor` (for example `8.2`).
    pub fn to_string(&self) -> (s: String)
        ensures
            s@ == version_text(*self),
    {
        let mut s = String::new();
        push_decimal(&mut s, self.major as u128);
        proof {
            reveal_strlit(".");
        }
        s.append(".");
        push_decimal(&mut s, self.minor as u128);
        proof {
            assert(s@ =~= version_text(*self));
        }
        s
    }

    /// `self` comes no later than `other`.
    pub fn le(&self, other: &PhpVersion) -> (b: bool)
        ensures
            b == version_le(*self, *other),
    {
        self.major < other.major || (self.major == other.major && self.minor <= other.minor)
    }

    /// Parses `major.minor` (further `.patch` pieces are ignored) after trimming whitespace.
    /// Returns `None` when there is no `.` or when either number is not a `u8`.
    pub fn parse(s: &str) -> (r: Option<Self>)
        ensures
            r == parsed_version(s@),
    {
        let v = chars_of(s);
        proof {
            assert(v@.subrange(0, v@.len() as int) =~= s@);
        }
        Self::parse_range(v.as_slice(), 0, v.len())
    }

    fn parse_range(s: &[char], lo: usize, hi: usize) -> (r: Option<Self>)
        requires
            lo <= hi <= s.len(),
        ensures
            r == parsed_version(s@.subrange(lo as int, hi as int)),
    {
        let (a, b) = trim_range(s, lo, hi);
        let dot = one('.');
        let i = find_in(s, a, b, dot.as_slice());
        let ghost t = s@.subrange(a as int, b as int);
        proof {
            lemma_find_match(t, seq!['.']);
        }
        if i == b {
            return None;
        }
        let j = find_in(s, i + 1, b, dot.as_slice());
        proof {
            let rest = t.skip(i - a + 1);
            assert(rest =~= s@.subrange(i + 1, b as int));
            lemma_find_match(rest, seq!['.']);
            let parts = split(t, seq!['.']);
            assert(t.take(i - a) =~= s@.subrange(a as int, i as int));
            assert(parts[0] == s@.subrange(a as int, i as int));
            assert(rest.take(j - i - 1) =~= s@.subrange(i + 1, j as int));
            assert(split(rest, seq!['.'])[0] == s@.subrange(i + 1, j as int));
            assert(parts[1] == s@.subrange(i + 1, j as int));
        }
        let major = parse_u8_range(s, a, i);
        let minor = parse_u8_range(s, i + 1, j);
        match (major, minor) {
            (Some(major), Some(minor)) => Some(PhpVersion { major, minor }),
            _ => None,
        }
    }

    fn from_single_constraint(s: &[char], lo: usize, hi: usize) -> (r: Option<Self>)
        requires
            lo <= hi <= s.len(),
        ensures
            r == single_constraint_version(s@.subrange(lo as int, hi as int)),
    {
        let (a, b) = trim_range(s, lo, hi);
        let a = strip_prefixes_from(s, a, b, two('>', '=').as_slice());
        let a = strip_prefixes_from(s, a, b, two('<', '=').as_slice());
        let a = strip_prefixes_from(s, a, b, one('>').as_slice());
        let a = strip_prefixes_from(s, a, b, one('<').as_slice());
        let a = strip_prefixes_from(s, a, b, one('^').as_slice());
        let a = strip_prefixes_from(s, a, b, one('~').as_slice());
        let (a, b) = trim_range(s, a, b);
        let wildcard = two('.', '*');
        let b = strip_suffixes_range(s, a, b, wildcard.as_slice());
        let b = strip_suffixes_range(s, a, b, wildcard.as_slice());
        Self::parse_range(s, a, b)
    }

    /// The version that a Composer constraint targets: for `>=8.2`, `^8.2`, `~8.2`, `8.2.*`
    /// and `~8.2.0` it is `8.2`; for `^7.4 || ^8.0` (or `|`) the lowest alternative in the highest major version;
    /// for `>=8.1 <9.0` the first lower bound, or else the first part.
    pub fn from_constraint(constraint: &str) -> (r: Option<Self>)
        ensures
            r == constraint_version(constraint@),
    {
        match VersionConstraint::from_composer(constraint) {
            Some(c) => Some(c.target),
            None => None,
        }
    }

    fn preferred_in(s: &[char], a: usize, b: usize, sep: &[char]) -> (r: Option<VersionConstraint>)
        requires
            a <= b <= s.len(),
            sep.len() > 0,
        ensures
            r == preferred_alternative(split(s@.subrange(a as int, b as int), sep@)),
    {
        let ghost t = s@.subrange(a as int, b as int);
        let ghost mut processed: Seq<Seq<char>> = seq![];
        let mut best: Option<VersionConstraint> = None;
        let mut start = a;
        proof {
            assert(split(t, sep@) =~= processed + split(s@.subrange(start as int, b as int), sep@));
        }
        loop
            invariant_except_break
                a <= start <= b <= s.len(),
                sep.len() > 0,
                split(t, sep@) == processed + split(s@.subrange(start as int, b as int), sep@),
                best == preferred_alternative(processed),
            ensures
                split(t, sep@) == processed,
                best == preferred_alternative(processed),
            decreases b - start,
        {
            let e = find_in(s, start, b, sep);
            let ghost rest = s@.subrange(start as int, b as int);
            proof {
                lemma_find_match(rest, sep@);
                assert(rest.take(e - start) =~= s@.subrange(start as int, e as int));
            }
            let v = single_range(s, start, e);
            best = match (best, v) {
                (None, _) => v,
                (_, None) => best,
                (Some(x), Some(y)) => if y.target.major > x.target.major || (y.target.major
                    == x.target.major && y.target.minor < x.target.minor) {
                    Some(y)
                } else {
                    Some(x)
                },
            };
            proof {
                let piece = s@.subrange(start as int, e as int);
                let old_processed = processed;
                processed = processed.push(piece);
                assert(processed.drop_last() =~= old_processed);
                assert(processed.last() == piece);
            }
            if e == b {
                proof {
                    assert(split(rest, sep@) =~= seq![rest]);
                    assert(rest =~= s@.subrange(start as int, e as int));
                    assert(split(t, sep@) =~= processed);
                }
                break;
            }
            proof {
                assert(rest.skip(e - start + sep.len()) =~= s@.subrange(e + sep.len(), b as int));
                assert(split(rest, sep@) =~= seq![s@.subrange(start as int, e as int)] + split(
                    s@.subrange(e + sep.len(), b as int),
                    sep@,
                ));
                assert(split(t, sep@) =~= processed + split(s@.subrange(e + sep.len(), b as int), sep@));
            }
            start = e + sep.len();
        }
        best
    }

    fn and_constraint(s: &[char], a: usize, b: usize) -> (r: Option<VersionConstraint>)
        requires
            a <= b <= s.len(),
        ensures
            r == ({
                let parts = split_ws(s@.subrange(a as int, b as int));
                match first_lower_bound(parts) {
                    Some(v) => Some(VersionConstraint { target: v, upper: UpperBound::Unbounded }),
                    None => if parts.len() > 0 {
                        single_constraint(parts[0])
                    } else {
                        None
                    },
                }
            }),
    {
        let ghost t = s@.subrange(a as int, b as int);
        let ghost mut processed: Seq<Seq<char>> = seq![];
        let mut first: Option<(usize, usize)> = None;
        let mut start = a;
        let ge = two('>', '=');
        let gt = one('>');
        proof {
            assert(split_ws(t) =~= processed + split_ws(s@.subrange(start as int, b as int)));
        }
        loop
            invariant_except_break
                a <= start <= b <= s.len(),
                t == s@.subrange(a as int, b as int),
                ge@ == seq!['>', '='],
                gt@ == seq!['>'],
                split_ws(t) == processed + split_ws(s@.subrange(start as int, b as int)),
                first_lower_bound(processed) is None,
                processed.len() == 0 <==> first is None,
                first matches Some((x, y)) ==> x <= y <= s.len() && processed[0] == s@.subrange(x as int, y as int),
            ensures
                split_ws(t) == processed,
                first_lower_bound(processed) is None,
                processed.len() == 0 <==> first is None,
                first matches Some((x, y)) ==> x <= y <= s.len() && processed[0] == s@.subrange(x as int, y as int),
            decreases b - start,
        {
            let ghost rest = s@.subrange(start as int, b as int);
            let k = skip_ws(s, start, b);
            if k == b {
                proof {
                    assert(split_ws(rest) =~= seq![]);
                    assert(split_ws(t) =~= processed);
                }
                break;
            }
            let e = find_ws_in(s, k, b);
            let ghost piece = s@.subrange(k as int, e as int);
            proof {
                let u = s@.subrange(k as int, b as int);
                lemma_find_ws(u);
                assert(u[0] == s@[k as int]);
                assert(u.take(e - k) =~= piece);
                assert(u.skip(e - k) =~= s@.subrange(e as int, b as int));
                assert(split_ws(rest) =~= seq![piece] + split_ws(s@.subrange(e as int, b as int)));
            }
            if first.is_none() {
                first = Some((k, e));
            }
            let ghost old_processed = processed;
            proof {
                processed = processed.push(piece);
                assert(processed.drop_last() =~= old_processed);
                assert(split_ws(t) =~= processed + split_ws(s@.subrange(e as int, b as int)));
            }
            if matches_at(s, k, e, ge.as_slice()) || matches_at(s, k, e, gt.as_slice()) {
                let x = strip_prefixes_from(s, k, e, ge.as_slice());
                let x = strip_prefixes_from(s, x, e, gt.as_slice());
                let found = Self::parse_range(s, x, e);
                if let Some(v) = found {
                    proof {
                        assert(first_lower_bound(processed) == Some(v));
                        lemma_first_lower_bound_append(processed, split_ws(s@.subrange(e as int, b as int)));
                    }
                    return Some(VersionConstraint { target: v, upper: UpperBound::Unbounded });
                }
            }
            start = e;
        }
        match first {
            Some((x, y)) => single_range(s, x, y),
            None => None,
        }
    }

    /// The lowest installed version that satisfies the Composer constraint, within its upper
    /// bound (`8.4.*` keeps to 8.4, `^8.4` to major 8); `None` when the constraint names no
    /// version or nothing installed satisfies it.
    pub fn resolve(constraint: &str, installed: &[PhpVersion]) -> (r: Option<PhpVersion>)
        ensures
            match composer_constraint(constraint@) {
                None => r is None,
                Some(c) => match r {
                    Some(v) => is_lowest_satisfying(installed@, c, v),
                    None => none_satisfying(installed@, c),
                },
            },
    {
        match VersionConstraint::from_composer(constraint) {
            Some(c) => c.resolve(installed),
            None => None,
        }
    }
}

/// The upper bound that the single constraint `s[lo..hi]` implies.
fn upper_bound_range(s: &[char], lo: usize, hi: usize) -> (u: UpperBound)
    requires
        lo <= hi <= s.len(),
    ensures
        u == upper_bound_of(s@.subrange(lo as int, hi as int)),
{
    let (a, b) = trim_range(s, lo, hi);
    if matches_at(s, a, b, one('>').as_slice()) || matches_at(
        s,
        a,
        b,
        one('<').as_slice(),
    ) {
        UpperBound::Unbounded
    } else if ends_at(s, a, b, two('.', '*').as_slice()) {
        UpperBound::SameMinor
    } else if matches_at(s, a, b, one('^').as_slice()) {
        UpperBound::SameMajor
    } else if matches_at(s, a, b, one('~').as_slice()) {
        let dot = one('.');
        let ghost t = s@.subrange(a as int, b as int);
        let i = find_in(s, a, b, dot.as_slice());
        proof {
            lemma_find_match(t, seq!['.']);
        }
        if i == b {
            return UpperBound::SameMajor;
        }
        let j = find_in(s, i + 1, b, dot.as_slice());
        proof {
            let rest = t.skip(i - a + 1);
            assert(rest =~= s@.subrange(i + 1, b as int));
            lemma_find_match(rest, seq!['.']);
            assert(split(t, seq!['.']).len() == 1 + split(rest, seq!['.']).len());
            if j < b {
                let rest2 = rest.skip(j - i);
                assert(split(rest, seq!['.']).len() == 1 + split(rest2, seq!['.']).len());
            } else {
                assert(split(rest, seq!['.']).len() == 1);
            }
        }
        if j < b {
            UpperBound::SameMinor
        } else {
            UpperBound::SameMajor
        }
    } else {
        UpperBound::SameMinor
    }
}

/// The single constraint `s[lo..hi]` as a target and an upper bound.
fn single_range(s: &[char], lo: usize, hi: usize) -> (r: Option<VersionConstraint>)
    requires
        lo <= hi <= s.len(),
    ensures
        r == single_constraint(s@.subrange(lo as int, hi as int)),
{
    match PhpVersion::from_single_constraint(s, lo, hi) {
        Some(v) => Some(VersionConstraint { target: v, upper: upper_bound_range(s, lo, hi) }),
        None => None,
    }
}

impl VersionConstraint {
    /// Exactly the release line of `v`.
    pub fn exact(v: PhpVersion) -> (c: Self)
        ensures
            c.target == v,
            c.upper == UpperBound::SameMinor,
            forall|w: PhpVersion| satisfies(c, w) <==> w == v,
    {
        VersionConstraint { target: v, upper: UpperBound::SameMinor }
    }

    /// The lowest version the constraint accepts.
    pub fn target(&self) -> (v: PhpVersion)
        ensures
            v == self.target,
    {
        self.target
    }

    /// `v` meets the constraint.
    pub fn satisfies(&self, v: PhpVersion) -> (b: bool)
        ensures
            b == satisfies(*self, v),
    {
        self.target.le(&v) && match self.upper {
            UpperBound::SameMinor => v.major == self.target.major && v.minor == self.target.minor,
            UpperBound::SameMajor => v.major == self.target.major,
            UpperBound::Unbounded => true,
        }
    }

    /// Reads a Composer constraint (`8.4.*`, `^8.4`, `~8.4`, `>=8.4`, `^7.4 || ^8.0`, `>=8.1 <9.0`).
    pub fn from_composer(constraint: &str) -> (r: Option<Self>)
        ensures
            r == composer_constraint(constraint@),
    {
        let v = chars_of(constraint);
        let s = v.as_slice();
        proof {
            assert(s@.subrange(0, s@.len() as int) =~= constraint@);
        }
        let (a, b) = trim_range(s, 0, s.len());
        let bar2 = two('|', '|');
        let bar1 = one('|');
        let has_bar2 = contains_in(s, a, b, bar2.as_slice());
        let has_bar1 = contains_in(s, a, b, bar1.as_slice());
        if has_bar2 || has_bar1 {
            let sep = if has_bar2 { bar2 } else { bar1 };
            PhpVersion::preferred_in(s, a, b, sep.as_slice())
        } else {
            let space = one(' ');
            if contains_in(s, a, b, space.as_slice()) && !has_bar2 {
                PhpVersion::and_constraint(s, a, b)
            } else {
                single_range(s, a, b)
            }
        }
    }

    /// The lowest installed version that meets the constraint.
    pub fn resolve(&self, installed: &[PhpVersion]) -> (r: Option<PhpVersion>)
        ensures
            match r {
                Some(v) => is_lowest_satisfying(installed@, *self, v),
                None => none_satisfying(installed@, *self),
            },
    {
        let mut best: Option<PhpVersion> = None;
        let mut i: usize = 0;
        while i < installed.len()
            invariant
                i <= installed.len(),
                match best {
                    Some(v) => {
                        &&& installed@.contains(v)
                        &&& satisfies(*self, v)
                        &&& forall|j: int| 0 <= j < i && satisfies(*self, installed@[j]) ==> version_le(v, #[trigger] installed@[j])
                    },
                    None => forall|j: int| 0 <= j < i ==> !satisfies(*self, #[trigger] installed@[j]),
                },
            decreases installed.len() - i,
        {
            let x = installed[i];
            if self.satisfies(x) {
                match best {
                    Some(v) => {
                        if x.le(&v) {
                            best = Some(x);
                        }
                    },
                    None => {
                        best = Some(x);
                    },
                }
            }
            i = i + 1;
        }
        best
    }
}

} // verus!
