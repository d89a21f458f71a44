//! Which PHP versions Homebrew has installed, from the entries of its `opt` directory.
use vstd::prelude::*;
use crate::shell::{join_path, path_join};
use crate::text::{chars_of, find_in, lemma_find_match, matches_at, split};
use crate::version::{PhpVersion, parsed_version, version_le};
use std::collections::HashSet;

verus! {

/// One installed PHP version and the directory that holds its binaries.
#[derive(Debug, Clone)]
pub struct PhpInstallation {
    pub version: PhpVersion,
    pub bin_dir: String,
}

impl View for PhpInstallation {
    type V = (PhpVersion, Seq<char>);

    open spec fn view(&self) -> (PhpVersion, Seq<char>) {
        (self.version, self.bin_dir@)
    }
}

/// What is known of one entry of Homebrew's `opt` directory: its name, whether
/// `<entry>/bin/php` exists, and, for the bare `php` entry, where its symlink points.
#[derive(Debug, Clone)]
pub struct OptEntry {
    pub name: String,
    pub has_php_binary: bool,
    pub link_target: Option<String>,
}

/// Homebrew's `opt` directory.
pub open spec fn homebrew_opt() -> Seq<char> {
    "/opt/homebrew/opt"@
}

pub open spec fn models(s: Seq<PhpInstallation>) -> Seq<(PhpVersion, Seq<char>)> {
    s.map_values(|i: PhpInstallation| i@)
}

/// The path components that `Path::components` reports as names: the pieces between
/// slashes, without empty pieces and without `.`.
pub open spec fn named_components(pieces: Seq<Seq<char>>) -> Seq<Seq<char>>
    decreases pieces.len(),
{
    if pieces.len() == 0 {
        seq![]
    } else {
        let r = named_components(pieces.drop_last());
        let c = pieces.last();
        if c.len() > 0 && c != seq!['.'] {
            r.push(c)
        } else {
            r
        }
    }
}

/// The bin directory belongs to the bare `php` formula: the name of its parent is `php`.
pub open spec fn parent_is_php(bin_dir: Seq<char>) -> bool {
    let cs = named_components(split(bin_dir, seq!['/']));
    cs.len() >= 2 && cs[cs.len() - 2] == seq!['p', 'h', 'p']
}

/// Some installation of version `v` in `all` comes from a versioned formula (`php@X.Y`).
pub open spec fn has_versioned(all: Seq<(PhpVersion, Seq<char>)>, v: PhpVersion) -> bool {
    exists|j: int| 0 <= j < all.len() && !parent_is_php(all[j].1) && #[trigger] all[j].0 == v
}

/// An installation survives deduplication unless it is the bare formula and a versioned
/// formula has the same version.
pub open spec fn survives(i: (PhpVersion, Seq<char>), all: Seq<(PhpVersion, Seq<char>)>) -> bool {
    !parent_is_php(i.1) || !has_versioned(all, i.0)
}

/// The members of `prefix` that survive deduplication within `all`, in order.
pub open spec fn survivors(prefix: Seq<(PhpVersion, Seq<char>)>, all: Seq<(PhpVersion, Seq<char>)>) -> Seq<(PhpVersion, Seq<char>)>
    decreases prefix.len(),
{
    if prefix.len() == 0 {
        seq![]
    } else {
        let r = survivors(prefix.drop_last(), all);
        if survives(prefix.last(), all) {
            r.push(prefix.last())
        } else {
            r
        }
    }
}

/// `all` without the bare-formula installations that a versioned formula duplicates.
pub open spec fn deduplicated(all: Seq<(PhpVersion, Seq<char>)>) -> Seq<(PhpVersion, Seq<char>)> {
    survivors(all, all)
}

/// The version in a Cellar path such as `../Cellar/php/8.5.4`: its last segment, parsed.
pub open spec fn link_version(target: Seq<char>) -> Option<PhpVersion> {
    parsed_version(split(target, seq!['/']).last())
}

/// `<opt>/<name>/bin`.
pub open spec fn entry_bin_dir(name: Seq<char>) -> Seq<char> {
    path_join(path_join(homebrew_opt(), name), seq!['b', 'i', 'n'])
}

/// The installation an `opt` entry stands for: `php@X.Y` with a `php` binary, or the bare
/// `php` formula with a `php` binary whose symlink names its version.
pub open spec fn entry_installation(e: OptEntry) -> Option<(PhpVersion, Seq<char>)> {
    let name = e.name@;
    if starts_with_php_at(name) {
        match parsed_version(name.skip(4)) {
            Some(v) => if e.has_php_binary {
                Some((v, entry_bin_dir(name)))
            } else {
                None
            },
            None => None,
        }
    } else if name == seq!['p', 'h', 'p'] {
        if e.has_php_binary {
            match e.link_target {
                Some(t) => match link_version(t@) {
                    Some(v) => Some((v, entry_bin_dir(name))),
                    None => None,
                },
                None => None,
            }
        } else {
            None
        }
    } else {
        None
    }
}

pub open spec fn starts_with_php_at(name: Seq<char>) -> bool {
    name.len() >= 4 && name.take(4) == seq!['p', 'h', 'p', '@']
}

/// The installations that the entries stand for, in the entries' order.
pub open spec fn collected(entries: Seq<OptEntry>) -> Seq<(PhpVersion, Seq<char>)>
    decreases entries.len(),
{
    if entries.len() == 0 {
        seq![]
    } else {
        let r = collected(entries.drop_last());
        match entry_installation(entries.last()) {
            Some(i) => r.push(i),
            None => r,
        }
    }
}

/// Ascending by version.
pub open spec fn sorted_by_version(s: Seq<(PhpVersion, Seq<char>)>) -> bool {
    forall|i: int, j: int| 0 <= i < j < s.len() ==> version_le(#[trigger] s[i].0, #[trigger] s[j].0)
}

/// The members of `s` with version `v`, in order.
pub open spec fn with_version(s: Seq<(PhpVersion, Seq<char>)>, v: PhpVersion) -> Seq<(PhpVersion, Seq<char>)>
    decreases s.len(),
{
    if s.len() == 0 {
        seq![]
    } else {
        let r = with_version(s.drop_last(), v);
        if s.last().0 == v {
            r.push(s.last())
        } else {
            r
        }
    }
}

proof fn lemma_with_version_append(a: Seq<(PhpVersion, Seq<char>)>, b: Seq<(PhpVersion, Seq<char>)>, v: PhpVersion)
    ensures
        with_version(a + b, v) == with_version(a, v) + with_version(b, v),
    decreases b.len(),
{
    if b.len() == 0 {
        assert(a + b =~= a);
        assert(with_version(a, v) + with_version(b, v) =~= with_version(a, v));
    } else {
        lemma_with_version_append(a, b.drop_last(), v);
        assert((a + b).drop_last() =~= a + b.drop_last());
        assert((a + b).last() == b.last());
        if b.last().0 == v {
            assert(with_version(a, v) + with_version(b, v) =~= (with_version(a, v) + with_version(b.drop_last(), v)).push(b.last()));
        }
    }
}

proof fn lemma_with_version_none(s: Seq<(PhpVersion, Seq<char>)>, v: PhpVersion)
    requires
        forall|i: int| 0 <= i < s.len() ==> #[trigger] s[i].0 != v,
    ensures
        with_version(s, v) == Seq::<(PhpVersion, Seq<char>)>::empty(),
    decreases s.len(),
{
    if s.len() > 0 {
        assert forall|i: int| 0 <= i < s.drop_last().len() implies #[trigger] s.drop_last()[i].0 != v by {
            assert(s.drop_last()[i] == s[i]);
        }
        lemma_with_version_none(s.drop_last(), v);
    }
}

/// Inserting `x` into a sorted sequence after every member that is not later than it
/// appends `x` to the members of its version and leaves the others alone.
proof fn lemma_with_version_insert(s: Seq<(PhpVersion, Seq<char>)>, p: int, x: (PhpVersion, Seq<char>), v: PhpVersion)
    requires
        0 <= p <= s.len(),
        sorted_by_version(s),
        p < s.len() ==> !version_le(s[p].0, x.0),
    ensures
        with_version(s.insert(p, x), v) == if x.0 == v { with_version(s, v).push(x) } else { with_version(s, v) },
{
    let a = s.take(p);
    let b = s.skip(p);
    assert(s =~= a + b);
    assert(s.insert(p, x) =~= (a + seq![x]) + b);
    lemma_with_version_append(a, b, v);
    lemma_with_version_append(a + seq![x], b, v);
    lemma_with_version_append(a, seq![x], v);
    assert(seq![x].drop_last() =~= Seq::<(PhpVersion, Seq<char>)>::empty());
    assert(with_version(Seq::<(PhpVersion, Seq<char>)>::empty(), v) =~= Seq::<(PhpVersion, Seq<char>)>::empty());
    assert(with_version(seq![x], v) =~= if x.0 == v { seq![x] } else { Seq::<(PhpVersion, Seq<char>)>::empty() });
    if x.0 == v {
        assert forall|i: int| 0 <= i < b.len() implies #[trigger] b[i].0 != v by {
            assert(b[i] == s[p + i]);
            assert(version_le(s[p].0, s[p + i].0) || i == 0);
        }
        lemma_with_version_none(b, v);
        assert(with_version(s, v) =~= with_version(a, v));
        assert(with_version(a, v) + with_version(seq![x], v) =~= with_version(a, v).push(x));
    } else {
        assert(with_version(seq![x], v) =~= Seq::<(PhpVersion, Seq<char>)>::empty());
        assert(with_version(a, v) + with_version(seq![x], v) =~= with_version(a, v));
    }
}

proof fn lemma_models_push(s: Seq<PhpInstallation>, x: PhpInstallation)
    ensures
        models(s.push(x)) == models(s).push(x@),
{
    assert(models(s.push(x)) =~= models(s).push(x@));
}

proof fn lemma_survivors(prefix: Seq<(PhpVersion, Seq<char>)>, all: Seq<(PhpVersion, Seq<char>)>, x: (PhpVersion, Seq<char>))
    ensures
        survivors(prefix, all).contains(x) <==> prefix.contains(x) && survives(x, all),
    decreases prefix.len(),
{
    if prefix.len() > 0 {
        let init = prefix.drop_last();
        let last = prefix.last();
        lemma_survivors(init, all, x);
        let r = survivors(init, all);
        assert(prefix =~= init.push(last));
        assert(prefix.contains(x) <==> init.contains(x) || x == last) by {
            if prefix.contains(x) && x != last {
                let k = choose|k: int| 0 <= k < prefix.len() && prefix[k] == x;
                assert(init[k] == x);
            }
            if init.contains(x) {
                let k = choose|k: int| 0 <= k < init.len() && init[k] == x;
                assert(prefix[k] == x);
            }
            if x == last {
                assert(prefix[prefix.len() - 1] == x);
            }
        }
        if survives(last, all) {
            assert(survivors(prefix, all) == r.push(last));
            assert(r.push(last).contains(x) <==> r.contains(x) || x == last) by {
                if r.push(last).contains(x) && x != last {
                    let k = choose|k: int| 0 <= k < r.push(last).len() && r.push(last)[k] == x;
                    assert(r[k] == x);
                }
                if r.contains(x) {
                    let k = choose|k: int| 0 <= k < r.len() && r[k] == x;
                    assert(r.push(last)[k] == x);
                }
                if x == last {
                    assert(r.push(last)[r.len() as int] == x);
                }
            }
        }
    }
}

/// Deduplication keeps every versioned-formula installation, and keeps a bare `php`
/// installation exactly when no versioned formula has its version.
pub proof fn law_deduplicate_prefers_versioned(all: Seq<(PhpVersion, Seq<char>)>)
    ensures
        forall|x: (PhpVersion, Seq<char>)| all.contains(x) && !parent_is_php(x.1) ==> #[trigger] deduplicated(all).contains(x),
        forall|x: (PhpVersion, Seq<char>)| all.contains(x) && parent_is_php(x.1) && !(exists|j: int|
            0 <= j < all.len() && !parent_is_php(all[j].1) && all[j].0 == x.0) ==> #[trigger] deduplicated(all).contains(x),
        forall|x: (PhpVersion, Seq<char>)| #[trigger] deduplicated(all).contains(x) ==> all.contains(x) && (parent_is_php(x.1) ==> !has_versioned(all, x.0)),
{
    assert forall|x: (PhpVersion, Seq<char>)| all.contains(x) && !parent_is_php(x.1) implies #[trigger] deduplicated(all).contains(x) by {
        lemma_survivors(all, all, x);
    }
    assert forall|x: (PhpVersion, Seq<char>)| all.contains(x) && parent_is_php(x.1) && !(exists|j: int|
        0 <= j < all.len() && !parent_is_php(all[j].1) && all[j].0 == x.0) implies #[trigger] deduplicated(all).contains(x) by {
        lemma_survivors(all, all, x);
    }
    assert forall|x: (PhpVersion, Seq<char>)| #[trigger] deduplicated(all).contains(x) implies all.contains(x) && (parent_is_php(x.1) ==> !has_versioned(all, x.0)) by {
        lemma_survivors(all, all, x);
    }
}

/// Check if a path is the bare "php" formula (not "php@X.Y").
pub fn is_bare_php(bin_dir: &str) -> (b: bool)
    ensures
        b == parent_is_php(bin_dir@),
{
    let v = chars_of(bin_dir);
    let s = v.as_slice();
    let n = s.len();
    let slash = vec!['/'];
    let php = vec!['p', 'h', 'p'];
    let ghost whole = s@.subrange(0, n as int);
    proof {
        assert(whole =~= bin_dir@);
    }
    let ghost mut processed: Seq<Seq<char>> = seq![];
    let mut count: usize = 0;
    let mut last: (usize, usize) = (0, 0);
    let mut prev: (usize, usize) = (0, 0);
    let mut start: usize = 0;
    loop
        invariant_except_break
            start <= n == s.len(),
            slash@ == seq!['/'],
            whole == s@.subrange(0, n as int),
            split(whole, seq!['/']) == processed + split(s@.subrange(start as int, n as int), seq!['/']),
            count == named_components(processed).len(),
            count <= start,
            count >= 1 ==> last.0 <= last.1 <= n && named_components(processed)[count - 1] == s@.subrange(last.0 as int, last.1 as int),
            count >= 2 ==> prev.0 <= prev.1 <= n && named_components(processed)[count - 2] == s@.subrange(prev.0 as int, prev.1 as int),
        ensures
            split(whole, seq!['/']) == processed,
            count == named_components(processed).len(),
            count >= 2 ==> prev.0 <= prev.1 <= n && named_components(processed)[count - 2] == s@.subrange(prev.0 as int, prev.1 as int),
        decreases n - start,
    {
        let e = find_in(s, start, n, slash.as_slice());
        let ghost rest = s@.subrange(start as int, n as int);
        let ghost piece = s@.subrange(start as int, e as int);
        proof {
            lemma_find_match(rest, seq!['/']);
            assert(rest.take(e - start) =~= piece);
        }
        let is_dot = e - start == 1 && s[start] == '.';
        proof {
            if is_dot {
                assert(piece =~= seq!['.']);
            } else if e > start {
                if piece == seq!['.'] {
                    assert(piece[0] == s@[start as int]);
                }
            }
        }
        let ghost old_processed = processed;
        let ghost old_names = named_components(processed);
        proof {
            processed = processed.push(piece);
            assert(processed.drop_last() =~= old_processed);
        }
        if e > start && !is_dot {
            prev = last;
            last = (start, e);
            count = count + 1;
            proof {
                assert(named_components(processed) == old_names.push(piece));
            }
        }
        if e == n {
            proof {
                assert(split(rest, seq!['/']) =~= seq![rest]);
                assert(rest =~= piece);
                assert(split(whole, seq!['/']) =~= processed);
            }
            break;
        }
        proof {
            assert(rest.skip(e - start + 1) =~= s@.subrange(e + 1, n as int));
            assert(split(whole, seq!['/']) =~= processed + split(s@.subrange(e + 1, n as int), seq!['/']));
        }
        start = e + 1;
    }
    let r = count >= 2 && prev.1 - prev.0 == 3 && matches_at(s, prev.0, prev.1, php.as_slice());
    proof {
        if count >= 2 {
            let p = s@.subrange(prev.0 as int, prev.1 as int);
            if p.len() == 3 {
                assert(p.take(3) =~= p);
            }
        }
    }
    r
}

/// The number under which a version is kept in a hash set: major and minor in one `u16`.
pub open spec fn version_key(v: PhpVersion) -> u16 {
    (v.major * 256 + v.minor) as u16
}

/// Two versions share a hash-set number only when they are the same version.
pub proof fn law_version_key_injective(a: PhpVersion, b: PhpVersion)
    ensures
        version_key(a) == version_key(b) <==> a == b,
{
    assert(a.major * 256 + a.minor < 65536);
    assert(b.major * 256 + b.minor < 65536);
}

fn key_of(v: PhpVersion) -> (k: u16)
    ensures
        k == version_key(v),
{
    v.major as u16 * 256 + v.minor as u16
}

/// Remove duplicates, preferring versioned formula (php@X.Y) over bare (php).
pub fn deduplicate(installations: &mut Vec<PhpInstallation>)
    ensures
        models(final(installations)@) == deduplicated(models(old(installations)@)),
{
    let ghost all = models(installations@);
    let n = installations.len();
    let mut bare: Vec<bool> = Vec::new();
    let mut i: usize = 0;
    while i < n
        invariant
            i <= n == installations.len(),
            bare.len() == i,
            forall|j: int| 0 <= j < i ==> bare@[j] == parent_is_php(#[trigger] installations@[j].bin_dir@),
        decreases n - i,
    {
        bare.push(is_bare_php(installations[i].bin_dir.as_str()));
        i = i + 1;
    }
    // The versions that some versioned formula provides.
    let mut versioned: HashSet<u16> = HashSet::new();
    let mut i: usize = 0;
    while i < n
        invariant
            i <= n == installations.len() == bare.len(),
            forall|k: u16| #[trigger] versioned@.contains(k) ==> exists|j: int|
                0 <= j < i && !bare@[j] && version_key(#[trigger] installations@[j].version) == k,
            forall|j: int| 0 <= j < i && !bare@[j] ==> versioned@.contains(version_key(#[trigger] installations@[j].version)),
        decreases n - i,
    {
        if !bare[i] {
            versioned.insert(key_of(installations[i].version));
        }
        i = i + 1;
    }
    let mut keep: Vec<bool> = Vec::new();
    let mut i: usize = 0;
    while i < n
        invariant
            i <= n == installations.len() == bare.len(),
            all == models(installations@),
            forall|j: int| 0 <= j < n ==> bare@[j] == parent_is_php(#[trigger] installations@[j].bin_dir@),
            forall|k: u16| #[trigger] versioned@.contains(k) ==> exists|j: int|
                0 <= j < n && !bare@[j] && version_key(#[trigger] installations@[j].version) == k,
            forall|j: int| 0 <= j < n && !bare@[j] ==> versioned@.contains(version_key(#[trigger] installations@[j].version)),
            keep.len() == i,
            forall|j: int| 0 <= j < i ==> keep@[j] == survives(#[trigger] all[j], all),
        decreases n - i,
    {
        let v = installations[i].version;
        let key = key_of(v);
        let k = if bare[i] {
            !versioned.contains(&key)
        } else {
            true
        };
        proof {
            assert(all[i as int] == installations@[i as int]@);
            if bare[i as int] {
                if has_versioned(all, v) {
                    let j = choose|j: int| 0 <= j < all.len() && !parent_is_php(all[j].1) && #[trigger] all[j].0 == v;
                    assert(all[j] == installations@[j]@);
                    assert(versioned@.contains(version_key(installations@[j].version)));
                }
                if versioned@.contains(version_key(v)) {
                    let j = choose|j: int| 0 <= j < n && !bare@[j] && version_key(#[trigger] installations@[j].version) == version_key(v);
                    assert(all[j] == installations@[j]@);
                    assert(installations@[j].version == v);
                    assert(bare@[j] == parent_is_php(installations@[j].bin_dir@));
                    assert(!parent_is_php(all[j].1) && all[j].0 == v);
                    assert(has_versioned(all, v));
                }
            }
        }
        keep.push(k);
        i = i + 1;
    }
    let mut old: Vec<PhpInstallation> = Vec::new();
    std::mem::swap(&mut old, installations);
    let ghost old_seq = old@;
    let mut out: Vec<PhpInstallation> = Vec::new();
    let mut k: usize = 0;
    proof {
        assert(all.take(0) =~= Seq::<(PhpVersion, Seq<char>)>::empty());
    }
    for inst in it: old.into_iter()
        invariant
            it.seq() == old_seq,
            all == models(old_seq),
            k == it.index(),
            keep.len() == n == old_seq.len(),
            forall|j: int| 0 <= j < n ==> keep@[j] == survives(#[trigger] all[j], all),
            models(out@) == survivors(all.take(k as int), all),
    {
        proof {
            assert(all.take(k + 1).drop_last() =~= all.take(k as int));
            assert(all.take(k + 1).last() == all[k as int]);
            assert(all[k as int] == inst@);
        }
        if keep[k] {
            proof {
                lemma_models_push(out@, inst);
            }
            out.push(inst);
        }
        k = k + 1;
    }
    proof {
        assert(all.take(n as int) =~= all);
    }
    *installations = out;
}

/// The start of the last `/`-separated segment of `s`.
fn last_segment_start(s: &[char]) -> (r: usize)
    ensures
        r <= s.len(),
        split(s@, seq!['/']).last() == s@.subrange(r as int, s.len() as int),
{
    let n = s.len();
    let slash = vec!['/'];
    let ghost whole = s@.subrange(0, n as int);
    proof {
        assert(whole =~= s@);
    }
    let ghost mut processed: Seq<Seq<char>> = seq![];
    let mut start: usize = 0;
    loop
        invariant_except_break
            start <= n == s.len(),
            slash@ == seq!['/'],
            whole == s@,
            split(whole, seq!['/']) == processed + split(s@.subrange(start as int, n as int), seq!['/']),
        ensures
            start <= n,
            split(whole, seq!['/']) == processed.push(s@.subrange(start as int, n as int)),
        decreases n - start,
    {
        let e = find_in(s, start, n, slash.as_slice());
        let ghost rest = s@.subrange(start as int, n as int);
        proof {
            lemma_find_match(rest, seq!['/']);
        }
        if e == n {
            proof {
                assert(split(rest, seq!['/']) =~= seq![rest]);
                assert(split(whole, seq!['/']) =~= processed.push(rest));
            }
            break;
        }
        proof {
            let piece = s@.subrange(start as int, e as int);
            assert(rest.take(e - start) =~= piece);
            assert(rest.skip(e - start + 1) =~= s@.subrange(e + 1, n as int));
            processed = processed.push(piece);
            assert(split(whole, seq!['/']) =~= processed + split(s@.subrange(e + 1, n as int), seq!['/']));
        }
        start = e + 1;
    }
    start
}

/// Detect the version of the bare "php" formula from where its symlink points
/// (for example `../Cellar/php/8.5.4`).
pub fn version_from_link(target: &str) -> (r: Option<PhpVersion>)
    ensures
        r == link_version(target@),
{
    let v = chars_of(target);
    let k = last_segment_start(v.as_slice());
    let last = target.substring_char(k, v.len());
    PhpVersion::parse(last)
}

/// The installation that one `opt` entry stands for, if any.
pub fn installation_of(entry: &OptEntry) -> (r: Option<PhpInstallation>)
    ensures
        match r {
            Some(i) => entry_installation(*entry) == Some(i@),
            None => entry_installation(*entry) is None,
        },
{
    let name = entry.name.as_str();
    let chars = chars_of(name);
    let n = chars.len();
    let prefix = vec!['p', 'h', 'p', '@'];
    proof {
        assert(chars@.subrange(0, n as int) =~= name@);
    }
    let at = matches_at(chars.as_slice(), 0, n, prefix.as_slice());
    let bare = n == 3 && chars[0] == 'p' && chars[1] == 'h' && chars[2] == 'p';
    proof {
        if bare {
            assert(name@ =~= seq!['p', 'h', 'p']);
        } else if name@ == seq!['p', 'h', 'p'] {
            assert(name@[0] == 'p' && name@[1] == 'h' && name@[2] == 'p');
        }
    }
    proof {
        reveal_strlit("/opt/homebrew/opt");
        reveal_strlit("bin");
    }
    if at {
        let rest = name.substring_char(4, n);
        match PhpVersion::parse(rest) {
            Some(version) => {
                if entry.has_php_binary {
                    let dir = join_path("/opt/homebrew/opt", name);
                    let bin_dir = join_path(dir.as_str(), "bin");
                    Some(PhpInstallation { version, bin_dir })
                } else {
                    None
                }
            },
            None => None,
        }
    } else if bare {
        if entry.has_php_binary {
            match &entry.link_target {
                Some(t) => match version_from_link(t.as_str()) {
                    Some(version) => {
                        let dir = join_path("/opt/homebrew/opt", name);
                        let bin_dir = join_path(dir.as_str(), "bin");
                        Some(PhpInstallation { version, bin_dir })
                    },
                    None => None,
                },
                None => None,
            }
        } else {
            None
        }
    } else {
        None
    }
}

/// Sorts by version, keeping the order of equal versions.
pub fn sort_by_version(items: Vec<PhpInstallation>) -> (r: Vec<PhpInstallation>)
    ensures
        sorted_by_version(models(r@)),
        forall|v: PhpVersion| #[trigger] with_version(models(r@), v) == with_version(models(items@), v),
        models(r@).to_multiset() == models(items@).to_multiset(),
{
    let ghost input = items@;
    let mut out: Vec<PhpInstallation> = Vec::new();
    let ghost mut k: int = 0;
    proof {
        assert(models(input).take(0) =~= Seq::<(PhpVersion, Seq<char>)>::empty());
        assert(models(out@) =~= Seq::<(PhpVersion, Seq<char>)>::empty());
    }
    for x in it: items.into_iter()
        invariant
            it.seq() == input,
            k == it.index(),
            k <= input.len(),
            sorted_by_version(models(out@)),
            forall|v: PhpVersion| #[trigger] with_version(models(out@), v) == with_version(models(input).take(k as int), v),
            models(out@).to_multiset() == models(input).take(k as int).to_multiset(),
    {
        proof {
            assert(k < input.len());
            assert(x == input[k as int]);
        }
        let mut p: usize = 0;
        while p < out.len() && out[p].version.le(&x.version)
            invariant
                p <= out.len(),
                k < input.len(),
                forall|j: int| 0 <= j < p ==> version_le(#[trigger] out@[j].version, x.version),
            decreases out.len() - p,
        {
            p = p + 1;
        }
        let ghost before = out@;
        proof {
            assert(models(input).take(k + 1) =~= models(input).take(k as int).push(x@)) by {
                assert(input[k as int] == x);
            }
        }
        out.insert(p, x);
        proof {
            assert(models(out@) =~= models(before).insert(p as int, x@));
            vstd::seq_lib::to_multiset_insert(models(before), p as int, x@);
            vstd::seq_lib::to_multiset_build(models(input).take(k as int), x@);
            assert forall|v: PhpVersion| #[trigger] with_version(models(out@), v) == with_version(models(input).take(k + 1), v) by {
                lemma_with_version_insert(models(before), p as int, x@, v);
                let t = models(input).take(k + 1);
                assert(t.drop_last() =~= models(input).take(k as int));
                assert(t.last() == x@);
            }
            assert forall|i: int, j: int| 0 <= i < j < models(out@).len() implies version_le(
                #[trigger] models(out@)[i].0,
                #[trigger] models(out@)[j].0,
            ) by {
                let m = models(before);
                assert(sorted_by_version(m));
                if j < p {
                    assert(models(out@)[i] == m[i] && models(out@)[j] == m[j]);
                } else if j == p {
                    assert(models(out@)[i] == m[i]);
                    assert(version_le(before[i].version, x.version));
                } else if i == p {
                    assert(models(out@)[j] == m[j - 1]);
                    if p < before.len() {
                        assert(!version_le(before[p as int].version, x.version));
                        assert(version_le(m[p as int].0, m[j - 1].0));
                    }
                } else if i < p {
                    assert(models(out@)[i] == m[i] && models(out@)[j] == m[j - 1]);
                } else {
                    assert(models(out@)[i] == m[i - 1] && models(out@)[j] == m[j - 1]);
                }
            }
        }
        proof {
            k = k + 1;
        }
    }
    proof {
        assert(models(input).take(input.len() as int) =~= models(input));
    }
    out
}

/// The installed PHP versions that the entries of Homebrew's `opt` directory stand for:
/// the versioned formulas `php@X.Y` and the bare `php` formula, each only with a `php`
/// binary, the bare one dropped when a versioned one has its version, sorted by version
/// (installations of the same version keep the entries' order).
pub fn installations_from_entries(entries: &Vec<OptEntry>) -> (r: Vec<PhpInstallation>)
    ensures
        sorted_by_version(models(r@)),
        forall|v: PhpVersion| #[trigger] with_version(models(r@), v) == with_version(deduplicated(collected(entries@)), v),
        models(r@).to_multiset() == deduplicated(collected(entries@)).to_multiset(),
{
    let mut found: Vec<PhpInstallation> = Vec::new();
    let mut i: usize = 0;
    while i < entries.len()
        invariant
            i <= entries.len(),
            models(found@) == collected(entries@.take(i as int)),
        decreases entries.len() - i,
    {
        proof {
            assert(entries@.take(i + 1).drop_last() =~= entries@.take(i as int));
            assert(entries@.take(i + 1).last() == entries@[i as int]);
        }
        match installation_of(&entries[i]) {
            Some(inst) => {
                proof {
                    lemma_models_push(found@, inst);
                }
                found.push(inst);
            },
            None => {},
        }
        i = i + 1;
    }
    proof {
        assert(entries@.take(entries.len() as int) =~= entries@);
    }
    deduplicate(&mut found);
    sort_by_version(found)
}

} // verus!
