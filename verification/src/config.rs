//! The default PHP version, kept in `~/.phm/default`.
use vstd::prelude::*;
use crate::text::{is_ws, lemma_trim_end, lemma_trim_exact, lemma_trim_start, trim, trimmed_nonempty};

verus! {

/// What the `default` file holds for `version`: the text and a newline.
pub open spec fn default_file_text(version: Seq<char>) -> Seq<char> {
    version + seq!['\n']
}

/// What reading the `default` file gives: its trimmed text, or nothing when that is empty.
pub open spec fn read_default_text(content: Seq<char>) -> Option<Seq<char>> {
    if trim(content).len() == 0 {
        None
    } else {
        Some(trim(content))
    }
}

/// The contents to write to the `default` file.
pub fn default_file_content(version: &str) -> (r: String)
    ensures
        r@ == default_file_text(version@),
{
    let mut r = String::from_str(version);
    proof {
        reveal_strlit("\n");
    }
    r.append("\n");
    r
}

/// The default version that a `default` file with these contents names.
pub fn default_from_content(content: &str) -> (r: Option<String>)
    ensures
        match r {
            Some(v) => read_default_text(content@) == Some(v@),
            None => read_default_text(content@) is None,
        },
{
    trimmed_nonempty(content)
}

/// A text without surrounding whitespace is unchanged by trimming once a newline is added.
pub proof fn lemma_trim_newline(v: Seq<char>)
    requires
        v.len() > 0,
        trim(v) == v,
    ensures
        trim(v + seq!['\n']) == v,
{
    lemma_trim_start(v);
    lemma_trim_end(crate::text::trim_start(v));
    let s = v + seq!['\n'];
    assert(crate::text::trim_start(v) == v);
    assert(!is_ws(v[0]));
    lemma_trim_end(v);
    assert(crate::text::trim_end(v) == v);
    assert(!is_ws(v.last()));
    assert forall|i: int| v.len() <= i < s.len() implies is_ws(#[trigger] s[i]) by {
        assert(s[i] == '\n');
    }
    assert(s[0] == v[0]);
    assert(s[v.len() - 1] == v.last());
    lemma_trim_exact(s, 0, v.len() as int);
    assert(s.subrange(0, v.len() as int) =~= v);
}

/// Setting a default and reading it back gives the same version text, for any text
/// without surrounding whitespace (such as a printed version).
pub proof fn law_default_read_back(version: Seq<char>)
    requires
        version.len() > 0,
        trim(version) == version,
    ensures
        read_default_text(default_file_text(version)) == Some(version),
{
    lemma_trim_newline(version);
}

} // verus!
