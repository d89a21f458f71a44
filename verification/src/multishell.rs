//! Per-shell state: the multishell directory's name, its `current` file and the binaries
//! it links.
use vstd::prelude::*;
use crate::config::{lemma_trim_newline, read_default_text};
use crate::text::{
    chars_of, decimal, find_in, lemma_decimal_digits, lemma_find_char_exact, lemma_find_match,
    lemma_trim_exact, parse_i32, parse_i32_range, split, trimmed_nonempty,
};
use crate::version::{push_decimal, version_text, PhpVersion};

verus! {

/// The name of a shell's multishell directory: the shell's process id and the creation
/// time in milliseconds, joined by `_`.
pub open spec fn dir_name_text(pid: u32, millis: u128) -> Seq<char> {
    decimal(pid as nat) + seq!['_'] + decimal(millis as nat)
}

/// The process id that a multishell directory's name starts with: the text before the
/// first `_`, parsed as an `i32`.
pub open spec fn dir_pid(name: Seq<char>) -> Option<i32> {
    parse_i32(split(name, seq!['_'])[0])
}

/// What the `current` file holds for a linked version.
pub open spec fn current_file_text(v: PhpVersion) -> Seq<char> {
    version_text(v) + seq!['\n']
}

/// The multishell directory name for a shell.
pub fn multishell_dir_name(pid: u32, millis: u128) -> (r: String)
    ensures
        r@ == dir_name_text(pid, millis),
{
    let mut r = String::new();
    push_decimal(&mut r, pid as u128);
    proof {
        reveal_strlit("_");
    }
    r.append("_");
    push_decimal(&mut r, millis);
    proof {
        assert(r@ =~= dir_name_text(pid, millis));
    }
    r
}

/// The process id that a multishell directory was made for, if its name starts with one.
pub fn multishell_pid(name: &str) -> (r: Option<i32>)
    ensures
        r == dir_pid(name@),
{
    let v = chars_of(name);
    let s = v.as_slice();
    let underscore = vec!['_'];
    proof {
        assert(s@.subrange(0, s@.len() as int) =~= name@);
        lemma_find_match(name@, seq!['_']);
    }
    let e = find_in(s, 0, s.len(), underscore.as_slice());
    proof {
        assert(underscore@ =~= seq!['_']);
        assert(s@.subrange(0, s.len() as int) == name@);
        assert(name@.take(e as int) =~= s@.subrange(0, e as int));
        assert(e == crate::text::find(name@, seq!['_']));
        if e < name@.len() {
            assert(split(name@, seq!['_'])[0] == name@.take(e as int));
        } else {
            assert(split(name@, seq!['_']) == seq![name@]);
            assert(name@ =~= s@.subrange(0, e as int));
        }
    }
    parse_i32_range(s, 0, e)
}

/// The contents to write to the `current` file.
pub fn current_file_content(v: PhpVersion) -> (r: String)
    ensures
        r@ == current_file_text(v),
{
    let mut r = v.to_string();
    proof {
        reveal_strlit("\n");
    }
    r.append("\n");
    r
}

/// The version text that a `current` file with these contents names.
pub fn current_from_content(content: &str) -> (r: Option<String>)
    ensures
        match r {
            Some(v) => read_default_text(content@) == Some(v@),
            None => read_default_text(content@) is None,
        },
{
    trimmed_nonempty(content)
}

/// The binaries of an installation that a multishell `bin` directory links to, when present.
pub fn linked_binaries() -> (r: Vec<String>)
    ensures
        r@.map_values(|b: String| b@) == seq![
            "php"@,
            "php-cgi"@,
            "php-config"@,
            "phpize"@,
            "phpdbg"@,
            "phar"@,
            "pecl"@,
            "pear"@,
            "phar.phar"@,
        ],
{
    let r = vec![
        String::from_str("php"),
        String::from_str("php-cgi"),
        String::from_str("php-config"),
        String::from_str("phpize"),
        String::from_str("phpdbg"),
        String::from_str("phar"),
        String::from_str("pecl"),
        String::from_str("pear"),
        String::from_str("phar.phar"),
    ];
    proof {
        assert(r@.map_values(|b: String| b@) =~= seq![
            "php"@,
            "php-cgi"@,
            "php-config"@,
            "phpize"@,
            "phpdbg"@,
            "phar"@,
            "pecl"@,
            "pear"@,
            "phar.phar"@,
        ]);
    }
    r
}

/// The directory made for a shell is recognised as that shell's when stale directories
/// are cleaned up.
pub proof fn law_dir_name_names_pid(pid: u32, millis: u128)
    requires
        pid <= 0x7fff_ffff,
    ensures
        dir_pid(dir_name_text(pid, millis)) == Some(pid as i32),
{
    let a = decimal(pid as nat);
    let b = decimal(millis as nat);
    let s = dir_name_text(pid, millis);
    lemma_decimal_digits(pid as nat);
    assert forall|i: int| 0 <= i < a.len() implies #[trigger] s[i] != '_' by {
        assert(s[i] == a[i]);
    }
    lemma_find_char_exact(s, '_', a.len() as int);
    lemma_find_match(s, seq!['_']);
    assert(s.take(a.len() as int) =~= a);
}

/// Linking a version and reading the `current` file gives the version's text back.
pub proof fn law_current_read_back(v: PhpVersion)
    ensures
        read_default_text(current_file_text(v)) == Some(version_text(v)),
{
    let t = version_text(v);
    let a = decimal(v.major as nat);
    let b = decimal(v.minor as nat);
    lemma_decimal_digits(v.major as nat);
    lemma_decimal_digits(v.minor as nat);
    assert(t[0] == a[0]);
    assert(t[t.len() - 1] == b[b.len() - 1]);
    lemma_trim_exact(t, 0, t.len() as int);
    assert(t.subrange(0, t.len() as int) =~= t);
    lemma_trim_newline(t);
}

} // verus!
