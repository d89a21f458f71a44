//! Project version detection: `.php-version` files and the `require.php` entry of
//! `composer.json`, looked up one directory level at a time.
use vstd::prelude::*;
use crate::text::{trim, trimmed_nonempty};
use crate::version::{composer_constraint, parsed_version, PhpVersion, UpperBound, VersionConstraint};

verus! {

/// The requirement that one directory level states: a `.php-version` file naming a
/// version wins (that exact release line); otherwise the `require.php` constraint of
/// `composer.json`; otherwise none, and the search goes on in the parent directory.
pub open spec fn level_constraint(php_version_file: Option<Seq<char>>, composer_php: Option<Seq<char>>) -> Option<VersionConstraint> {
    let from_file = match php_version_file {
        Some(content) => parsed_version(trim(content)),
        None => None,
    };
    match from_file {
        Some(v) => Some(VersionConstraint { target: v, upper: UpperBound::SameMinor }),
        None => match composer_php {
            Some(c) => composer_constraint(c),
            None => None,
        },
    }
}

/// The requirement found at one directory level, given the contents of its `.php-version`
/// file and the `require.php` value of its `composer.json` (when they exist).
pub fn constraint_at_level(php_version_file: Option<&str>, composer_php: Option<&str>) -> (r: Option<VersionConstraint>)
    ensures
        r == level_constraint(
            match php_version_file {
                Some(c) => Some(c@),
                None => None,
            },
            match composer_php {
                Some(c) => Some(c@),
                None => None,
            },
        ),
{
    let from_file = match php_version_file {
        Some(content) => match trimmed_nonempty(content) {
            Some(t) => PhpVersion::parse(t.as_str()),
            None => {
                proof {
                    assert(crate::text::split(trim(content@), seq!['.']) =~= seq![trim(content@)]);
                }
                None
            },
        },
        None => None,
    };
    match from_file {
        Some(v) => Some(VersionConstraint::exact(v)),
        None => match composer_php {
            Some(c) => VersionConstraint::from_composer(c),
            None => None,
        },
    }
}

/// A `.php-version` file that names a version settles its level: that exact release line,
/// whatever `composer.json` says and whether or not there is one. Without such a file the
/// level asks for what `require.php` asks for, or nothing.
pub proof fn law_php_version_file_wins(file: Option<Seq<char>>, composer_php: Option<Seq<char>>)
    ensures
        match file {
            Some(f) => match parsed_version(trim(f)) {
                Some(v) => level_constraint(file, composer_php) == Some(
                    VersionConstraint { target: v, upper: UpperBound::SameMinor },
                ),
                None => level_constraint(file, composer_php) == match composer_php {
                    Some(c) => composer_constraint(c),
                    None => None,
                },
            },
            None => level_constraint(file, composer_php) == match composer_php {
                Some(c) => composer_constraint(c),
                None => None,
            },
        },
{
}

} // verus!
