use phm::commands::{
    exact_constraint, exec_path, is_yes, find_installation, install_plan, list_line, plan_use,
    requirement_step, uninstall_decision, RequirementStep, UninstallDecision, UseOutcome,
};
use phm::composer::constraint_at_level;
use phm::config::{default_file_content, default_from_content};
use phm::discover::{
    deduplicate, installation_of, installations_from_entries, is_bare_php, sort_by_version,
    version_from_link, OptEntry, PhpInstallation,
};
use phm::doctor::{doctor_report, CheckStatus, DoctorFacts, ShellIntegration};
use phm::multishell::{
    current_file_content, current_from_content, linked_binaries, multishell_dir_name,
    multishell_pid,
};
use phm::shell::{generate_env, join_path, ShellKind};
use phm::version::{PhpVersion, UpperBound, VersionConstraint};

fn inst(major: u8, minor: u8, bin_dir: &str) -> PhpInstallation {
    PhpInstallation { version: PhpVersion::new(major, minor), bin_dir: bin_dir.to_string() }
}

fn entry(name: &str, has_php_binary: bool, link_target: Option<&str>) -> OptEntry {
    OptEntry {
        name: name.to_string(),
        has_php_binary,
        link_target: link_target.map(|s| s.to_string()),
    }
}

#[test]
fn env_for_zsh_without_hook() {
    let out = generate_env(ShellKind::Zsh, "/home/u/.local/state/phm/multishells/1_2", false);
    assert_eq!(
        out,
        "export PATH=\"/home/u/.local/state/phm/multishells/1_2/bin:$PATH\"\nexport PHM_MULTISHELL_PATH=\"/home/u/.local/state/phm/multishells/1_2\"\n"
    );
}

#[test]
fn env_for_zsh_with_hook() {
    let out = generate_env(ShellKind::Zsh, "/ms", true);
    assert_eq!(
        out,
        "export PATH=\"/ms/bin:$PATH\"\nexport PHM_MULTISHELL_PATH=\"/ms\"\nautoload -U add-zsh-hook\n_phm_autoload_hook() {\n  phm use --silent-if-unchanged\n  rehash\n}\nadd-zsh-hook chpwd _phm_autoload_hook\n_phm_autoload_hook\n"
    );
}

#[test]
fn env_for_bash_with_hook() {
    let out = generate_env(ShellKind::Bash, "/ms/", true);
    assert_eq!(
        out,
        "export PATH=\"/ms/bin:$PATH\"\nexport PHM_MULTISHELL_PATH=\"/ms/\"\n__phm_cd() {\n  \\builtin cd \"$@\" || return\n  phm use --silent-if-unchanged\n  hash -r\n}\nalias cd=__phm_cd\n__phm_cd .\n"
    );
}

#[test]
fn env_for_fish() {
    assert_eq!(
        generate_env(ShellKind::Fish, "/ms", false),
        "set -gx PATH \"/ms/bin\" $PATH\nset -gx PHM_MULTISHELL_PATH \"/ms\"\n"
    );
    assert_eq!(
        generate_env(ShellKind::Fish, "/ms", true),
        "set -gx PATH \"/ms/bin\" $PATH\nset -gx PHM_MULTISHELL_PATH \"/ms\"\nfunction _phm_autoload --on-variable PWD\n  phm use --silent-if-unchanged\nend\n_phm_autoload\n"
    );
}

#[test]
fn join_path_follows_path_join() {
    assert_eq!(join_path("/a", "bin"), "/a/bin");
    assert_eq!(join_path("/a/", "bin"), "/a/bin");
    assert_eq!(join_path("", "bin"), "bin");
    for (base, name) in [("/x/y", "bin"), ("rel", "php"), ("/", "bin"), ("", "z")] {
        let expected = std::path::Path::new(base).join(name).display().to_string();
        assert_eq!(join_path(base, name), expected);
    }
}

#[test]
fn bare_php_detection() {
    assert!(is_bare_php("/opt/homebrew/opt/php/bin"));
    assert!(!is_bare_php("/opt/homebrew/opt/php@8.2/bin"));
    assert!(is_bare_php("php/bin/"));
    assert!(is_bare_php("/opt/./php/./bin"));
    assert!(is_bare_php("/php/.."));
    assert!(!is_bare_php("./bin"));
    assert!(!is_bare_php("bin"));
    assert!(!is_bare_php("/"));
    assert!(!is_bare_php("/opt/phpx/bin"));
    for p in ["/opt/homebrew/opt/php/bin", "a//php//bin", "./php/bin", "php", "/x/php/..", "/php/bin/."] {
        let path = std::path::Path::new(p);
        let expected = path.parent().and_then(|q| q.file_name()).is_some_and(|n| n == "php");
        assert_eq!(is_bare_php(p), expected, "{}", p);
    }
}

#[test]
fn deduplicate_prefers_versioned_formula() {
    let mut v = vec![
        inst(8, 5, "/opt/homebrew/opt/php/bin"),
        inst(8, 5, "/opt/homebrew/opt/php@8.5/bin"),
        inst(8, 2, "/opt/homebrew/opt/php@8.2/bin"),
    ];
    deduplicate(&mut v);
    assert_eq!(v.len(), 2);
    assert_eq!(v[0].bin_dir, "/opt/homebrew/opt/php@8.5/bin");
    assert_eq!(v[1].bin_dir, "/opt/homebrew/opt/php@8.2/bin");

    let mut w = vec![inst(8, 5, "/opt/homebrew/opt/php/bin"), inst(8, 4, "/opt/homebrew/opt/php@8.4/bin")];
    deduplicate(&mut w);
    assert_eq!(w.len(), 2);
    assert_eq!(w[0].bin_dir, "/opt/homebrew/opt/php/bin");
}

#[test]
fn sorting_orders_by_version() {
    let v = vec![inst(8, 5, "a"), inst(7, 4, "b"), inst(8, 1, "c"), inst(7, 4, "d")];
    let s = sort_by_version(v);
    let names: Vec<&str> = s.iter().map(|i| i.bin_dir.as_str()).collect();
    assert_eq!(names, vec!["b", "d", "c", "a"]);
}

#[test]
fn link_target_version() {
    assert_eq!(version_from_link("../Cellar/php/8.5.4"), Some(PhpVersion::new(8, 5)));
    assert_eq!(version_from_link("8.3.1"), Some(PhpVersion::new(8, 3)));
    assert_eq!(version_from_link("../Cellar/php/"), None);
    assert_eq!(version_from_link("../Cellar/php/latest"), None);
}

#[test]
fn entries_become_installations() {
    assert_eq!(
        installation_of(&entry("php@8.2", true, None)).map(|i| (i.version, i.bin_dir)),
        Some((PhpVersion::new(8, 2), "/opt/homebrew/opt/php@8.2/bin".to_string()))
    );
    assert!(installation_of(&entry("php@8.2", false, None)).is_none());
    assert!(installation_of(&entry("php@latest", true, None)).is_none());
    assert!(installation_of(&entry("php", true, None)).is_none());
    assert_eq!(
        installation_of(&entry("php", true, Some("../Cellar/php/8.5.4"))).map(|i| (i.version, i.bin_dir)),
        Some((PhpVersion::new(8, 5), "/opt/homebrew/opt/php/bin".to_string()))
    );
    assert!(installation_of(&entry("python@3.12", true, None)).is_none());
    assert!(installation_of(&entry("phpx", true, Some("1.2"))).is_none());
}

#[test]
fn discovery_dedupes_and_sorts() {
    let entries = vec![
        entry("php", true, Some("../Cellar/php/8.5.4")),
        entry("php@8.5", true, None),
        entry("node", true, None),
        entry("php@7.4", true, None),
        entry("php@8.2", false, None),
    ];
    let found = installations_from_entries(&entries);
    let got: Vec<(PhpVersion, String)> = found.into_iter().map(|i| (i.version, i.bin_dir)).collect();
    assert_eq!(
        got,
        vec![
            (PhpVersion::new(7, 4), "/opt/homebrew/opt/php@7.4/bin".to_string()),
            (PhpVersion::new(8, 5), "/opt/homebrew/opt/php@8.5/bin".to_string()),
        ]
    );
    let only_bare = vec![entry("php", true, Some("../Cellar/php/8.4.1"))];
    let found = installations_from_entries(&only_bare);
    assert_eq!(found.len(), 1);
    assert_eq!(found[0].bin_dir, "/opt/homebrew/opt/php/bin");
}

#[test]
fn default_file_round_trip() {
    let content = default_file_content("8.4");
    assert_eq!(content, "8.4\n");
    assert_eq!(default_from_content(&content), Some("8.4".to_string()));
    assert_eq!(default_from_content("  \n"), None);
    assert_eq!(default_from_content(""), None);
    assert_eq!(default_from_content(" 8.2 \n"), Some("8.2".to_string()));
}

#[test]
fn current_file_round_trip() {
    let v = PhpVersion::new(8, 2);
    let content = current_file_content(v);
    assert_eq!(content, "8.2\n");
    assert_eq!(current_from_content(&content), Some("8.2".to_string()));
    assert_eq!(current_from_content("\n"), None);
}

#[test]
fn multishell_names_carry_the_pid() {
    let name = multishell_dir_name(4321, 1712345678901);
    assert_eq!(name, "4321_1712345678901");
    assert_eq!(multishell_pid(&name), Some(4321));
    assert_eq!(multishell_pid("99"), Some(99));
    assert_eq!(multishell_pid("-5_1"), Some(-5));
    assert_eq!(multishell_pid("abc_1"), None);
    assert_eq!(multishell_pid("_1"), None);
    assert_eq!(multishell_pid("2147483648_1"), None);
    assert_eq!(multishell_pid("-2147483648_1"), Some(i32::MIN));
    assert_eq!(multishell_dir_name(0, 0), "0_0");
    assert_eq!(multishell_dir_name(u32::MAX, u128::MAX), format!("{}_{}", u32::MAX, u128::MAX));
}

#[test]
fn linked_binary_names() {
    let names = linked_binaries();
    assert_eq!(
        names,
        vec!["php", "php-cgi", "php-config", "phpize", "phpdbg", "phar", "pecl", "pear", "phar.phar"]
    );
}

#[test]
fn php_version_file_wins_over_composer() {
    let c = constraint_at_level(Some("8.1\n"), Some("^8.3")).unwrap();
    assert_eq!(c, VersionConstraint::exact(PhpVersion::new(8, 1)));
    let c = constraint_at_level(Some("garbage"), Some("^8.3")).unwrap();
    assert_eq!(c, VersionConstraint { target: PhpVersion::new(8, 3), upper: UpperBound::SameMajor });
    let c = constraint_at_level(None, Some("8.4.*")).unwrap();
    assert_eq!(c.upper, UpperBound::SameMinor);
    assert_eq!(constraint_at_level(Some(""), None), None);
    assert_eq!(constraint_at_level(None, None), None);
    assert_eq!(constraint_at_level(None, Some("*")), None);
}

#[test]
fn install_plans() {
    let p = install_plan(PhpVersion::new(7, 4));
    assert_eq!(p.tap.as_deref(), Some("shivammathur/php"));
    assert_eq!(p.formula, "shivammathur/php/php@7.4");
    let p = install_plan(PhpVersion::new(8, 3));
    assert_eq!(p.tap, None);
    assert_eq!(p.formula, "php@8.3");
}

#[test]
fn uninstall_keeps_the_default() {
    let installed = vec![inst(8, 2, "/a"), inst(8, 4, "/b")];
    assert!(matches!(
        uninstall_decision(PhpVersion::new(7, 4), &installed, Some("8.2")),
        UninstallDecision::NotInstalled
    ));
    assert!(matches!(
        uninstall_decision(PhpVersion::new(8, 2), &installed, Some("8.2")),
        UninstallDecision::IsDefault
    ));
    match uninstall_decision(PhpVersion::new(8, 4), &installed, Some("8.2")) {
        UninstallDecision::Remove(f) => assert_eq!(f, "php@8.4"),
        _ => panic!("expected removal"),
    }
    match uninstall_decision(PhpVersion::new(8, 4), &installed, None) {
        UninstallDecision::Remove(f) => assert_eq!(f, "php@8.4"),
        _ => panic!("expected removal"),
    }
}

#[test]
fn exec_helpers() {
    assert_eq!(exec_path("/opt/homebrew/opt/php@8.1/bin", "/usr/bin:/bin"), "/opt/homebrew/opt/php@8.1/bin:/usr/bin:/bin");
    assert_eq!(exec_path("/b", ""), "/b:");
    let installed = vec![inst(8, 2, "/a"), inst(8, 4, "/b"), inst(8, 4, "/c")];
    assert_eq!(find_installation(&installed, PhpVersion::new(8, 4)), Some(1));
    assert_eq!(find_installation(&installed, PhpVersion::new(8, 3)), None);
}

#[test]
fn use_plans() {
    let installed = vec![inst(8, 2, "/a"), inst(8, 4, "/b"), inst(8, 5, "/c")];
    let exact = exact_constraint("8.4").unwrap();
    assert_eq!(plan_use(&exact, Some("8.4"), &installed), UseOutcome::AlreadyUsing(PhpVersion::new(8, 4)));
    assert_eq!(plan_use(&exact, Some("8.2"), &installed), UseOutcome::Switch(1));
    assert_eq!(plan_use(&exact, None, &installed), UseOutcome::Switch(1));
    let wildcard = VersionConstraint::from_composer("8.3.*").unwrap();
    assert_eq!(plan_use(&wildcard, Some("8.5"), &installed), UseOutcome::Missing(PhpVersion::new(8, 3)));
    let caret = VersionConstraint::from_composer("^8.3").unwrap();
    assert_eq!(plan_use(&caret, Some("8.5"), &installed), UseOutcome::AlreadyUsing(PhpVersion::new(8, 5)));
    assert_eq!(plan_use(&caret, Some("8.2"), &installed), UseOutcome::Switch(1));
    assert_eq!(exact_constraint("latest"), None);
    // A current file with a patch level still names the release line: nothing to switch.
    assert_eq!(plan_use(&exact_constraint("8.2").unwrap(), Some("8.2.1"), &installed), UseOutcome::AlreadyUsing(PhpVersion::new(8, 2)));
}

#[test]
fn doctor_all_good() {
    let facts = DoctorFacts {
        versions: vec![PhpVersion::new(7, 4), PhpVersion::new(8, 2), PhpVersion::new(8, 5)],
        default: Some("8.5".to_string()),
        shell: ShellIntegration::Active,
        path_env: "/usr/bin:/bin".to_string(),
        composer_found: true,
        stale_dirs: Some(0),
    };
    let r = doctor_report(&facts);
    assert_eq!(r.issues, 0);
    let msgs: Vec<&str> = r.checks.iter().map(|c| c.message.as_str()).collect();
    assert_eq!(
        msgs,
        vec![
            "3 PHP version(s) found: 7.4, 8.2, 8.5",
            "Default version: 8.5",
            "Shell integration active",
            "No Herd conflict",
            "Composer found",
            "No stale multishell directories",
        ]
    );
    assert!(r.checks.iter().all(|c| c.status == CheckStatus::Pass && c.hint.is_none()));
}

#[test]
fn doctor_counts_every_failure() {
    let facts = DoctorFacts {
        versions: vec![],
        default: None,
        shell: ShellIntegration::NotLoaded,
        path_env: "/Users/me/Library/Application Support/Herd/bin/:/usr/bin".to_string(),
        composer_found: false,
        stale_dirs: Some(2),
    };
    let r = doctor_report(&facts);
    assert_eq!(r.issues, 5);
    assert_eq!(r.checks.len(), 6);
    assert_eq!(r.checks[0].message, "No PHP versions found in Homebrew");
    assert_eq!(r.checks[0].hint.as_deref(), Some("Install one with: brew install php@8.2"));
    assert_eq!(r.checks[1].message, "No default version set");
    assert_eq!(r.checks[2].hint.as_deref(), Some("Add to .zshrc: eval \"$(phm env --shell=zsh --use-on-cd)\""));
    assert_eq!(r.checks[3].message, "Herd is still in PATH \u{2014} may conflict with phm");
    assert_eq!(r.checks[4].message, "Composer not found");
    assert_eq!(r.checks[5].status, CheckStatus::Warn);
    assert_eq!(r.checks[5].message, "2 stale multishell dir(s) (cleaned up on next shell init)");
}

#[test]
fn doctor_default_not_installed() {
    let facts = DoctorFacts {
        versions: vec![PhpVersion::new(8, 2)],
        default: Some("8.4".to_string()),
        shell: ShellIntegration::DirectoryMissing,
        path_env: String::new(),
        composer_found: true,
        stale_dirs: None,
    };
    let r = doctor_report(&facts);
    assert_eq!(r.issues, 2);
    assert_eq!(r.checks.len(), 5);
    assert_eq!(r.checks[0].message, "1 PHP version(s) found: 8.2");
    assert_eq!(r.checks[1].message, "Default version 8.4 is not installed");
    assert_eq!(r.checks[2].message, "PHM_MULTISHELL_PATH set but directory missing");
}

#[test]
fn install_prompt_answers() {
    assert!(is_yes("y\n"));
    assert!(is_yes(" Y "));
    assert!(!is_yes("yes"));
    assert!(!is_yes(""));
    assert!(!is_yes("n"));
}

#[test]
fn env_hook_follows_the_setup_lines() {
    for shell in [ShellKind::Zsh, ShellKind::Bash, ShellKind::Fish] {
        let a = generate_env(shell, "/tmp/phm/ms_1", false);
        let b = generate_env(shell, "/tmp/phm/ms_1", true);
        assert!(b.starts_with(&a));
        assert_eq!(a.lines().count(), 2);
        assert!(a.ends_with('\n'));
        assert!(b[a.len()..].contains("phm use --silent-if-unchanged"));
    }
    assert!(generate_env(ShellKind::Zsh, "/m", true).contains("add-zsh-hook chpwd"));
    assert!(generate_env(ShellKind::Bash, "/m", true).contains("alias cd=__phm_cd"));
    assert!(generate_env(ShellKind::Fish, "/m", true).contains("--on-variable PWD"));
}

#[test]
fn list_lines_mark_current_and_default() {
    let v = PhpVersion::new(8, 2);
    assert_eq!(list_line(PhpVersion::new(7, 4), Some("8.2"), Some("8.4")), "  7.4");
    assert_eq!(list_line(v, Some("8.2"), Some("8.4")), "* 8.2 (current)");
    assert_eq!(list_line(PhpVersion::new(8, 4), Some("8.2"), Some("8.4")), "  8.4 (default)");
    assert_eq!(list_line(v, Some("8.2"), Some("8.2")), "* 8.2 (current, default)");
    assert_eq!(list_line(v, None, None), "  8.2");
    assert_eq!(list_line(v, Some("8.2.1"), None), "  8.2");
}

#[test]
fn use_requirement_steps() {
    let exact = |major, minor| VersionConstraint { target: PhpVersion::new(major, minor), upper: UpperBound::SameMinor };
    assert_eq!(requirement_step(Some("8.3"), None, None, false), RequirementStep::Ready(exact(8, 3)));
    assert_eq!(requirement_step(Some("eight"), None, None, false), RequirementStep::InvalidVersion);
    assert_eq!(requirement_step(None, None, None, false), RequirementStep::NeedDetection);
    let detected = VersionConstraint { target: PhpVersion::new(8, 1), upper: UpperBound::SameMajor };
    assert_eq!(requirement_step(None, Some(Some(detected)), None, false), RequirementStep::Ready(detected));
    assert_eq!(requirement_step(None, Some(None), None, true), RequirementStep::NeedDefault);
    assert_eq!(requirement_step(None, Some(None), Some(Some("7.4")), false), RequirementStep::Ready(exact(7, 4)));
    assert_eq!(requirement_step(None, Some(None), Some(Some("latest")), false), RequirementStep::InvalidDefault);
    assert_eq!(requirement_step(None, Some(None), Some(None), true), RequirementStep::SilentExit);
    assert_eq!(requirement_step(None, Some(None), Some(None), false), RequirementStep::NoVersion);
}
