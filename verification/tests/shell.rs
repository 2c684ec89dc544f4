//! Choosing a shell.

use koma::shell::resolve_shell_in;
use std::path::Path;

#[test]
fn an_explicit_shell_wins() {
    assert_eq!(resolve_shell_in(Some("/usr/bin/fish".into()), |_| true), "/usr/bin/fish");
}

#[test]
fn a_bare_shell_name_is_left_for_path_lookup() {
    // `zsh` is resolved through PATH by the spawn, so we can't check it
    // here — passing it through unchanged is the only correct behaviour.
    assert_eq!(resolve_shell_in(Some("zsh".into()), |_| false), "zsh");
}

#[test]
fn an_absolute_shell_that_is_gone_falls_back() {
    // A stale $SHELL left behind by an uninstalled shell is no shell at all.
    let picked = resolve_shell_in(Some("/usr/bin/fish".into()), |p| p == "/bin/bash");
    assert_eq!(picked, "/bin/bash");
}

#[test]
fn surrounding_whitespace_is_trimmed_off() {
    // Blanks around the name must not reach the spawn.
    let picked = resolve_shell_in(Some(" /bin/bash ".into()), |p| p == "/bin/bash");
    assert_eq!(picked, "/bin/bash");
}

#[test]
fn a_blank_shell_is_treated_as_unset() {
    for blank in ["", "   "] {
        assert_eq!(
            resolve_shell_in(Some(blank.into()), |_| true),
            resolve_shell_in(None, |_| true),
            "{blank:?} should behave exactly like no $SHELL at all"
        );
    }
}

#[test]
fn the_fallback_walks_the_candidates_in_order() {
    // Each case removes the previous winner, so the whole order is pinned
    // by behaviour rather than by restating the constant.
    assert_eq!(resolve_shell_in(None, |_| true), "/bin/zsh");
    assert_eq!(resolve_shell_in(None, |p| p != "/bin/zsh"), "/bin/bash");
    assert_eq!(resolve_shell_in(None, |p| p == "/bin/sh"), "/bin/sh");
}

#[test]
fn a_system_with_no_known_shell_still_names_one() {
    // Nothing sensible is left, so hand the OS the POSIX path and let the
    // spawn produce a real error rather than panicking here.
    assert_eq!(resolve_shell_in(None, |_| false), "/bin/sh");
}

#[test]
fn the_real_filesystem_yields_a_shell_that_exists() {
    let shell = resolve_shell_in(None, |p| Path::new(p).exists());
    assert!(Path::new(&shell).exists(), "picked {shell:?}, which does not exist");
}
