//! Choosing the shell to run, and noticing when it gets its terminal back.

use crate::text::{self, text_from, trim};
use vstd::prelude::*;

verus! {

/// Whether `present` may answer `answer` for the path `path`.
pub open spec fn answers<F: Fn(&str) -> bool>(present: F, path: Seq<char>, answer: bool) -> bool {
    exists|p: &str| p@ == path && #[trigger] call_ensures(present, (p,), answer)
}

/// Shells to try, in order, when `$SHELL` isn't usable. zsh leads because it is
/// the macOS default; the last is guaranteed by POSIX.
pub open spec fn candidates() -> Seq<Seq<char>> {
    seq!["/bin/zsh"@, "/bin/bash"@, "/bin/sh"@]
}

/// What is left of a `$SHELL` setting once blanks around it are dropped.
pub open spec fn named_shell(setting: Option<Seq<char>>) -> Seq<char> {
    match setting {
        Some(s) => text::trimmed(s),
        None => Seq::empty(),
    }
}

/// Whether `name` is an absolute path, which can be checked. A bare name like
/// `zsh` is resolved through PATH by the spawn itself and can't be.
pub open spec fn is_absolute(name: Seq<char>) -> bool {
    name.len() > 0 && name[0] == '/'
}

/// Whether `shell` is the first of the candidates from position `k` on that
/// exists, or `/bin/sh` where none does.
pub open spec fn first_candidate<F: Fn(&str) -> bool>(
    present: F,
    k: int,
    shell: Seq<char>,
) -> bool
    decreases candidates().len() - k,
{
    if 0 <= k < candidates().len() {
        ||| answers(present, candidates()[k], true) && shell == candidates()[k]
        ||| answers(present, candidates()[k], false) && first_candidate(present, k + 1, shell)
    } else {
        shell == "/bin/sh"@
    }
}

/// Whether `shell` is what the setting, and what `present` answers, lead to: the
/// setting itself where it is usable, else the first candidate.
pub open spec fn is_choice<F: Fn(&str) -> bool>(
    setting: Option<Seq<char>>,
    present: F,
    shell: Seq<char>,
) -> bool {
    let name = named_shell(setting);
    ||| name.len() > 0 && (!is_absolute(name) || answers(present, name, true)) && shell == name
    ||| (name.len() == 0 || (is_absolute(name) && answers(present, name, false)))
        && first_candidate(present, 0, shell)
}

fn pick_candidate<F: Fn(&str) -> bool>(present: &F) -> (shell: &'static str)
    requires
        forall|p: &str| call_requires(present, (p,)),
    ensures
        first_candidate(*present, 0, shell@),
{
    reveal_with_fuel(first_candidate, 4);
    let zsh = "/bin/zsh";
    if present(zsh) {
        assert(answers(*present, candidates()[0], true));
        return zsh;
    }
    assert(answers(*present, candidates()[0], false));
    let bash = "/bin/bash";
    if present(bash) {
        assert(answers(*present, candidates()[1], true));
        return bash;
    }
    assert(answers(*present, candidates()[1], false));
    let sh = "/bin/sh";
    let found = present(sh);
    assert(answers(*present, candidates()[2], found));
    // Found or not: hand the OS the POSIX path and let spawn report why.
    sh
}

/// Picks the shell to run, given `$SHELL` and a way to ask whether a path
/// exists. Taking `present` as a parameter keeps the ordering testable without
/// depending on which shells happen to be installed.
pub fn resolve_shell_in<F: Fn(&str) -> bool>(env_shell: Option<String>, present: F) -> (shell:
    String)
    requires
        forall|p: &str| call_requires(present, (p,)),
    ensures
        is_choice(
            match env_shell {
                Some(s) => Some(s@),
                None => None,
            },
            present,
            shell@,
        ),
{
    if let Some(setting) = &env_shell {
        let chars = trim(setting.as_str());
        // A stale `$SHELL` pointing at an uninstalled shell would be no shell at
        // all, so absolute paths are checked.
        if chars.len() > 0 {
            let name = text_from(chars.as_slice());
            if chars[0] != '/' {
                return name;
            }
            let found = present(name.as_str());
            assert(answers(present, name@, found));
            if found {
                return name;
            }
        }
    }
    pick_candidate(&present).to_owned()
}

/// What the kernel's answer to "who has the terminal" says about the program
/// that had it.
#[derive(Clone, Copy, PartialEq, Eq, Debug, Structural)]
pub enum Look {
    /// Nothing has changed hands.
    Nothing,
    /// The shell has its terminal back, and nobody was seen holding it.
    Finished,
    /// The shell has its terminal back from this process group: whether the
    /// program is gone or only stopped depends on whether the group still
    /// exists.
    Check(i32),
}

/// Who has the terminal of one pane.
#[derive(Clone, Copy, PartialEq, Eq, Debug, Structural)]
pub struct Foreground {
    /// The shell's own process group, where it is known.
    pub shell: Option<i32>,
    /// Whether the shell held the terminal at the last look. Starts true:
    /// nothing has run yet, so the first look cannot report a handover that
    /// never happened.
    pub shell_in_front: bool,
    /// The group that held the terminal before the shell got it back.
    pub last_program: Option<i32>,
}

impl Foreground {
    /// The state after a look that found `front` holding the terminal.
    pub open spec fn after(self, front: Option<i32>) -> Foreground {
        match (self.shell, front) {
            (Some(shell), Some(group)) => if group != shell {
                Foreground { shell_in_front: false, last_program: Some(group), ..self }
            } else if self.shell_in_front {
                self
            } else {
                Foreground { shell_in_front: true, last_program: None, ..self }
            },
            _ => self,
        }
    }

    /// What such a look says.
    pub open spec fn seen(self, front: Option<i32>) -> Look {
        match (self.shell, front) {
            (Some(shell), Some(group)) => if group != shell || self.shell_in_front {
                Look::Nothing
            } else {
                match self.last_program {
                    Some(program) => Look::Check(program),
                    None => Look::Finished,
                }
            },
            _ => Look::Nothing,
        }
    }

    pub fn new(shell: Option<i32>) -> (f: Foreground)
        ensures
            f == (Foreground { shell, shell_in_front: true, last_program: None }),
    {
        Foreground { shell, shell_in_front: true, last_program: None }
    }

    /// Takes in which process group has the terminal, and says what that
    /// means.
    ///
    /// Worth asking the kernel for because it does not depend on the program
    /// behaving. A program that is killed cleans nothing up and says nothing on
    /// the wire, but it still loses the terminal.
    ///
    /// **Suspending is not finishing.** `Ctrl-Z` hands the terminal back just
    /// as dying does, but the program is still there, holding everything it set
    /// and expecting to find it on `fg`. So the handover asks one more
    /// question: does the group that had the terminal still exist?
    pub fn look(&mut self, front: Option<i32>) -> (look: Look)
        ensures
            look == old(self).seen(front),
            *final(self) == old(self).after(front),
    {
        let shell: i32 = match self.shell {
            Some(shell) => shell,
            None => return Look::Nothing,
        };
        // No answer is not the same as "someone else has it": leave the last
        // reading in place rather than inventing a handover on the way back.
        let group: i32 = match front {
            Some(group) => group,
            None => return Look::Nothing,
        };
        if group != shell {
            self.shell_in_front = false;
            self.last_program = Some(group);
            return Look::Nothing;
        }
        if self.shell_in_front {
            return Look::Nothing;
        }
        self.shell_in_front = true;
        // Taken either way: on `fg` the group takes the terminal again and is
        // recorded afresh.
        let program = self.last_program;
        self.last_program = None;
        match program {
            Some(group) => Look::Check(group),
            // Never saw who had it: the handover is all we know, so report it.
            None => Look::Finished,
        }
    }
}

/// Whether the foreground program has finished, once it is known whether the
/// group that a look asked about is still alive.
pub fn has_finished(look: Look, alive: bool) -> (finished: bool)
    ensures
        finished == (match look {
            Look::Nothing => false,
            Look::Finished => true,
            Look::Check(_) => !alive,
        }),
{
    match look {
        Look::Nothing => false,
        Look::Finished => true,
        Look::Check(_) => !alive,
    }
}

/// The size to give a pty that has `(cols, rows)` now and is asked to take
/// another; `None` where that is no change. A pty has at least one cell.
pub fn new_size(current: (u16, u16), cols: u16, rows: u16) -> (size: Option<(u16, u16)>)
    ensures
        ({
            let wanted = (if cols == 0 { 1u16 } else { cols }, if rows == 0 { 1u16 } else { rows });
            size == (if wanted == current { None } else { Some(wanted) })
        }),
{
    let cols: u16 = if cols == 0 { 1 } else { cols };
    let rows: u16 = if rows == 0 { 1 } else { rows };
    if cols == current.0 && rows == current.1 { None } else { Some((cols, rows)) }
}

/// A blank `$SHELL` is as good as none.
pub proof fn law_blank_is_unset<F: Fn(&str) -> bool>(
    setting: Seq<char>,
    present: F,
    shell: Seq<char>,
)
    requires
        text::trimmed(setting).len() == 0,
    ensures
        is_choice(Some(setting), present, shell) == is_choice(None, present, shell),
{
}

/// An absolute path is only ever run once it was found to exist, the last
/// resort aside.
pub proof fn law_a_checked_shell_exists<F: Fn(&str) -> bool>(
    setting: Option<Seq<char>>,
    present: F,
    shell: Seq<char>,
)
    requires
        is_choice(setting, present, shell),
        is_absolute(shell),
        shell != "/bin/sh"@,
    ensures
        answers(present, shell, true),
{
    reveal_with_fuel(first_candidate, 4);
}

/// A handover is reported once: as long as the shell keeps its terminal, no
/// further look says anything.
pub proof fn law_a_handover_is_reported_once(f: Foreground, shell: i32)
    requires
        f.shell == Some(shell),
    ensures
        f.after(Some(shell)).seen(Some(shell)) == Look::Nothing,
{
}

/// The first look reports nothing, whatever it finds.
pub proof fn law_the_first_look_is_quiet(shell: Option<i32>, front: Option<i32>)
    ensures
        (Foreground { shell, shell_in_front: true, last_program: None }).seen(front)
            == Look::Nothing,
{
}

/// Where the kernel has no answer, nothing is reported and nothing forgotten.
pub proof fn law_no_answer_changes_nothing(f: Foreground)
    ensures
        f.after(None) == f,
        f.seen(None) == Look::Nothing,
{
}

/// A program that takes the terminal and gives it back is asked about, and is
/// taken for finished exactly when its group is gone.
pub proof fn law_a_program_that_gives_back_is_asked_about(f: Foreground, shell: i32, program: i32)
    requires
        f.shell == Some(shell),
        program != shell,
    ensures
        f.after(Some(program)).seen(Some(shell)) == Look::Check(program),
{
}

/// The shell that a setting names, without the blanks around it, is the one that
/// is run, unless it is a path that does not exist.
pub proof fn law_a_usable_setting_is_used<F: Fn(&str) -> bool>(
    setting: Seq<char>,
    present: F,
    shell: Seq<char>,
)
    requires
        is_choice(Some(setting), present, shell),
        ({
            let name = text::trimmed(setting);
            name.len() > 0 && (name[0] != '/' || !answers(present, name, false))
        }),
    ensures
        shell == text::trimmed(setting),
{
}

/// Without a usable setting zsh is run if it exists, else bash if that does, and
/// else sh.
pub proof fn law_the_shells_in_order<F: Fn(&str) -> bool>(
    setting: Option<Seq<char>>,
    present: F,
    shell: Seq<char>,
)
    requires
        is_choice(setting, present, shell),
        ({
            ||| setting is None
            ||| text::trimmed(setting->0).len() == 0
            ||| text::trimmed(setting->0)[0] == '/' && !answers(
                present,
                text::trimmed(setting->0),
                true,
            )
        }),
    ensures
        !answers(present, "/bin/zsh"@, false) ==> shell == "/bin/zsh"@,
        !answers(present, "/bin/zsh"@, true) && !answers(present, "/bin/bash"@, false) ==> shell
            == "/bin/bash"@,
        !answers(present, "/bin/zsh"@, true) && !answers(present, "/bin/bash"@, true) ==> shell
            == "/bin/sh"@,
{
    reveal_with_fuel(first_candidate, 4);
}

/// Who has the terminal is taken down at each look: the shell, or else which
/// program.
pub proof fn law_who_has_the_terminal(f: Foreground, shell: i32, group: i32)
    requires
        f.shell == Some(shell),
    ensures
        f.after(Some(group)).shell == f.shell,
        f.after(Some(group)).shell_in_front == (group == shell),
        group != shell ==> f.after(Some(group)).last_program == Some(group) && f.seen(Some(group))
            == Look::Nothing,
        group == shell && f.shell_in_front ==> f.after(Some(group)) == f && f.seen(Some(group))
            == Look::Nothing,
        group == shell && !f.shell_in_front ==> f.after(Some(group)).last_program is None,
        group == shell && !f.shell_in_front && f.last_program is None ==> f.seen(Some(group))
            == Look::Finished,
{
}

/// A bare name is run as it is, whatever exists; a path is run once it was found
/// to exist.
pub proof fn law_only_paths_are_looked_for<F: Fn(&str) -> bool>(
    setting: Seq<char>,
    present: F,
    shell: Seq<char>,
)
    requires
        text::trimmed(setting).len() > 0,
    ensures
        text::trimmed(setting)[0] != '/' ==> (is_choice(Some(setting), present, shell) <==> shell
            == text::trimmed(setting)),
        answers(present, text::trimmed(setting), true) ==> is_choice(
            Some(setting),
            present,
            text::trimmed(setting),
        ),
{
}

} // verus!
