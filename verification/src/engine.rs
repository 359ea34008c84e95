//! The interactive update workflow as a state machine.
//!
//! The engine walks the list of changed packages with one cursor. At each
//! package it reads a command; a version-bump command opens a sub-loop that
//! collects change-message lines until a non-empty list is closed by an
//! empty line. The machine itself performs no reading and no writing: each
//! step maps the current state and one input line to the next state and
//! the action the caller must carry out.

use vstd::prelude::*;

use crate::correlate::TrackedPackageView;
use crate::semver::Version;

verus! {

/// One of the seven interactive commands.
#[derive(Copy, Clone, PartialEq, Eq, Structural, Debug)]
pub enum CommandKind {
    UpdateMajor,
    UpdateMinor,
    UpdatePatch,
    Skip,
    Diff,
    Quit,
    Help,
}

/// The command a single input line names: its single key character, or
/// nothing for empty, longer or unknown input.
pub open spec fn spec_command_of(s: Seq<char>) -> Option<CommandKind> {
    if s.len() != 1 {
        None
    } else if s[0] == '1' {
        Some(CommandKind::UpdateMajor)
    } else if s[0] == '2' {
        Some(CommandKind::UpdateMinor)
    } else if s[0] == '3' {
        Some(CommandKind::UpdatePatch)
    } else if s[0] == 's' {
        Some(CommandKind::Skip)
    } else if s[0] == 'd' {
        Some(CommandKind::Diff)
    } else if s[0] == 'q' {
        Some(CommandKind::Quit)
    } else if s[0] == '?' {
        Some(CommandKind::Help)
    } else {
        None
    }
}

/// Maps one input line to the command it names, if any.
pub fn get_command_kind_from_input(input: &str) -> (r: Option<CommandKind>)
    ensures
        r == spec_command_of(input@),
{
    let len = input.unicode_len();
    if len != 1 {
        return None;
    }
    let key = input.get_char(0);
    if key == '1' {
        Some(CommandKind::UpdateMajor)
    } else if key == '2' {
        Some(CommandKind::UpdateMinor)
    } else if key == '3' {
        Some(CommandKind::UpdatePatch)
    } else if key == 's' {
        Some(CommandKind::Skip)
    } else if key == 'd' {
        Some(CommandKind::Diff)
    } else if key == 'q' {
        Some(CommandKind::Quit)
    } else if key == '?' {
        Some(CommandKind::Help)
    } else {
        None
    }
}

/// The command keys, comma-separated, for the prompt line.
pub fn get_command_key_text() -> (r: String)
    ensures
        r@ == "1,2,3,s,d,q,?"@,
{
    String::from_str("1,2,3,s,d,q,?")
}

/// The command legend: one line per command key.
pub fn get_command_help() -> (r: String)
    ensures
        r@
            == "1 - update package major version\n2 - update package minor version\n3 - update package patch version\ns - skip current package\nd - show diff for current package\nq - quit; do not update package or any of the remaining ones\n? - print help"@,
{
    String::from_str(
        "1 - update package major version\n2 - update package minor version\n3 - update package patch version\ns - skip current package\nd - show diff for current package\nq - quit; do not update package or any of the remaining ones\n? - print help",
    )
}

/// Where the workflow stands: prompting for a command at one package,
/// collecting change-message lines for a pending bump, or finished.
#[derive(Debug, PartialEq, Eq)]
pub enum EngineState {
    Prompting { index: usize },
    Collecting { index: usize, new_version: Version, messages: Vec<String> },
    Done,
}

/// Mathematical image of an `EngineState`.
pub ghost enum EngineStateView {
    Prompting { index: int },
    Collecting { index: int, new_version: Version, messages: Seq<Seq<char>> },
    Done,
}

impl View for EngineState {
    type V = EngineStateView;

    open spec fn view(&self) -> EngineStateView {
        match self {
            EngineState::Prompting { index } => EngineStateView::Prompting { index: *index as int },
            EngineState::Collecting { index, new_version, messages } => EngineStateView::Collecting {
                index: *index as int,
                new_version: *new_version,
                messages: messages.deep_view(),
            },
            EngineState::Done => EngineStateView::Done,
        }
    }
}

/// What the caller must carry out after a step.
#[derive(Debug, PartialEq, Eq)]
pub enum EngineAction {
    /// Print the command legend and prompt the same package again.
    ShowHelp,
    /// Render the diff for the package at `index`, then prompt it again.
    ShowDiff { index: usize },
    /// Announce the pending bump and ask for the first change message.
    StartUpdate { index: usize, new_version: Version },
    /// Ask for the next change message.
    PromptMessage,
    /// Say that a change message is required, then ask again.
    NoticeMessageRequired,
    /// Write the changelog entry and the new manifest version for the
    /// package at `index`, then show the next state.
    Apply { index: usize, new_version: Version, messages: Vec<String> },
    /// Nothing to do beyond showing the next state.
    Proceed,
}

/// Mathematical image of an `EngineAction`.
pub ghost enum EngineActionView {
    ShowHelp,
    ShowDiff { index: int },
    StartUpdate { index: int, new_version: Version },
    PromptMessage,
    NoticeMessageRequired,
    Apply { index: int, new_version: Version, messages: Seq<Seq<char>> },
    Proceed,
}

impl View for EngineAction {
    type V = EngineActionView;

    open spec fn view(&self) -> EngineActionView {
        match self {
            EngineAction::ShowHelp => EngineActionView::ShowHelp,
            EngineAction::ShowDiff { index } => EngineActionView::ShowDiff { index: *index as int },
            EngineAction::StartUpdate { index, new_version } => EngineActionView::StartUpdate {
                index: *index as int,
                new_version: *new_version,
            },
            EngineAction::PromptMessage => EngineActionView::PromptMessage,
            EngineAction::NoticeMessageRequired => EngineActionView::NoticeMessageRequired,
            EngineAction::Apply { index, new_version, messages } => EngineActionView::Apply {
                index: *index as int,
                new_version: *new_version,
                messages: messages.deep_view(),
            },
            EngineAction::Proceed => EngineActionView::Proceed,
        }
    }
}

/// The state names a package that exists, or is finished.
pub open spec fn state_wf(state: EngineStateView, ps: Seq<TrackedPackageView>) -> bool {
    match state {
        EngineStateView::Prompting { index } => 0 <= index < ps.len(),
        EngineStateView::Collecting { index, .. } => 0 <= index < ps.len(),
        EngineStateView::Done => true,
    }
}

/// The state after the cursor leaves package `index`.
pub open spec fn spec_advance(index: int, ps: Seq<TrackedPackageView>) -> EngineStateView {
    if index + 1 < ps.len() {
        EngineStateView::Prompting { index: index + 1 }
    } else {
        EngineStateView::Done
    }
}

/// One step of the workflow: the next state and the action owed, given
/// the current state, the changed packages and one line of input.
pub open spec fn spec_engine_step(
    state: EngineStateView,
    ps: Seq<TrackedPackageView>,
    input: Seq<char>,
) -> (EngineStateView, EngineActionView) {
    match state {
        EngineStateView::Prompting { index } => match spec_command_of(input) {
            Some(CommandKind::UpdateMajor) => {
                let v = ps[index].version;
                let nv = Version { major: (v.major + 1) as u16, minor: 0u16, patch: 0u16 };
                (
                    EngineStateView::Collecting { index, new_version: nv, messages: seq![] },
                    EngineActionView::StartUpdate { index, new_version: nv },
                )
            },
            Some(CommandKind::UpdateMinor) => {
                let v = ps[index].version;
                let nv = Version { major: v.major, minor: (v.minor + 1) as u16, patch: 0u16 };
                (
                    EngineStateView::Collecting { index, new_version: nv, messages: seq![] },
                    EngineActionView::StartUpdate { index, new_version: nv },
                )
            },
            Some(CommandKind::UpdatePatch) => {
                let v = ps[index].version;
                let nv = Version { major: v.major, minor: v.minor, patch: (v.patch + 1) as u16 };
                (
                    EngineStateView::Collecting { index, new_version: nv, messages: seq![] },
                    EngineActionView::StartUpdate { index, new_version: nv },
                )
            },
            Some(CommandKind::Skip) => (spec_advance(index, ps), EngineActionView::Proceed),
            Some(CommandKind::Diff) => (state, EngineActionView::ShowDiff { index }),
            Some(CommandKind::Quit) => (EngineStateView::Done, EngineActionView::Proceed),
            _ => (state, EngineActionView::ShowHelp),
        },
        EngineStateView::Collecting { index, new_version, messages } => {
            if input.len() > 0 {
                (
                    EngineStateView::Collecting {
                        index,
                        new_version,
                        messages: messages.push(input),
                    },
                    EngineActionView::PromptMessage,
                )
            } else if messages.len() > 0 {
                (
                    spec_advance(index, ps),
                    EngineActionView::Apply { index, new_version, messages },
                )
            } else {
                (state, EngineActionView::NoticeMessageRequired)
            }
        },
        EngineStateView::Done => (state, EngineActionView::Proceed),
    }
}

/// What a step may assume: a well-formed state, and a version with room
/// for the increment a bump command would compute.
pub open spec fn step_input_ok(
    state: EngineStateView,
    ps: Seq<TrackedPackageView>,
    input: Seq<char>,
) -> bool {
    &&& state_wf(state, ps)
    &&& match state {
        EngineStateView::Prompting { index } => match spec_command_of(input) {
            Some(CommandKind::UpdateMajor) => ps[index].version.major < 0xffff,
            Some(CommandKind::UpdateMinor) => ps[index].version.minor < 0xffff,
            Some(CommandKind::UpdatePatch) => ps[index].version.patch < 0xffff,
            _ => true,
        },
        _ => true,
    }
}

/// Runs one step of the interactive workflow.
pub fn engine_step(
    state: EngineState,
    packages: &Vec<crate::correlate::TrackedPackage>,
    input: &str,
) -> (r: (EngineState, EngineAction))
    requires
        step_input_ok(state@, packages.deep_view(), input@),
    ensures
        (r.0@, r.1@) == spec_engine_step(state@, packages.deep_view(), input@),
        state_wf(r.0@, packages.deep_view()),
{
    let ghost dv = packages.deep_view();
    match state {
        EngineState::Prompting { index } => {
            match get_command_kind_from_input(input) {
                Some(CommandKind::UpdateMajor) => {
                    proof {
                        assert(dv[index as int].version == packages@[index as int]@.version);
                    }
                    let nv = packages[index].version.increment_major();
                    let next = EngineState::Collecting {
                        index,
                        new_version: nv,
                        messages: Vec::new(),
                    };
                    proof {
                        assert(next@->Collecting_messages =~= Seq::<Seq<char>>::empty());
                    }
                    (next, EngineAction::StartUpdate { index, new_version: nv })
                },
                Some(CommandKind::UpdateMinor) => {
                    proof {
                        assert(dv[index as int].version == packages@[index as int]@.version);
                    }
                    let nv = packages[index].version.increment_minor();
                    let next = EngineState::Collecting {
                        index,
                        new_version: nv,
                        messages: Vec::new(),
                    };
                    proof {
                        assert(next@->Collecting_messages =~= Seq::<Seq<char>>::empty());
                    }
                    (next, EngineAction::StartUpdate { index, new_version: nv })
                },
                Some(CommandKind::UpdatePatch) => {
                    proof {
                        assert(dv[index as int].version == packages@[index as int]@.version);
                    }
                    let nv = packages[index].version.increment_patch();
                    let next = EngineState::Collecting {
                        index,
                        new_version: nv,
                        messages: Vec::new(),
                    };
                    proof {
                        assert(next@->Collecting_messages =~= Seq::<Seq<char>>::empty());
                    }
                    (next, EngineAction::StartUpdate { index, new_version: nv })
                },
                Some(CommandKind::Skip) => (advance(index, packages), EngineAction::Proceed),
                Some(CommandKind::Diff) => (
                    EngineState::Prompting { index },
                    EngineAction::ShowDiff { index },
                ),
                Some(CommandKind::Quit) => (EngineState::Done, EngineAction::Proceed),
                Some(CommandKind::Help) => (
                    EngineState::Prompting { index },
                    EngineAction::ShowHelp,
                ),
                None => (EngineState::Prompting { index }, EngineAction::ShowHelp),
            }
        },
        EngineState::Collecting { index, new_version, mut messages } => {
            if input.unicode_len() > 0 {
                let ghost mv = messages.deep_view();
                let line = input.to_owned();
                messages.push(line);
                proof {
                    assert(messages.deep_view() =~= mv.push(input@));
                }
                (
                    EngineState::Collecting { index, new_version, messages },
                    EngineAction::PromptMessage,
                )
            } else if messages.len() > 0 {
                (
                    advance(index, packages),
                    EngineAction::Apply { index, new_version, messages },
                )
            } else {
                (
                    EngineState::Collecting { index, new_version, messages },
                    EngineAction::NoticeMessageRequired,
                )
            }
        },
        EngineState::Done => (EngineState::Done, EngineAction::Proceed),
    }
}

/// The cursor moved past package `index`.
fn advance(index: usize, packages: &Vec<crate::correlate::TrackedPackage>) -> (r: EngineState)
    requires
        index < packages.deep_view().len(),
    ensures
        r@ == spec_advance(index as int, packages.deep_view()),
        state_wf(r@, packages.deep_view()),
{
    let n = packages.len();
    if index + 1 < n {
        EngineState::Prompting { index: index + 1 }
    } else {
        EngineState::Done
    }
}

/// Submitting an empty line with no message collected re-prompts for a
/// message and does not advance: a bump is never applied with an empty
/// changelog entry.
pub proof fn lemma_empty_message_reprompts(
    state: EngineStateView,
    ps: Seq<TrackedPackageView>,
    index: int,
    new_version: Version,
)
    requires
        state == (EngineStateView::Collecting { index, new_version, messages: seq![] }),
    ensures
        spec_engine_step(state, ps, Seq::<char>::empty()) == (
            state,
            EngineActionView::NoticeMessageRequired,
        ),
{
}

/// The quit command halts the walk: the state becomes final and no write
/// action is owed, so bumps already applied stay and no further package
/// is touched.
pub proof fn lemma_quit_halts(state: EngineStateView, ps: Seq<TrackedPackageView>, index: int)
    requires
        state == (EngineStateView::Prompting { index }),
    ensures
        spec_engine_step(state, ps, "q"@) == (
            EngineStateView::Done,
            EngineActionView::Proceed,
        ),
{
    reveal_strlit("q");
}

} // verus!
