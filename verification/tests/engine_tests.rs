use package_lib::correlate::TrackedPackage;
use package_lib::engine::{
    engine_step, get_command_help, get_command_key_text, get_command_kind_from_input,
    CommandKind, EngineAction, EngineState,
};
use package_lib::scan::Package;
use package_lib::semver::Version;

fn changed_package(name: &str) -> TrackedPackage {
    TrackedPackage::new(Package {
        name: name.to_string(),
        version: Version { major: 1, minor: 2, patch: 3 },
        path: format!("Packages/{}", name),
    })
}

fn two_packages() -> Vec<TrackedPackage> {
    vec![changed_package("com.a"), changed_package("com.b")]
}

#[test]
fn every_command_key_is_recognized() {
    assert_eq!(get_command_kind_from_input("1"), Some(CommandKind::UpdateMajor));
    assert_eq!(get_command_kind_from_input("2"), Some(CommandKind::UpdateMinor));
    assert_eq!(get_command_kind_from_input("3"), Some(CommandKind::UpdatePatch));
    assert_eq!(get_command_kind_from_input("s"), Some(CommandKind::Skip));
    assert_eq!(get_command_kind_from_input("d"), Some(CommandKind::Diff));
    assert_eq!(get_command_kind_from_input("q"), Some(CommandKind::Quit));
    assert_eq!(get_command_kind_from_input("?"), Some(CommandKind::Help));
}

#[test]
fn longer_or_empty_input_is_no_command() {
    assert_eq!(get_command_kind_from_input(""), None);
    assert_eq!(get_command_kind_from_input("sq"), None);
    assert_eq!(get_command_kind_from_input("x"), None);
}

#[test]
fn key_text_lists_all_keys() {
    assert_eq!(get_command_key_text(), "1,2,3,s,d,q,?");
}

#[test]
fn help_text_has_one_line_per_command() {
    let help = get_command_help();
    assert_eq!(help.lines().count(), 7);
    assert!(help.contains("q - quit"));
}

#[test]
fn bump_command_starts_collecting_with_incremented_version() {
    let packages = two_packages();
    let (state, action) = engine_step(EngineState::Prompting { index: 0 }, &packages, "1");
    let expected = Version { major: 2, minor: 0, patch: 0 };
    assert_eq!(
        state,
        EngineState::Collecting { index: 0, new_version: expected, messages: vec![] }
    );
    assert_eq!(action, EngineAction::StartUpdate { index: 0, new_version: expected });
}

#[test]
fn minor_and_patch_bumps_compute_their_versions() {
    let packages = two_packages();
    let (state, _) = engine_step(EngineState::Prompting { index: 0 }, &packages, "2");
    match state {
        EngineState::Collecting { new_version, .. } => {
            assert_eq!(new_version, Version { major: 1, minor: 3, patch: 0 });
        }
        other => panic!("unexpected state {:?}", other),
    }
    let (state, _) = engine_step(EngineState::Prompting { index: 0 }, &packages, "3");
    match state {
        EngineState::Collecting { new_version, .. } => {
            assert_eq!(new_version, Version { major: 1, minor: 2, patch: 4 });
        }
        other => panic!("unexpected state {:?}", other),
    }
}

#[test]
fn skip_advances_to_the_next_package() {
    let packages = two_packages();
    let (state, action) = engine_step(EngineState::Prompting { index: 0 }, &packages, "s");
    assert_eq!(state, EngineState::Prompting { index: 1 });
    assert_eq!(action, EngineAction::Proceed);
}

#[test]
fn skip_at_the_last_package_finishes() {
    let packages = two_packages();
    let (state, _) = engine_step(EngineState::Prompting { index: 1 }, &packages, "s");
    assert_eq!(state, EngineState::Done);
}

#[test]
fn diff_reprompts_the_same_package() {
    let packages = two_packages();
    let (state, action) = engine_step(EngineState::Prompting { index: 1 }, &packages, "d");
    assert_eq!(state, EngineState::Prompting { index: 1 });
    assert_eq!(action, EngineAction::ShowDiff { index: 1 });
}

#[test]
fn quit_halts_all_remaining_packages() {
    let packages = two_packages();
    let (state, action) = engine_step(EngineState::Prompting { index: 0 }, &packages, "q");
    assert_eq!(state, EngineState::Done);
    assert_eq!(action, EngineAction::Proceed);
}

#[test]
fn unknown_input_shows_help_without_advancing() {
    let packages = two_packages();
    let (state, action) = engine_step(EngineState::Prompting { index: 0 }, &packages, "zz");
    assert_eq!(state, EngineState::Prompting { index: 0 });
    assert_eq!(action, EngineAction::ShowHelp);
}

#[test]
fn empty_message_with_none_collected_reprompts() {
    let packages = two_packages();
    let nv = Version { major: 2, minor: 0, patch: 0 };
    let before = EngineState::Collecting { index: 0, new_version: nv, messages: vec![] };
    let (state, action) = engine_step(before, &packages, "");
    assert_eq!(
        state,
        EngineState::Collecting { index: 0, new_version: nv, messages: vec![] }
    );
    assert_eq!(action, EngineAction::NoticeMessageRequired);
}

#[test]
fn non_empty_message_is_collected() {
    let packages = two_packages();
    let nv = Version { major: 2, minor: 0, patch: 0 };
    let before = EngineState::Collecting { index: 0, new_version: nv, messages: vec![] };
    let (state, action) = engine_step(before, &packages, "fixed a bug");
    assert_eq!(
        state,
        EngineState::Collecting {
            index: 0,
            new_version: nv,
            messages: vec!["fixed a bug".to_string()],
        }
    );
    assert_eq!(action, EngineAction::PromptMessage);
}

#[test]
fn empty_line_after_messages_applies_and_advances() {
    let packages = two_packages();
    let nv = Version { major: 2, minor: 0, patch: 0 };
    let before = EngineState::Collecting {
        index: 0,
        new_version: nv,
        messages: vec!["fixed a bug".to_string()],
    };
    let (state, action) = engine_step(before, &packages, "");
    assert_eq!(state, EngineState::Prompting { index: 1 });
    assert_eq!(
        action,
        EngineAction::Apply {
            index: 0,
            new_version: nv,
            messages: vec!["fixed a bug".to_string()],
        }
    );
}

#[test]
fn apply_at_the_last_package_finishes() {
    let packages = two_packages();
    let nv = Version { major: 1, minor: 3, patch: 0 };
    let before = EngineState::Collecting {
        index: 1,
        new_version: nv,
        messages: vec!["note".to_string()],
    };
    let (state, _) = engine_step(before, &packages, "");
    assert_eq!(state, EngineState::Done);
}
