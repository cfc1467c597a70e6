use dictation_core::control::ControlCommand;
use dictation_core::paths::active_model_path_in;
use dictation_core::paths::config_dir_in;
use dictation_core::paths::cookie_path;
use dictation_core::paths::get_active_model_path;
use dictation_core::paths::model_search_paths;
use dictation_core::paths::proc_status_path;
use dictation_core::store::get_active_model;

#[test]
fn active_model_absent_file_is_default() {
    assert_eq!(get_active_model(None), "small-en-us");
}

#[test]
fn active_model_blank_file_is_default() {
    assert_eq!(get_active_model(Some("")), "small-en-us");
    assert_eq!(get_active_model(Some("   \n\t")), "small-en-us");
}

#[test]
fn active_model_content_is_trimmed() {
    assert_eq!(get_active_model(Some("big-en-us\n")), "big-en-us");
    assert_eq!(get_active_model(Some("  x  ")), "x");
}

#[test]
fn active_model_round_trip() {
    // what set_active_model("big-en-us") persists, read back unchanged
    assert_eq!(get_active_model(Some("big-en-us")), "big-en-us");
}

#[test]
fn cookie_path_is_fixed() {
    assert_eq!(cookie_path(), "/tmp/nerd-dictation.cookie");
}

#[test]
fn proc_status_path_renders_pid() {
    assert_eq!(proc_status_path(1234), "/proc/1234/status");
    assert_eq!(proc_status_path(0), "/proc/0/status");
    assert_eq!(proc_status_path(u32::MAX), "/proc/4294967295/status");
}

#[test]
fn config_paths_under_home() {
    assert_eq!(config_dir_in("/home/u"), "/home/u/.config/nerd-dictation");
    assert_eq!(
        active_model_path_in("/home/u"),
        "/home/u/.config/nerd-dictation/active-model"
    );
}

#[test]
fn active_model_path_shape() {
    // environment-dependent: only the shape can be checked
    if let Some(p) = get_active_model_path() {
        assert!(p.ends_with("/.config/nerd-dictation/active-model"));
    }
}

#[test]
fn search_paths_with_home() {
    let v = model_search_paths(Some("/home/u"));
    assert_eq!(
        v,
        vec![
            "/run/current-system/sw/share/vosk-models".to_string(),
            "/home/u/.nix-profile/share/vosk-models".to_string(),
            "/nix/var/nix/profiles/default/share/vosk-models".to_string(),
        ]
    );
}

#[test]
fn search_paths_without_home() {
    let v = model_search_paths(None);
    assert_eq!(
        v,
        vec![
            "/run/current-system/sw/share/vosk-models".to_string(),
            "/nix/var/nix/profiles/default/share/vosk-models".to_string(),
        ]
    );
}

#[test]
fn subcommands_are_fixed() {
    assert_eq!(ControlCommand::Start.subcommand(), "begin");
    assert_eq!(ControlCommand::Stop.subcommand(), "end");
    assert_eq!(ControlCommand::Suspend.subcommand(), "suspend");
    assert_eq!(ControlCommand::Resume.subcommand(), "resume");
}

#[test]
fn start_waits_longer() {
    assert_eq!(ControlCommand::Start.delay_ms(), 500);
    assert_eq!(ControlCommand::Stop.delay_ms(), 200);
    assert_eq!(ControlCommand::Suspend.delay_ms(), 200);
    assert_eq!(ControlCommand::Resume.delay_ms(), 200);
}
