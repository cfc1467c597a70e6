use dictation_core::state::classify_status;
use dictation_core::state::detect_state_from;
use dictation_core::state::parse_pid;
use dictation_core::state::DictationState;

#[test]
fn status_text_values() {
    assert_eq!(DictationState::Stopped.status_text(), "Stopped");
    assert_eq!(DictationState::Active.status_text(), "Active");
    assert_eq!(DictationState::Suspended.status_text(), "Suspended");
}

#[test]
fn default_state_is_stopped() {
    assert_eq!(DictationState::default(), DictationState::Stopped);
}

#[test]
fn parse_pid_plain() {
    assert_eq!(parse_pid("123"), Some(123));
    assert_eq!(parse_pid("0"), Some(0));
}

#[test]
fn parse_pid_trims_whitespace() {
    assert_eq!(parse_pid("  42\n"), Some(42));
    assert_eq!(parse_pid("\t7\t"), Some(7));
}

#[test]
fn parse_pid_rejects_empty_and_blank() {
    assert_eq!(parse_pid(""), None);
    assert_eq!(parse_pid("   \n"), None);
}

#[test]
fn parse_pid_rejects_non_numeric() {
    assert_eq!(parse_pid("abc"), None);
    assert_eq!(parse_pid("12a"), None);
    assert_eq!(parse_pid("1 2"), None);
}

#[test]
fn parse_pid_rejects_negative() {
    assert_eq!(parse_pid("-5"), None);
}

#[test]
fn parse_pid_allows_leading_plus() {
    // as Rust's unsigned-integer parsing does
    assert_eq!(parse_pid("+7"), Some(7));
    assert_eq!(parse_pid("+"), None);
}

#[test]
fn parse_pid_bounds() {
    assert_eq!(parse_pid("4294967295"), Some(u32::MAX));
    assert_eq!(parse_pid("4294967296"), None);
    assert_eq!(parse_pid("99999999999999999999"), None);
}

const STATUS_SLEEPING: &str = "Name:\tnerd-dictation\nUmask:\t0022\nState:\tS (sleeping)\nTgid:\t1234\n";
const STATUS_RUNNING: &str = "Name:\tnerd-dictation\nState:\tR (running)\n";
const STATUS_DISK_WAIT: &str = "Name:\tx\nState:\tD (disk sleep)\n";
const STATUS_STOPPED_SIG: &str = "Name:\tx\nState:\tT (stopped)\n";
const STATUS_TRACING: &str = "Name:\tx\nState:\tt (tracing stop)\n";
const STATUS_ZOMBIE: &str = "Name:\tx\nState:\tZ (zombie)\n";

#[test]
fn classify_running_sleeping_disk_wait_are_active() {
    assert_eq!(classify_status(STATUS_RUNNING), DictationState::Active);
    assert_eq!(classify_status(STATUS_SLEEPING), DictationState::Active);
    assert_eq!(classify_status(STATUS_DISK_WAIT), DictationState::Active);
}

#[test]
fn classify_stop_states_are_suspended() {
    assert_eq!(classify_status(STATUS_STOPPED_SIG), DictationState::Suspended);
    assert_eq!(classify_status(STATUS_TRACING), DictationState::Suspended);
}

#[test]
fn classify_other_state_char_is_stopped() {
    assert_eq!(classify_status(STATUS_ZOMBIE), DictationState::Stopped);
    assert_eq!(classify_status("State:\tX (dead)\n"), DictationState::Stopped);
}

#[test]
fn classify_no_state_line_is_stopped() {
    assert_eq!(classify_status(""), DictationState::Stopped);
    assert_eq!(classify_status("Name:\tfoo\nTgid:\t1\n"), DictationState::Stopped);
}

#[test]
fn classify_state_line_without_second_field_is_stopped() {
    assert_eq!(classify_status("State:\n"), DictationState::Stopped);
    assert_eq!(classify_status("State:   \n"), DictationState::Stopped);
}

#[test]
fn classify_line_must_start_with_state_token() {
    // an indented line does not start with `State:`
    assert_eq!(classify_status(" State: R\n"), DictationState::Stopped);
}

#[test]
fn classify_first_state_line_wins() {
    assert_eq!(
        classify_status("State:\tZ (zombie)\nState:\tR (running)\n"),
        DictationState::Stopped
    );
    assert_eq!(
        classify_status("State:\tR (running)\nState:\tZ (zombie)\n"),
        DictationState::Active
    );
}

#[test]
fn classify_state_glued_to_value_has_no_second_field() {
    // `State:R` is a single whitespace-separated field
    assert_eq!(classify_status("State:R\n"), DictationState::Stopped);
}

#[test]
fn detect_missing_cookie_is_stopped() {
    assert_eq!(detect_state_from(None, None), DictationState::Stopped);
    assert_eq!(
        detect_state_from(None, Some(STATUS_RUNNING)),
        DictationState::Stopped
    );
}

#[test]
fn detect_garbled_cookie_is_stopped() {
    assert_eq!(
        detect_state_from(Some(""), Some(STATUS_RUNNING)),
        DictationState::Stopped
    );
    assert_eq!(
        detect_state_from(Some("not-a-pid"), Some(STATUS_RUNNING)),
        DictationState::Stopped
    );
    assert_eq!(
        detect_state_from(Some("-1"), Some(STATUS_RUNNING)),
        DictationState::Stopped
    );
}

#[test]
fn detect_unreadable_status_is_stopped() {
    assert_eq!(detect_state_from(Some("1234"), None), DictationState::Stopped);
}

#[test]
fn detect_good_cookie_goes_by_status() {
    assert_eq!(
        detect_state_from(Some("1234\n"), Some(STATUS_SLEEPING)),
        DictationState::Active
    );
    assert_eq!(
        detect_state_from(Some(" 1234 "), Some(STATUS_STOPPED_SIG)),
        DictationState::Suspended
    );
    assert_eq!(
        detect_state_from(Some("1234"), Some(STATUS_ZOMBIE)),
        DictationState::Stopped
    );
}

#[test]
fn start_then_poll_scenario() {
    // Right after `start` is issued, the external process has not yet written
    // its cookie: a poll before the fixed delay may still observe Stopped.
    assert_eq!(detect_state_from(None, None), DictationState::Stopped);
    // Once the process has recorded its pid and is running, the next poll
    // observes Active.
    assert_eq!(
        detect_state_from(Some("4321\n"), Some(STATUS_RUNNING)),
        DictationState::Active
    );
}
