//! The well-known filesystem locations the applet works against, built as
//! plain strings: the cookie file, the per-process status pseudo-file, the
//! persisted active-model file, and the candidate models directories.

use vstd::prelude::*;

verus! {

/// The decimal digit `d` as a character.
pub open spec fn digit_char(d: int) -> char {
    if d == 0 {
        '0'
    } else if d == 1 {
        '1'
    } else if d == 2 {
        '2'
    } else if d == 3 {
        '3'
    } else if d == 4 {
        '4'
    } else if d == 5 {
        '5'
    } else if d == 6 {
        '6'
    } else if d == 7 {
        '7'
    } else if d == 8 {
        '8'
    } else {
        '9'
    }
}

/// The decimal digits of `n`, most significant first.
pub open spec fn dec_of(n: nat) -> Seq<char>
    decreases n,
{
    if n < 10 {
        seq![digit_char(n as int)]
    } else {
        dec_of(n / 10).push(digit_char((n % 10) as int))
    }
}

fn append_digit(s: &mut String, d: u32)
    requires
        d < 10,
    ensures
        final(s)@ == old(s)@ + seq![digit_char(d as int)],
{
    let ds: &str = match d {
        0 => "0",
        1 => "1",
        2 => "2",
        3 => "3",
        4 => "4",
        5 => "5",
        6 => "6",
        7 => "7",
        8 => "8",
        _ => "9",
    };
    proof {
        reveal_strlit("0");
        reveal_strlit("1");
        reveal_strlit("2");
        reveal_strlit("3");
        reveal_strlit("4");
        reveal_strlit("5");
        reveal_strlit("6");
        reveal_strlit("7");
        reveal_strlit("8");
        reveal_strlit("9");
        assert(ds@ =~= seq![digit_char(d as int)]);
    }
    s.append(ds);
}

fn push_dec(s: &mut String, n: u32)
    ensures
        final(s)@ == old(s)@ + dec_of(n as nat),
    decreases n,
{
    if n < 10 {
        append_digit(s, n);
    } else {
        push_dec(s, n / 10);
        append_digit(s, n % 10);
        proof {
            assert(old(s)@ + dec_of((n / 10) as nat) + seq![digit_char((n % 10) as int)] =~= old(
                s,
            )@ + dec_of(n as nat));
        }
    }
}

/// Path of the cookie file where the dictation process records its pid.
pub fn cookie_path() -> (r: String)
    ensures
        r@ == "/tmp/nerd-dictation.cookie"@,
{
    "/tmp/nerd-dictation.cookie".to_owned()
}

/// Path of the OS status pseudo-file for process `pid`.
pub fn proc_status_path(pid: u32) -> (r: String)
    ensures
        r@ == "/proc/"@ + dec_of(pid as nat) + "/status"@,
{
    let mut s = "/proc/".to_owned();
    push_dec(&mut s, pid);
    s.append("/status");
    s
}

/// The applet's configuration directory under a home directory.
pub open spec fn config_dir_spec(home: Seq<char>) -> Seq<char> {
    home + "/.config/nerd-dictation"@
}

/// The persisted active-model file under a home directory.
pub open spec fn active_model_path_spec(home: Seq<char>) -> Seq<char> {
    config_dir_spec(home) + "/active-model"@
}

pub fn config_dir_in(home: &str) -> (r: String)
    ensures
        r@ == config_dir_spec(home@),
{
    let mut s = home.to_owned();
    s.append("/.config/nerd-dictation");
    s
}

pub fn active_model_path_in(home: &str) -> (r: String)
    ensures
        r@ == active_model_path_spec(home@),
{
    let mut s = config_dir_in(home);
    s.append("/active-model");
    s
}

/// Relies on dirs::home_dir: the user's home directory as the environment
/// reports it, `None` when the environment names none; never empty when
/// present.
#[verifier::external_body]
fn home_dir_string() -> (r: Option<String>)
    ensures
        r matches Some(h) ==> h@.len() > 0,
{
    dirs::home_dir().map(|p| p.to_string_lossy().into_owned())
}

/// Get the config directory path
pub fn get_config_dir() -> (r: Option<String>)
    ensures
        r matches Some(p) ==> exists|h: Seq<char>| p@ == config_dir_spec(h),
{
    match home_dir_string() {
        None => None,
        Some(h) => {
            let p = config_dir_in(h.as_str());
            proof {
                assert(p@ == config_dir_spec(h@));
            }
            Some(p)
        },
    }
}

/// Get the active model file path
pub fn get_active_model_path() -> (r: Option<String>)
    ensures
        r matches Some(p) ==> exists|h: Seq<char>| p@ == active_model_path_spec(h),
{
    match home_dir_string() {
        None => None,
        Some(h) => {
            let p = active_model_path_in(h.as_str());
            proof {
                assert(p@ == active_model_path_spec(h@));
            }
            Some(p)
        },
    }
}

/// The fixed locations probed for a models directory, in probe order: the
/// running system's profile, a path under the user's home where one is
/// known, and the default profile. An environment override, when set, is
/// probed before any of these.
pub fn model_search_paths(home: Option<&str>) -> (r: Vec<String>)
    ensures
        match home {
            Some(h) => r@.len() == 3 && r@[0]@ == "/run/current-system/sw/share/vosk-models"@
                && r@[1]@ == h@ + "/.nix-profile/share/vosk-models"@ && r@[2]@
                == "/nix/var/nix/profiles/default/share/vosk-models"@,
            None => r@.len() == 2 && r@[0]@ == "/run/current-system/sw/share/vosk-models"@
                && r@[1]@ == "/nix/var/nix/profiles/default/share/vosk-models"@,
        },
{
    let mut v: Vec<String> = Vec::new();
    v.push("/run/current-system/sw/share/vosk-models".to_owned());
    match home {
        Some(h) => {
            let mut p = h.to_owned();
            p.append("/.nix-profile/share/vosk-models");
            v.push(p);
        },
        None => {},
    }
    v.push("/nix/var/nix/profiles/default/share/vosk-models".to_owned());
    v
}

} // verus!
