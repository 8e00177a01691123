//! Launching and recognising the browser this tool starts, and the rows of
//! its diagnostics report.

use vstd::prelude::*;
use crate::text::{chars_of, contains, contains_seq, dec_nat, push_str, push_u128};

verus! {

/// The command-line arguments a browser is launched with.
pub open spec fn chrome_args_spec(url: Option<Seq<char>>, port: u16, headless: bool, profile: Seq<char>) -> Seq<Seq<char>> {
    (if headless { seq!["--headless=new"@] } else { Seq::empty() }) + seq![
        "--remote-debugging-port="@ + dec_nat(port as nat),
        "--no-first-run"@,
        "--no-default-browser-check"@,
        "--user-data-dir="@ + profile,
        match url {
            Some(u) => u,
            None => "about:blank"@,
        },
    ]
}

/// The command-line arguments for launching the browser on `url` with
/// remote debugging on `port` and the profile directory `profile`.
pub fn chrome_args(url: Option<&str>, port: u16, headless: bool, profile: &str) -> (r: Vec<String>)
    ensures
        r@.map_values(|s: String| s@) == chrome_args_spec(
            match url {
                Some(u) => Some(u@),
                None => None,
            },
            port,
            headless,
            profile@,
        ),
{
    let mut v: Vec<String> = Vec::new();
    if headless {
        v.push(String::from_str("--headless=new"));
    }
    let mut a = String::new();
    push_str(&mut a, "--remote-debugging-port=");
    push_u128(&mut a, port as u128);
    v.push(a);
    v.push(String::from_str("--no-first-run"));
    v.push(String::from_str("--no-default-browser-check"));
    let mut d = String::new();
    push_str(&mut d, "--user-data-dir=");
    push_str(&mut d, profile);
    v.push(d);
    v.push(String::from_str(match url {
        Some(u) => u,
        None => "about:blank",
    }));
    assert(v@.map_values(|s: String| s@) =~= chrome_args_spec(
        match url {
            Some(u) => Some(u@),
            None => None,
        },
        port,
        headless,
        profile@,
    ));
    v
}

/// The line that tells the user which endpoint a launched browser serves.
pub fn launch_hint(port: u16) -> (r: String)
    ensures
        r@ == "BROWSER_CONTROL_CDP_URL=http://127.0.0.1:"@ + dec_nat(port as nat),
{
    let mut s = String::new();
    push_str(&mut s, "BROWSER_CONTROL_CDP_URL=http://127.0.0.1:");
    push_u128(&mut s, port as u128);
    s
}

/// A process command line is that of the browser this tool launched: it
/// has remote debugging on and uses the recorded profile directory (or,
/// with none recorded, the workspace profile).
pub open spec fn looks_owned_spec(cmd: Seq<char>, stored: Option<Seq<char>>) -> bool {
    contains_seq(cmd, "--remote-debugging-port="@) && match stored {
        Some(dir) => contains_seq(cmd, "--user-data-dir="@ + dir),
        None => contains_seq(cmd, "--user-data-dir="@) && contains_seq(cmd, ".browser-control/profile"@),
    }
}

fn contains_text(s: &[char], p: &str) -> (r: bool)
    ensures
        r == contains_seq(s@, p@),
{
    let pc = chars_of(p);
    contains(s, pc.as_slice())
}

/// Whether `cmd` is the command line of the browser this tool launched.
pub fn looks_owned(cmd: &str, stored: Option<&str>) -> (r: bool)
    ensures
        r == looks_owned_spec(cmd@, match stored {
            Some(d) => Some(d@),
            None => None,
        }),
{
    let c = chars_of(cmd);
    if !contains_text(c.as_slice(), "--remote-debugging-port=") {
        return false;
    }
    match stored {
        Some(dir) => {
            let mut p = String::new();
            push_str(&mut p, "--user-data-dir=");
            push_str(&mut p, dir);
            let pc = chars_of(p.as_str());
            contains(c.as_slice(), pc.as_slice())
        },
        None => contains_text(c.as_slice(), "--user-data-dir=") && contains_text(
            c.as_slice(),
            ".browser-control/profile",
        ),
    }
}

/// One line of the diagnostics report.
pub open spec fn doctor_row_spec(label: Seq<char>, ok: bool, detail: Seq<char>) -> Seq<char> {
    "  ["@ + (if ok { "ok  "@ } else { "FAIL"@ }) + "] "@ + label + (if detail.len() == 0 {
        Seq::empty()
    } else {
        " \u{2014} "@ + detail
    })
}

/// Formats one line of the diagnostics report.
pub fn doctor_row(label: &str, ok: bool, detail: &str) -> (r: String)
    ensures
        r@ == doctor_row_spec(label@, ok, detail@),
{
    let mut s = String::new();
    push_str(&mut s, "  [");
    push_str(&mut s, if ok { "ok  " } else { "FAIL" });
    push_str(&mut s, "] ");
    push_str(&mut s, label);
    let d = chars_of(detail);
    if d.len() > 0 {
        push_str(&mut s, " \u{2014} ");
        push_str(&mut s, detail);
    } else {
        assert(s@ =~= s@ + Seq::<char>::empty());
    }
    s
}

} // verus!
