//! The `.browser-control/` workspace: file locations, recorded values, and
//! how scripts are run.

use vstd::prelude::*;
use crate::text::{chars_of, dec_nat, push_str, push_u128, rfind_char, slice_to_vec, string_of, trim, trim_seq, is_text};

verus! {

/// The file that remembers the current tab.
pub fn current_tab_path() -> (r: &'static str)
    ensures
        r@ == ".browser-control/current-tab"@,
{
    ".browser-control/current-tab"
}

/// A recorded value: the file contents without surrounding white space,
/// absent when nothing is left.
pub fn recorded_value(raw: &str) -> (r: Option<String>)
    ensures
        match r {
            Some(s) => s@ == trim_seq(raw@) && s@.len() > 0,
            None => trim_seq(raw@).len() == 0,
        },
{
    let cs = chars_of(raw);
    let t = trim(cs.as_slice());
    if t.len() == 0 {
        None
    } else {
        Some(string_of(t.as_slice()))
    }
}

/// Input that holds nothing but white space.
pub fn is_blank(src: &str) -> (r: bool)
    ensures
        r == (trim_seq(src@).len() == 0),
{
    let cs = chars_of(src);
    trim(cs.as_slice()).len() == 0
}

/// The program a script is run with.
#[derive(Debug, PartialEq, Eq, Structural)]
pub enum ScriptRunner {
    /// `python3 script`.
    Python,
    /// `node script`.
    Node,
    /// `bun script`.
    Bun,
    /// `bash script`.
    Bash,
    /// The script itself.
    Direct,
}

/// The text after the last `.` of `s`, if there is a `.`.
pub open spec fn extension(s: Seq<char>) -> Option<Seq<char>> {
    if exists|j: int| 0 <= j < s.len() && s[j] == '.' {
        let j = choose|j: int| 0 <= j < s.len() && s[j] == '.' && forall|k: int| j < k < s.len() ==> s[k] != '.';
        Some(s.skip(j + 1))
    } else {
        None
    }
}

/// The runner for a script, chosen by its extension.
pub open spec fn runner_spec(script: Seq<char>) -> ScriptRunner {
    match extension(script) {
        Some(e) => if e == "py"@ {
            ScriptRunner::Python
        } else if e == "js"@ {
            ScriptRunner::Node
        } else if e == "ts"@ {
            ScriptRunner::Bun
        } else if e == "sh"@ {
            ScriptRunner::Bash
        } else {
            ScriptRunner::Direct
        },
        None => ScriptRunner::Direct,
    }
}

/// Chooses how to run `script` from its extension.
pub fn script_runner(script: &str) -> (r: ScriptRunner)
    ensures
        r == runner_spec(script@),
{
    let cs = chars_of(script);
    match rfind_char(cs.as_slice(), '.') {
        None => ScriptRunner::Direct,
        Some(j) => {
            proof {
                let k = choose|k: int| 0 <= k < cs@.len() && cs@[k] == '.' && forall|x: int| k < x < cs@.len() ==> cs@[x] != '.';
                assert(0 <= k < cs@.len() && cs@[k] == '.' && forall|x: int| k < x < cs@.len() ==> cs@[x] != '.') by {
                    assert(0 <= j < cs@.len() && cs@[j as int] == '.');
                }
                if k < j {
                    assert(cs@[j as int] != '.');
                }
                if k > j {
                    assert(cs@[k] != '.');
                }
            }
            assert(cs@.len() == cs.len());
            let e = slice_to_vec(cs.as_slice(), j + 1, cs.len());
            assert(e@ =~= cs@.skip(j + 1));
            let x = e.as_slice();
            if is_text(x, "py") {
                ScriptRunner::Python
            } else if is_text(x, "js") {
                ScriptRunner::Node
            } else if is_text(x, "ts") {
                ScriptRunner::Bun
            } else if is_text(x, "sh") {
                ScriptRunner::Bash
            } else {
                ScriptRunner::Direct
            }
        },
    }
}

/// The directory a failure trace taken at `now` goes to.
pub fn trace_dir(now: u64) -> (r: String)
    ensures
        r@ == ".browser-control/traces/"@ + dec_nat(now as nat),
{
    let mut s = String::new();
    push_str(&mut s, ".browser-control/traces/");
    push_u128(&mut s, now as u128);
    s
}

} // verus!
