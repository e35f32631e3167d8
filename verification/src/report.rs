//! Cleaning the kill utility's diagnostics and building every status line
//! the tool prints.
//!
//! A failed kill leaves a free-text diagnostic on the utility's error
//! stream; it is trimmed and a leading `"ERROR: "` tag, if present, is
//! stripped before display.  Per-PID failures are only reported — one
//! failed kill never stops the remaining attempts.

use crate::format::{port_numerals, port_strings, prettified, prettify_strings};
use crate::text::{
    chars_of,
    copy_range,
    dec_chars,
    dec_str,
    occurs_at,
    string_of_chars,
    trim_chars,
    trimmed,
};
use vstd::prelude::*;
use vstd::string::*;

verus! {

/// A raw diagnostic once trimmed, with a leading `"ERROR: "` tag, if any,
/// stripped.
pub open spec fn cleaned_diagnostic(s: Seq<char>) -> Seq<char> {
    let t = trimmed(s);
    if t.len() >= "ERROR: "@.len() && t.take("ERROR: "@.len() as int) == "ERROR: "@ {
        t.skip("ERROR: "@.len() as int)
    } else {
        t
    }
}

/// Cleans a raw diagnostic for display.
pub fn clean_diagnostic(raw: &str) -> (r: String)
    ensures
        r@ == cleaned_diagnostic(raw@),
{
    let v = chars_of(raw);
    let t = trim_chars(&v);
    let tag = chars_of("ERROR: ");
    proof {
        reveal_strlit("ERROR: ");
    }
    if t.len() >= tag.len() {
        proof {
            assert(t@.take(tag@.len() as int) =~= t@.subrange(0, tag@.len() as int));
        }
        if occurs_at(&t, &tag, 0) {
            let rest = copy_range(&t, tag.len(), t.len());
            proof {
                assert(rest@ =~= t@.skip(tag@.len() as int));
            }
            return string_of_chars(&rest);
        }
    }
    string_of_chars(&t)
}

/// The usage line shown when no arguments are given.
pub fn usage_message() -> (r: String)
    ensures
        r@ == "Usage: taskkill2 <port1> <port2> <port3> ..."@,
{
    String::from_str("Usage: taskkill2 <port1> <port2> <port3> ...")
}

/// The error line naming an argument that is not a valid port.
pub fn invalid_port_message(arg: &str) -> (r: String)
    ensures
        r@ == "Invalid port number supplied: "@ + arg@,
{
    let mut r = String::from_str("Invalid port number supplied: ");
    r.append(arg);
    r
}

/// The notice naming the ports about to be searched, as an English list.
pub fn search_message(ports: &Vec<u16>) -> (r: String)
    ensures
        r@ == "Searching for processes listening on ports: "@ + prettified(port_numerals(ports@)),
{
    let strs = port_strings(ports);
    let list = prettify_strings(strs);
    let mut r = String::from_str("Searching for processes listening on ports: ");
    r.append(list.as_str());
    r
}

/// The notice shown when no listening process was found.
pub fn no_processes_message() -> (r: String)
    ensures
        r@ == "Found no processes running on the given ports."@,
{
    String::from_str("Found no processes running on the given ports.")
}

/// The notice printed before a kill is attempted.
pub fn attempt_message(pid: u32) -> (r: String)
    ensures
        r@ == "Attempting to kill PID "@ + dec_str(pid as nat),
{
    let mut r = String::from_str("Attempting to kill PID ");
    let ds = dec_chars(pid);
    let s = string_of_chars(&ds);
    r.append(s.as_str());
    r
}

/// The notice printed when a kill succeeded.
pub fn success_message(pid: u32) -> (r: String)
    ensures
        r@ == "Successfully killed PID "@ + dec_str(pid as nat),
{
    let mut r = String::from_str("Successfully killed PID ");
    let ds = dec_chars(pid);
    let s = string_of_chars(&ds);
    r.append(s.as_str());
    r
}

/// The notice printed when a kill failed, with the cleaned diagnostic.
pub fn failure_message(pid: u32, diagnostic: &str) -> (r: String)
    ensures
        r@ == "Failed to kill PID "@ + dec_str(pid as nat) + ": "@ + cleaned_diagnostic(
            diagnostic@,
        ),
{
    let mut r = String::from_str("Failed to kill PID ");
    let ds = dec_chars(pid);
    let s = string_of_chars(&ds);
    r.append(s.as_str());
    r.append(": ");
    let d = clean_diagnostic(diagnostic);
    r.append(d.as_str());
    r
}

/// The outcome line for one kill attempt: the success notice when the
/// utility reported success, else the failure notice with the cleaned
/// diagnostic from its error stream.
pub fn kill_report(pid: u32, killed: bool, diagnostic: &str) -> (r: String)
    ensures
        killed ==> r@ == "Successfully killed PID "@ + dec_str(pid as nat),
        !killed ==> r@ == "Failed to kill PID "@ + dec_str(pid as nat) + ": "@
            + cleaned_diagnostic(diagnostic@),
{
    if killed {
        success_message(pid)
    } else {
        failure_message(pid, diagnostic)
    }
}

} // verus!
