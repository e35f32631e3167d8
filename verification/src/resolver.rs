//! Resolving listening processes from a connection table.
//!
//! The table is the text a connection-listing utility prints: one line per
//! connection, whitespace-delimited columns, a local `host:port` address, a
//! state keyword and a trailing process identifier.  A line reports a
//! listening socket on a requested port when, once trimmed, it contains the
//! substring `:<port> ` (the space keeps a shorter port from matching a
//! longer one) together with the `LISTENING` keyword; its PID is its last
//! whitespace-delimited field.  Lines whose last field is not a number are
//! skipped.

use crate::text::{
    chars_of,
    contains_seq,
    dec_str,
    last_field,
    lemma_trim_back_idempotent,
    parse_uint,
    parses_as_uint,
    trim_chars,
    trim_front,
    trimmed,
    uint_val,
};
use vstd::prelude::*;

verus! {

/// The lines of a text: the pieces between line feeds.  A text without a
/// line feed is a single line; every line feed ends one line and starts
/// the next, so there is always one piece more than there are line feeds.
pub open spec fn lines_of(s: Seq<char>) -> Seq<Seq<char>>
    decreases s.len(),
{
    if s.len() == 0 {
        seq![Seq::<char>::empty()]
    } else if s[0] == '\n' {
        seq![Seq::<char>::empty()] + lines_of(s.drop_first())
    } else {
        let rest = lines_of(s.drop_first());
        seq![seq![s[0]] + rest[0]] + rest.drop_first()
    }
}

proof fn lemma_lines_of_nonempty(s: Seq<char>)
    ensures
        lines_of(s).len() >= 1,
    decreases s.len(),
{
    if s.len() == 0 {
    } else {
        lemma_lines_of_nonempty(s.drop_first());
    }
}

/// The lines still to come while a split is under way: the first pending
/// line begins with the characters gathered so far.
spec fn glue(cur: Seq<char>, rest: Seq<Seq<char>>) -> Seq<Seq<char>>
    recommends
        rest.len() >= 1,
{
    seq![cur + rest[0]] + rest.drop_first()
}

/// Splits a text into its lines.
pub fn split_lines(text: &Vec<char>) -> (lines: Vec<Vec<char>>)
    ensures
        lines@.len() == lines_of(text@).len(),
        forall|i: int| 0 <= i < lines@.len() ==> (#[trigger] lines@[i])@ == lines_of(text@)[i],
{
    let n = text.len();
    let mut lines: Vec<Vec<char>> = Vec::new();
    let mut cur: Vec<char> = Vec::new();
    let mut i: usize = 0;
    proof {
        assert(text@.skip(0) =~= text@);
        lemma_lines_of_nonempty(text@);
    }
    while i < n
        invariant
            i <= n,
            n == text@.len(),
            lines_of(text@.skip(i as int)).len() >= 1,
            lines_of(text@) == lines@.map_values(|l: Vec<char>| l@) + glue(
                cur@,
                lines_of(text@.skip(i as int)),
            ),
        decreases n - i,
    {
        let ghost prev = lines_of(text@.skip(i as int));
        let ghost next = lines_of(text@.skip(i + 1));
        proof {
            lemma_lines_of_nonempty(text@.skip(i + 1));
            assert(text@.skip(i as int).drop_first() =~= text@.skip(i + 1));
            assert(text@.skip(i as int)[0] == text@[i as int]);
        }
        let c = text[i];
        if c == '\n' {
            proof {
                assert(prev == seq![Seq::<char>::empty()] + next);
                assert(glue(cur@, prev) =~~= seq![cur@] + next);
                assert(glue(Seq::<char>::empty(), next) =~~= next);
                assert((lines@.push(cur)).map_values(|l: Vec<char>| l@) =~~= lines@.map_values(
                    |l: Vec<char>| l@,
                ) + seq![cur@]);
            }
            lines.push(cur);
            cur = Vec::new();
        } else {
            proof {
                assert(prev == seq![seq![text@[i as int]] + next[0]] + next.drop_first());
                assert(glue(cur@, prev) =~~= glue(cur@.push(text@[i as int]), next));
            }
            cur.push(c);
        }
        i = i + 1;
    }
    proof {
        assert(text@.skip(n as int) =~= Seq::<char>::empty());
        assert(glue(cur@, lines_of(text@.skip(n as int))) =~~= seq![cur@]);
        assert((lines@.push(cur)).map_values(|l: Vec<char>| l@) =~~= lines@.map_values(
            |l: Vec<char>| l@,
        ) + seq![cur@]);
    }
    lines.push(cur);
    proof {
        assert(lines@.map_values(|l: Vec<char>| l@) == lines_of(text@));
    }
    lines
}

/// The substring that marks a local address bound to `port`: a colon, the
/// port's decimal numeral, and one space.
pub open spec fn port_needle(port: u16) -> Seq<char> {
    seq![':'] + dec_str(port as nat) + seq![' ']
}

/// A connection-table line reports a socket listening on `port`: once
/// trimmed it contains both the port needle and the listening keyword.
pub open spec fn line_matches(line: Seq<char>, port: u16) -> bool {
    contains_seq(trimmed(line), port_needle(port)) && contains_seq(trimmed(line), "LISTENING"@)
}

/// The PID field of a line: its last whitespace-delimited field.
pub open spec fn pid_field(line: Seq<char>) -> Seq<char> {
    last_field(trimmed(line))
}

/// The line reports a socket listening on `port` whose PID field parses
/// as `pid`.
pub open spec fn line_yields_pid(line: Seq<char>, port: u16, pid: u32) -> bool {
    &&& line_matches(line, port)
    &&& parses_as_uint(pid_field(line), u32::MAX as nat)
    &&& pid as nat == uint_val(pid_field(line))
}

/// Some line of the table yields `pid` for some requested port.
pub open spec fn resolved_pid(text: Seq<char>, ports: Seq<u16>, pid: u32) -> bool {
    exists|p: int, l: int|
        0 <= p < ports.len() && 0 <= l < lines_of(text).len() && line_yields_pid(
            lines_of(text)[l],
            ports[p],
            pid,
        )
}

/// Some line of the table yields `pid` for one of the first `pi` requested
/// ports.
pub open spec fn resolved_upto(text: Seq<char>, ports: Seq<u16>, pi: int, pid: u32) -> bool {
    exists|p: int, l: int|
        0 <= p < pi && p < ports.len() && 0 <= l < lines_of(text).len() && line_yields_pid(
            lines_of(text)[l],
            ports[p],
            pid,
        )
}

/// One of the first `li` lines of the table yields `pid` for `port`.
pub open spec fn yielded_among(text: Seq<char>, port: u16, li: int, pid: u32) -> bool {
    exists|l: int|
        0 <= l < li && l < lines_of(text).len() && line_yields_pid(lines_of(text)[l], port, pid)
}

/// The needle `:<port> ` as a character vector.
fn port_needle_chars(port: u16) -> (v: Vec<char>)
    ensures
        v@ == port_needle(port),
{
    let mut v: Vec<char> = Vec::new();
    v.push(':');
    let mut ds = crate::text::dec_chars(port as u32);
    v.append(&mut ds);
    v.push(' ');
    proof {
        assert(v@ =~= port_needle(port));
    }
    v
}

/// Scans one line for one port: the PID the line yields, if any.
pub fn line_pid(line: &Vec<char>, port: u16) -> (r: Option<u32>)
    ensures
        match r {
            Some(pid) => line_yields_pid(line@, port, pid),
            None => forall|pid: u32| !line_yields_pid(line@, port, pid),
        },
{
    let t = trim_chars(line);
    let needle = port_needle_chars(port);
    let mark = chars_of("LISTENING");
    if !crate::text::contains_chars(&t, &needle) {
        return None;
    }
    if !crate::text::contains_chars(&t, &mark) {
        return None;
    }
    proof {
        lemma_trim_back_idempotent(trim_front(line@));
    }
    let f = crate::text::last_field_chars(&t);
    parse_uint(&f, u32::MAX)
}

/// Whether `pids` already holds `pid`.
fn has_pid(pids: &Vec<u32>, pid: u32) -> (r: bool)
    ensures
        r == pids@.contains(pid),
{
    let mut k: usize = 0;
    while k < pids.len()
        invariant
            k <= pids@.len(),
            forall|t: int| 0 <= t < k ==> pids@[t] != pid,
        decreases pids@.len() - k,
    {
        if pids[k] == pid {
            assert(pids@[k as int] == pid);
            return true;
        }
        k = k + 1;
    }
    false
}

/// The set of PIDs listening on any of the requested ports, read from the
/// connection-table text: a duplicate-free vector holding exactly the PIDs
/// that some line yields for some requested port, in no particular order.
pub fn find_listening_pids(text: &str, ports: &Vec<u16>) -> (pids: Vec<u32>)
    ensures
        forall|pid: u32| pids@.contains(pid) <==> resolved_pid(text@, ports@, pid),
        forall|i: int, j: int| 0 <= i < j < pids@.len() ==> pids@[i] != pids@[j],
{
    let tv = chars_of(text);
    let lines = split_lines(&tv);
    let nports = ports.len();
    let nlines = lines.len();
    let mut pids: Vec<u32> = Vec::new();
    let mut pi: usize = 0;
    while pi < nports
        invariant
            pi <= nports,
            nports == ports@.len(),
            nlines == lines@.len(),
            lines@.len() == lines_of(text@).len(),
            forall|i: int| 0 <= i < lines@.len() ==> (#[trigger] lines@[i])@ == lines_of(text@)[i],
            forall|i: int, j: int| 0 <= i < j < pids@.len() ==> pids@[i] != pids@[j],
            forall|pid: u32|
                #[trigger] pids@.contains(pid) <==> resolved_upto(text@, ports@, pi as int, pid),
        decreases nports - pi,
    {
        let port = ports[pi];
        let mut li: usize = 0;
        while li < nlines
            invariant
                li <= nlines,
                pi < nports,
                nports == ports@.len(),
                nlines == lines@.len(),
                lines@.len() == lines_of(text@).len(),
                port == ports@[pi as int],
                forall|i: int|
                    0 <= i < lines@.len() ==> (#[trigger] lines@[i])@ == lines_of(text@)[i],
                forall|i: int, j: int| 0 <= i < j < pids@.len() ==> pids@[i] != pids@[j],
                forall|pid: u32|
                    #[trigger] pids@.contains(pid) <==> (resolved_upto(text@, ports@, pi as int, pid)
                        || yielded_among(text@, port, li as int, pid)),
            decreases nlines - li,
        {
            let ghost pids0 = pids@;
            let ghost lv = lines_of(text@)[li as int];
            let r = line_pid(&lines[li], port);
            match r {
                Some(found) => {
                    if !has_pid(&pids, found) {
                        pids.push(found);
                    }
                    proof {
                        assert(line_yields_pid(lv, port, found));
                        assert forall|x: u32| #[trigger] pids@.contains(x) == (resolved_upto(
                            text@,
                            ports@,
                            pi as int,
                            x,
                        ) || yielded_among(text@, port, li + 1, x)) by {
                            lemma_contains_after_push(pids0, pids@, found, x);
                            if x == found {
                                assert(line_yields_pid(lines_of(text@)[li as int], port, x));
                                assert(yielded_among(text@, port, li + 1, x));
                            }
                            if yielded_among(text@, port, li + 1, x) && x != found {
                                let l = choose|l: int|
                                    0 <= l < li + 1 && l < lines_of(text@).len()
                                        && line_yields_pid(lines_of(text@)[l], port, x);
                                if l == li {
                                    assert(x as nat == uint_val(pid_field(lv)));
                                    assert(false);
                                } else {
                                    assert(yielded_among(text@, port, li as int, x));
                                }
                            }
                        }
                    }
                },
                None => {
                    proof {
                        assert forall|x: u32| #[trigger] pids@.contains(x) == (resolved_upto(
                            text@,
                            ports@,
                            pi as int,
                            x,
                        ) || yielded_among(text@, port, li + 1, x)) by {
                            assert((lines@[li as int])@ == lv);
                            assert(!line_yields_pid(lv, port, x));
                            if yielded_among(text@, port, li + 1, x) {
                                let l = choose|l: int|
                                    0 <= l < li + 1 && l < lines_of(text@).len()
                                        && line_yields_pid(lines_of(text@)[l], port, x);
                                assert(l < li);
                                assert(yielded_among(text@, port, li as int, x));
                            }
                            if yielded_among(text@, port, li as int, x) {
                                assert(yielded_among(text@, port, li + 1, x));
                            }
                        }
                    }
                },
            }
            li = li + 1;
        }
        proof {
            assert forall|x: u32| resolved_upto(text@, ports@, pi + 1, x) == (resolved_upto(
                text@,
                ports@,
                pi as int,
                x,
            ) || yielded_among(text@, port, nlines as int, x)) by {
                if resolved_upto(text@, ports@, pi + 1, x) {
                    let (p, l) = choose|p: int, l: int|
                        0 <= p < pi + 1 && p < ports@.len() && 0 <= l < lines_of(text@).len()
                            && line_yields_pid(lines_of(text@)[l], ports@[p], x);
                    if p < pi {
                        assert(resolved_upto(text@, ports@, pi as int, x));
                    } else {
                        assert(line_yields_pid(lines_of(text@)[l], port, x));
                        assert(yielded_among(text@, port, nlines as int, x));
                    }
                }
                if resolved_upto(text@, ports@, pi as int, x) {
                    assert(resolved_upto(text@, ports@, pi + 1, x));
                }
                if yielded_among(text@, port, nlines as int, x) {
                    let l = choose|l: int|
                        0 <= l < nlines && l < lines_of(text@).len() && line_yields_pid(
                            lines_of(text@)[l],
                            port,
                            x,
                        );
                    assert(line_yields_pid(lines_of(text@)[l], ports@[pi as int], x));
                    assert(resolved_upto(text@, ports@, pi + 1, x));
                }
            }
        }
        pi = pi + 1;
    }
    proof {
        assert forall|pid: u32| #[trigger] pids@.contains(pid) == resolved_pid(
            text@,
            ports@,
            pid,
        ) by {
            if pids@.contains(pid) {
                let (p, l) = choose|p: int, l: int|
                    0 <= p < pi && p < ports@.len() && 0 <= l < lines_of(text@).len()
                        && line_yields_pid(lines_of(text@)[l], ports@[p], pid);
                assert(resolved_pid(text@, ports@, pid));
            }
            if resolved_pid(text@, ports@, pid) {
                let (p, l) = choose|p: int, l: int|
                    0 <= p < ports@.len() && 0 <= l < lines_of(text@).len() && line_yields_pid(
                        lines_of(text@)[l],
                        ports@[p],
                        pid,
                    );
                assert(resolved_upto(text@, ports@, pi as int, pid));
            }
        }
    }
    pids
}

/// Membership in a sequence after pushing one element.
proof fn lemma_contains_after_push(before: Seq<u32>, after: Seq<u32>, pushed: u32, x: u32)
    requires
        after == before || (!before.contains(pushed) && after == before.push(pushed)),
    ensures
        after == before ==> (after.contains(x) == before.contains(x)),
        after == before.push(pushed) ==> (after.contains(x) == (before.contains(x) || x
            == pushed)),
{
    if after == before.push(pushed) {
        if after.contains(x) {
            let k = choose|k: int| 0 <= k < after.len() && after[k] == x;
            if k < before.len() {
                assert(before[k] == x);
            }
        }
        if before.contains(x) {
            let k = choose|k: int| 0 <= k < before.len() && before[k] == x;
            assert(after[k] == x);
        }
        if x == pushed {
            assert(after[before.len() as int] == x);
        }
    }
}

} // verus!
