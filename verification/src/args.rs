//! Validating and de-duplicating the port arguments.
//!
//! Each command-line argument must be the decimal numeral of a 16-bit
//! port.  Valid ports are kept in first-seen order with duplicates
//! dropped; the first invalid argument aborts the parse.

use crate::text::{chars_of, parse_uint, parses_as_uint, string_views, uint_val};
use vstd::prelude::*;

verus! {

/// The argument is a valid port numeral: an unsigned decimal integer
/// that fits in 16 bits.
pub open spec fn port_arg_ok(arg: Seq<char>) -> bool {
    parses_as_uint(arg, u16::MAX as nat)
}

/// The port a valid argument denotes.
pub open spec fn port_of_arg(arg: Seq<char>) -> u16 {
    uint_val(arg) as u16
}

/// The ports the arguments denote, in order, duplicates included.
pub open spec fn ports_of_args(args: Seq<Seq<char>>) -> Seq<u16> {
    args.map_values(|a: Seq<char>| port_of_arg(a))
}

/// The sequence with every repeated value dropped: each value keeps only
/// its first occurrence, and first occurrences keep their order.
pub open spec fn dedup_first(s: Seq<u16>) -> Seq<u16>
    decreases s.len(),
{
    if s.len() == 0 {
        Seq::empty()
    } else {
        let d = dedup_first(s.drop_last());
        if d.contains(s.last()) {
            d
        } else {
            d.push(s.last())
        }
    }
}

/// The position of the first occurrence of `x` in `s` (the length of `s`
/// when `x` does not occur).
pub open spec fn first_pos(s: Seq<u16>, x: u16) -> int
    decreases s.len(),
{
    if s.len() == 0 {
        0
    } else if s[0] == x {
        0
    } else {
        1 + first_pos(s.drop_first(), x)
    }
}

proof fn lemma_first_pos_in(s: Seq<u16>, x: u16)
    requires
        s.contains(x),
    ensures
        0 <= first_pos(s, x) < s.len(),
        s[first_pos(s, x)] == x,
    decreases s.len(),
{
    if s[0] == x {
    } else {
        assert(s.drop_first().contains(x)) by {
            let i = choose|i: int| 0 <= i < s.len() && s[i] == x;
            assert(s.drop_first()[i - 1] == x);
        }
        lemma_first_pos_in(s.drop_first(), x);
    }
}

proof fn lemma_first_pos_push(s: Seq<u16>, a: u16, x: u16)
    ensures
        s.contains(x) ==> first_pos(s.push(a), x) == first_pos(s, x),
        !s.contains(x) && x == a ==> first_pos(s.push(a), x) == s.len(),
    decreases s.len(),
{
    if s.len() == 0 {
        if x == a {
            assert(s.push(a)[0] == a);
        }
    } else if s[0] == x {
        assert(s.push(a)[0] == x);
        assert(s.contains(x)) by {
            assert(s[0] == x);
        }
    } else {
        assert(s.push(a)[0] == s[0]);
        assert(s.push(a).drop_first() =~= s.drop_first().push(a));
        lemma_first_pos_push(s.drop_first(), a, x);
        if s.contains(x) {
            assert(s.drop_first().contains(x)) by {
                let i = choose|i: int| 0 <= i < s.len() && s[i] == x;
                assert(s.drop_first()[i - 1] == x);
            }
        } else {
            assert(!s.drop_first().contains(x)) by {
                if s.drop_first().contains(x) {
                    let i = choose|i: int| 0 <= i < s.drop_first().len() && s.drop_first()[i] == x;
                    assert(s[i + 1] == x);
                }
            }
        }
    }
}

/// De-duplication keeps each distinct value exactly once, keeps exactly
/// the values of the input, and lists them in the order of their first
/// occurrences.
pub proof fn lemma_dedup_first_seen(s: Seq<u16>)
    ensures
        forall|i: int, j: int|
            0 <= i < j < dedup_first(s).len() ==> dedup_first(s)[i] != dedup_first(s)[j],
        forall|x: u16| dedup_first(s).contains(x) <==> s.contains(x),
        forall|i: int, j: int|
            0 <= i < j < dedup_first(s).len() ==> first_pos(s, dedup_first(s)[i]) < first_pos(
                s,
                dedup_first(s)[j],
            ),
    decreases s.len(),
{
    if s.len() == 0 {
        assert forall|x: u16| dedup_first(s).contains(x) <==> s.contains(x) by {
            if s.contains(x) {
                let i = choose|i: int| 0 <= i < s.len() && s[i] == x;
            }
        }
    } else {
        let s0 = s.drop_last();
        let a = s.last();
        let d0 = dedup_first(s0);
        let d = dedup_first(s);
        lemma_dedup_first_seen(s0);
        assert(s0.push(a) =~= s);
        assert forall|x: u16| d.contains(x) <==> s.contains(x) by {
            lemma_contains_push(s0, a, x);
            if d0.contains(a) {
                lemma_contains_push(d0, a, x);
            } else {
                lemma_contains_push(d0, a, x);
                if x == a {
                    assert(d[d0.len() as int] == a);
                }
            }
        }
        if d0.contains(a) {
            assert forall|i: int, j: int|
                0 <= i < j < d.len() implies first_pos(s, d[i]) < first_pos(s, d[j]) by {
                assert(d0.contains(d[i]));
                assert(d0.contains(d[j]));
                lemma_first_pos_push(s0, a, d[i]);
                lemma_first_pos_push(s0, a, d[j]);
            }
        } else {
            assert forall|i: int, j: int| 0 <= i < j < d.len() implies d[i] != d[j] by {
                if j < d0.len() {
                } else {
                    assert(d[j] == a);
                    assert(d0.contains(d[i])) by {
                        assert(d[i] == d0[i]);
                    }
                }
            }
            assert forall|i: int, j: int|
                0 <= i < j < d.len() implies first_pos(s, d[i]) < first_pos(s, d[j]) by {
                if j < d0.len() {
                    assert(d0.contains(d[i]));
                    assert(d0.contains(d[j]));
                    lemma_first_pos_push(s0, a, d[i]);
                    lemma_first_pos_push(s0, a, d[j]);
                } else {
                    assert(d[j] == a);
                    assert(d0.contains(d[i])) by {
                        assert(d[i] == d0[i]);
                    }
                    lemma_first_pos_push(s0, a, d[i]);
                    lemma_first_pos_push(s0, a, a);
                    lemma_first_pos_in(s0, d[i]);
                }
            }
        }
    }
}

proof fn lemma_contains_push(s: Seq<u16>, a: u16, x: u16)
    ensures
        s.push(a).contains(x) <==> (s.contains(x) || x == a),
{
    if s.push(a).contains(x) {
        let k = choose|k: int| 0 <= k < s.push(a).len() && s.push(a)[k] == x;
        if k < s.len() {
            assert(s[k] == x);
        }
    }
    if s.contains(x) {
        let k = choose|k: int| 0 <= k < s.len() && s[k] == x;
        assert(s.push(a)[k] == x);
    }
    if x == a {
        assert(s.push(a)[s.len() as int] == x);
    }
}

/// What the command line asked for: nothing (show usage), a bad argument
/// (report it), or the validated ports.
pub enum ArgsOutcome {
    /// No arguments were given.
    Usage,
    /// The argument at this position is not a valid port numeral; the
    /// arguments before it all are.
    BadPort(usize),
    /// Every argument is a valid port numeral: the ports, in first-seen
    /// order, without duplicates.
    Ports(Vec<u16>),
}

/// Parses the command-line arguments (the program name excluded) into
/// the requested ports.
pub fn parse_port_args(args: &Vec<String>) -> (r: ArgsOutcome)
    ensures
        match r {
            ArgsOutcome::Usage => args@.len() == 0,
            ArgsOutcome::BadPort(i) => {
                &&& args@.len() > 0
                &&& 0 <= i < args@.len()
                &&& !port_arg_ok(args@[i as int]@)
                &&& forall|j: int| 0 <= j < i ==> port_arg_ok(#[trigger] args@[j]@)
            },
            ArgsOutcome::Ports(ports) => {
                &&& args@.len() > 0
                &&& forall|j: int| 0 <= j < args@.len() ==> port_arg_ok(#[trigger] args@[j]@)
                &&& ports@ == dedup_first(ports_of_args(string_views(args@)))
            },
        },
{
    let n = args.len();
    if n == 0 {
        return ArgsOutcome::Usage;
    }
    let ghost wanted = ports_of_args(string_views(args@));
    let mut ports: Vec<u16> = Vec::new();
    let mut i: usize = 0;
    while i < n
        invariant
            i <= n,
            n == args@.len(),
            wanted == ports_of_args(string_views(args@)),
            wanted.len() == n,
            forall|j: int| 0 <= j < i ==> port_arg_ok(#[trigger] args@[j]@),
            ports@ == dedup_first(wanted.take(i as int)),
        decreases n - i,
    {
        let cs = chars_of(args[i].as_str());
        match parse_uint(&cs, 65535) {
            Some(v) => {
                let p = v as u16;
                proof {
                    assert(wanted[i as int] == port_of_arg(args@[i as int]@));
                    assert(p == port_of_arg(args@[i as int]@));
                    assert(wanted.take(i + 1).drop_last() =~= wanted.take(i as int));
                    assert(wanted.take(i + 1).last() == wanted[i as int]);
                }
                if !has_port(&ports, p) {
                    ports.push(p);
                }
            },
            None => {
                return ArgsOutcome::BadPort(i);
            },
        }
        i = i + 1;
    }
    proof {
        assert(wanted.take(n as int) =~= wanted);
    }
    ArgsOutcome::Ports(ports)
}

/// Whether `ports` already holds `p`.
fn has_port(ports: &Vec<u16>, p: u16) -> (r: bool)
    ensures
        r == ports@.contains(p),
{
    let mut k: usize = 0;
    while k < ports.len()
        invariant
            k <= ports@.len(),
            forall|t: int| 0 <= t < k ==> ports@[t] != p,
        decreases ports@.len() - k,
    {
        if ports[k] == p {
            assert(ports@[k as int] == p);
            return true;
        }
        k = k + 1;
    }
    false
}

} // verus!
