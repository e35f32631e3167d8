//! Rendering an ordered sequence of items as an English list.
//!
//! The empty sequence renders as the empty string, one item as itself, two
//! items as `"A and B"`, and three or more as a comma-separated prefix with
//! `", and "` before the final item.

use crate::text::{dec_str, string_views};
use vstd::prelude::*;
use vstd::string::*;

verus! {

/// The items joined with `", "` between consecutive items.
pub open spec fn comma_joined(items: Seq<Seq<char>>) -> Seq<char>
    decreases items.len(),
{
    if items.len() == 0 {
        Seq::empty()
    } else if items.len() == 1 {
        items[0]
    } else {
        comma_joined(items.drop_last()) + ", "@ + items.last()
    }
}

/// The English-list rendering of the items: `[]` gives `""`, `[a]` gives
/// `a`, `[a, b]` gives `a and b`, and longer sequences give the items
/// joined with `", "` with `", and "` before the last one.
pub open spec fn prettified(items: Seq<Seq<char>>) -> Seq<char> {
    if items.len() == 0 {
        Seq::empty()
    } else if items.len() == 1 {
        items[0]
    } else if items.len() == 2 {
        items[0] + " and "@ + items[1]
    } else {
        comma_joined(items.drop_last()) + ", and "@ + items.last()
    }
}

/// Renders the strings as an English list.
pub fn prettify_strings(strings: Vec<String>) -> (r: String)
    ensures
        r@ == prettified(string_views(strings@)),
{
    if strings.len() == 0 {
        String::new()
    } else if strings.len() == 1 {
        strings[0].clone()
    } else if strings.len() == 2 {
        let mut r = strings[0].clone();
        r.append(" and ");
        r.append(strings[1].as_str());
        r
    } else {
        let n = strings.len();
        let mut r = strings[0].clone();
        proof {
            assert(string_views(strings@).take(1) =~= seq![strings@[0]@]);
        }
        let mut i: usize = 1;
        while i < n - 1
            invariant
                1 <= i <= n - 1,
                n == strings@.len(),
                3 <= n,
                r@ == comma_joined(string_views(strings@).take(i as int)),
            decreases n - 1 - i,
        {
            r.append(", ");
            r.append(strings[i].as_str());
            proof {
                let sv = string_views(strings@);
                assert(sv.take(i + 1).drop_last() =~= sv.take(i as int));
                assert(sv.take(i + 1).last() == strings@[i as int]@);
            }
            i = i + 1;
        }
        r.append(", and ");
        r.append(strings[n - 1].as_str());
        proof {
            let sv = string_views(strings@);
            assert(sv.take(n - 1) =~= sv.drop_last());
            assert(sv.last() == strings@[n - 1]@);
        }
        r
    }
}

/// The decimal numerals of the ports, in order.
pub open spec fn port_numerals(ports: Seq<u16>) -> Seq<Seq<char>> {
    ports.map_values(|p: u16| dec_str(p as nat))
}

/// Renders each port as its decimal numeral.
pub fn port_strings(ports: &Vec<u16>) -> (r: Vec<String>)
    ensures
        string_views(r@) == port_numerals(ports@),
{
    let mut r: Vec<String> = Vec::new();
    let mut i: usize = 0;
    while i < ports.len()
        invariant
            i <= ports@.len(),
            r@.len() == i,
            forall|j: int| 0 <= j < i ==> (#[trigger] r@[j])@ == dec_str(ports@[j] as nat),
        decreases ports@.len() - i,
    {
        let cs = crate::text::dec_chars(ports[i] as u32);
        let s = crate::text::string_of_chars(&cs);
        r.push(s);
        i = i + 1;
    }
    proof {
        assert forall|j: int| 0 <= j < ports@.len() implies string_views(r@)[j] == port_numerals(
            ports@,
        )[j] by {
            assert(string_views(r@)[j] == r@[j]@);
            assert(port_numerals(ports@)[j] == dec_str(ports@[j] as nat));
        }
        assert(string_views(r@) =~= port_numerals(ports@));
    }
    r
}

} // verus!
