//! Reverse DNS.

use crate::addr::{IpAddr, Ipv4Addr};
use crate::addr;
use crate::text::{chars, concat, decimal, join, nibble, text, trim_end_char};
use crate::text;
use vstd::prelude::*;

verus! {

/// The labels of an IPv4 address, the last octet first.
pub open spec fn octet_labels(ip: Ipv4Addr) -> Seq<Seq<char>> {
    Seq::new(4, |i: int| text::decimal_spec(ip.octet_spec(3 - i) as nat))
}

/// The hexadecimal digit of an address `i` places from its end.
pub open spec fn nibble_at(groups: Seq<u16>, i: int) -> u8 {
    ((groups[7 - i / 4] as int / (if i % 4 == 0 {
        1int
    } else if i % 4 == 1 {
        16
    } else if i % 4 == 2 {
        256
    } else {
        4096
    })) % 16) as u8
}

/// The labels of an IPv6 address, the last digit first.
pub open spec fn nibble_labels(groups: Seq<u16>) -> Seq<Seq<char>> {
    Seq::new(32, |i: int| seq![text::nibble_char(nibble_at(groups, i))])
}

/// The name under which DNS keeps the name of an address.
pub open spec fn reverse_name_spec(ip: IpAddr) -> Seq<char> {
    match ip {
        IpAddr::V4(ip) => text::join_spec(octet_labels(ip), "."@) + ".in-addr.arpa."@,
        IpAddr::V6(ip) => text::join_spec(nibble_labels(addr::groups_spec(ip.bits)), "."@) + ".ip6.arpa."@,
    }
}

/// Writes the name under which DNS keeps the name of an address.
pub fn reverse_lookup_name(ip: IpAddr) -> (r: String)
    ensures
        r@ == reverse_name_spec(ip),
{
    let mut labels: Vec<String> = Vec::new();
    match ip {
        IpAddr::V4(ip) => {
            let (a, b, c, d) = ip.octets();
            labels.push(decimal(d as u64));
            labels.push(decimal(c as u64));
            labels.push(decimal(b as u64));
            labels.push(decimal(a as u64));
            proof {
                assert(labels.deep_view() =~= octet_labels(ip));
            }
            concat(join(&labels, ".").as_str(), ".in-addr.arpa.")
        },
        IpAddr::V6(ip) => {
            let groups = ip.groups();
            let ghost want = nibble_labels(groups@);
            let mut i: usize = 0;
            proof {
                assert(labels.deep_view() =~= want.take(0));
            }
            while i < 32
                invariant
                    i <= 32,
                    groups@.len() == 8,
                    want == nibble_labels(groups@),
                    labels.deep_view() == want.take(i as int),
                decreases 32 - i,
            {
                let ghost before = labels.deep_view();
                let group: u16 = groups[7 - i / 4];
                let scale: u16 = if i % 4 == 0 {
                    1
                } else if i % 4 == 1 {
                    16
                } else if i % 4 == 2 {
                    256
                } else {
                    4096
                };
                let digit: u8 = (group / scale % 16) as u8;
                let mut label: String = String::new();
                label.push(nibble(digit));
                labels.push(label);
                proof {
                    assert(label@ =~= seq![text::nibble_char(nibble_at(groups@, i as int))]);
                    assert(labels.deep_view() =~= before.push(want[i as int]));
                    assert(want.take(i + 1) =~= want.take(i as int).push(want[i as int]));
                }
                i = i + 1;
            }
            proof {
                assert(want.take(32) =~= want);
            }
            concat(join(&labels, ".").as_str(), ".ip6.arpa.")
        },
    }
}

/// The first name among answers, without the dots at its end.
pub open spec fn ptr_name_spec(answers: Seq<Option<Seq<char>>>) -> Option<Seq<char>>
    decreases answers.len(),
{
    if answers.len() == 0 {
        None
    } else {
        match answers[0] {
            Some(name) => Some(text::trim_end_char_spec(name, '.')),
            None => ptr_name_spec(answers.drop_first()),
        }
    }
}

/// Picks the name of a host from the answers to a reverse lookup; an answer that is no
/// name is `None`.
pub fn ptr_hostname(answers: &Vec<Option<String>>) -> (r: Option<String>)
    ensures
        r.deep_view() == ptr_name_spec(answers.deep_view()),
{
    let ghost views = answers.deep_view();
    let mut i: usize = 0;
    proof {
        assert(views.skip(0) =~= views);
    }
    while i < answers.len()
        invariant
            i <= answers@.len(),
            views == answers.deep_view(),
            ptr_name_spec(views) == ptr_name_spec(views.skip(i as int)),
        decreases answers@.len() - i,
    {
        proof {
            assert(views.skip(i as int)[0] == answers@[i as int].deep_view());
            assert(views.skip(i as int).drop_first() =~= views.skip(i + 1));
        }
        match &answers[i] {
            Some(name) => {
                let all = chars(name.as_str());
                return Some(text(trim_end_char(all.as_slice(), '.')));
            },
            None => {},
        }
        i = i + 1;
    }
    None
}

} // verus!
