//! The device that holds the default route.
use crate::net::IpAddr;
use crate::text::{
    bounded_value, char_lists, chars_of, decimal, law_bounded_numbers_are_taken, lines,
    parse_bounded, same_text, split_lines, split_words, text_of, words,
};
use vstd::prelude::*;

verus! {

/// The device and the metric of a default route, from a line of `/proc/net/route`: at
/// least eight columns, the second all zeros, the seventh a decimal metric.
pub open spec fn route_line(line: Seq<char>) -> Option<(Seq<char>, u32)> {
    let fields = words(line);
    if fields.len() < 8 || fields[1] != "00000000"@ {
        None
    } else {
        match bounded_value(fields[6], u32::MAX as u64) {
            Some(metric) => Some((fields[0], metric as u32)),
            None => None,
        }
    }
}

/// The default route with the lowest metric; the first of those with the same.
pub open spec fn best_route(all: Seq<Seq<char>>) -> Option<(Seq<char>, u32)>
    decreases all.len(),
{
    if all.len() == 0 {
        None
    } else {
        let before = best_route(all.drop_last());
        match (before, route_line(all.last())) {
            (_, None) => before,
            (None, line) => line,
            (Some((name, best)), Some((device, metric))) => if best <= metric {
                Some((name, best))
            } else {
                Some((device, metric))
            },
        }
    }
}

/// The device of the default route: the first line is a heading.
pub open spec fn default_device(text: Seq<char>) -> Option<Seq<char>> {
    let all = lines(text);
    match best_route(
        if all.len() > 0 {
            all.skip(1)
        } else {
            all
        },
    ) {
        Some((name, _)) => Some(name),
        None => None,
    }
}

fn read_line(line: &[char]) -> (route: Option<(Vec<char>, u32)>)
    ensures
        match route {
            Some((name, metric)) => route_line(line@) == Some((name@, metric)),
            None => route_line(line@) is None,
        },
{
    let mut fields = split_words(line);
    let ghost views = char_lists(fields@);
    assert(views.len() == fields@.len());
    if fields.len() < 8 {
        return None;
    }
    assert(views[0] == fields@[0]@ && views[1] == fields@[1]@ && views[6] == fields@[6]@);
    let destination = text_of(fields[1].as_slice());
    if !same_text(destination.as_str(), "00000000") {
        return None;
    }
    match parse_bounded(fields[6].as_slice(), u32::MAX as u64) {
        Some(metric) => {
            let name = fields.remove(0);
            Some((name, metric as u32))
        },
        None => None,
    }
}

/// The device of the default route, from what `/proc/net/route` holds.
pub fn parse_linux_proc_net_route(data: &str) -> (device: Option<String>)
    ensures
        match device {
            Some(device) => default_device(data@) == Some(device@),
            None => default_device(data@) is None,
        },
{
    let chars = chars_of(data);
    let all = split_lines(chars.as_slice());
    let ghost views = char_lists(all@);
    assert(views.len() == all@.len());
    if all.len() == 0 {
        assert(best_route(views) is None);
        return None;
    }
    let ghost rest = views.skip(1);
    let mut best: Option<(Vec<char>, u32)> = None;
    let mut i: usize = 1;
    assert(rest.take(0) =~= Seq::<Seq<char>>::empty());
    while i < all.len()
        invariant
            1 <= i <= all.len(),
            views == char_lists(all@),
            rest == views.skip(1),
            match best {
                Some((name, metric)) => best_route(rest.take(i - 1)) == Some((name@, metric)),
                None => best_route(rest.take(i - 1)) is None,
            },
        decreases all.len() - i,
    {
        assert(rest.take(i as int).drop_last() =~= rest.take(i - 1));
        assert(rest.take(i as int).last() == all@[i as int]@);
        if let Some((name, metric)) = read_line(all[i].as_slice()) {
            let better = match &best {
                Some((_, m)) => metric < *m,
                None => true,
            };
            if better {
                best = Some((name, metric));
            }
        }
        i += 1;
    }
    assert(rest.take(rest.len() as int) =~= rest);
    match best {
        Some((name, _)) => Some(text_of(name.as_slice())),
        None => None,
    }
}

/// The device of the default route; none where the table cannot be read.
pub fn default_interface(table: &Option<String>) -> (device: Option<String>)
    ensures
        match (device, *table) {
            (Some(device), Some(table)) => default_device(table@) == Some(device@),
            (None, Some(table)) => default_device(table@) is None,
            (device, None) => device is None,
        },
{
    match table {
        Some(table) => parse_linux_proc_net_route(table.as_str()),
        None => None,
    }
}

/// An address of a device.
#[derive(Clone, Debug)]
pub struct InterfaceAddress {
    pub name: String,
    pub ip: IpAddr,
    pub is_loopback: bool,
}

/// Whether a device of such an address may hold the default route.
pub open spec fn may_route(address: InterfaceAddress) -> bool {
    !address.is_loopback && (address.ip matches IpAddr::V4(ip) && ip != 0)
}

/// The first device that may hold the default route, where there is no table to
/// read.
pub fn first_non_loopback_ipv4_interface(addresses: &[InterfaceAddress]) -> (device: Option<String>)
    ensures
        match device {
            Some(device) => exists|i: int|
                0 <= i < addresses.len() && may_route(#[trigger] addresses@[i])
                    && addresses@[i].name@ == device@ && forall|j: int|
                    0 <= j < i ==> !may_route(#[trigger] addresses@[j]),
            None => forall|i: int| 0 <= i < addresses.len() ==> !may_route(#[trigger] addresses@[i]),
        },
{
    let mut i: usize = 0;
    while i < addresses.len()
        invariant
            i <= addresses.len(),
            forall|j: int| 0 <= j < i ==> !may_route(#[trigger] addresses@[j]),
        decreases addresses.len() - i,
    {
        let address = &addresses[i];
        let routable = match address.ip {
            IpAddr::V4(ip) => ip != 0,
            IpAddr::V6(_) => false,
        };
        if routable && !address.is_loopback {
            assert(may_route(addresses@[i as int]));
            return Some(address.name.clone());
        }
        i += 1;
    }
    None
}

/// The default route that is taken is one of the table, and none has a lower metric.
pub proof fn law_lowest_metric_wins(all: Seq<Seq<char>>)
    ensures
        match best_route(all) {
            Some((name, metric)) => {
                &&& exists|i: int|
                    0 <= i < all.len() && route_line(#[trigger] all[i]) == Some((name, metric))
                &&& forall|i: int|
                    0 <= i < all.len() ==> (route_line(#[trigger] all[i]) matches Some((_, m))
                        ==> metric <= m)
            },
            None => forall|i: int| 0 <= i < all.len() ==> route_line(#[trigger] all[i]) is None,
        },
    decreases all.len(),
{
    if all.len() > 0 {
        let rest = all.drop_last();
        law_lowest_metric_wins(rest);
        if let Some((name, metric)) = best_route(rest) {
            let k = choose|k: int|
                0 <= k < rest.len() && route_line(#[trigger] rest[k]) == Some((name, metric));
            assert(all[k] == rest[k]);
        }
        assert(all[all.len() - 1] == all.last());
        assert forall|i: int| 0 <= i < all.len() implies (i == all.len() - 1 || all[i] == rest[i])
            by {}
    }
}

/// A line of at least eight columns whose second is zero throughout and whose seventh is a
/// number is a default route: through the device of the first, with that metric.
pub proof fn law_default_routes_are_read(line: Seq<char>, metric: u32)
    requires
        words(line).len() >= 8,
        words(line)[6] == decimal(metric as nat),
    ensures
        words(line)[1] == "00000000"@ ==> route_line(line) == Some((words(line)[0], metric)),
        words(line)[1] != "00000000"@ ==> route_line(line) is None,
{
    law_bounded_numbers_are_taken(metric as nat, u32::MAX as u64);
}

/// A device may stand in for a default route if and only if it has an IPv4 address that is
/// set and is no loopback.
pub proof fn law_loopbacks_hold_no_route(address: InterfaceAddress, ip: u32, wide: u128)
    ensures
        address.is_loopback ==> !may_route(address),
        address.ip == IpAddr::V6(wide) ==> !may_route(address),
        address.ip == IpAddr::V4(0) ==> !may_route(address),
        !address.is_loopback && address.ip == IpAddr::V4(ip) && ip != 0 ==> may_route(address),
{
}

/// The first line of the table is its heading; the device of the best route behind it is the
/// one.
pub proof fn law_heading_is_no_route(text: Seq<char>, name: Seq<char>, metric: u32)
    requires
        lines(text).len() > 0,
    ensures
        best_route(lines(text).skip(1)) == Some((name, metric)) ==> default_device(text) == Some(
            name,
        ),
        best_route(lines(text).skip(1)) is None ==> default_device(text) is None,
{
}

/// Of default routes with the same metric the first one is taken.
pub proof fn law_first_of_equal_metrics_wins(
    all: Seq<Seq<char>>,
    line: Seq<char>,
    name: Seq<char>,
    device: Seq<char>,
    metric: u32,
)
    requires
        best_route(all) == Some((name, metric)),
        route_line(line) == Some((device, metric)),
    ensures
        best_route(all.push(line)) == Some((name, metric)),
{
    assert(all.push(line).drop_last() =~= all);
}

} // verus!
