//! What holds of every scan.

use vstd::prelude::*;
use crate::plan::{all_ports, PORT_COUNT};
use crate::probe::{reported, Attempt};
use crate::scanner::{collected, handed_in, open_at, open_ports};

verus! {

/// The open ports among the first `k` ports of the plan.
pub open spec fn open_below(attempts: Seq<Attempt>, k: int) -> Seq<u16> {
    all_ports().take(k).filter(open_at(attempts))
}

/// One more port in the plan adds that port to the open ones if its attempt
/// connected, and nothing otherwise.
pub proof fn lemma_open_below_step(attempts: Seq<Attempt>, k: int)
    requires
        0 <= k < PORT_COUNT,
    ensures
        open_below(attempts, k + 1) == if attempts[k].is_open() {
            open_below(attempts, k).push(k as u16)
        } else {
            open_below(attempts, k)
        },
{
    let before = all_ports().take(k);
    assert(all_ports().take(k + 1) =~= before.push(k as u16));
    before.lemma_filter_push(k as u16, open_at(attempts));
}

/// Among the first `k` ports, the open ones are listed in rising order, and a
/// port is listed exactly when its attempt connected.
pub proof fn lemma_open_below(attempts: Seq<Attempt>, k: int)
    requires
        0 <= k <= PORT_COUNT,
    ensures
        forall|i: int|
            0 <= i < open_below(attempts, k).len() ==> {
                &&& (#[trigger] open_below(attempts, k)[i]) < k
                &&& attempts[open_below(attempts, k)[i] as int].is_open()
            },
        forall|i: int, j: int|
            0 <= i < j < open_below(attempts, k).len() ==> open_below(attempts, k)[i]
                < open_below(attempts, k)[j],
        forall|port: u16|
            port < k && attempts[port as int].is_open() ==> open_below(attempts, k).contains(port),
    decreases k,
{
    let now = open_below(attempts, k);
    if k == 0 {
        reveal(Seq::filter);
        assert(all_ports().take(0).len() == 0);
        assert(now.len() == 0);
    } else {
        let before = open_below(attempts, k - 1);
        lemma_open_below(attempts, k - 1);
        lemma_open_below_step(attempts, k - 1);
        assert forall|port: u16| port < k && attempts[port as int].is_open() implies now.contains(
            port,
        ) by {
            if port < k - 1 {
                assert(before.contains(port));
                let i = choose|i: int| 0 <= i < before.len() && before[i] == port;
                assert(now[i] == port);
            } else {
                assert(now[now.len() - 1] == port);
            }
        }
    }
}

/// A scan lists a port exactly when its attempt connected, in rising order
/// and so without listing any port twice.
pub proof fn lemma_open_ports(attempts: Seq<Attempt>)
    ensures
        forall|port: u16| open_ports(attempts).contains(port) <==> attempts[port as int].is_open(),
        forall|i: int, j: int|
            0 <= i < j < open_ports(attempts).len() ==> open_ports(attempts)[i] < open_ports(
                attempts,
            )[j],
        open_ports(attempts).no_duplicates(),
{
    lemma_open_below(attempts, PORT_COUNT as int);
    assert(all_ports().take(PORT_COUNT as int) =~= all_ports());
    let open = open_ports(attempts);
    assert(open == open_below(attempts, PORT_COUNT as int));
    assert forall|port: u16| open.contains(port) implies attempts[port as int].is_open() by {
        let i = choose|i: int| 0 <= i < open.len() && open[i] == port;
        assert(attempts[open[i] as int].is_open());
    }
    assert forall|i: int, j: int| 0 <= i < open.len() && 0 <= j < open.len() && i != j implies open[i]
        != open[j] by {
        if i < j {
            assert(open[i] < open[j]);
        } else {
            assert(open[j] < open[i]);
        }
    }
}

/// Merging what the units of work hand in, one unit per port in the order of
/// the plan, gives the open ports among the ports merged so far.
pub proof fn lemma_collected_reports(attempts: Seq<Attempt>, reports: Seq<Option<u16>>, k: int)
    requires
        0 <= k <= PORT_COUNT,
        reports.len() == PORT_COUNT,
        forall|n: int| 0 <= n < PORT_COUNT ==> reports[n] == reported(n as u16, attempts[n]),
    ensures
        collected(reports.take(k)) == open_below(attempts, k),
    decreases k,
{
    if k == 0 {
        reveal(Seq::filter);
        assert(all_ports().take(0).len() == 0);
        assert(reports.take(0).filter_map(handed_in()) =~= Seq::<u16>::empty());
        assert(open_below(attempts, 0) =~= Seq::<u16>::empty());
    } else {
        lemma_collected_reports(attempts, reports, k - 1);
        lemma_open_below_step(attempts, k - 1);
        reports.lemma_filter_map_take_succ(handed_in(), k - 1);
        assert(collected(reports.take(k)) =~= open_below(attempts, k));
    }
}

/// Every port is planned exactly once: port `port` stands at place `port` of
/// the plan and at no other place.
pub proof fn lemma_port_planned_once(port: u16)
    ensures
        all_ports().len() == PORT_COUNT,
        all_ports()[port as int] == port,
        forall|i: int| 0 <= i < all_ports().len() && all_ports()[i] == port ==> i == port,
        all_ports().no_duplicates(),
{
}

/// Every port has exactly one outcome: it is listed if its attempt
/// connected, left out if not, and never listed at two places.
pub proof fn lemma_one_outcome_per_port(attempts: Seq<Attempt>, port: u16)
    requires
        attempts.len() == PORT_COUNT,
    ensures
        open_ports(attempts).contains(port) <==> attempts[port as int].is_open(),
        forall|i: int, j: int|
            0 <= i < open_ports(attempts).len() && 0 <= j < open_ports(attempts).len()
                && open_ports(attempts)[i] == port && open_ports(attempts)[j] == port ==> i == j,
{
    lemma_open_ports(attempts);
}

/// Two runs of attempts that agree, port by port, on whether the connection
/// was established give the same open ports among the first `k`, whatever
/// made the other attempts fail.
pub proof fn lemma_open_below_agrees(first: Seq<Attempt>, second: Seq<Attempt>, k: int)
    requires
        0 <= k <= PORT_COUNT,
        forall|port: u16| first[port as int].is_open() == second[port as int].is_open(),
    ensures
        open_below(first, k) == open_below(second, k),
    decreases k,
{
    if k == 0 {
        reveal(Seq::filter);
        assert(all_ports().take(0).len() == 0);
        assert(open_below(first, 0) =~= open_below(second, 0));
    } else {
        lemma_open_below_agrees(first, second, k - 1);
        lemma_open_below_step(first, k - 1);
        lemma_open_below_step(second, k - 1);
        let last: u16 = (k - 1) as u16;
        assert(first[last as int].is_open() == second[last as int].is_open());
    }
}

/// Scans of a host whose listening ports have not changed list the same
/// ports: the list depends on nothing but which attempts connected.
pub proof fn lemma_same_listeners_same_ports(first: Seq<Attempt>, second: Seq<Attempt>)
    requires
        first.len() == PORT_COUNT,
        second.len() == PORT_COUNT,
        forall|port: u16| first[port as int].is_open() == second[port as int].is_open(),
    ensures
        open_ports(first) == open_ports(second),
{
    lemma_open_below_agrees(first, second, PORT_COUNT as int);
    assert(all_ports().take(PORT_COUNT as int) =~= all_ports());
}

/// Where no attempt connected, the scan lists nothing.
pub proof fn lemma_nothing_reachable_nothing_listed(attempts: Seq<Attempt>)
    requires
        attempts.len() == PORT_COUNT,
        forall|port: u16| !attempts[port as int].is_open(),
    ensures
        open_ports(attempts) == Seq::<u16>::empty(),
{
    lemma_open_ports(attempts);
    let open = open_ports(attempts);
    if open.len() > 0 {
        assert(open.contains(open[0]));
    }
    assert(open =~= Seq::<u16>::empty());
}

} // verus!
