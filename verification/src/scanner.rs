//! The scan engine.

use vstd::prelude::*;
use crate::laws::{
    lemma_collected_reports, lemma_nothing_reachable_nothing_listed, lemma_open_ports,
};
use crate::plan::{all_ports, MAX_PORT, PORT_COUNT};
use crate::probe::{reported, Attempt};

verus! {

/// The test that picks the open ports out of the plan, given how the attempt
/// on each port ended (the attempt on port `n` at place `n`).
pub open spec fn open_at(attempts: Seq<Attempt>) -> spec_fn(u16) -> bool {
    |port: u16| attempts[port as int].is_open()
}

/// The result of a scan: the ports whose attempt connected, in rising order.
pub open spec fn open_ports(attempts: Seq<Attempt>) -> Seq<u16>
    recommends
        attempts.len() == PORT_COUNT,
{
    all_ports().filter(open_at(attempts))
}

/// What passes from a report into the merged list.
pub open spec fn handed_in() -> spec_fn(Option<u16>) -> Option<u16> {
    |report: Option<u16>| report
}

/// The merge of the reports: the ports that were handed in, in the order of
/// the reports, each as often as it was handed in.
pub open spec fn collected(reports: Seq<Option<u16>>) -> Seq<u16> {
    reports.filter_map(handed_in())
}

/// A port scanner: probes every TCP port of one host and lists the open ones.
pub struct Scanner;

impl Scanner {
    /// The ports to probe: all of them, each once.
    pub fn targets() -> (ports: Vec<u16>)
        ensures
            ports@ == all_ports(),
    {
        let mut ports: Vec<u16> = Vec::new();
        let mut next: u32 = 0;
        while next <= MAX_PORT as u32
            invariant
                next <= PORT_COUNT,
                ports@.len() == next,
                forall|i: int| 0 <= i < next ==> ports@[i] == i as u16,
            decreases PORT_COUNT - next,
        {
            ports.push(next as u16);
            next += 1;
        }
        assert(ports@ =~= all_ports());
        ports
    }

    /// Judges one attempt: open only if the connection was established.
    pub fn check_port(attempt: Attempt) -> (open: bool)
        ensures
            open == attempt.is_open(),
    {
        match attempt {
            Attempt::Connected => true,
            _ => false,
        }
    }

    /// What the unit of work for `port` hands in after its attempt.
    pub fn report(port: u16, attempt: Attempt) -> (handed: Option<u16>)
        ensures
            handed == reported(port, attempt),
    {
        if Self::check_port(attempt) {
            Some(port)
        } else {
            None
        }
    }

    /// Merges the reports of the units of work into one list.
    pub fn collect(reports: &Vec<Option<u16>>) -> (open: Vec<u16>)
        ensures
            open@ == collected(reports@),
    {
        let mut open: Vec<u16> = Vec::new();
        let mut i: usize = 0;
        assert(reports@.take(0).filter_map(handed_in()) =~= Seq::<u16>::empty());
        while i < reports.len()
            invariant
                i <= reports@.len(),
                open@ == collected(reports@.take(i as int)),
            decreases reports@.len() - i,
        {
            proof {
                reports@.lemma_filter_map_take_succ(handed_in(), i as int);
            }
            match reports[i] {
                Some(port) => {
                    open.push(port);
                },
                None => {},
            }
            i += 1;
        }
        assert(reports@.take(i as int) =~= reports@);
        open
    }

    /// Lists the open ports, given how the attempt on each port ended:
    /// `attempts[n]` is the ending of the attempt on port `n`.
    ///
    /// A port is listed exactly when its attempt connected. The list rises,
    /// so no port is listed twice.
    pub fn scan(attempts: &Vec<Attempt>) -> (open: Vec<u16>)
        requires
            attempts@.len() == PORT_COUNT,
        ensures
            open@ == open_ports(attempts@),
            forall|port: u16| open@.contains(port) <==> attempts@[port as int].is_open(),
            forall|i: int, j: int| 0 <= i < j < open@.len() ==> open@[i] < open@[j],
            open@.no_duplicates(),
            (forall|port: u16| !attempts@[port as int].is_open()) ==> open@.len() == 0,
    {
        let ports = Self::targets();
        let mut reports: Vec<Option<u16>> = Vec::new();
        let mut i: usize = 0;
        while i < ports.len()
            invariant
                ports@ == all_ports(),
                attempts@.len() == PORT_COUNT,
                i <= PORT_COUNT,
                reports@.len() == i,
                forall|k: int| 0 <= k < i ==> reports@[k] == reported(k as u16, attempts@[k]),
            decreases PORT_COUNT - i,
        {
            reports.push(Self::report(ports[i], attempts[i]));
            i += 1;
        }
        let open = Self::collect(&reports);
        proof {
            lemma_collected_reports(attempts@, reports@, PORT_COUNT as int);
            assert(reports@.take(PORT_COUNT as int) =~= reports@);
            assert(all_ports().take(PORT_COUNT as int) =~= all_ports());
            lemma_open_ports(attempts@);
            if forall|port: u16| !attempts@[port as int].is_open() {
                lemma_nothing_reachable_nothing_listed(attempts@);
            }
        }
        open
    }
}

} // verus!
