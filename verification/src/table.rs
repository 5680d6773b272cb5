//! The host table: an ordered sequence of (matcher, address) pairs queried
//! by first-match-wins lookup. Insertion order is semantically significant;
//! the table never reorders or deduplicates.

use vstd::prelude::*;

use crate::addr::IpAddr;
use crate::host::{host_matches, Host, HostModel};

verus! {

/// The address of the first entry whose matcher accepts `domain`;
/// `None` if no entry matches.
pub open spec fn first_match(entries: Seq<(HostModel, IpAddr)>, domain: Seq<char>) -> Option<
    IpAddr,
>
    decreases entries.len(),
{
    if entries.len() == 0 {
        None
    } else if host_matches(entries[0].0, domain) {
        Some(entries[0].1)
    } else {
        first_match(entries.drop_first(), domain)
    }
}

/// Index of the first entry whose matcher accepts `domain`; the length of
/// the table if no entry matches.
pub open spec fn match_index(entries: Seq<(HostModel, IpAddr)>, domain: Seq<char>) -> int
    decreases entries.len(),
{
    if entries.len() == 0 {
        0
    } else if host_matches(entries[0].0, domain) {
        0
    } else {
        1 + match_index(entries.drop_first(), domain)
    }
}

/// First-match-wins: a successful lookup returns the address of the first
/// inserted matching entry — every earlier entry fails to match — and a
/// failed lookup means no entry matches at all.
pub proof fn lemma_first_match_wins(entries: Seq<(HostModel, IpAddr)>, domain: Seq<char>)
    ensures
        0 <= match_index(entries, domain) <= entries.len(),
        match_index(entries, domain) < entries.len() ==> {
            &&& host_matches(entries[match_index(entries, domain)].0, domain)
            &&& first_match(entries, domain) == Some(entries[match_index(entries, domain)].1)
        },
        forall|j: int|
            0 <= j < match_index(entries, domain) ==> !host_matches(#[trigger] entries[j].0, domain),
        match_index(entries, domain) == entries.len() ==> first_match(entries, domain) is None,
    decreases entries.len(),
{
    if entries.len() > 0 && !host_matches(entries[0].0, domain) {
        lemma_first_match_wins(entries.drop_first(), domain);
        assert forall|j: int| 0 <= j < match_index(entries, domain) implies !host_matches(
            entries[j].0,
            domain,
        ) by {
            if j > 0 {
                assert(entries.drop_first()[j - 1] == entries[j]);
            }
        }
    }
}

/// An ordered table of (matcher, address) pairs.
#[derive(Debug)]
pub struct Hosts {
    record: Vec<(Host, IpAddr)>,
}

impl View for Hosts {
    type V = Seq<(HostModel, IpAddr)>;

    closed spec fn view(&self) -> Seq<(HostModel, IpAddr)> {
        self.record@.map(|i: int, r: (Host, IpAddr)| (r.0@, r.1))
    }
}

impl Hosts {
    /// An empty table.
    pub fn new() -> (r: Hosts)
        ensures
            r@ == Seq::<(HostModel, IpAddr)>::empty(),
    {
        let r = Hosts { record: Vec::new() };
        proof {
            assert(r@ =~= Seq::<(HostModel, IpAddr)>::empty());
        }
        r
    }

    /// Appends one entry; no validation of uniqueness or shadowing.
    pub fn push(&mut self, record: (Host, IpAddr))
        ensures
            final(self)@ == old(self)@.push((record.0@, record.1)),
    {
        let ghost entry = (record.0@, record.1);
        self.record.push(record);
        proof {
            assert(self@ =~= old(self)@.push(entry));
        }
    }

    /// Appends all of `other`'s entries after the current ones, preserving
    /// both tables' internal orders.
    pub fn extend(&mut self, other: Hosts)
        ensures
            final(self)@ == old(self)@ + other@,
    {
        let mut rest = other.record;
        self.record.append(&mut rest);
        proof {
            assert(self@ =~= old(self)@ + other@);
        }
    }

    /// Number of entries.
    pub fn len(&self) -> (r: usize)
        ensures
            r == self@.len(),
    {
        self.record.len()
    }

    /// The entry at a given insertion position.
    pub fn index(&self, i: usize) -> (r: &(Host, IpAddr))
        requires
            i < self@.len(),
        ensures
            (r.0@, r.1) == self@[i as int],
    {
        &self.record[i]
    }

    /// Scans entries in insertion order and returns the address of the
    /// first entry whose matcher accepts `domain`; `None` if none matches.
    pub fn get(&self, domain: &str) -> (r: Option<&IpAddr>)
        ensures
            (match r {
                Some(ip) => Some(*ip),
                None => None,
            }) == first_match(self@, domain@),
    {
        let n = self.record.len();
        let mut i: usize = 0;
        proof {
            assert(self@.skip(0) =~= self@);
        }
        while i < n
            invariant
                0 <= i <= n,
                n == self@.len(),
                n == self.record@.len(),
                first_match(self@, domain@) == first_match(self@.skip(i as int), domain@),
            decreases n - i,
        {
            let pair = &self.record[i];
            if pair.0.is_match(domain) {
                proof {
                    assert(self@.skip(i as int)[0] == self@[i as int]);
                }
                return Some(&pair.1);
            }
            proof {
                assert(self@.skip(i as int)[0] == self@[i as int]);
                assert(self@.skip(i as int).drop_first() =~= self@.skip(i + 1));
            }
            i = i + 1;
        }
        proof {
            assert(self@.skip(n as int) =~= Seq::<(HostModel, IpAddr)>::empty());
        }
        None
    }
}

} // verus!
