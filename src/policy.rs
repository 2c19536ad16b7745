//! Which links found on a fetched page become new pages of the crawl.

use vstd::prelude::*;
use crate::config::Config;
use crate::link::{contains_seq, links_view, Link, LinkView};

verus! {

/// What the policy makes of one link.
pub enum Verdict {
    Reject,
    /// Accepted: its host is the crawl's domain.
    Internal,
    /// Accepted: another host, while the external-hop budget lasts.
    External,
}

/// The verdict on one link, `hops` being the external hops spent so far
/// (this page's own included) and `budget` the most that may be spent.
pub open spec fn verdict(l: LinkView, domain: Seq<char>, bound: Seq<char>, hops: int, budget: int) -> Verdict {
    match l.1 {
        None => Verdict::Reject,
        Some(h) => if !contains_seq(l.0, bound) {
            Verdict::Reject
        } else if h == domain {
            Verdict::Internal
        } else if hops < budget {
            Verdict::External
        } else {
            Verdict::Reject
        },
    }
}

/// The links of one page that are accepted, in their order, and whether the
/// page has spent an external hop; `hops` is the count before the page.
pub open spec fn page_filter(
    links: Seq<LinkView>,
    domain: Seq<char>,
    bound: Seq<char>,
    hops: int,
    budget: int,
) -> (Seq<LinkView>, bool)
    decreases links.len(),
{
    if links.len() == 0 {
        (Seq::empty(), false)
    } else {
        let (acc, spent) = page_filter(links.drop_last(), domain, bound, hops, budget);
        let l = links.last();
        match verdict(l, domain, bound, hops + if spent { 1int } else { 0int }, budget) {
            Verdict::Reject => (acc, spent),
            Verdict::Internal => (acc.push(l), spent),
            Verdict::External => (acc.push(l), true),
        }
    }
}

/// The external-hop count once a page's links have been filtered.
pub open spec fn hops_after(
    links: Seq<LinkView>,
    domain: Seq<char>,
    bound: Seq<char>,
    hops: int,
    budget: int,
) -> int {
    hops + if page_filter(links, domain, bound, hops, budget).1 { 1int } else { 0int }
}

/// Filtering a page's links advances the external-hop count by exactly one
/// when one or more of the accepted links leave the domain, and by none
/// otherwise; every accepted link has a host and holds the bound.
pub proof fn lemma_one_hop_per_page(
    links: Seq<LinkView>,
    domain: Seq<char>,
    bound: Seq<char>,
    hops: int,
    budget: int,
)
    ensures
        ({
            let acc = page_filter(links, domain, bound, hops, budget).0;
            &&& hops_after(links, domain, bound, hops, budget) == hops + if (exists|i: int|
                0 <= i < acc.len() && acc[i].1 != Some(domain)) {
                1int
            } else {
                0int
            }
            &&& forall|i: int| 0 <= i < acc.len() ==> acc[i].1 is Some && contains_seq(acc[i].0, bound)
        }),
    decreases links.len(),
{
    if links.len() > 0 {
        lemma_one_hop_per_page(links.drop_last(), domain, bound, hops, budget);
        let (acc0, spent0) = page_filter(links.drop_last(), domain, bound, hops, budget);
        let acc = page_filter(links, domain, bound, hops, budget).0;
        let l = links.last();
        match verdict(l, domain, bound, hops + if spent0 { 1int } else { 0int }, budget) {
            Verdict::Reject => {},
            Verdict::Internal => {
                assert forall|i: int| 0 <= i < acc.len() - 1 implies acc[i] == acc0[i] by {}
                if exists|i: int| 0 <= i < acc.len() && acc[i].1 != Some(domain) {
                    let i = choose|i: int| 0 <= i < acc.len() && acc[i].1 != Some(domain);
                    assert(i < acc0.len());
                    assert(acc0[i].1 != Some(domain));
                }
                if exists|i: int| 0 <= i < acc0.len() && acc0[i].1 != Some(domain) {
                    let i = choose|i: int| 0 <= i < acc0.len() && acc0[i].1 != Some(domain);
                    assert(acc[i] == acc0[i]);
                }
            },
            Verdict::External => {
                assert(acc[acc.len() - 1] == l);
                if exists|i: int| 0 <= i < acc0.len() && acc0[i].1 != Some(domain) {
                    let i = choose|i: int| 0 <= i < acc0.len() && acc0[i].1 != Some(domain);
                    assert(acc[i] == acc0[i]);
                }
            },
        }
    }
}

impl Config {
    /// The links of one fetched page that become new pages, with the
    /// external-hop count after the page: a link needs a host and must hold
    /// the bound; one on the crawl's domain is taken, one elsewhere only while
    /// fewer hops than the budget are spent, and the page spends one hop,
    /// however many external links it gives.
    pub fn filter_links(&self, links: &Vec<Link>, hops: i32) -> (r: (Vec<Link>, i32))
        ensures
            links_view(r.0@) == page_filter(
                links_view(links@),
                self.domain@,
                self.args.bound@,
                hops as int,
                self.args.external as int,
            ).0,
            r.1 == hops_after(
                links_view(links@),
                self.domain@,
                self.args.bound@,
                hops as int,
                self.args.external as int,
            ),
    {
        let ghost all = links_view(links@);
        let ghost domain = self.domain@;
        let ghost bound = self.args.bound@;
        let ghost budget = self.args.external as int;
        let mut out: Vec<Link> = Vec::new();
        let mut spent = false;
        let mut current = hops;
        let mut i: usize = 0;
        while i < links.len()
            invariant
                i <= links.len(),
                all == links_view(links@),
                domain == self.domain@,
                bound == self.args.bound@,
                budget == self.args.external as int,
                (links_view(out@), spent) == page_filter(all.take(i as int), domain, bound, hops as int, budget),
                current == hops + if spent { 1int } else { 0int },
            decreases links.len() - i,
        {
            let l = &links[i];
            assert(all.take(i + 1).drop_last() =~= all.take(i as int));
            assert(all.take(i + 1).last() == l@);
            if l.host.is_some() && self.in_bound(l) {
                if self.same_domain(l) {
                    out.push(l.duplicate());
                    assert(links_view(out@) =~= page_filter(all.take(i as int), domain, bound, hops as int, budget).0.push(l@));
                } else if current < self.args.external {
                    out.push(l.duplicate());
                    assert(links_view(out@) =~= page_filter(all.take(i as int), domain, bound, hops as int, budget).0.push(l@));
                    if !spent {
                        spent = true;
                        current = current + 1;
                    }
                }
            }
            i += 1;
        }
        assert(all.take(links.len() as int) =~= all);
        (out, current)
    }
}

} // verus!
