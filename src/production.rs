use vstd::prelude::*;

use crate::model::{
    amount, link_wf, saturate, stack_count, stack_instances, with_amount, Economy, Link, Stockpile,
    TypedQuantity,
};

verus! {

/// Amount that a single flow delivers over `dt` milliseconds for `count`
/// instances: a rate in thousandths per second times milliseconds gives
/// millionths.
pub open spec fn flow_amount(rate: u32, dt: u16, count: int) -> int {
    rate as int * dt as int * count
}

/// Sum of what the flows of one list deliver to stockpile `t`.
pub open spec fn flows_into(flows: Seq<TypedQuantity>, t: int, dt: u16, count: int) -> int
    decreases flows.len(),
{
    if flows.len() == 0 {
        0
    } else {
        let f = flows.last();
        flows_into(flows.drop_last(), t, dt, count) + if f.0 as int == t {
            flow_amount(f.1, dt, count)
        } else {
            0
        }
    }
}

/// A link that produces without consuming.
pub open spec fn is_producer(l: Link) -> bool {
    l.consume is None
}

/// What one link delivers to stockpile `t` in the production step.
pub open spec fn producer_output(l: Link, t: int, dt: u16) -> int {
    if is_producer(l) {
        flows_into(l.produce.0@, t, dt, stack_count(l.stack))
    } else {
        0
    }
}

/// What all pure producers deliver to stockpile `t` over `dt`.
pub open spec fn produced_into(links: Seq<Link>, t: int, dt: u16) -> int
    decreases links.len(),
{
    if links.len() == 0 {
        0
    } else {
        produced_into(links.drop_last(), t, dt) + producer_output(links.last(), t, dt)
    }
}

/// The stockpiles after the production step.
pub open spec fn after_production(piles: Seq<Stockpile>, links: Seq<Link>, dt: u16) -> Seq<
    Stockpile,
> {
    Seq::new(
        piles.len(),
        |i: int| with_amount(piles[i], saturate(amount(piles[i]) + produced_into(links, i, dt))),
    )
}

pub proof fn lemma_flows_into_nonneg(flows: Seq<TypedQuantity>, t: int, dt: u16, count: int)
    requires
        count >= 0,
    ensures
        flows_into(flows, t, dt, count) >= 0,
    decreases flows.len(),
{
    if flows.len() > 0 {
        lemma_flows_into_nonneg(flows.drop_last(), t, dt, count);
        let f = flows.last();
        assert(flow_amount(f.1, dt, count) >= 0) by (nonlinear_arith)
            requires
                count >= 0,
        ;
    }
}

pub proof fn lemma_produced_into_nonneg(links: Seq<Link>, t: int, dt: u16)
    ensures
        produced_into(links, t, dt) >= 0,
    decreases links.len(),
{
    if links.len() > 0 {
        lemma_produced_into_nonneg(links.drop_last(), t, dt);
        let l = links.last();
        lemma_flows_into_nonneg(l.produce.0@, t, dt, stack_count(l.stack));
    }
}

proof fn lemma_saturate_add(x: int, a: int, b: int)
    requires
        x >= 0,
        a >= 0,
        b >= 0,
    ensures
        saturate(saturate(x + a) + b) == saturate(x + a + b),
{
}

/// Amount delivered by one flow, as an exact machine value.
pub(crate) fn flow_delta(rate: u32, dt: u16, count: u64) -> (r: u64)
    requires
        count <= 65,
    ensures
        r as int == flow_amount(rate, dt, count as int),
        r <= 0xffff_ffff * 0xffff * 65,
{
    assert(rate as int * dt as int <= 0xffff_ffff * 0xffff) by (nonlinear_arith);
    assert(rate as int * dt as int * count as int <= 0xffff_ffff * 0xffff * 65)
        by (nonlinear_arith)
        requires
            rate as int * dt as int <= 0xffff_ffff * 0xffff,
            count <= 65,
    ;
    rate as u64 * dt as u64 * count
}

/// `a + d`, stopping at the largest amount.
pub(crate) fn saturating_amount(a: u64, d: u64) -> (r: u64)
    ensures
        r as int == saturate(a as int + d as int),
{
    if d > u64::MAX - a {
        u64::MAX
    } else {
        a + d
    }
}

impl Economy {
    /// Production step: every pure producer adds `rate * dt * floor(stack)`
    /// to each of its targets. Contributions to a shared target are summed;
    /// consumption and capacity play no part.
    pub fn run_producers(&mut self, dt: u16)
        requires
            old(self).wf(),
        ensures
            final(self).stockpiles@ == after_production(old(self).stockpiles@, old(self).links@, dt),
            final(self).links@ == old(self).links@,
    {
        let ghost piles0 = self.stockpiles@;
        let ghost links = self.links@;
        let n = self.links.len();
        let mut i: usize = 0;
        while i < n
            invariant
                0 <= i <= n,
                n == links.len(),
                self.links@ == links,
                self.wf(),
                self.stockpiles@.len() == piles0.len(),
                forall|k: int|
                    0 <= k < piles0.len() ==> #[trigger] self.stockpiles@[k] == with_amount(
                        piles0[k],
                        saturate(amount(piles0[k]) + produced_into(links.subrange(0, i as int), k, dt)),
                    ),
            decreases n - i,
        {
            assert(links.subrange(0, i + 1).drop_last() == links.subrange(0, i as int));
            if self.links[i].consume.is_none() {
                let count = stack_instances(&self.links[i].stack);
                let m = self.links[i].produce.0.len();
                let ghost flows = links[i as int].produce.0@;
                let mut j: usize = 0;
                while j < m
                    invariant
                        0 <= i < n,
                        0 <= j <= m,
                        m == flows.len(),
                        flows == links[i as int].produce.0@,
                        count as int == stack_count(links[i as int].stack),
                        count <= 65,
                        n == links.len(),
                        self.links@ == links,
                        self.wf(),
                        self.stockpiles@.len() == piles0.len(),
                        forall|k: int|
                            0 <= k < piles0.len() ==> #[trigger] self.stockpiles@[k] == with_amount(
                                piles0[k],
                                saturate(
                                    amount(piles0[k]) + produced_into(links.subrange(0, i as int), k, dt)
                                        + flows_into(flows.subrange(0, j as int), k, dt, count as int),
                                ),
                            ),
                    decreases m - j,
                {
                    assert(flows.subrange(0, j + 1).drop_last() == flows.subrange(0, j as int));
                    let (t, rate) = self.links[i].produce.0[j];
                    assert(link_wf(self.links@[i as int], self.stockpiles@.len() as int));
                    assert(flows[j as int].0 < piles0.len());
                    let d = flow_delta(rate, dt, count);
                    let cur = self.stockpiles[t].storage.0;
                    let next = saturating_amount(cur, d);
                    self.stockpiles[t].storage = crate::model::Storage(next);
                    proof {
                        assert forall|k: int| 0 <= k < piles0.len() implies #[trigger] self.stockpiles@[k]
                            == with_amount(
                            piles0[k],
                            saturate(
                                amount(piles0[k]) + produced_into(links.subrange(0, i as int), k, dt)
                                    + flows_into(flows.subrange(0, j + 1), k, dt, count as int),
                            ),
                        ) by {
                            lemma_produced_into_nonneg(links.subrange(0, i as int), k, dt);
                            lemma_flows_into_nonneg(flows.subrange(0, j as int), k, dt, count as int);
                            if k == t as int {
                                lemma_saturate_add(
                                    amount(piles0[k]),
                                    produced_into(links.subrange(0, i as int), k, dt)
                                        + flows_into(flows.subrange(0, j as int), k, dt, count as int),
                                    d as int,
                                );
                            }
                        }
                    }
                    j = j + 1;
                }
                assert(flows.subrange(0, m as int) == flows);
            }
            proof {
                assert forall|k: int| 0 <= k < piles0.len() implies #[trigger] self.stockpiles@[k]
                    == with_amount(
                    piles0[k],
                    saturate(amount(piles0[k]) + produced_into(links.subrange(0, i + 1), k, dt)),
                ) by {
                    assert(links.subrange(0, i + 1).last() == links[i as int]);
                }
            }
            i = i + 1;
        }
        proof {
            assert(links.subrange(0, n as int) == links);
            assert(self.stockpiles@ =~= after_production(piles0, links, dt));
        }
    }
}

} // verus!
