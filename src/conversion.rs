use vstd::prelude::*;

use vstd::arithmetic::div_mod::{lemma_div_by_multiple, lemma_div_is_ordered};

use crate::model::{
    amount, is_full, link_wf, saturate, stack_count, stack_instances, with_amount, Economy, Link,
    Stockpile, Storage, TypedQuantity,
};
use crate::production::flow_amount;

verus! {

/// Largest amount that one flow can ask for or deliver in one step.
pub const MAX_FLOW: u64 = 0xffff_ffff * 0xffff * 65;

/// Satisfaction of a converter as a fraction `(numerator, denominator)`.
///
/// Starting from one, each input lowers it to `amount / required` when that
/// is smaller; an empty input sets it to zero outright, and an input that
/// requires nothing leaves it as it is.
pub open spec fn demand_ratio(piles: Seq<Stockpile>, flows: Seq<TypedQuantity>, dt: u16, count: int) -> (
    int,
    int,
)
    decreases flows.len(),
{
    if flows.len() == 0 {
        (1, 1)
    } else {
        let prev = demand_ratio(piles, flows.drop_last(), dt, count);
        let f = flows.last();
        let a = amount(piles[f.0 as int]);
        let r = flow_amount(f.1, dt, count);
        if a <= 0 {
            (0, 1)
        } else if r > 0 && a * prev.1 < prev.0 * r {
            (a, r)
        } else {
            prev
        }
    }
}

/// Some target of the flows is at or above its effective limit.
pub open spec fn any_full(piles: Seq<Stockpile>, flows: Seq<TypedQuantity>) -> bool {
    exists|k: int| 0 <= k < flows.len() && is_full(#[trigger] piles[flows[k].0 as int])
}

/// The satisfaction of converter `l` against the stockpiles as they stand:
/// zero when an output is full, else the demand ratio of its inputs.
pub open spec fn satisfaction(piles: Seq<Stockpile>, l: Link, dt: u16) -> (int, int) {
    if any_full(piles, l.produce.0@) {
        (0, 1)
    } else {
        match l.consume {
            Some(c) => demand_ratio(piles, c.0@, dt, stack_count(l.stack)),
            None => (1, 1),
        }
    }
}

/// What a flow moves when throttled by `sat`, rounded down.
pub open spec fn scaled(rate: u32, dt: u16, count: int, sat: (int, int)) -> int {
    flow_amount(rate, dt, count) * sat.0 / sat.1
}

/// The stockpiles after each input flow has taken its throttled share,
/// never going below zero.
pub open spec fn consume_all(
    piles: Seq<Stockpile>,
    flows: Seq<TypedQuantity>,
    dt: u16,
    count: int,
    sat: (int, int),
) -> Seq<Stockpile>
    decreases flows.len(),
{
    if flows.len() == 0 {
        piles
    } else {
        let prev = consume_all(piles, flows.drop_last(), dt, count, sat);
        let f = flows.last();
        let t = f.0 as int;
        let left = amount(prev[t]) - scaled(f.1, dt, count, sat);
        prev.update(t, with_amount(prev[t], if left > 0 { left } else { 0 }))
    }
}

/// The stockpiles after each output flow has added its throttled share.
pub open spec fn produce_all(
    piles: Seq<Stockpile>,
    flows: Seq<TypedQuantity>,
    dt: u16,
    count: int,
    sat: (int, int),
) -> Seq<Stockpile>
    decreases flows.len(),
{
    if flows.len() == 0 {
        piles
    } else {
        let prev = produce_all(piles, flows.drop_last(), dt, count, sat);
        let f = flows.last();
        let t = f.0 as int;
        prev.update(t, with_amount(prev[t], saturate(amount(prev[t]) + scaled(f.1, dt, count, sat))))
    }
}

/// One converter run against the stockpiles: satisfaction is fixed first,
/// then inputs are consumed and outputs produced. Other links change nothing.
pub open spec fn convert_one(piles: Seq<Stockpile>, l: Link, dt: u16) -> Seq<Stockpile> {
    match l.consume {
        Some(c) => {
            let sat = satisfaction(piles, l, dt);
            let count = stack_count(l.stack);
            produce_all(consume_all(piles, c.0@, dt, count, sat), l.produce.0@, dt, count, sat)
        },
        None => piles,
    }
}

/// All converters run in order, each seeing what the earlier ones did.
pub open spec fn after_conversion(piles: Seq<Stockpile>, links: Seq<Link>, dt: u16) -> Seq<
    Stockpile,
>
    decreases links.len(),
{
    if links.len() == 0 {
        piles
    } else {
        convert_one(after_conversion(piles, links.drop_last(), dt), links.last(), dt)
    }
}

/// `d * num / den`, exactly, for a fraction no greater than one.
fn throttle(d: u64, num: u64, den: u64) -> (r: u64)
    requires
        d <= MAX_FLOW,
        num <= den,
        0 < den,
    ensures
        r as int == d as int * num as int / den as int,
        r <= d,
{
    proof {
        assert(d as int * num as int <= d as int * den as int) by (nonlinear_arith)
            requires
                num <= den,
        ;
        assert(d as int * num as int <= 0xffff_ffff_ffff_ffff * 0xffff_ffff_ffff_ffff)
            by (nonlinear_arith)
            requires
                d <= MAX_FLOW,
                num <= 0xffff_ffff_ffff_ffff,
        ;
        lemma_div_is_ordered(d as int * num as int, d as int * den as int, den as int);
        lemma_div_by_multiple(d as int, den as int);
    }
    ((d as u128 * num as u128) / den as u128) as u64
}

/// The stockpile is at or above its effective limit.
fn pile_is_full(p: &Stockpile) -> (r: bool)
    ensures
        r == is_full(*p),
{
    match p.limit {
        Some(lim) => {
            let count = stack_instances(&p.stack);
            assert(lim.0 as int * count as int <= 0xffff_ffff_ffff_ffff * 65) by (nonlinear_arith)
                requires
                    count <= 65,
            ;
            p.storage.0 as u128 >= lim.0 as u128 * count as u128
        },
        None => false,
    }
}

impl Economy {
    /// Input flow `j` of converter `i`.
    fn input_flow(&self, i: usize, j: usize) -> (r: TypedQuantity)
        requires
            i < self.links@.len(),
            self.links@[i as int].consume is Some,
            j < self.links@[i as int].consume->Some_0.0@.len(),
        ensures
            r == self.links@[i as int].consume->Some_0.0@[j as int],
    {
        match &self.links[i].consume {
            Some(c) => c.0[j],
            None => (0, 0),
        }
    }

    /// Demand ratio of the inputs of link `i`.
    fn demand(&self, i: usize, dt: u16, count: u64) -> (r: (u64, u64))
        requires
            self.wf(),
            i < self.links@.len(),
            self.links@[i as int].consume is Some,
            count <= 65,
        ensures
            (r.0 as int, r.1 as int) == demand_ratio(
                self.stockpiles@,
                self.links@[i as int].consume->Some_0.0@,
                dt,
                count as int,
            ),
            r.0 <= r.1,
            0 < r.1 <= MAX_FLOW,
    {
        let ghost flows = self.links@[i as int].consume->Some_0.0@;
        let ghost piles = self.stockpiles@;
        let m = match &self.links[i].consume {
            Some(c) => c.0.len(),
            None => 0,
        };
        let mut num: u64 = 1;
        let mut den: u64 = 1;
        let mut j: usize = 0;
        while j < m
            invariant
                0 <= j <= m,
                m == flows.len(),
                flows == self.links@[i as int].consume->Some_0.0@,
                self.links@[i as int].consume is Some,
                piles == self.stockpiles@,
                i < self.links@.len(),
                self.wf(),
                count <= 65,
                (num as int, den as int) == demand_ratio(piles, flows.subrange(0, j as int), dt, count as int),
                num <= den,
                0 < den <= MAX_FLOW,
            decreases m - j,
        {
            assert(flows.subrange(0, j + 1).drop_last() == flows.subrange(0, j as int));
            assert(link_wf(self.links@[i as int], piles.len() as int));
            let (t, rate) = self.input_flow(i, j);
            assert(flows[j as int].0 < piles.len());
            let d = crate::production::flow_delta(rate, dt, count);
            let a = self.stockpiles[t].storage.0;
            if a == 0 {
                num = 0;
                den = 1;
            } else {
                assert(a as int * den as int <= 0xffff_ffff_ffff_ffff * MAX_FLOW) by (nonlinear_arith)
                    requires
                        den <= MAX_FLOW,
                ;
                assert(num as int * d as int <= 0xffff_ffff_ffff_ffff * MAX_FLOW) by (nonlinear_arith)
                    requires
                        d <= MAX_FLOW,
                ;
                if d > 0 && (a as u128) * (den as u128) < (num as u128) * (d as u128) {
                    assert(a < d) by (nonlinear_arith)
                        requires
                            (a as int) * (den as int) < (num as int) * (d as int),
                            num <= den,
                            0 < den,
                    ;
                    num = a;
                    den = d;
                }
            }
            j = j + 1;
        }
        assert(flows.subrange(0, m as int) == flows);
        (num, den)
    }

    /// Some output of link `i` is full.
    fn outputs_full(&self, i: usize) -> (r: bool)
        requires
            self.wf(),
            i < self.links@.len(),
        ensures
            r == any_full(self.stockpiles@, self.links@[i as int].produce.0@),
    {
        let ghost flows = self.links@[i as int].produce.0@;
        let ghost piles = self.stockpiles@;
        let m = self.links[i].produce.0.len();
        let mut j: usize = 0;
        while j < m
            invariant
                0 <= j <= m,
                m == flows.len(),
                flows == self.links@[i as int].produce.0@,
                piles == self.stockpiles@,
                i < self.links@.len(),
                self.wf(),
                forall|k: int| 0 <= k < j ==> !is_full(#[trigger] piles[flows[k].0 as int]),
            decreases m - j,
        {
            assert(link_wf(self.links@[i as int], piles.len() as int));
            let t = self.links[i].produce.0[j].0;
            assert(flows[j as int].0 < piles.len());
            if pile_is_full(&self.stockpiles[t]) {
                assert(is_full(piles[flows[j as int].0 as int]));
                return true;
            }
            j = j + 1;
        }
        false
    }

    /// Runs link `i` if it is a converter.
    fn run_converter(&mut self, i: usize, dt: u16)
        requires
            old(self).wf(),
            i < old(self).links@.len(),
        ensures
            final(self).stockpiles@ == convert_one(old(self).stockpiles@, old(self).links@[i as int], dt),
            final(self).stockpiles@.len() == old(self).stockpiles@.len(),
            final(self).links@ == old(self).links@,
    {
        if self.links[i].consume.is_none() {
            return;
        }
        let ghost piles0 = self.stockpiles@;
        let ghost link = self.links@[i as int];
        let ghost links = self.links@;
        let count = stack_instances(&self.links[i].stack);
        let full = self.outputs_full(i);
        let (num, den) = if full {
            (0u64, 1u64)
        } else {
            self.demand(i, dt, count)
        };
        let ghost sat = (num as int, den as int);
        assert(sat == satisfaction(piles0, link, dt));
        assert(link_wf(link, piles0.len() as int));
        let ghost inputs = link.consume->Some_0.0@;
        let ghost outputs = link.produce.0@;
        let m = match &self.links[i].consume {
            Some(c) => c.0.len(),
            None => 0,
        };
        let mut j: usize = 0;
        while j < m
            invariant
                0 <= j <= m,
                m == inputs.len(),
                links == self.links@,
                i < links.len(),
                link == links[i as int],
                inputs == link.consume->Some_0.0@,
                link.consume is Some,
                link_wf(link, piles0.len() as int),
                count <= 65,
                num <= den,
                0 < den,
                sat == (num as int, den as int),
                self.stockpiles@ == consume_all(piles0, inputs.subrange(0, j as int), dt, count as int, sat),
                self.stockpiles@.len() == piles0.len(),
            decreases m - j,
        {
            assert(inputs.subrange(0, j + 1).drop_last() == inputs.subrange(0, j as int));
            let (t, rate) = self.input_flow(i, j);
            assert(inputs[j as int].0 < piles0.len());
            let d = crate::production::flow_delta(rate, dt, count);
            let c = throttle(d, num, den);
            let cur = self.stockpiles[t].storage.0;
            let left = if cur > c {
                cur - c
            } else {
                0
            };
            self.stockpiles[t].storage = Storage(left);
            assert(self.stockpiles@ =~= consume_all(piles0, inputs.subrange(0, j + 1), dt, count as int, sat));
            j = j + 1;
        }
        assert(inputs.subrange(0, m as int) == inputs);
        let ghost piles1 = self.stockpiles@;
        let p = self.links[i].produce.0.len();
        let mut j: usize = 0;
        while j < p
            invariant
                0 <= j <= p,
                p == outputs.len(),
                links == self.links@,
                i < links.len(),
                link == links[i as int],
                outputs == link.produce.0@,
                link_wf(link, piles0.len() as int),
                count <= 65,
                num <= den,
                0 < den,
                sat == (num as int, den as int),
                self.stockpiles@ == produce_all(piles1, outputs.subrange(0, j as int), dt, count as int, sat),
                self.stockpiles@.len() == piles0.len(),
            decreases p - j,
        {
            assert(outputs.subrange(0, j + 1).drop_last() == outputs.subrange(0, j as int));
            let (t, rate) = self.links[i].produce.0[j];
            assert(outputs[j as int].0 < piles0.len());
            let d = crate::production::flow_delta(rate, dt, count);
            let g = throttle(d, num, den);
            let cur = self.stockpiles[t].storage.0;
            let next = crate::production::saturating_amount(cur, g);
            self.stockpiles[t].storage = Storage(next);
            assert(self.stockpiles@ =~= produce_all(piles1, outputs.subrange(0, j + 1), dt, count as int, sat));
            j = j + 1;
        }
        assert(outputs.subrange(0, p as int) == outputs);
    }

    /// Conversion step: every converter, in link order, fixes one
    /// satisfaction from its inputs and the headroom of its outputs, takes
    /// that share of each input and adds it to each output.
    pub fn run_converters(&mut self, dt: u16)
        requires
            old(self).wf(),
        ensures
            final(self).stockpiles@ == after_conversion(old(self).stockpiles@, old(self).links@, dt),
            final(self).stockpiles@.len() == old(self).stockpiles@.len(),
            final(self).links@ == old(self).links@,
    {
        let ghost piles0 = self.stockpiles@;
        let ghost links = self.links@;
        let n = self.links.len();
        let mut i: usize = 0;
        while i < n
            invariant
                0 <= i <= n,
                n == links.len(),
                self.links@ == links,
                self.wf(),
                self.stockpiles@.len() == piles0.len(),
                self.stockpiles@ == after_conversion(piles0, links.subrange(0, i as int), dt),
            decreases n - i,
        {
            assert(links.subrange(0, i + 1).drop_last() == links.subrange(0, i as int));
            self.run_converter(i, dt);
            i = i + 1;
        }
        assert(links.subrange(0, n as int) == links);
    }
}

} // verus!
