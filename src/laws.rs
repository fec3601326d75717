use vstd::prelude::*;

use vstd::arithmetic::div_mod::lemma_div_by_multiple;

use crate::caps::{after_caps, capped_pile};
use crate::conversion::{
    any_full, consume_all, convert_one, demand_ratio, produce_all, satisfaction, scaled,
};
use crate::model::{
    amount, effective_limit, is_full, link_wf, saturate, stack_count, with_amount, Link, NodeId,
    Stack, Stockpile, TypedQuantity,
};
use crate::production::{
    after_production, flow_amount, flows_into, is_producer, produced_into, producer_output,
};

verus! {

proof fn lemma_flows_miss(flows: Seq<TypedQuantity>, t: int, dt: u16, count: int)
    requires
        forall|k: int| 0 <= k < flows.len() ==> (#[trigger] flows[k]).0 as int != t,
    ensures
        flows_into(flows, t, dt, count) == 0,
    decreases flows.len(),
{
    if flows.len() > 0 {
        assert(flows.last() == flows[flows.len() - 1]);
        lemma_flows_miss(flows.drop_last(), t, dt, count);
    }
}

proof fn lemma_produced_only(links: Seq<Link>, i: int, t: int, dt: u16)
    requires
        forall|j: int| 0 <= j < links.len() && j != i ==> producer_output(#[trigger] links[j], t, dt) == 0,
    ensures
        produced_into(links, t, dt) == if 0 <= i < links.len() {
            producer_output(links[i], t, dt)
        } else {
            0
        },
    decreases links.len(),
{
    if links.len() > 0 {
        let last = links.len() - 1;
        assert(links.last() == links[last]);
        assert forall|j: int| 0 <= j < links.drop_last().len() && j != i implies producer_output(
            #[trigger] links.drop_last()[j],
            t,
            dt,
        ) == 0 by {
            assert(links.drop_last()[j] == links[j]);
        }
        lemma_produced_only(links.drop_last(), i, t, dt);
        if 0 <= i < last {
            assert(links.drop_last()[i] == links[i]);
        }
    }
}

/// In one production step, a stockpile that a single pure producer feeds,
/// through its one flow of `rate`, and that no other pure producer names,
/// rises by exactly `rate * dt * floor(stack)` of that producer, when the
/// sum fits.
pub proof fn law_producer_adds_its_rate(
    piles: Seq<Stockpile>,
    links: Seq<Link>,
    i: int,
    t: NodeId,
    rate: u32,
    dt: u16,
)
    requires
        0 <= i < links.len(),
        links[i].consume is None,
        links[i].produce.0@ == seq![(t, rate)],
        forall|j: int, k: int|
            0 <= j < links.len() && j != i && is_producer(links[j]) && 0 <= k
                < links[j].produce.0@.len() ==> (#[trigger] links[j].produce.0@[k]).0 != t,
        t < piles.len(),
        amount(piles[t as int]) + flow_amount(rate, dt, stack_count(links[i].stack)) <= u64::MAX,
    ensures
        amount(after_production(piles, links, dt)[t as int]) == amount(piles[t as int])
            + flow_amount(rate, dt, stack_count(links[i].stack)),
{
    let l = links[i];
    let c = stack_count(l.stack);
    assert forall|j: int| 0 <= j < links.len() && j != i implies producer_output(
        #[trigger] links[j],
        t as int,
        dt,
    ) == 0 by {
        if is_producer(links[j]) {
            assert forall|k: int| 0 <= k < links[j].produce.0@.len() implies (
            #[trigger] links[j].produce.0@[k]).0 as int != t as int by {
                assert(links[j].produce.0@[k].0 != t);
            }
            lemma_flows_miss(links[j].produce.0@, t as int, dt, stack_count(links[j].stack));
        }
    }
    lemma_produced_only(links, i, t as int, dt);
    assert(l.produce.0@.drop_last() =~= Seq::<TypedQuantity>::empty());
    assert(l.produce.0@.last() == (t, rate));
    assert(flows_into(l.produce.0@.drop_last(), t as int, dt, c) == 0);
    assert(produced_into(links, t as int, dt) == flow_amount(rate, dt, c));
}

/// The cap step is idempotent, leaves every capped stockpile at or below
/// `capacity * floor(stack)`, and leaves uncapped ones as they were.
pub proof fn law_caps_idempotent(piles: Seq<Stockpile>)
    ensures
        after_caps(after_caps(piles)) == after_caps(piles),
        after_caps(piles).len() == piles.len(),
        forall|k: int|
            0 <= k < piles.len() ==> match effective_limit(piles[k]) {
                Some(l) => amount(#[trigger] after_caps(piles)[k]) <= l,
                None => after_caps(piles)[k] == piles[k],
            },
{
    assert(after_caps(after_caps(piles)) =~= after_caps(piles));
}

proof fn lemma_demand_ratio_bounds(piles: Seq<Stockpile>, flows: Seq<TypedQuantity>, dt: u16, count: int)
    ensures
        demand_ratio(piles, flows, dt, count).0 >= 0,
        demand_ratio(piles, flows, dt, count).1 > 0,
    decreases flows.len(),
{
    if flows.len() > 0 {
        lemma_demand_ratio_bounds(piles, flows.drop_last(), dt, count);
    }
}

proof fn lemma_empty_input_zeroes(piles: Seq<Stockpile>, flows: Seq<TypedQuantity>, dt: u16, count: int, k: int)
    requires
        0 <= k < flows.len(),
        amount(piles[flows[k].0 as int]) <= 0,
    ensures
        demand_ratio(piles, flows, dt, count).0 == 0,
    decreases flows.len(),
{
    lemma_demand_ratio_bounds(piles, flows.drop_last(), dt, count);
    if k < flows.len() - 1 {
        assert(flows.drop_last()[k] == flows[k]);
        lemma_empty_input_zeroes(piles, flows.drop_last(), dt, count, k);
        let prev = demand_ratio(piles, flows.drop_last(), dt, count);
        let a = amount(piles[flows.last().0 as int]);
        let r = flow_amount(flows.last().1, dt, count);
        assert(a * prev.1 >= 0) by (nonlinear_arith)
            requires
                a >= 0,
                prev.1 > 0,
        ;
        assert(prev.0 * r == 0) by (nonlinear_arith)
            requires
                prev.0 == 0,
        ;
    } else {
        assert(flows.last() == flows[k]);
    }
}

proof fn lemma_consume_nothing(piles: Seq<Stockpile>, flows: Seq<TypedQuantity>, dt: u16, count: int, sat: (int, int))
    requires
        sat.0 == 0,
        sat.1 > 0,
        forall|k: int| 0 <= k < flows.len() ==> (#[trigger] flows[k]).0 < piles.len(),
    ensures
        consume_all(piles, flows, dt, count, sat) == piles,
    decreases flows.len(),
{
    if flows.len() > 0 {
        lemma_consume_nothing(piles, flows.drop_last(), dt, count, sat);
        let f = flows.last();
        assert(f == flows[flows.len() - 1]);
        assert(scaled(f.1, dt, count, sat) == 0);
        assert(with_amount(piles[f.0 as int], amount(piles[f.0 as int])) == piles[f.0 as int]);
        assert(consume_all(piles, flows, dt, count, sat) =~= piles);
    }
}

proof fn lemma_produce_nothing(piles: Seq<Stockpile>, flows: Seq<TypedQuantity>, dt: u16, count: int, sat: (int, int))
    requires
        sat.0 == 0,
        sat.1 > 0,
        forall|k: int| 0 <= k < flows.len() ==> (#[trigger] flows[k]).0 < piles.len(),
    ensures
        produce_all(piles, flows, dt, count, sat) == piles,
    decreases flows.len(),
{
    if flows.len() > 0 {
        lemma_produce_nothing(piles, flows.drop_last(), dt, count, sat);
        let f = flows.last();
        assert(f == flows[flows.len() - 1]);
        assert(scaled(f.1, dt, count, sat) == 0);
        assert(with_amount(piles[f.0 as int], amount(piles[f.0 as int])) == piles[f.0 as int]);
        assert(produce_all(piles, flows, dt, count, sat) =~= piles);
    }
}

proof fn lemma_zero_satisfaction_keeps(piles: Seq<Stockpile>, l: Link, dt: u16)
    requires
        l.consume is Some,
        link_wf(l, piles.len() as int),
        satisfaction(piles, l, dt).0 == 0,
        satisfaction(piles, l, dt).1 > 0,
    ensures
        convert_one(piles, l, dt) == piles,
{
    let sat = satisfaction(piles, l, dt);
    let count = stack_count(l.stack);
    lemma_consume_nothing(piles, l.consume->Some_0.0@, dt, count, sat);
    lemma_produce_nothing(piles, l.produce.0@, dt, count, sat);
}

/// A converter with an empty input changes none of its inputs or outputs,
/// nor anything else.
pub proof fn law_empty_input_blocks_converter(piles: Seq<Stockpile>, l: Link, dt: u16, k: int)
    requires
        l.consume is Some,
        link_wf(l, piles.len() as int),
        0 <= k < l.consume->Some_0.0@.len(),
        amount(piles[l.consume->Some_0.0@[k].0 as int]) == 0,
    ensures
        convert_one(piles, l, dt) == piles,
{
    let count = stack_count(l.stack);
    lemma_demand_ratio_bounds(piles, l.consume->Some_0.0@, dt, count);
    lemma_empty_input_zeroes(piles, l.consume->Some_0.0@, dt, count, k);
    lemma_zero_satisfaction_keeps(piles, l, dt);
}

/// A converter with an output at or above its effective limit consumes
/// nothing and produces nothing, however full its inputs.
pub proof fn law_full_output_blocks_converter(piles: Seq<Stockpile>, l: Link, dt: u16, k: int)
    requires
        l.consume is Some,
        link_wf(l, piles.len() as int),
        0 <= k < l.produce.0@.len(),
        is_full(piles[l.produce.0@[k].0 as int]),
    ensures
        satisfaction(piles, l, dt) == (0int, 1int),
        convert_one(piles, l, dt) == piles,
{
    assert(any_full(piles, l.produce.0@));
    lemma_zero_satisfaction_keeps(piles, l, dt);
}

proof fn lemma_produce_distinct(
    piles: Seq<Stockpile>,
    flows: Seq<TypedQuantity>,
    dt: u16,
    count: int,
    sat: (int, int),
)
    requires
        forall|k: int| 0 <= k < flows.len() ==> (#[trigger] flows[k]).0 < piles.len(),
        forall|k1: int, k2: int|
            0 <= k1 < flows.len() && 0 <= k2 < flows.len() && k1 != k2 ==> (#[trigger] flows[k1]).0
                != (#[trigger] flows[k2]).0,
    ensures
        produce_all(piles, flows, dt, count, sat).len() == piles.len(),
        forall|k: int|
            0 <= k < flows.len() ==> #[trigger] produce_all(piles, flows, dt, count, sat)[flows[k].0 as int]
                == with_amount(
                piles[flows[k].0 as int],
                saturate(amount(piles[flows[k].0 as int]) + scaled(flows[k].1, dt, count, sat)),
            ),
        forall|x: int|
            0 <= x < piles.len() && (forall|k: int| 0 <= k < flows.len() ==> (#[trigger] flows[k]).0 != x)
                ==> #[trigger] produce_all(piles, flows, dt, count, sat)[x] == piles[x],
    decreases flows.len(),
{
    if flows.len() > 0 {
        let last = flows.len() - 1;
        let init = flows.drop_last();
        assert(flows.last() == flows[last]);
        assert forall|k: int| 0 <= k < init.len() implies (#[trigger] init[k]).0 < piles.len() by {
            assert(init[k] == flows[k]);
        }
        assert forall|k1: int, k2: int|
            0 <= k1 < init.len() && 0 <= k2 < init.len() && k1 != k2 implies (#[trigger] init[k1]).0
                != (#[trigger] init[k2]).0 by {
            assert(init[k1] == flows[k1]);
            assert(init[k2] == flows[k2]);
        }
        lemma_produce_distinct(piles, init, dt, count, sat);
        let t = flows[last].0 as int;
        assert forall|k: int| 0 <= k < init.len() implies (#[trigger] init[k]).0 != t by {
            assert(init[k] == flows[k]);
        }
        assert forall|k: int| 0 <= k < flows.len() implies #[trigger] produce_all(
            piles,
            flows,
            dt,
            count,
            sat,
        )[flows[k].0 as int] == with_amount(
            piles[flows[k].0 as int],
            saturate(amount(piles[flows[k].0 as int]) + scaled(flows[k].1, dt, count, sat)),
        ) by {
            if k < last {
                assert(init[k] == flows[k]);
            }
        }
        assert forall|x: int|
            0 <= x < piles.len() && (forall|k: int| 0 <= k < flows.len() ==> (#[trigger] flows[k]).0 != x)
                implies #[trigger] produce_all(piles, flows, dt, count, sat)[x] == piles[x] by {
            assert forall|k: int| 0 <= k < init.len() implies (#[trigger] init[k]).0 != x by {
                assert(init[k] == flows[k]);
            }
            assert(flows[last].0 != x);
        }
    }
}

/// A converter with one input holding `A` of the `R` it requires, `0 < A < R`,
/// and outputs with room, each on its own stockpile apart from the input:
/// satisfaction is `A / R`, the input is drained to exactly zero, and each
/// output gains its own flow scaled by `A / R` (rounded down, and stopping at
/// the largest amount).
pub proof fn law_proportional_throttling(
    piles: Seq<Stockpile>,
    l: Link,
    dt: u16,
    src: NodeId,
    r_in: u32,
)
    requires
        l.consume is Some,
        l.consume->Some_0.0@ == seq![(src, r_in)],
        link_wf(l, piles.len() as int),
        forall|k: int| 0 <= k < l.produce.0@.len() ==> (#[trigger] l.produce.0@[k]).0 != src,
        forall|k1: int, k2: int|
            0 <= k1 < l.produce.0@.len() && 0 <= k2 < l.produce.0@.len() && k1 != k2
                ==> (#[trigger] l.produce.0@[k1]).0 != (#[trigger] l.produce.0@[k2]).0,
        forall|k: int|
            0 <= k < l.produce.0@.len() ==> !is_full(#[trigger] piles[l.produce.0@[k].0 as int]),
        0 < amount(piles[src as int]) < flow_amount(r_in, dt, stack_count(l.stack)),
    ensures
        satisfaction(piles, l, dt) == (
            amount(piles[src as int]),
            flow_amount(r_in, dt, stack_count(l.stack)),
        ),
        scaled(r_in, dt, stack_count(l.stack), satisfaction(piles, l, dt)) == amount(
            piles[src as int],
        ),
        convert_one(piles, l, dt).len() == piles.len(),
        amount(convert_one(piles, l, dt)[src as int]) == 0,
        forall|k: int|
            0 <= k < l.produce.0@.len() ==> amount(
                #[trigger] convert_one(piles, l, dt)[l.produce.0@[k].0 as int],
            ) == saturate(
                amount(piles[l.produce.0@[k].0 as int]) + flow_amount(
                    l.produce.0@[k].1,
                    dt,
                    stack_count(l.stack),
                ) * amount(piles[src as int]) / flow_amount(r_in, dt, stack_count(l.stack)),
            ),
{
    let count = stack_count(l.stack);
    let a = amount(piles[src as int]);
    let r = flow_amount(r_in, dt, count);
    let inputs = l.consume->Some_0.0@;
    let outputs = l.produce.0@;
    assert(inputs.drop_last() =~= Seq::<TypedQuantity>::empty());
    assert(!any_full(piles, outputs));
    assert(inputs.last() == (src, r_in));
    assert(demand_ratio(piles, inputs.drop_last(), dt, count) == (1int, 1int));
    assert(demand_ratio(piles, inputs, dt, count) == (a, r));
    let sat = (a, r);
    assert(satisfaction(piles, l, dt) == sat);
    assert(r * a == a * r) by (nonlinear_arith);
    lemma_div_by_multiple(a, r);
    assert(scaled(r_in, dt, count, sat) == a);
    let mid = consume_all(piles, inputs, dt, count, sat);
    assert(consume_all(piles, inputs.drop_last(), dt, count, sat) == piles);
    assert(mid == piles.update(src as int, with_amount(piles[src as int], 0)));
    lemma_produce_distinct(mid, outputs, dt, count, sat);
    assert forall|k: int| 0 <= k < outputs.len() implies amount(
        #[trigger] convert_one(piles, l, dt)[outputs[k].0 as int],
    ) == saturate(
        amount(piles[outputs[k].0 as int]) + flow_amount(outputs[k].1, dt, count) * a / r,
    ) by {
        assert(outputs[k].0 < piles.len());
        assert(mid[outputs[k].0 as int] == piles[outputs[k].0 as int]);
    }
}

/// Stacks with the same whole part behave alike: the same production, the
/// same conversion, and the same cap.
pub proof fn law_stack_floor(
    piles: Seq<Stockpile>,
    links: Seq<Link>,
    l: Link,
    p: Stockpile,
    s1: Stack,
    s2: Stack,
    t: int,
    dt: u16,
)
    requires
        s1.0 / 1000 == s2.0 / 1000,
    ensures
        stack_count(Some(s1)) == stack_count(Some(s2)),
        produced_into(seq![Link { stack: Some(s1), ..l }], t, dt) == produced_into(
            seq![Link { stack: Some(s2), ..l }],
            t,
            dt,
        ),
        convert_one(piles, Link { stack: Some(s1), ..l }, dt) == convert_one(
            piles,
            Link { stack: Some(s2), ..l },
            dt,
        ),
        amount(capped_pile(Stockpile { stack: Some(s1), ..p })) == amount(
            capped_pile(Stockpile { stack: Some(s2), ..p }),
        ),
{
    let l1 = Link { stack: Some(s1), ..l };
    let l2 = Link { stack: Some(s2), ..l };
    assert(seq![l1].drop_last() =~= Seq::<Link>::empty());
    assert(seq![l2].drop_last() =~= Seq::<Link>::empty());
    assert(satisfaction(piles, l1, dt) == satisfaction(piles, l2, dt));
}

} // verus!
