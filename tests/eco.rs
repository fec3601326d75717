use eco::model::{
    Consume, Economy, Label, Link, Produce, Stack, Stockpile, Storage, StorageLimit, STACK_UNIT,
};
use eco::report::{push_amount, push_decimal, Reporter, LOG_PERIOD};
use eco::topology::{setup_eco, ResourceMap};

fn pile(amount: u64, limit: Option<u64>, stack: Option<u16>) -> Stockpile {
    Stockpile {
        label: None,
        storage: Storage(amount),
        limit: limit.map(StorageLimit),
        stack: stack.map(Stack),
    }
}

fn producer(flows: Vec<(usize, u32)>, stack: Option<u16>) -> Link {
    Link { label: None, produce: Produce(flows), consume: None, stack: stack.map(Stack) }
}

fn converter(made: Vec<(usize, u32)>, used: Vec<(usize, u32)>, stack: Option<u16>) -> Link {
    Link {
        label: None,
        produce: Produce(made),
        consume: Some(Consume(used)),
        stack: stack.map(Stack),
    }
}

fn amounts(e: &Economy) -> Vec<u64> {
    e.stockpiles.iter().map(|p| p.storage.0).collect()
}

#[test]
fn sample_network_after_one_tick() {
    let mut res = ResourceMap::new();
    let mut e = setup_eco(&mut res);
    e.tick(1000);
    let cooling = res.get(&"Cooling".to_string()).unwrap();
    let energy = res.get(&"Energy".to_string()).unwrap();
    assert_eq!(e.stockpiles[cooling].storage.0, 89_800_000);
    assert_eq!(e.stockpiles[energy].storage.0, 110_000_000);
    assert_eq!(e.stockpiles[2].storage.0, 0);
}

#[test]
fn sample_network_steps_in_order() {
    let mut res = ResourceMap::new();
    let mut e = setup_eco(&mut res);
    e.run_producers(1000);
    assert_eq!(amounts(&e), vec![100_100_000, 100_000_000, 0]);
    e.apply_caps();
    assert_eq!(amounts(&e), vec![100_000_000, 100_000_000, 0]);
    e.run_converters(1000);
    assert_eq!(amounts(&e), vec![89_800_000, 110_000_000, 0]);
}

#[test]
fn producer_adds_rate_times_dt_times_stack() {
    let mut e = Economy::new();
    let t = e.add_stockpile(pile(0, None, None));
    e.add_link(producer(vec![(t, 100)], Some(STACK_UNIT)));
    e.run_producers(1000);
    assert_eq!(e.stockpiles[t].storage.0, 100_000);
    e.run_producers(500);
    assert_eq!(e.stockpiles[t].storage.0, 150_000);
}

#[test]
fn producers_sum_into_shared_target() {
    let mut e = Economy::new();
    let t = e.add_stockpile(pile(7, None, None));
    e.add_link(producer(vec![(t, 100), (t, 5)], Some(3000)));
    e.add_link(producer(vec![(t, 2)], None));
    e.run_producers(10);
    assert_eq!(e.stockpiles[t].storage.0, 7 + 100 * 10 * 3 + 5 * 10 * 3 + 2 * 10);
}

#[test]
fn production_ignores_capacity_and_converters() {
    let mut e = Economy::new();
    let t = e.add_stockpile(pile(10, Some(10), None));
    e.add_link(converter(vec![(t, 1000)], vec![], None));
    e.add_link(producer(vec![(t, 1)], None));
    e.run_producers(1);
    assert_eq!(e.stockpiles[t].storage.0, 11);
}

#[test]
fn production_saturates_at_largest_amount() {
    let mut e = Economy::new();
    let t = e.add_stockpile(pile(u64::MAX - 5, None, None));
    e.add_link(producer(vec![(t, 10)], None));
    e.run_producers(1);
    assert_eq!(e.stockpiles[t].storage.0, u64::MAX);
}

#[test]
fn caps_clamp_and_are_idempotent() {
    let mut e = Economy::new();
    e.add_stockpile(pile(150, Some(100), None));
    e.add_stockpile(pile(150, Some(100), Some(2000)));
    e.add_stockpile(pile(150, None, None));
    e.add_stockpile(pile(50, Some(100), None));
    e.add_stockpile(pile(150, Some(100), Some(500)));
    e.apply_caps();
    let once = amounts(&e);
    assert_eq!(once, vec![100, 150, 150, 50, 0]);
    e.apply_caps();
    assert_eq!(amounts(&e), once);
}

#[test]
fn converter_with_empty_input_changes_nothing() {
    let mut e = Economy::new();
    let a = e.add_stockpile(pile(0, None, None));
    let b = e.add_stockpile(pile(500, None, None));
    let out = e.add_stockpile(pile(3, Some(1000), None));
    e.add_link(converter(vec![(out, 10)], vec![(a, 10), (b, 10)], None));
    e.run_converters(1000);
    assert_eq!(amounts(&e), vec![0, 500, 3]);
}

#[test]
fn converter_throttles_in_proportion() {
    let mut e = Economy::new();
    let src = e.add_stockpile(pile(4000, None, None));
    let rich = e.add_stockpile(pile(1_000_000, None, None));
    let dst = e.add_stockpile(pile(0, None, None));
    e.add_link(converter(vec![(dst, 30)], vec![(src, 10), (rich, 20)], None));
    e.run_converters(1000);
    // src requires 10_000 and holds 4_000: satisfaction is 0.4.
    assert_eq!(e.stockpiles[src].storage.0, 0);
    assert_eq!(e.stockpiles[rich].storage.0, 1_000_000 - 8_000);
    assert_eq!(e.stockpiles[dst].storage.0, 12_000);
}

#[test]
fn converter_runs_in_full_with_ample_inputs() {
    let mut e = Economy::new();
    let src = e.add_stockpile(pile(50_000, None, None));
    let dst = e.add_stockpile(pile(0, None, None));
    e.add_link(converter(vec![(dst, 7)], vec![(src, 10)], Some(2000)));
    e.run_converters(1000);
    assert_eq!(amounts(&e), vec![30_000, 14_000]);
}

#[test]
fn full_output_blocks_converter() {
    let mut e = Economy::new();
    let src = e.add_stockpile(pile(1_000_000, None, None));
    let open = e.add_stockpile(pile(0, Some(1_000_000), None));
    let full = e.add_stockpile(pile(200, Some(100), Some(2000)));
    e.add_link(converter(vec![(open, 10), (full, 10)], vec![(src, 10)], None));
    e.run_converters(1000);
    assert_eq!(amounts(&e), vec![1_000_000, 0, 200]);
}

#[test]
fn conversion_may_exceed_capacity_until_next_cap_step() {
    let mut e = Economy::new();
    let src = e.add_stockpile(pile(1_000_000, None, None));
    let dst = e.add_stockpile(pile(90, Some(100), None));
    e.add_link(converter(vec![(dst, 1)], vec![(src, 1)], None));
    e.tick(1000);
    assert_eq!(e.stockpiles[dst].storage.0, 1090);
    e.tick(1000);
    assert_eq!(e.stockpiles[dst].storage.0, 100);
}

#[test]
fn earlier_converter_takes_shared_input_first() {
    let mut e = Economy::new();
    let src = e.add_stockpile(pile(1000, None, None));
    let x = e.add_stockpile(pile(0, None, None));
    let y = e.add_stockpile(pile(0, None, None));
    e.add_link(converter(vec![(x, 1)], vec![(src, 1)], None));
    e.add_link(converter(vec![(y, 1)], vec![(src, 1)], None));
    e.run_converters(1000);
    assert_eq!(amounts(&e), vec![0, 1000, 0]);
}

#[test]
fn stack_floor_is_used_for_rates_and_capacity() {
    let run = |stack: u16| {
        let mut e = Economy::new();
        let t = e.add_stockpile(pile(0, None, None));
        let src = e.add_stockpile(pile(1_000_000, None, None));
        let dst = e.add_stockpile(pile(0, None, None));
        let capped = e.add_stockpile(pile(5000, Some(1000), Some(stack)));
        e.add_link(producer(vec![(t, 10)], Some(stack)));
        e.add_link(converter(vec![(dst, 3)], vec![(src, 5)], Some(stack)));
        e.tick(1000);
        let _ = capped;
        amounts(&e)
    };
    assert_eq!(run(2900), run(2000));
    assert_eq!(run(2000), vec![20_000, 990_000, 6_000, 2000]);
}

#[test]
fn zero_stack_does_nothing() {
    let mut e = Economy::new();
    let t = e.add_stockpile(pile(5, None, None));
    e.add_link(producer(vec![(t, 10)], Some(999)));
    e.run_producers(1000);
    assert_eq!(e.stockpiles[t].storage.0, 5);
}

#[test]
fn link_fits_checks_indices() {
    let mut e = Economy::new();
    e.add_stockpile(pile(0, None, None));
    assert!(e.link_fits(&producer(vec![(0, 1)], None)));
    assert!(!e.link_fits(&producer(vec![(1, 1)], None)));
    assert!(!e.link_fits(&converter(vec![(0, 1)], vec![(0, 1), (3, 1)], None)));
    assert!(e.link_fits(&converter(vec![(0, 1)], vec![(0, 1)], None)));
}

#[test]
fn reporter_logs_on_first_tick_and_then_periodically() {
    let mut r = Reporter::new();
    let mut due = Vec::new();
    for _ in 0..400 {
        due.push(r.output());
    }
    let ticks: Vec<usize> = due.iter().enumerate().filter(|(_, d)| **d).map(|(i, _)| i).collect();
    assert_eq!(ticks, vec![0, 151, 302]);
    assert_eq!(LOG_PERIOD, 150);
}

#[test]
fn readout_of_sample_network() {
    let mut res = ResourceMap::new();
    let mut e = setup_eco(&mut res);
    assert_eq!(e.readout(), "Cooling : 100.00\nEnergy : 100.00\nMass : 0.00\n");
    e.tick(1000);
    assert_eq!(e.readout(), "Cooling : 89.80\nEnergy : 110.00\nMass : 0.00\n");
}

#[test]
fn readout_uses_index_without_label_and_rounds() {
    let mut e = Economy::new();
    e.add_stockpile(pile(89_805_000, None, None));
    e.add_stockpile(pile(4_999, None, None));
    e.add_stockpile(Stockpile {
        label: Some(Label("Ore".to_string())),
        storage: Storage(1_234_567_890),
        limit: None,
        stack: None,
    });
    assert_eq!(e.readout(), "0 : 89.81\n1 : 0.00\nOre : 1234.57\n");
}

#[test]
fn decimal_and_amount_text() {
    let mut s = String::from("x");
    push_decimal(&mut s, 0);
    push_decimal(&mut s, 10_203);
    assert_eq!(s, "x010203");
    let mut s = String::new();
    push_amount(&mut s, u64::MAX);
    assert_eq!(s, "18446744073709.55");
}

#[test]
fn resource_map_keeps_latest_entry() {
    let mut m = ResourceMap::new();
    assert_eq!(m.get(&"Ore".to_string()), None);
    m.insert("Ore".to_string(), 3);
    m.insert("Gas".to_string(), 4);
    m.insert("Ore".to_string(), 7);
    assert_eq!(m.get(&"Ore".to_string()), Some(7));
    assert_eq!(m.get(&"Gas".to_string()), Some(4));
    assert_eq!(m.get(&"Mass".to_string()), None);
}

#[test]
fn sample_network_labels_and_registry() {
    let mut res = ResourceMap::new();
    res.insert("Ore".to_string(), 9);
    let e = setup_eco(&mut res);
    let names: Vec<Option<String>> =
        e.stockpiles.iter().map(|p| p.label.as_ref().map(|l| l.0.clone())).collect();
    assert_eq!(
        names,
        vec![Some("Cooling".to_string()), Some("Energy".to_string()), Some("Mass".to_string())]
    );
    let links: Vec<Option<String>> =
        e.links.iter().map(|l| l.label.as_ref().map(|l| l.0.clone())).collect();
    assert_eq!(links, vec![Some("Radiators".to_string()), Some("Generators".to_string())]);
    assert_eq!(res.get(&"Ore".to_string()), Some(9));
    assert_eq!(res.get(&"Cooling".to_string()), Some(0));
    assert_eq!(res.get(&"Energy".to_string()), Some(1));
    assert_eq!(res.get(&"Mass".to_string()), Some(2));
    assert_eq!(res.get(&"Generators".to_string()), None);
    assert_eq!(res.get(&"Radiators".to_string()), None);
}

#[test]
fn log_text_is_full_precision() {
    let mut res = ResourceMap::new();
    let mut e = setup_eco(&mut res);
    e.tick(1000);
    assert_eq!(e.log_text(), "Cooling : 89.8\nEnergy : 110\nMass : 0\n");
    let mut e = Economy::new();
    e.add_stockpile(pile(1_000_001, None, None));
    e.add_stockpile(pile(120_450, None, None));
    assert_eq!(e.log_text(), "0 : 1.000001\n1 : 0.12045\n");
}

#[test]
fn missing_stockpile_names_link_and_index() {
    let mut e = Economy::new();
    e.add_stockpile(pile(0, None, None));
    assert_eq!(e.missing_stockpile(), None);
    assert!(e.is_well_formed());
    e.links.push(producer(vec![(0, 1)], None));
    e.links.push(converter(vec![(0, 1)], vec![(0, 1), (4, 1)], None));
    assert_eq!(e.missing_stockpile(), Some((1, 4)));
    assert!(!e.is_well_formed());
    assert_eq!(e.missing_in(&producer(vec![(0, 1), (2, 1)], None)), Some(2));
    e.add_stockpile(pile(0, None, None));
    assert_eq!(e.stockpiles.len(), 2);
}
