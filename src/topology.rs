use vstd::prelude::*;

use bevy::utils::HashMap;
use vstd::string::StringExecFns;

use crate::model::{
    amount, Consume, Economy, Label, Link, NodeId, Produce, Stack, Stockpile, Storage, StorageLimit,
    STACK_UNIT,
};

verus! {

/// Names of stockpiles, for wiring links at start-up, held in bevy's hash
/// map; registering a name again replaces its stockpile.
#[verifier::external_body]
pub struct ResourceMap {
    map: HashMap<String, NodeId>,
}

/// What the registry maps each name to.
pub uninterp spec fn registry(m: ResourceMap) -> Map<Seq<char>, NodeId>;

/// The node carries the label `name`.
pub open spec fn labelled(label: Option<Label>, name: Seq<char>) -> bool {
    label is Some && label->Some_0.0@ == name
}

/// The stockpile registered under `name`, if any.
pub open spec fn lookup(m: ResourceMap, name: Seq<char>) -> Option<NodeId> {
    if registry(m).contains_key(name) {
        Some(registry(m)[name])
    } else {
        None
    }
}

/// Relies on `Default` for bevy's `HashMap` (hashbrown): a new map is empty.
#[verifier::external_body]
fn registry_new() -> (r: ResourceMap)
    ensures
        forall|n: Seq<char>| !(#[trigger] registry(r).contains_key(n)),
{
    ResourceMap { map: HashMap::default() }
}

/// Relies on hashbrown's `HashMap::insert`: the key now maps to the value,
/// replacing an equal key's entry, and no other key changes.
#[verifier::external_body]
fn registry_insert(m: &mut ResourceMap, name: String, id: NodeId)
    ensures
        registry(*final(m)) == registry(*old(m)).insert(name@, id),
{
    m.map.insert(name, id);
}

/// Relies on hashbrown's `HashMap::get`: the value of an equal key, if any.
#[verifier::external_body]
fn registry_get(m: &ResourceMap, name: &String) -> (r: Option<NodeId>)
    ensures
        r == lookup(*m, name@),
{
    m.map.get(name).copied()
}

impl ResourceMap {
    /// An empty registry.
    pub fn new() -> (r: ResourceMap)
        ensures
            forall|n: Seq<char>| !(#[trigger] registry(r).contains_key(n)),
    {
        registry_new()
    }

    /// Registers `id` under `name`; other names keep their stockpiles.
    pub fn insert(&mut self, name: String, id: NodeId)
        ensures
            registry(*final(self)) == registry(*old(self)).insert(name@, id),
            lookup(*final(self), name@) == Some(id),
    {
        let ghost key = name@;
        registry_insert(self, name, id);
        assert(registry(*self).contains_key(key));
    }

    /// The stockpile registered under `name`, if any.
    pub fn get(&self, name: &String) -> (r: Option<NodeId>)
        ensures
            r == lookup(*self, name@),
    {
        registry_get(self, name)
    }
}

fn label(s: &str) -> (r: Option<Label>)
    ensures
        r is Some,
        r->Some_0.0@ == s@,
{
    Some(Label(String::from_str(s)))
}

/// The sample network: `Cooling` (100, capacity 100), `Energy` (100,
/// capacity 200) and `Mass` (0, uncapped); `Radiators` make 0.1 Cooling a
/// second, and `Generators` turn 10.2 Cooling a second into 10 Energy.
/// The three stockpiles are registered by name.
pub fn setup_eco(res: &mut ResourceMap) -> (e: Economy)
    ensures
        e.wf(),
        e.stockpiles@.len() == 3,
        labelled(e.stockpiles@[0].label, "Cooling"@),
        labelled(e.stockpiles@[1].label, "Energy"@),
        labelled(e.stockpiles@[2].label, "Mass"@),
        amount(e.stockpiles@[0]) == 100_000_000,
        e.stockpiles@[0].limit == Some(StorageLimit(100_000_000)),
        e.stockpiles@[0].stack is None,
        amount(e.stockpiles@[1]) == 100_000_000,
        e.stockpiles@[1].limit == Some(StorageLimit(200_000_000)),
        e.stockpiles@[1].stack is None,
        amount(e.stockpiles@[2]) == 0,
        e.stockpiles@[2].limit is None,
        e.stockpiles@[2].stack is None,
        e.links@.len() == 2,
        labelled(e.links@[0].label, "Radiators"@),
        labelled(e.links@[1].label, "Generators"@),
        e.links@[0].produce.0@ == seq![(0usize, 100u32)],
        e.links@[0].consume is None,
        e.links@[0].stack == Some(Stack(STACK_UNIT)),
        e.links@[1].produce.0@ == seq![(1usize, 10_000u32)],
        e.links@[1].consume is Some,
        e.links@[1].consume->Some_0.0@ == seq![(0usize, 10_200u32)],
        e.links@[1].stack == Some(Stack(STACK_UNIT)),
        registry(*final(res)) == registry(*old(res)).insert("Cooling"@, 0usize).insert(
            "Energy"@,
            1usize,
        ).insert("Mass"@, 2usize),
        lookup(*final(res), "Cooling"@) == Some(0usize),
        lookup(*final(res), "Energy"@) == Some(1usize),
        lookup(*final(res), "Mass"@) == Some(2usize),
{
    proof {
        reveal_strlit("Cooling");
        reveal_strlit("Energy");
        reveal_strlit("Mass");
    }
    let mut e = Economy::new();
    let cooling = e.add_stockpile(
        Stockpile {
            label: label("Cooling"),
            storage: Storage(100_000_000),
            limit: Some(StorageLimit(100_000_000)),
            stack: None,
        },
    );
    res.insert(String::from_str("Cooling"), cooling);
    let mut radiators = Vec::new();
    radiators.push((cooling, 100u32));
    e.add_link(
        Link {
            label: label("Radiators"),
            produce: Produce(radiators),
            consume: None,
            stack: Some(Stack(STACK_UNIT)),
        },
    );
    let energy = e.add_stockpile(
        Stockpile {
            label: label("Energy"),
            storage: Storage(100_000_000),
            limit: Some(StorageLimit(200_000_000)),
            stack: None,
        },
    );
    res.insert(String::from_str("Energy"), energy);
    let mut made = Vec::new();
    made.push((energy, 10_000u32));
    let mut used = Vec::new();
    used.push((cooling, 10_200u32));
    e.add_link(
        Link {
            label: label("Generators"),
            produce: Produce(made),
            consume: Some(Consume(used)),
            stack: Some(Stack(STACK_UNIT)),
        },
    );
    let mass = e.add_stockpile(
        Stockpile { label: label("Mass"), storage: Storage(0), limit: None, stack: None },
    );
    res.insert(String::from_str("Mass"), mass);
    assert("Cooling"@.len() != "Energy"@.len() && "Cooling"@.len() != "Mass"@.len());
    assert("Energy"@.len() != "Mass"@.len());
    assert(e.links@[0].produce.0@ =~= seq![(0usize, 100u32)]);
    assert(e.links@[1].produce.0@ =~= seq![(1usize, 10_000u32)]);
    assert(e.links@[1].consume->Some_0.0@ =~= seq![(0usize, 10_200u32)]);
    e
}

} // verus!
