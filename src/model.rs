use vstd::prelude::*;

verus! {

/// Index of a stockpile in an [`Economy`].
pub type NodeId = usize;

/// A target or source stockpile and a rate in thousandths of a unit per second.
pub type TypedQuantity = (NodeId, u32);

/// Thousandths of a stack multiplier that make one whole instance.
pub const STACK_UNIT: u16 = 1000;

/// Display name of a node.
pub struct Label(pub String);

/// Current amount of a stockpile, in millionths of a unit.
#[derive(Clone, Copy)]
pub struct Storage(pub u64);

/// Capacity of one instance of a stockpile, in millionths of a unit.
#[derive(Clone, Copy)]
pub struct StorageLimit(pub u64);

/// Marker for a stockpile that may hold more than its capacity.
#[derive(Clone, Copy)]
pub struct AllowOverflow;

/// Number of identical instances of a node, in thousandths; only whole
/// instances count.
#[derive(Clone, Copy)]
pub struct Stack(pub u16);

/// What a link adds to stockpiles, per second and per instance.
pub struct Produce(pub Vec<TypedQuantity>);

/// What a link takes from stockpiles, per second and per instance.
pub struct Consume(pub Vec<TypedQuantity>);

/// A node that holds a quantity of one resource.
pub struct Stockpile {
    pub label: Option<Label>,
    pub storage: Storage,
    pub limit: Option<StorageLimit>,
    pub stack: Option<Stack>,
}

/// A node that produces, and a converter when it also consumes.
pub struct Link {
    pub label: Option<Label>,
    pub produce: Produce,
    pub consume: Option<Consume>,
    pub stack: Option<Stack>,
}

/// The whole network: stockpiles, and the links between them in the order
/// in which they are run.
pub struct Economy {
    pub stockpiles: Vec<Stockpile>,
    pub links: Vec<Link>,
}

/// Whole instances that a stack stands for; one when there is no stack.
pub open spec fn stack_count(stack: Option<Stack>) -> int {
    match stack {
        Some(s) => s.0 as int / STACK_UNIT as int,
        None => 1,
    }
}

/// The largest amount a stockpile can hold; additions stop there.
pub open spec fn saturate(x: int) -> int {
    if x > u64::MAX as int {
        u64::MAX as int
    } else {
        x
    }
}

/// The stockpile with another amount and all else kept.
pub open spec fn with_amount(p: Stockpile, a: int) -> Stockpile {
    Stockpile { storage: Storage(a as u64), ..p }
}

pub open spec fn amount(p: Stockpile) -> int {
    p.storage.0 as int
}

/// Capacity scaled by the whole instances of the stockpile, when it has one.
pub open spec fn effective_limit(p: Stockpile) -> Option<int> {
    match p.limit {
        Some(l) => Some(l.0 as int * stack_count(p.stack)),
        None => None,
    }
}

/// The stockpile holds at least its effective limit.
pub open spec fn is_full(p: Stockpile) -> bool {
    match effective_limit(p) {
        Some(l) => amount(p) >= l,
        None => false,
    }
}

/// Every flow of the list names a stockpile among `n`.
pub open spec fn flows_in_range(flows: Seq<TypedQuantity>, n: int) -> bool {
    forall|k: int| 0 <= k < flows.len() ==> (#[trigger] flows[k]).0 < n
}

pub open spec fn link_wf(l: Link, n: int) -> bool {
    &&& flows_in_range(l.produce.0@, n)
    &&& match l.consume {
        Some(c) => flows_in_range(c.0@, n),
        None => true,
    }
}

/// Some flow of the link, produced or consumed, names stockpile `t`.
pub open spec fn link_names(l: Link, t: NodeId) -> bool {
    (exists|k: int| 0 <= k < l.produce.0@.len() && (#[trigger] l.produce.0@[k]).0 == t) || match l.consume {
        Some(c) => exists|k: int| 0 <= k < c.0@.len() && (#[trigger] c.0@[k]).0 == t,
        None => false,
    }
}

impl Economy {
    /// Every link names existing stockpiles only.
    pub open spec fn wf(&self) -> bool {
        forall|i: int|
            0 <= i < self.links@.len() ==> link_wf(#[trigger] self.links@[i], self.stockpiles@.len() as int)
    }
}

/// Whole instances of a stack, as in [`stack_count`].
pub fn stack_instances(stack: &Option<Stack>) -> (r: u64)
    ensures
        r as int == stack_count(*stack),
        r <= 65,
{
    match stack {
        Some(s) => (s.0 / STACK_UNIT) as u64,
        None => 1,
    }
}

} // verus!
