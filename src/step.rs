use vstd::prelude::*;

use crate::caps::after_caps;
use crate::conversion::after_conversion;
use crate::model::{link_names, link_wf, Economy, Link, NodeId, Stockpile};
use crate::production::after_production;

verus! {

/// The stockpiles after one tick: production, then caps, then conversion.
pub open spec fn after_tick(piles: Seq<Stockpile>, links: Seq<Link>, dt: u16) -> Seq<Stockpile> {
    after_conversion(after_caps(after_production(piles, links, dt)), links, dt)
}

impl Economy {
    /// An economy with no stockpiles and no links.
    pub fn new() -> (r: Economy)
        ensures
            r.stockpiles@.len() == 0,
            r.links@.len() == 0,
            r.wf(),
    {
        Economy { stockpiles: Vec::new(), links: Vec::new() }
    }

    /// Adds a stockpile and returns its index.
    pub fn add_stockpile(&mut self, p: Stockpile) -> (r: NodeId)
        ensures
            r == old(self).stockpiles@.len(),
            final(self).stockpiles@ == old(self).stockpiles@.push(p),
            final(self).links@ == old(self).links@,
            old(self).wf() ==> final(self).wf(),
    {
        let r = self.stockpiles.len();
        self.stockpiles.push(p);
        proof {
            if old(self).wf() {
                assert forall|i: int| 0 <= i < self.links@.len() implies link_wf(
                    #[trigger] self.links@[i],
                    self.stockpiles@.len() as int,
                ) by {
                    assert(link_wf(old(self).links@[i], old(self).stockpiles@.len() as int));
                }
            }
        }
        r
    }

    /// A stockpile index that the link names and that does not exist, if any.
    pub fn missing_in(&self, l: &Link) -> (r: Option<NodeId>)
        ensures
            r is None <==> link_wf(*l, self.stockpiles@.len() as int),
            r is Some ==> r->Some_0 >= self.stockpiles@.len() && link_names(*l, r->Some_0),
    {
        let n = self.stockpiles.len();
        let m = l.produce.0.len();
        let mut j: usize = 0;
        while j < m
            invariant
                0 <= j <= m,
                m == l.produce.0@.len(),
                n == self.stockpiles@.len(),
                forall|k: int| 0 <= k < j ==> (#[trigger] l.produce.0@[k]).0 < n,
            decreases m - j,
        {
            let t = l.produce.0[j].0;
            if t >= n {
                assert(l.produce.0@[j as int].0 == t);
                return Some(t);
            }
            j = j + 1;
        }
        match &l.consume {
            Some(c) => {
                let m = c.0.len();
                let mut j: usize = 0;
                while j < m
                    invariant
                        0 <= j <= m,
                        m == c.0@.len(),
                        l.consume == Some(*c),
                        n == self.stockpiles@.len(),
                        forall|k: int| 0 <= k < j ==> (#[trigger] c.0@[k]).0 < n,
                    decreases m - j,
                {
                    let t = c.0[j].0;
                    if t >= n {
                        assert(c.0@[j as int].0 == t);
                        assert(l.consume->Some_0.0@[j as int].0 == t);
                        assert(link_names(*l, t));
                        return Some(t);
                    }
                    j = j + 1;
                }
                None
            },
            None => None,
        }
    }

    /// Every flow of the link names an existing stockpile.
    pub fn link_fits(&self, l: &Link) -> (r: bool)
        ensures
            r == link_wf(*l, self.stockpiles@.len() as int),
    {
        self.missing_in(l).is_none()
    }

    /// The first link, by index, that names a stockpile that does not
    /// exist, with that stockpile index; none when the economy is well formed.
    pub fn missing_stockpile(&self) -> (r: Option<(usize, NodeId)>)
        ensures
            r is None <==> self.wf(),
            r is Some ==> {
                let (i, t) = r->Some_0;
                &&& i < self.links@.len()
                &&& t >= self.stockpiles@.len()
                &&& link_names(self.links@[i as int], t)
            },
    {
        let n = self.links.len();
        let mut i: usize = 0;
        while i < n
            invariant
                0 <= i <= n,
                n == self.links@.len(),
                forall|k: int|
                    0 <= k < i ==> link_wf(#[trigger] self.links@[k], self.stockpiles@.len() as int),
            decreases n - i,
        {
            match self.missing_in(&self.links[i]) {
                Some(t) => {
                    return Some((i, t));
                },
                None => {},
            }
            i = i + 1;
        }
        None
    }

    /// Every link names existing stockpiles only.
    pub fn is_well_formed(&self) -> (r: bool)
        ensures
            r == self.wf(),
    {
        self.missing_stockpile().is_none()
    }

    /// Adds a link that names existing stockpiles only; links run in the
    /// order in which they were added.
    pub fn add_link(&mut self, l: Link)
        requires
            old(self).wf(),
            link_wf(l, old(self).stockpiles@.len() as int),
        ensures
            final(self).links@ == old(self).links@.push(l),
            final(self).stockpiles@ == old(self).stockpiles@,
            final(self).wf(),
    {
        self.links.push(l);
        proof {
            assert forall|i: int| 0 <= i < self.links@.len() implies link_wf(
                #[trigger] self.links@[i],
                self.stockpiles@.len() as int,
            ) by {
                if i < old(self).links@.len() {
                    assert(link_wf(old(self).links@[i], old(self).stockpiles@.len() as int));
                }
            }
        }
    }

    /// One tick over `dt` milliseconds: the production step, the cap step,
    /// then the conversion step. A conversion may leave a stockpile above
    /// its capacity until the cap step of the next tick.
    pub fn tick(&mut self, dt: u16)
        requires
            old(self).wf(),
        ensures
            final(self).stockpiles@ == after_tick(old(self).stockpiles@, old(self).links@, dt),
            final(self).links@ == old(self).links@,
            final(self).wf(),
    {
        self.run_producers(dt);
        self.apply_caps();
        proof {
            assert forall|i: int| 0 <= i < self.links@.len() implies link_wf(
                #[trigger] self.links@[i],
                self.stockpiles@.len() as int,
            ) by {
                assert(link_wf(old(self).links@[i], old(self).stockpiles@.len() as int));
            }
        }
        self.run_converters(dt);
        proof {
            assert forall|i: int| 0 <= i < self.links@.len() implies link_wf(
                #[trigger] self.links@[i],
                self.stockpiles@.len() as int,
            ) by {
                assert(link_wf(old(self).links@[i], old(self).stockpiles@.len() as int));
            }
        }
    }
}

} // verus!
