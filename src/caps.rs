use vstd::prelude::*;

use crate::model::{amount, effective_limit, stack_instances, with_amount, Economy, Stockpile};

verus! {

/// The stockpile clamped to its effective limit; unchanged without a capacity.
pub open spec fn capped_pile(p: Stockpile) -> Stockpile {
    match effective_limit(p) {
        Some(l) => if amount(p) > l {
            with_amount(p, l)
        } else {
            p
        },
        None => p,
    }
}

/// The stockpiles after the cap step.
pub open spec fn after_caps(piles: Seq<Stockpile>) -> Seq<Stockpile> {
    piles.map_values(|p: Stockpile| capped_pile(p))
}

impl Economy {
    /// Cap step: every stockpile with a capacity holds at most
    /// `capacity * floor(stack)`; the others are left alone.
    pub fn apply_caps(&mut self)
        ensures
            final(self).stockpiles@ == after_caps(old(self).stockpiles@),
            final(self).links@ == old(self).links@,
    {
        let ghost piles0 = self.stockpiles@;
        let n = self.stockpiles.len();
        let mut i: usize = 0;
        while i < n
            invariant
                0 <= i <= n,
                n == piles0.len(),
                self.stockpiles@.len() == n,
                self.links@ == old(self).links@,
                forall|k: int| 0 <= k < i ==> #[trigger] self.stockpiles@[k] == capped_pile(piles0[k]),
                forall|k: int| i <= k < n ==> #[trigger] self.stockpiles@[k] == piles0[k],
            decreases n - i,
        {
            match self.stockpiles[i].limit {
                Some(lim) => {
                    let count = stack_instances(&self.stockpiles[i].stack);
                    assert(lim.0 as int * count as int <= 0xffff_ffff_ffff_ffff * 65)
                        by (nonlinear_arith)
                        requires
                            count <= 65,
                    ;
                    let limit: u128 = lim.0 as u128 * count as u128;
                    let cur = self.stockpiles[i].storage.0;
                    if cur as u128 > limit {
                        self.stockpiles[i].storage = crate::model::Storage(limit as u64);
                    }
                },
                None => {},
            }
            i = i + 1;
        }
        assert(self.stockpiles@ =~= after_caps(piles0));
    }
}

} // verus!
