//! Which bands of a profile the DSP engine receives: the enabled ones, in
//! profile order. The coefficients themselves are floating-point work done by
//! the caller.

use vstd::prelude::*;
use crate::parser::{AutoEqProfile, FilterModel, ParametricFilter};

verus! {

impl AutoEqProfile {
    /// The enabled bands, in profile order.
    pub fn enabled_filters(&self) -> (r: Vec<&ParametricFilter>)
        ensures
            r@.map_values(|f: &ParametricFilter| f@) == self@.filters.filter(|f: FilterModel| f.enabled),
    {
        let ghost all = self@.filters;
        let ghost on = |f: FilterModel| f.enabled;
        let mut r: Vec<&ParametricFilter> = Vec::new();
        let mut i: usize = 0;
        while i < self.filters.len()
            invariant
                i <= self.filters.len(),
                all == self@.filters,
                on == (|f: FilterModel| f.enabled),
                r@.map_values(|f: &ParametricFilter| f@) == all.take(i as int).filter(on),
            decreases self.filters.len() - i,
        {
            let f = &self.filters[i];
            let ghost old_r = r@;
            proof {
                reveal_with_fuel(Seq::filter, 1);
                assert(all.take(i + 1).drop_last() =~= all.take(i as int));
                assert(all.take(i + 1).last() == f@);
            }
            if f.enabled {
                r.push(f);
                assert(r@.map_values(|f: &ParametricFilter| f@) =~= old_r.map_values(
                    |f: &ParametricFilter| f@,
                ).push(f@));
            }
            i = i + 1;
        }
        assert(all.take(i as int) =~= all);
        r
    }
}

} // verus!
