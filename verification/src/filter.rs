//! Filters on the displayed value and average of a counter.

use crate::value::Value;
use vstd::prelude::*;

verus! {

/// Whether at least one of a value and an average is there and is not zero.
pub open spec fn some_nonzero(value: Option<Value>, avg: Option<Value>) -> bool {
    (value matches Some(v) && v.bits != 0) || (avg matches Some(a) && a.bits != 0)
}

/// Keeps the counters that have something other than zero to show.
#[derive(Debug, Clone, Copy, PartialEq, Eq, Structural)]
pub struct NonZeroCounterFilter {}

impl NonZeroCounterFilter {
    /// Whether a counter with this value and this average is kept. An
    /// absent value counts as zero.
    pub fn do_filter(&self, value: &Option<Value>, avg: &Option<Value>) -> (r: bool)
        ensures
            r == some_nonzero(*value, *avg),
    {
        let value_nonzero = match value {
            Some(v) => !v.is_zero(),
            None => false,
        };
        let avg_nonzero = match avg {
            Some(a) => !a.is_zero(),
            None => false,
        };
        value_nonzero || avg_nonzero
    }
}

/// A filter attached to a counter by the rule that matched it.
#[derive(Debug, Clone, Copy, PartialEq, Eq, Structural)]
pub enum CounterValueFilter {
    /// Hide the counter while it has nothing but zero to show.
    NonZero,
}

impl CounterValueFilter {
    /// Whether the filter keeps a counter with this value and this average.
    pub open spec fn keeps(self, value: Option<Value>, avg: Option<Value>) -> bool {
        match self {
            CounterValueFilter::NonZero => some_nonzero(value, avg),
        }
    }

    /// Whether the filter keeps a counter with this value and this average.
    pub fn filter(&self, value: &Option<Value>, avg: &Option<Value>) -> (r: bool)
        ensures
            r == self.keeps(*value, *avg),
    {
        match self {
            CounterValueFilter::NonZero => (NonZeroCounterFilter {}).do_filter(value, avg),
        }
    }
}

/// Whether every filter of a list keeps a counter with this value and this
/// average.
pub open spec fn all_keep(
    filters: Seq<CounterValueFilter>,
    value: Option<Value>,
    avg: Option<Value>,
) -> bool {
    forall|i: int| 0 <= i < filters.len() ==> (#[trigger] filters[i]).keeps(value, avg)
}

/// Whether every filter of a list keeps a counter with this value and this
/// average.
pub fn apply_filters(
    filters: &Vec<CounterValueFilter>,
    value: &Option<Value>,
    avg: &Option<Value>,
) -> (r: bool)
    ensures
        r == all_keep(filters@, *value, *avg),
{
    let mut i: usize = 0;
    while i < filters.len()
        invariant
            i <= filters.len(),
            forall|k: int| 0 <= k < i ==> (#[trigger] filters@[k]).keeps(*value, *avg),
        decreases filters.len() - i,
    {
        if !filters[i].filter(value, avg) {
            return false;
        }
        i += 1;
    }
    true
}

/// A copy of a list of filters.
pub fn copy_filters(v: &Vec<CounterValueFilter>) -> (r: Vec<CounterValueFilter>)
    ensures
        r@ == v@,
{
    let mut r: Vec<CounterValueFilter> = Vec::new();
    let mut i: usize = 0;
    while i < v.len()
        invariant
            i <= v.len(),
            r@ == v@.take(i as int),
        decreases v.len() - i,
    {
        r.push(v[i]);
        assert(r@ =~= v@.take(i + 1));
        i += 1;
    }
    assert(v@.take(v.len() as int) =~= v@);
    r
}

} // verus!
