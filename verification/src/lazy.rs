//! Functions that take a closure: mapping over a vector, and a value computed
//! on first use.

use vstd::prelude::*;

verus! {

/// Applies `f` to every element of `vec`, in order.
pub fn process_vector<F>(vec: Vec<i32>, f: F) -> (mapped: Vec<i32>) where F: Fn(i32) -> i32
    requires
        forall|i: int| 0 <= i < vec@.len() ==> call_requires(f, (#[trigger] vec@[i],)),
    ensures
        mapped@.len() == vec@.len(),
        forall|i: int| 0 <= i < vec@.len() ==> call_ensures(f, (vec@[i],), #[trigger] mapped@[i]),
{
    let mut mapped: Vec<i32> = Vec::with_capacity(vec.len());
    let mut at: usize = 0;
    while at < vec.len()
        invariant
            at <= vec@.len(),
            mapped@.len() == at,
            forall|i: int| 0 <= i < vec@.len() ==> call_requires(f, (#[trigger] vec@[i],)),
            forall|i: int| 0 <= i < at ==> call_ensures(f, (vec@[i],), #[trigger] mapped@[i]),
        decreases vec@.len() - at,
    {
        mapped.push(f(vec[at]));
        at = at + 1;
    }
    mapped
}

/// A computation and, once it has run, its result.
pub struct ComputeCache<T> where T: Fn() -> String {
    compute: T,
    value: Option<String>,
}

impl<T> ComputeCache<T> where T: Fn() -> String {
    /// The computation that fills the cache.
    pub closed spec fn computation(&self) -> T {
        self.compute
    }

    /// The cached result, if the computation has run.
    pub closed spec fn cached(&self) -> Option<String> {
        self.value
    }

    /// An empty cache around `computation`, which has not run yet.
    pub fn new(computation: T) -> (cache: Self)
        ensures
            cache.computation() == computation,
            cache.cached() is None,
    {
        ComputeCache { compute: computation, value: None }
    }

    /// The result of the computation. The first call runs the computation and
    /// keeps what it returned; every later call returns that same text without
    /// running anything.
    pub fn get_result(&mut self) -> (result: String)
        requires
            old(self).cached() is None ==> call_requires(old(self).computation(), ()),
        ensures
            final(self).computation() == old(self).computation(),
            final(self).cached() == Some(result),
            old(self).cached() is Some ==> old(self).cached() == Some(result),
            old(self).cached() is None ==> call_ensures(old(self).computation(), (), result),
    {
        match &self.value {
            Some(v) => v.clone(),
            None => {
                let v = (self.compute)();
                self.value = Some(v.clone());
                v
            },
        }
    }
}

} // verus!
