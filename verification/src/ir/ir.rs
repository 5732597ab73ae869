//! The fresh-name generators of the first lowering to three-address code.
use crate::ir::irgen::{label_name, temp_name};
use crate::utils::text::{concat, usize_to_string};
use vstd::prelude::*;
use vstd::string::*;

verus! {

/// Gives out the temporaries `t1`, `t2`, ... in turn.
pub struct TempGen {
    counter: usize,
}

impl TempGen {
    /// How many temporaries have been given out.
    pub closed spec fn count(&self) -> nat {
        self.counter as nat
    }

    pub fn new() -> (res: Self)
        ensures
            res.count() == 0,
    {
        Self { counter: 0 }
    }

    /// The next temporary.
    pub fn next(&mut self) -> (res: String)
        requires
            old(self).count() < usize::MAX,
        ensures
            final(self).count() == old(self).count() + 1,
            res@ == temp_name(final(self).count()),
    {
        self.counter += 1;
        let n = usize_to_string(self.counter);
        concat("t", n.as_str())
    }
}

/// Gives out the labels `L1`, `L2`, ... in turn.
pub struct LabelGen {
    counter: usize,
}

impl LabelGen {
    /// How many labels have been given out.
    pub closed spec fn count(&self) -> nat {
        self.counter as nat
    }

    pub fn new() -> (res: Self)
        ensures
            res.count() == 0,
    {
        Self { counter: 0 }
    }

    /// The next label.
    pub fn next(&mut self) -> (res: String)
        requires
            old(self).count() < usize::MAX,
        ensures
            final(self).count() == old(self).count() + 1,
            res@ == label_name(final(self).count()),
    {
        self.counter += 1;
        let n = usize_to_string(self.counter);
        concat("L", n.as_str())
    }
}

/// Counts the functions lowered; their names are kept as they are.
pub struct FunctionGen {
    counter: usize,
}

impl FunctionGen {
    /// How many functions have been counted.
    pub closed spec fn count(&self) -> nat {
        self.counter as nat
    }

    pub fn new() -> (res: Self)
        ensures
            res.count() == 0,
    {
        Self { counter: 0 }
    }

    /// Counts one more function and gives back its name.
    pub fn next(&mut self, name: String) -> (res: String)
        requires
            old(self).count() < usize::MAX,
        ensures
            final(self).count() == old(self).count() + 1,
            res == name,
    {
        self.counter += 1;
        name
    }
}

} // verus!
