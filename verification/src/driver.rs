//! The drivers that start and stop servers on nodes, found by name.
//!
//! The drivers themselves are loaded and run outside the library; the
//! library keeps their names, in the order they were loaded, and finds a
//! driver's place among them.

use vstd::prelude::*;

use crate::auth::{eq_ignore_ascii_case, same_ignoring_ascii_case};

verus! {

/// What a driver tells of itself when it starts.
#[derive(Debug)]
pub struct Information {
    pub author: String,
    pub version: String,
}

/// The code of a driver and the file it was read from.
#[derive(Debug)]
pub struct Source {
    pub path: String,
    pub code: Vec<u8>,
}

/// A driver compiled to WebAssembly.
#[derive(Debug)]
pub struct WasmDriver {
    pub name: String,
}

impl WasmDriver {
    /// The name of the driver.
    pub fn name(&self) -> (r: String)
        ensures
            r@ == self.name@,
    {
        self.name.clone()
    }
}

/// The loaded drivers, by name.
pub struct Drivers {
    names: Vec<String>,
}

impl Drivers {
    /// The names of the drivers, in the order they were loaded.
    pub closed spec fn names(&self) -> Seq<String> {
        self.names@
    }

    /// The drivers with these names.
    pub fn new(names: Vec<String>) -> (r: Self)
        ensures
            r.names() == names@,
    {
        Drivers { names }
    }

    /// How many drivers were loaded.
    pub fn len(&self) -> (r: usize)
        ensures
            r == self.names().len(),
    {
        self.names.len()
    }

    /// The place of the first driver whose name is `name`, ASCII letters
    /// compared without case.
    pub fn find_by_name(&self, name: &str) -> (r: Option<usize>)
        ensures
            match r {
                Some(i) => {
                    &&& i < self.names().len()
                    &&& eq_ignore_ascii_case(self.names()[i as int]@, name@)
                    &&& forall|j: int|
                        0 <= j < i ==> !eq_ignore_ascii_case(
                            #[trigger] self.names()[j]@,
                            name@,
                        )
                },
                None => forall|j: int|
                    0 <= j < self.names().len() ==> !eq_ignore_ascii_case(
                        #[trigger] self.names()[j]@,
                        name@,
                    ),
            },
    {
        let mut i: usize = 0;
        while i < self.names.len()
            invariant
                0 <= i <= self.names@.len(),
                forall|j: int|
                    0 <= j < i ==> !eq_ignore_ascii_case(#[trigger] self.names@[j]@, name@),
            decreases self.names@.len() - i,
        {
            if same_ignoring_ascii_case(self.names[i].as_str(), name) {
                return Some(i);
            }
            i = i + 1;
        }
        None
    }
}

} // verus!
