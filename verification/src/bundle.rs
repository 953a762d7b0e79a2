//! Extension bundles: named, immutable groups of host operations.
//!
//! A bundle carries the operations it exposes, the names of the bundles it
//! depends on, and auxiliary script resources that the context executes
//! before any user script. Dependencies are informational here; the
//! execution context orders installation by them.

use vstd::prelude::*;

use crate::error::BundleError;
use crate::ops::HostOperation;
use crate::ops::all_names_nonempty;
use crate::ops::has_duplicate_name;

verus! {

/// A named, installable group of host operations. Immutable once built;
/// consumed when installed into a context.
#[derive(Debug)]
pub struct ExtensionBundle {
    /// The bundle's name, unique within one context's installed set.
    pub name: String,
    /// The host operations the bundle exposes, with unique names.
    pub operations: Vec<HostOperation>,
    /// Names of bundles that must be installed before this one.
    pub dependencies: Vec<String>,
    /// Auxiliary script texts, executed in order at installation, before
    /// any user script runs.
    pub resources: Vec<String>,
}

impl ExtensionBundle {
    /// Builds a bundle from its parts. Succeeds exactly when every
    /// operation name is non-empty and no two operations carry the same
    /// name — in whatever order they were given; a collision reports a
    /// name that collides.
    #[verifier::loop_isolation(false)]
    pub fn build(
        name: String,
        operations: Vec<HostOperation>,
        dependencies: Vec<String>,
        resources: Vec<String>,
    ) -> (r: Result<ExtensionBundle, BundleError>)
        ensures
            r is Ok <==> !has_duplicate_name(operations@) && all_names_nonempty(operations@),
            r is Ok ==> {
                &&& r->Ok_0.name@ == name@
                &&& r->Ok_0.operations@ == operations@
                &&& r->Ok_0.dependencies@ == dependencies@
                &&& r->Ok_0.resources@ == resources@
            },
            r is Err ==> match r->Err_0 {
                BundleError::DuplicateOperationName { name: taken } => exists|i: int, j: int|
                    {
                        &&& 0 <= i < j < operations@.len()
                        &&& (#[trigger] operations@[i]).name@
                            == (#[trigger] operations@[j]).name@
                        &&& taken@ == operations@[j].name@
                    },
                BundleError::EmptyOperationName => exists|i: int|
                    0 <= i < operations@.len() && (#[trigger] operations@[i]).name@.len() == 0,
            },
    {
        let mut k: usize = 0;
        while k < operations.len()
            invariant
                0 <= k <= operations@.len(),
                forall|i: int| 0 <= i < k ==> (#[trigger] operations@[i]).name@.len() > 0,
            decreases operations@.len() - k,
        {
            if operations[k].name.as_str().is_empty() {
                return Err(BundleError::EmptyOperationName);
            }
            k = k + 1;
        }
        let mut j: usize = 1;
        while j < operations.len()
            invariant
                1 <= j || operations@.len() == 0,
                j <= operations@.len() || j == 1,
                forall|p: int, q: int|
                    0 <= p < q < j && q < operations@.len() ==> (#[trigger] operations@[p]).name@
                        != (#[trigger] operations@[q]).name@,
            decreases operations@.len() - j,
        {
            let mut i: usize = 0;
            while i < j
                invariant
                    0 <= i <= j < operations@.len(),
                    forall|p: int| 0 <= p < i ==> (#[trigger] operations@[p]).name@
                        != operations@[j as int].name@,
                decreases j - i,
            {
                if operations[i].name == operations[j].name {
                    return Err(
                        BundleError::DuplicateOperationName { name: operations[j].name.clone() },
                    );
                }
                i = i + 1;
            }
            j = j + 1;
        }
        proof {
            assert(!has_duplicate_name(operations@)) by {
                assert forall|p: int, q: int|
                    0 <= p < operations@.len() && 0 <= q < operations@.len() && p != q implies
                    (#[trigger] operations@[p]).name@ != (#[trigger] operations@[q]).name@ by {
                    if p < q {
                    } else {
                        assert(operations@[q].name@ != operations@[p].name@);
                    }
                }
            }
        }
        Ok(ExtensionBundle { name, operations, dependencies, resources })
    }

    /// A bundle with no operations, dependencies or resources: a bare
    /// named unit, always buildable.
    pub fn empty(name: String) -> (r: ExtensionBundle)
        ensures
            r.name@ == name@,
            r.operations@.len() == 0,
            r.dependencies@.len() == 0,
            r.resources@.len() == 0,
    {
        ExtensionBundle {
            name,
            operations: Vec::new(),
            dependencies: Vec::new(),
            resources: Vec::new(),
        }
    }
}

} // verus!
