//! Host operations and the registry that collects them while a bundle is
//! under construction.
//!
//! A host operation is declared to the engine by name together with the
//! shapes of its parameters and of its result; the native callable itself
//! stays on the host side of the boundary and receives only values that
//! passed the marshaling checks. Operation names must be unique within one
//! registry: a collision is a construction-time error, never a runtime one.

use vstd::prelude::*;

use crate::error::BundleError;
use crate::value::Shape;

verus! {

/// The declaration of one host operation: its stable name, the shapes of
/// its parameters in order, and the shape of its result (`Shape::Unit`
/// for an operation that returns nothing).
#[derive(Debug)]
pub struct HostOperation {
    /// The name under which script code calls the operation.
    pub name: String,
    /// The declared shape of each parameter, in call order.
    pub params: Vec<Shape>,
    /// The declared shape of the result.
    pub output: Shape,
}

/// The names of a list of operations, in order.
pub open spec fn operation_names(ops: Seq<HostOperation>) -> Seq<Seq<char>> {
    ops.map_values(|op: HostOperation| op.name@)
}

/// Whether two operations in the list carry the same name.
pub open spec fn has_duplicate_name(ops: Seq<HostOperation>) -> bool {
    exists|i: int, j: int|
        0 <= i < ops.len() && 0 <= j < ops.len() && i != j && #[trigger] ops[i].name@
            == #[trigger] ops[j].name@
}

/// Whether every operation in the list is declared under a usable,
/// non-empty name.
pub open spec fn all_names_nonempty(ops: Seq<HostOperation>) -> bool {
    forall|i: int| 0 <= i < ops.len() ==> (#[trigger] ops[i]).name@.len() > 0
}

/// A registry of host operations under construction, with unique names.
pub struct OperationRegistry {
    ops: Vec<HostOperation>,
}

impl OperationRegistry {
    /// The operations registered so far, in registration order.
    pub closed spec fn ops(&self) -> Seq<HostOperation> {
        self.ops@
    }

    /// The registry never holds two operations with the same name, nor
    /// one with an empty name.
    pub closed spec fn well_formed(&self) -> bool {
        &&& !has_duplicate_name(self.ops@)
        &&& all_names_nonempty(self.ops@)
    }

    /// Creates an empty registry.
    pub fn new() -> (r: Self)
        ensures
            r.ops() == Seq::<HostOperation>::empty(),
            r.well_formed(),
    {
        OperationRegistry { ops: Vec::new() }
    }

    /// Whether an operation of the given name is already registered.
    #[verifier::loop_isolation(false)]
    pub fn contains_name(&self, name: &String) -> (r: bool)
        ensures
            r == exists|i: int|
                0 <= i < self.ops().len() && (#[trigger] self.ops()[i]).name@ == name@,
    {
        let mut k: usize = 0;
        while k < self.ops.len()
            invariant
                0 <= k <= self.ops@.len(),
                forall|i: int| 0 <= i < k ==> (#[trigger] self.ops@[i]).name@ != name@,
            decreases self.ops@.len() - k,
        {
            if self.ops[k].name == *name {
                return true;
            }
            k = k + 1;
        }
        false
    }

    /// Registers one operation. The name must be non-empty and not yet
    /// taken; on either failure the registry is unchanged, and a name
    /// collision is reported whatever the registration order was.
    pub fn register(&mut self, op: HostOperation) -> (r: Result<(), BundleError>)
        requires
            old(self).well_formed(),
        ensures
            final(self).well_formed(),
            r is Ok <==> op.name@.len() > 0 && !exists|i: int|
                0 <= i < old(self).ops().len() && (#[trigger] old(self).ops()[i]).name@
                    == op.name@,
            r is Ok ==> final(self).ops() == old(self).ops().push(op),
            r is Err ==> final(self).ops() == old(self).ops(),
            op.name@.len() == 0 ==> r == Err::<(), BundleError>(BundleError::EmptyOperationName),
            op.name@.len() > 0 && (exists|i: int|
                0 <= i < old(self).ops().len() && (#[trigger] old(self).ops()[i]).name@
                    == op.name@) ==> r == Err::<(), BundleError>(
                BundleError::DuplicateOperationName { name: op.name },
            ),
    {
        if op.name.as_str().is_empty() {
            return Err(BundleError::EmptyOperationName);
        }
        if self.contains_name(&op.name) {
            return Err(BundleError::DuplicateOperationName { name: op.name });
        }
        proof {
            let pushed = self.ops@.push(op);
            assert forall|i: int, j: int|
                0 <= i < pushed.len() && 0 <= j < pushed.len() && i != j implies #[trigger] pushed[i].name@ != #[trigger] pushed[j].name@ by {
                if i < pushed.len() - 1 && j < pushed.len() - 1 {
                    assert(!has_duplicate_name(self.ops@));
                }
            }
            assert forall|k: int| 0 <= k < pushed.len() implies (#[trigger] pushed[k]).name@.len()
                > 0 by {
                if k < pushed.len() - 1 {
                    assert(all_names_nonempty(self.ops@));
                }
            }
        }
        self.ops.push(op);
        Ok(())
    }

    /// Hands the registered operations over, in registration order, for
    /// inclusion in a bundle.
    pub fn into_operations(self) -> (r: Vec<HostOperation>)
        ensures
            r@ == self.ops(),
    {
        self.ops
    }
}

/// Whether a list of operations holds a duplicated name does not depend
/// on the order in which the operations were listed: any two orders that
/// present the same names either both collide or both pass.
pub proof fn lemma_duplicate_detection_order_independent(a: Seq<HostOperation>, b: Seq<HostOperation>)
    requires
        operation_names(a).to_multiset() == operation_names(b).to_multiset(),
    ensures
        has_duplicate_name(a) == has_duplicate_name(b),
{
    if !has_duplicate_name(a) {
        lemma_duplicate_name_from_multiset(a, b);
    }
    if !has_duplicate_name(b) {
        lemma_duplicate_name_from_multiset(b, a);
    }
}

/// If one order of a name multiset is duplicate-free, so is any other.
proof fn lemma_duplicate_name_from_multiset(a: Seq<HostOperation>, b: Seq<HostOperation>)
    requires
        operation_names(a).to_multiset() == operation_names(b).to_multiset(),
        !has_duplicate_name(a),
    ensures
        !has_duplicate_name(b),
{
    let na = operation_names(a);
    let nb = operation_names(b);
    assert(na.no_duplicates()) by {
        assert forall|i: int, j: int|
            0 <= i < na.len() && 0 <= j < na.len() && i != j implies na[i] != na[j] by {
            assert(a[i].name@ == na[i] && a[j].name@ == na[j]);
        }
    }
    na.lemma_multiset_has_no_duplicates();
    nb.lemma_multiset_has_no_duplicates_conv();
    assert forall|i: int, j: int|
        0 <= i < b.len() && 0 <= j < b.len() && i != j implies #[trigger] b[i].name@
        != #[trigger] b[j].name@ by {
        assert(nb[i] == b[i].name@ && nb[j] == b[j].name@);
        assert(nb.no_duplicates());
    }
}

} // verus!
