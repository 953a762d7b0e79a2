//! The conversion checks at the host/script boundary.
//!
//! Before a host operation's native callable runs, every argument the
//! script supplied is checked against the operation's declared parameter
//! shapes; after it runs, the returned value is checked against the
//! declared result shape. A failed check names the operation and the
//! offending value and fails only the current call: no context state is
//! touched here, so later, independent runs are unaffected.

use vstd::prelude::*;

use crate::error::MarshalError;
use crate::error::MarshalSite;
use crate::ops::HostOperation;
use crate::value::Value;
use crate::value::conforms;

verus! {

/// Whether `args` fits the parameter list of `op`: same count, and each
/// argument conforms to its declared shape.
pub open spec fn arguments_conform(op: HostOperation, args: Seq<Value>) -> bool {
    &&& args.len() == op.params@.len()
    &&& forall|i: int| 0 <= i < args.len() ==> conforms(#[trigger] args[i], op.params@[i])
}

/// Checks the arguments of one operation call against the operation's
/// declared parameter shapes. Succeeds exactly when the argument count
/// matches and every argument fits; otherwise the error names the
/// operation and pinpoints the arity or the first offending parameter.
#[verifier::loop_isolation(false)]
pub fn marshal_arguments(op: &HostOperation, args: &Vec<Value>) -> (r: Result<(), MarshalError>)
    ensures
        r is Ok <==> arguments_conform(*op, args@),
        r is Err ==> r->Err_0.operation@ == op.name@,
        args@.len() != op.params@.len() ==> r == Err::<(), MarshalError>(
            MarshalError { operation: op.name, site: MarshalSite::Arity { expected: op.params.len() } },
        ),
        r is Err && args@.len() == op.params@.len() ==> exists|i: int|
            {
                &&& 0 <= i < args@.len()
                &&& !conforms(args@[i], op.params@[i])
                &&& forall|k: int| 0 <= k < i ==> conforms(#[trigger] args@[k], op.params@[k])
                &&& r->Err_0.site == (MarshalSite::Parameter { index: i as usize })
            },
{
    if args.len() != op.params.len() {
        return Err(
            MarshalError {
                operation: op.name.clone(),
                site: MarshalSite::Arity { expected: op.params.len() },
            },
        );
    }
    let mut k: usize = 0;
    while k < args.len()
        invariant
            0 <= k <= args@.len(),
            forall|i: int| 0 <= i < k ==> conforms(#[trigger] args@[i], op.params@[i]),
        decreases args@.len() - k,
    {
        if !args[k].fits(&op.params[k]) {
            return Err(
                MarshalError { operation: op.name.clone(), site: MarshalSite::Parameter { index: k } },
            );
        }
        k = k + 1;
    }
    Ok(())
}

/// Checks the value a host operation returned against the operation's
/// declared result shape. Succeeds exactly when the value fits.
pub fn marshal_return(op: &HostOperation, value: &Value) -> (r: Result<(), MarshalError>)
    ensures
        r is Ok <==> conforms(*value, op.output),
        r is Err ==> r == Err::<(), MarshalError>(
            MarshalError { operation: op.name, site: MarshalSite::Return },
        ),
{
    if value.fits(&op.output) {
        Ok(())
    } else {
        Err(MarshalError { operation: op.name.clone(), site: MarshalSite::Return })
    }
}

} // verus!
