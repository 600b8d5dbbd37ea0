//! Handle lifecycle: an owned object pairing one plan with its direction
//! and length, created once, reused across many runs, and explicitly
//! released.

use vstd::prelude::*;
use crate::errors::FftError;
use crate::plan::{build_plan, lemma_plan_structure_deterministic, plan_model, plan_wf, Plan};
use crate::MAX_LEN;

verus! {

/// An owned handle around one plan.  It is ready on construction; any
/// number of runs may be checked against it; `release` drops the
/// precomputed tables, and every later run check fails with
/// `UseAfterRelease`.
pub struct Handle {
    plan: Plan,
    released: bool,
}

impl Handle {
    /// The plan this handle owns.
    pub closed spec fn plan_spec(self) -> Plan {
        self.plan
    }

    /// Whether the handle was released.
    pub closed spec fn released_spec(self) -> bool {
        self.released
    }

    /// The transform length the handle was built for.
    pub open spec fn len_spec(self) -> int {
        self.plan_spec().n as int
    }

    /// Whether the handle was built for the inverse transform.
    pub open spec fn inverse_spec(self) -> bool {
        self.plan_spec().inverse
    }

    /// A handle that was not released owns a well-formed plan.
    pub open spec fn wf(self) -> bool {
        !self.released_spec() ==> plan_wf(self.plan_spec())
    }

    /// Builds a plan for `(n, inverse)` and wraps it in a ready handle.
    ///
    /// Succeeds exactly on lengths 1 through `MAX_LEN`; otherwise nothing
    /// is constructed and `InvalidLength` comes back.
    pub fn create(n: usize, inverse: bool) -> (r: Result<Handle, FftError>)
        ensures
            r is Ok <==> 1 <= n <= MAX_LEN,
            r is Err ==> r == Err::<Handle, FftError>(FftError::InvalidLength),
            r is Ok ==> (r->Ok_0).wf(),
            r is Ok ==> !(r->Ok_0).released_spec(),
            r is Ok ==> (r->Ok_0).len_spec() == n,
            r is Ok ==> (r->Ok_0).inverse_spec() == inverse,
            r is Ok ==> plan_wf((r->Ok_0).plan_spec()),
    {
        match build_plan(n, inverse) {
            Ok(plan) => Ok(Handle { plan, released: false }),
            Err(e) => Err(e),
        }
    }

    /// The transform length the handle was built for.
    pub fn len(&self) -> (r: usize)
        ensures
            r == self.len_spec(),
    {
        self.plan.n
    }

    /// Whether the handle runs the inverse transform.
    pub fn is_inverse(&self) -> (r: bool)
        ensures
            r == self.inverse_spec(),
    {
        self.plan.inverse
    }

    /// Whether the handle was released.
    pub fn is_released(&self) -> (r: bool)
        ensures
            r == self.released_spec(),
    {
        self.released
    }

    /// Read-only view of the owned plan, for an executor to interpret.
    pub fn plan(&self) -> (r: &Plan)
        ensures
            r == self.plan_spec(),
    {
        &self.plan
    }

    /// Admission check of a run: accepts exactly a live handle given both buffer
    /// lengths equal to the planned length.  Checking mutates nothing, so
    /// on an error the caller's buffers are untouched.
    pub fn check_run(&self, re_len: usize, im_len: usize) -> (r: Result<(), FftError>)
        ensures
            r is Ok <==> (!self.released_spec() && re_len == self.len_spec()
                && im_len == self.len_spec()),
            self.released_spec() ==> r == Err::<(), FftError>(FftError::UseAfterRelease),
            (!self.released_spec() && (re_len != self.len_spec() || im_len != self.len_spec()))
                ==> r == Err::<(), FftError>(FftError::LengthMismatch),
    {
        if self.released {
            Err(FftError::UseAfterRelease)
        } else if re_len != self.plan.n || im_len != self.plan.n {
            Err(FftError::LengthMismatch)
        } else {
            Ok(())
        }
    }

    /// Releases the handle: the precomputed tables are dropped and the
    /// handle is marked.  Idempotent; length and direction stay readable.
    pub fn release(&mut self)
        ensures
            final(self).released_spec(),
            final(self).len_spec() == old(self).len_spec(),
            final(self).inverse_spec() == old(self).inverse_spec(),
            final(self).wf(),
    {
        self.plan.stages = Vec::new();
        self.plan.perm = Vec::new();
        self.plan.chirp = None;
        self.released = true;
    }
}

/// Reusing one handle is the same as building a fresh one: any two live
/// handles for the same length own plans with identical stages and chirp
/// tables, so the executions they drive on equal buffers coincide.
pub proof fn lemma_handle_reuse_equivalent(h1: Handle, h2: Handle)
    requires
        h1.wf(),
        h2.wf(),
        !h1.released_spec(),
        !h2.released_spec(),
        h1.len_spec() == h2.len_spec(),
    ensures
        plan_model(h1.plan_spec()).stages == plan_model(h2.plan_spec()).stages,
        plan_model(h1.plan_spec()).perm == plan_model(h2.plan_spec()).perm,
        plan_model(h1.plan_spec()).chirp_pad == plan_model(h2.plan_spec()).chirp_pad,
        plan_model(h1.plan_spec()).chirp_squares == plan_model(h2.plan_spec()).chirp_squares,
{
    lemma_plan_structure_deterministic(h1.plan_spec(), h2.plan_spec());
}

} // verus!
