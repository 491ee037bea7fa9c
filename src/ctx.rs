use vstd::prelude::*;

verus! {

/// The execution context of a call: who is acting.
pub struct Ctx {
    user_id: i64,
}

impl Ctx {
    /// The context of the system itself (user id 0).
    pub fn root_ctx() -> (r: Ctx)
        ensures
            r.uid() == 0,
    {
        Ctx { user_id: 0 }
    }

    /// A context for the acting user `user_id`.
    pub fn new(user_id: i64) -> (r: Ctx)
        ensures
            r.uid() == user_id,
    {
        Ctx { user_id }
    }

    pub closed spec fn uid(&self) -> i64 {
        self.user_id
    }

    /// The acting principal's id.
    pub fn user_id(&self) -> (r: i64)
        ensures
            r == self.uid(),
    {
        self.user_id
    }
}

} // verus!
