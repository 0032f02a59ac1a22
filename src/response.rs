use vstd::prelude::*;

verus! {

/// Status code of a request that completed.
pub const PORTAL_SUCCESS: u32 = 0;

/// Status code of a request that was cancelled or failed.
pub const PORTAL_CANCELLED: u32 = 1;

/// The reply to every portal call: a status code and a payload.
pub struct Response<T> {
    pub status: u32,
    pub payload: T,
}

impl<T> Response<T> {
    /// A successful reply carrying `t`.
    pub fn success(t: T) -> (r: Self)
        ensures
            r.status == PORTAL_SUCCESS,
            r.payload == t,
    {
        Response { status: PORTAL_SUCCESS, payload: t }
    }

    /// A cancelled reply, whose payload is the type's empty value.
    pub fn cancelled() -> (r: Self)
        where T: Default
        ensures
            r.status == PORTAL_CANCELLED,
            call_ensures(T::default, (), r.payload),
    {
        Response { status: PORTAL_CANCELLED, payload: T::default() }
    }

    /// The reply reports success.
    pub open spec fn is_success(&self) -> bool {
        self.status == PORTAL_SUCCESS
    }
}

} // verus!
