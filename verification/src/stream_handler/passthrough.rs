use vstd::prelude::*;

verus! {

/// Passes every inbound stream through to a fresh outbound transport made by
/// `transport_client`.
#[derive(Debug, Clone)]
pub struct Passthrough<T> {
    transport_client: T,
}

impl<T> Passthrough<T> {
    pub closed spec fn client(&self) -> T {
        self.transport_client
    }

    pub fn new(transport_client: T) -> (r: Self)
        ensures
            r.client() == transport_client,
    {
        Passthrough { transport_client }
    }

    /// The client that opens the outbound transports.
    pub fn transport_client(&self) -> (r: &T)
        ensures
            *r == self.client(),
    {
        &self.transport_client
    }
}

} // verus!
