use vstd::prelude::*;

verus! {

/// Opens plain TCP connections to `remote_addr`.
#[derive(Debug, Clone)]
pub struct TcpClient {
    pub remote_addr: String,
}

impl TcpClient {
    pub fn new(remote_addr: &str) -> (r: TcpClient)
        ensures
            r.remote_addr@ == remote_addr@,
    {
        TcpClient { remote_addr: remote_addr.to_owned() }
    }
}

} // verus!
