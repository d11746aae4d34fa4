//! The immutable description of one server connection: where to connect
//! and who to connect as.

use vstd::prelude::*;

verus! {

/// What the session knows of its server for the whole connection
/// lifetime.  An empty password means none is sent.
#[derive(Debug)]
pub struct Connection {
    pub address: String,
    pub server: String,
    pub password: Option<String>,
    pub username: String,
}

impl Connection {
    /// Builds the descriptor: the dial address is `server:port`, and an
    /// empty password becomes `None`.
    pub fn new(server: String, port: String, password: String, username: String) -> (c:
        Connection)
        ensures
            c.address@ == server@ + ":"@ + port@,
            c.server@ == server@,
            c.username@ == username@,
            password@.len() == 0 ==> c.password is None,
            password@.len() > 0 ==> (c.password matches Some(p) && p@ == password@),
    {
        let mut address = server.clone();
        address.append(":");
        address.append(port.as_str());
        proof {
            assert(address@ =~= server@ + ":"@ + port@);
        }
        let password = if password.as_str().unicode_len() == 0 {
            None
        } else {
            Some(password)
        };
        Connection { address, server, password, username }
    }
}

} // verus!
