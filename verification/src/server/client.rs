//! A user known to the server. The connection's writer stays with the
//! caller; the client records whether one is attached.

use vstd::prelude::*;

verus! {

/// A registered user and whether a connection is logged in as them.
pub struct Client {
    pub id: i32,
    pub name: String,
    logged_in: bool,
}

impl View for Client {
    type V = (i32, Seq<char>, bool);

    closed spec fn view(&self) -> (i32, Seq<char>, bool) {
        (self.id, self.name@, self.logged_in)
    }
}

impl Client {
    /// A user with no connection logged in.
    pub fn new(id: i32, name: String) -> (res: Client)
        ensures
            res@ == (id, name@, false),
    {
        Client { id, name, logged_in: false }
    }

    /// Attaches a connection. Refused (`false`, nothing changes) when one
    /// is attached already: a user is logged in at most once.
    pub fn login(&mut self) -> (res: bool)
        ensures
            res == !old(self)@.2,
            final(self)@ == (old(self)@.0, old(self)@.1, true),
    {
        if self.logged_in {
            false
        } else {
            self.logged_in = true;
            true
        }
    }

    /// Detaches the connection.
    pub fn loguot(&mut self)
        ensures
            final(self)@ == (old(self)@.0, old(self)@.1, false),
    {
        self.logged_in = false;
    }

    /// Whether a connection is logged in as this user.
    pub fn is_logged_in(&self) -> (res: bool)
        ensures
            res == self@.2,
    {
        self.logged_in
    }

    /// The user's id.
    pub fn get_id(&self) -> (res: i32)
        ensures
            res == self@.0,
    {
        self.id
    }

    /// The user's name.
    pub fn get_name(&self) -> (res: &String)
        ensures
            res@ == self@.1,
    {
        &self.name
    }
}

} // verus!
