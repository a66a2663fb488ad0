use vstd::prelude::*;

verus! {

/// A player's link to the server: its id, its current session, and the
/// handle that writes to that session.
pub struct Player<T> {
    tx: Option<T>,
    player_id: u32,
    session_id: u32,
}

/// The session id a new player starts with.
pub const INITIAL_SESSION_ID: u32 = 32;

impl<T> Player<T> {
    pub closed spec fn spec_player_id(&self) -> u32 {
        self.player_id
    }

    pub closed spec fn spec_session_id(&self) -> u32 {
        self.session_id
    }

    pub closed spec fn spec_tx(&self) -> Option<T> {
        self.tx
    }

    pub open spec fn spec_is_online(&self) -> bool {
        self.spec_session_id() > 0
    }

    pub fn new(player_id: u32) -> (r: Self)
        ensures
            r.spec_player_id() == player_id,
            r.spec_session_id() == INITIAL_SESSION_ID,
            r.spec_tx() is None,
    {
        Player { tx: None, player_id, session_id: INITIAL_SESSION_ID }
    }

    pub fn get_player_id(&self) -> (r: u32)
        ensures
            r == self.spec_player_id(),
    {
        self.player_id
    }

    pub fn get_session_id(&self) -> (r: u32)
        ensures
            r == self.spec_session_id(),
    {
        self.session_id
    }

    /// Online while it holds a session.
    pub fn is_online(&self) -> (r: bool)
        ensures
            r == self.spec_is_online(),
    {
        self.session_id > 0
    }

    pub fn tx(&self) -> (r: &Option<T>)
        ensures
            *r == self.spec_tx(),
    {
        &self.tx
    }

    fn reset_session_info(&mut self)
        ensures
            final(self).spec_player_id() == old(self).spec_player_id(),
            final(self).spec_session_id() == 0,
            final(self).spec_tx() is None,
    {
        self.session_id = 0;
        self.tx = None;
    }

    /// The player comes online on session `session_id`, written through `tx`.
    pub fn on_connect_session(&mut self, session_id: u32, tx: T)
        requires
            !old(self).spec_is_online(),
        ensures
            final(self).spec_player_id() == old(self).spec_player_id(),
            final(self).spec_session_id() == session_id,
            final(self).spec_tx() == Some(tx),
    {
        self.session_id = session_id;
        self.tx = Some(tx);
    }

    /// The player's session ended.
    pub fn on_disconnect_session(&mut self)
        ensures
            final(self).spec_player_id() == old(self).spec_player_id(),
            !final(self).spec_is_online(),
            final(self).spec_tx() is None,
    {
        self.reset_session_info();
    }

    /// Another login took the player's place: its old session is dropped.
    pub fn on_terminate_old_session(&mut self)
        ensures
            final(self).spec_player_id() == old(self).spec_player_id(),
            !final(self).spec_is_online(),
            final(self).spec_tx() is None,
    {
        self.reset_session_info();
    }
}

} // verus!
