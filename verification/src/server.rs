//! The process-wide registry of live connections. Each connected client
//! identifier maps to the token of the connection that owns it; a new
//! CONNECT under the same identifier displaces the previous holder, which
//! must be told its session was taken over.

use vstd::prelude::*;

use crate::assoc::{assoc_contains, assoc_get, assoc_insert, assoc_remove, assoc_wf};
use crate::maps::BMap;

verus! {

/// Client identifier -> connection token of the current holder.
pub struct ConnectionsRegistry {
    map: BMap<u64>,
}

impl View for ConnectionsRegistry {
    type V = Seq<(Seq<u8>, u64)>;

    closed spec fn view(&self) -> Seq<(Seq<u8>, u64)> {
        self.map@
    }
}

impl ConnectionsRegistry {
    /// At most one entry per client identifier.
    pub open spec fn wf(&self) -> bool {
        assoc_wf(self@)
    }

    pub fn new() -> (r: ConnectionsRegistry)
        ensures
            r@ == Seq::<(Seq<u8>, u64)>::empty(),
            r.wf(),
    {
        ConnectionsRegistry { map: BMap::new() }
    }

    pub fn len(&self) -> (r: usize)
        ensures
            r == self@.len(),
    {
        self.map.len()
    }

    /// Register `client_id` under `token`. Returns the token of the prior
    /// holder, if any: that connection must be sent a session-taken-over
    /// notice before this registration is acted on.
    pub fn register(&mut self, client_id: &[u8], token: u64) -> (prev: Option<u64>)
        requires
            old(self).wf(),
        ensures
            final(self).wf(),
            final(self)@ == assoc_insert(old(self)@, client_id@, token),
            prev == assoc_get(old(self)@, client_id@),
            prev is Some <==> assoc_contains(old(self)@, client_id@),
    {
        let key = crate::bytes_util::clone_bytes_slice(client_id);
        let ghost old_view = self@;
        let prev = self.map.insert(key, token);
        proof {
            crate::assoc::lemma_insert_wf(old_view, client_id@, token);
            crate::assoc::lemma_get_some_iff_contains(old_view, client_id@);
            match assoc_get(old_view, client_id@) {
                Some(_) => {
                },
                None => {
                },
            }
        }
        prev
    }

    /// Drop the entry for `client_id`, if any; returns its token.
    pub fn unregister(&mut self, client_id: &[u8]) -> (prev: Option<u64>)
        requires
            old(self).wf(),
        ensures
            final(self).wf(),
            final(self)@ == assoc_remove(old(self)@, client_id@),
            prev == assoc_get(old(self)@, client_id@),
    {
        let ghost old_view = self@;
        let prev = self.map.remove(client_id);
        proof {
            crate::assoc::lemma_remove_wf(old_view, client_id@);
        }
        prev
    }

    /// The token of the connection holding `client_id`, if any.
    pub fn lookup(&self, client_id: &[u8]) -> (r: Option<u64>)
        ensures
            r == assoc_get(self@, client_id@),
    {
        match self.map.get(client_id) {
            Some(t) => Some(*t),
            None => None,
        }
    }
}

} // verus!
