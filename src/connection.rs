//! The registry of live client connections: one entry per connection, each
//! with the token that cancels the work done for it.

use vstd::prelude::*;
use tokio_util::sync::CancellationToken;
use crate::upstream::{contains_seq, contains_str};

verus! {

#[verifier::external_type_specification]
#[verifier::external_body]
pub struct ExCancellationToken(CancellationToken);

/// Relies on `CancellationToken::new`: a fresh token.
pub assume_specification[ CancellationToken::new ]() -> CancellationToken;

/// Relies on `CancellationToken::is_cancelled`.
pub assume_specification[ CancellationToken::is_cancelled ](t: &CancellationToken) -> bool;

/// Relies on `CancellationToken::clone`: a handle on the same token.
pub assume_specification[ <CancellationToken as Clone>::clone ](t: &CancellationToken) -> CancellationToken;

/// Relies on `uuid::Uuid::new_v4`: a random identifier, as its 128 bits.
#[verifier::external_body]
fn random_id() -> u128 {
    uuid::Uuid::new_v4().as_u128()
}

/// The identifier of a connection.
#[derive(Debug, Clone, Copy, PartialEq, Eq, Hash, Structural)]
pub struct ConnectionId(pub u128);

impl ConnectionId {
    /// A fresh random identifier.
    pub fn new() -> ConnectionId {
        ConnectionId(random_id())
    }
}

/// A live connection.
pub struct ConnectionInfo {
    pub id: ConnectionId,
    /// The client's address, when known.
    pub remote_addr: Option<String>,
    /// When the connection was registered, in milliseconds of Unix time.
    pub created_at_ms: u64,
    /// Cancels the work done for this connection.
    pub cancel_token: CancellationToken,
    /// How many requests the connection has carried.
    pub request_count: u64,
    /// Whether `cancel` has been called on this entry.
    pub cancelled: Ghost<bool>,
}

/// `after` is `before` with its token cancelled through `cancel`.
pub open spec fn cancelled_from(before: ConnectionInfo, after: ConnectionInfo) -> bool {
    &&& after.id == before.id
    &&& after.remote_addr == before.remote_addr
    &&& after.created_at_ms == before.created_at_ms
    &&& after.cancel_token == before.cancel_token
    &&& after.request_count == before.request_count
    &&& after.cancelled@
}

impl ConnectionInfo {
    /// A connection from `remote_addr` registered at `now_ms`, with a fresh id
    /// and token and no request yet.
    pub fn new(remote_addr: Option<String>, now_ms: u64) -> (r: ConnectionInfo)
        ensures
            r.remote_addr == remote_addr,
            r.created_at_ms == now_ms,
            r.request_count == 0,
            !r.cancelled@,
    {
        ConnectionInfo {
            id: ConnectionId::new(),
            remote_addr,
            created_at_ms: now_ms,
            cancel_token: CancellationToken::new(),
            request_count: 0,
            cancelled: Ghost(false),
        }
    }

    /// Counts one more request and returns the new count (wrapping, as an
    /// atomic counter does).
    pub fn increment_request_count(&mut self) -> (r: u64)
        ensures
            r == (if old(self).request_count == u64::MAX { 0 } else { old(self).request_count + 1 }),
            final(self).request_count == r,
            final(self).id == old(self).id,
            final(self).remote_addr == old(self).remote_addr,
            final(self).created_at_ms == old(self).created_at_ms,
            final(self).cancel_token == old(self).cancel_token,
            final(self).cancelled == old(self).cancelled,
    {
        self.request_count = if self.request_count == u64::MAX { 0 } else { self.request_count + 1 };
        self.request_count
    }

    pub fn get_request_count(&self) -> (r: u64)
        ensures
            r == self.request_count,
    {
        self.request_count
    }

    /// Milliseconds since registration (zero if the clock went back).
    pub fn duration(&self, now_ms: u64) -> (r: u64)
        ensures
            r == (if now_ms >= self.created_at_ms { (now_ms - self.created_at_ms) as u64 } else { 0 }),
    {
        if now_ms >= self.created_at_ms {
            now_ms - self.created_at_ms
        } else {
            0
        }
    }

    /// Relies on `CancellationToken::cancel`: cancels the token, which every
    /// handle on it then observes.
    #[verifier::external_body]
    pub(crate) fn cancel(&mut self)
        ensures
            cancelled_from(*old(self), *final(self)),
    {
        self.cancel_token.cancel()
    }

    /// A copy sharing the same token.
    pub fn share(&self) -> (r: ConnectionInfo)
        ensures
            r.id == self.id,
            r.remote_addr == self.remote_addr,
            r.created_at_ms == self.created_at_ms,
            r.request_count == self.request_count,
            r.cancelled == self.cancelled,
    {
        let remote_addr = match &self.remote_addr {
            Some(a) => Some(a.clone()),
            None => None,
        };
        ConnectionInfo {
            id: self.id,
            remote_addr,
            created_at_ms: self.created_at_ms,
            cancel_token: self.cancel_token.clone(),
            request_count: self.request_count,
            cancelled: Ghost(self.cancelled@),
        }
    }
}

/// The ids of the entries, in order.
pub open spec fn ids_of(entries: Seq<ConnectionInfo>) -> Seq<ConnectionId> {
    entries.map_values(|c: ConnectionInfo| c.id)
}

/// The registry of live connections, at most one entry per id, in order of
/// registration.
pub struct ConnectionRegistry {
    connections: Vec<ConnectionInfo>,
}

impl View for ConnectionRegistry {
    type V = Seq<ConnectionId>;

    open spec fn view(&self) -> Seq<ConnectionId> {
        ids_of(self.entries())
    }
}

/// Removing entry `i` removes its id and keeps every other one.
proof fn lemma_remove_entry(e: Seq<ConnectionInfo>, i: int)
    requires
        ids_of(e).no_duplicates(),
        0 <= i < e.len(),
    ensures
        ids_of(e.remove(i)) == ids_of(e).remove(i),
        ids_of(e.remove(i)).no_duplicates(),
        !ids_of(e.remove(i)).contains(e[i].id),
        forall|c: ConnectionId| c != e[i].id ==> (ids_of(e.remove(i)).contains(c) <==> ids_of(e).contains(c)),
{
    let before = ids_of(e);
    let after = ids_of(e.remove(i));
    assert(after =~= before.remove(i));
    assert forall|c: ConnectionId| c != e[i].id implies (after.contains(c) <==> before.contains(c)) by {
        if before.contains(c) {
            let j = choose|j: int| 0 <= j < before.len() && before[j] == c;
            if j < i {
                assert(after[j] == c);
            } else {
                assert(j != i);
                assert(after[j - 1] == c);
            }
        }
        if after.contains(c) {
            let j = choose|j: int| 0 <= j < after.len() && after[j] == c;
            if j < i {
                assert(before[j] == c);
            } else {
                assert(before[j + 1] == c);
            }
        }
    }
    assert(!after.contains(e[i].id)) by {
        if after.contains(e[i].id) {
            let j = choose|j: int| 0 <= j < after.len() && after[j] == e[i].id;
            if j < i {
                assert(before[j] == before[i]);
            } else {
                assert(before[j + 1] == before[i]);
            }
        }
    }
    assert forall|a: int, b: int| 0 <= a < after.len() && 0 <= b < after.len() && a != b implies after[a] != after[b] by {
        let qa = if a < i { a } else { a + 1 };
        let qb = if b < i { b } else { b + 1 };
        assert(after[a] == before[qa] && after[b] == before[qb]);
    }
}

impl ConnectionRegistry {
    /// The entries, in order of registration.
    pub closed spec fn entries(&self) -> Seq<ConnectionInfo> {
        self.connections@
    }

    pub open spec fn wf(&self) -> bool {
        self@.no_duplicates()
    }

    pub fn new() -> (r: ConnectionRegistry)
        ensures
            r.wf(),
            r@ == Seq::<ConnectionId>::empty(),
    {
        let r = ConnectionRegistry { connections: Vec::new() };
        assert(r@ =~= Seq::<ConnectionId>::empty());
        r
    }

    fn position(&self, id: ConnectionId) -> (r: Option<usize>)
        ensures
            r is Some ==> r->Some_0 < self@.len() && self@[r->Some_0 as int] == id,
            r is None ==> !self@.contains(id),
    {
        let mut i: usize = 0;
        while i < self.connections.len()
            invariant
                i <= self.connections@.len(),
                self@ == ids_of(self.connections@),
                forall|j: int| 0 <= j < i ==> self@[j] != id,
            decreases self.connections.len() - i,
        {
            if self.connections[i].id == id {
                return Some(i);
            }
            i += 1;
        }
        None
    }

    /// Adds `info`, replacing an entry with the same id.
    pub fn register_connection(&mut self, info: ConnectionInfo)
        requires
            old(self).wf(),
        ensures
            final(self).wf(),
            old(self)@.contains(info.id) ==> final(self)@ == old(self)@ && exists|j: int|
                0 <= j < old(self)@.len() && old(self)@[j] == info.id
                    && final(self).entries() == old(self).entries().update(j, info),
            !old(self)@.contains(info.id) ==> final(self).entries() == old(self).entries().push(info),
    {
        match self.position(info.id) {
            Some(i) => {
                let ghost id = info.id;
                self.connections.set(i, info);
                assert(self@ =~= old(self)@);
                assert(old(self)@[i as int] == id);
            },
            None => {
                let ghost id = info.id;
                self.connections.push(info);
                assert(self@ =~= old(self)@.push(id));
            },
        }
    }

    /// Removes and returns entry `i`.
    fn take_at(&mut self, i: usize) -> (e: ConnectionInfo)
        requires
            old(self).wf(),
            i < old(self)@.len(),
        ensures
            final(self).wf(),
            e == old(self).entries()[i as int],
            final(self).entries() == old(self).entries().remove(i as int),
            !final(self)@.contains(e.id),
            forall|c: ConnectionId| c != e.id ==> (final(self)@.contains(c) <==> old(self)@.contains(c)),
    {
        proof {
            lemma_remove_entry(self.connections@, i as int);
        }
        self.connections.remove(i)
    }

    /// Removes the entry of `id`, if any, without cancelling its token: a
    /// streaming response still needs it.
    pub fn unregister_connection(&mut self, id: ConnectionId)
        requires
            old(self).wf(),
        ensures
            final(self).wf(),
            !final(self)@.contains(id),
            forall|c: ConnectionId| c != id ==> (final(self)@.contains(c) <==> old(self)@.contains(c)),
            final(self)@.len() == old(self)@.len() - (if old(self)@.contains(id) { 1int } else { 0int }),
    {
        match self.position(id) {
            Some(i) => {
                self.take_at(i);
            },
            None => {},
        }
    }

    /// Cancels entry `i`'s token in place.
    fn cancel_at(&mut self, i: usize)
        requires
            i < old(self)@.len(),
        ensures
            final(self).entries().len() == old(self).entries().len(),
            cancelled_from(old(self).entries()[i as int], final(self).entries()[i as int]),
            forall|j: int| 0 <= j < old(self)@.len() && j != i ==> final(self).entries()[j] == old(self).entries()[j],
            final(self)@ == old(self)@,
    {
        let mut e = self.connections.remove(i);
        e.cancel();
        self.connections.insert(i, e);
        assert(self@ =~= old(self)@);
    }

    /// Cancels the token of `id`; returns whether the registry holds it.
    /// Only that entry changes.
    pub fn cancel_connection(&mut self, id: ConnectionId) -> (found: bool)
        requires
            old(self).wf(),
        ensures
            final(self).wf(),
            found == old(self)@.contains(id),
            final(self)@ == old(self)@,
            forall|j: int| 0 <= j < old(self)@.len() ==> if old(self)@[j] == id {
                cancelled_from(old(self).entries()[j], final(self).entries()[j])
            } else {
                final(self).entries()[j] == old(self).entries()[j]
            },
    {
        match self.position(id) {
            Some(i) => {
                self.cancel_at(i);
                assert forall|j: int| 0 <= j < old(self)@.len() && old(self)@[j] == id implies j == i by {
                    if j != i {
                        assert(old(self)@[j] == old(self)@[i as int]);
                    }
                }
                true
            },
            None => false,
        }
    }

    /// A copy of the entry of `id`, sharing its token.
    pub fn get_connection(&self, id: ConnectionId) -> (r: Option<ConnectionInfo>)
        ensures
            r is Some <==> self@.contains(id),
            r is Some ==> exists|j: int| {
                &&& 0 <= j < self@.len()
                &&& self@[j] == id
                &&& r->Some_0.id == id
                &&& r->Some_0.remote_addr == self.entries()[j].remote_addr
                &&& r->Some_0.created_at_ms == self.entries()[j].created_at_ms
                &&& r->Some_0.request_count == self.entries()[j].request_count
                &&& r->Some_0.cancelled == self.entries()[j].cancelled
            },
    {
        match self.position(id) {
            Some(i) => Some(self.connections[i].share()),
            None => None,
        }
    }

    /// Cancels every registered token.
    pub fn cancel_all_connections(&mut self)
        requires
            old(self).wf(),
        ensures
            final(self).wf(),
            final(self)@ == old(self)@,
            forall|j: int| 0 <= j < old(self)@.len() ==> cancelled_from(old(self).entries()[j], #[trigger] final(self).entries()[j]),
    {
        let mut i: usize = 0;
        while i < self.connections.len()
            invariant
                i <= self.connections@.len(),
                self@ == old(self)@,
                self.entries().len() == old(self).entries().len(),
                forall|j: int| 0 <= j < i ==> cancelled_from(old(self).entries()[j], #[trigger] self.entries()[j]),
                forall|j: int| i <= j < old(self)@.len() ==> #[trigger] self.entries()[j] == old(self).entries()[j],
            decreases self.connections.len() - i,
        {
            self.cancel_at(i);
            i += 1;
        }
    }

    pub fn active_connection_count(&self) -> (r: usize)
        ensures
            r == self@.len(),
    {
        self.connections.len()
    }

    /// Copies of every entry, in order of registration.
    pub fn get_all_connections(&self) -> (r: Vec<ConnectionInfo>)
        ensures
            ids_of(r@) == self@,
    {
        let mut r: Vec<ConnectionInfo> = Vec::new();
        let mut i: usize = 0;
        while i < self.connections.len()
            invariant
                i <= self.connections@.len(),
                self@ == ids_of(self.connections@),
                ids_of(r@) == self@.subrange(0, i as int),
            decreases self.connections.len() - i,
        {
            let ghost prev = r@;
            let c = self.connections[i].share();
            assert(c.id == self@[i as int]);
            r.push(c);
            assert(r@ == prev.push(c));
            assert(ids_of(r@) =~= ids_of(prev).push(c.id));
            assert(ids_of(r@) =~= self@.subrange(0, i + 1));
            i += 1;
        }
        assert(self@.subrange(0, i as int) =~= self@);
        r
    }

    /// The ids whose token is cancelled at the time each is looked at.
    pub fn cancelled_ids(&self) -> (r: Vec<ConnectionId>)
        ensures
            forall|c: ConnectionId| r@.contains(c) ==> self@.contains(c),
    {
        let mut r: Vec<ConnectionId> = Vec::new();
        let mut i: usize = 0;
        while i < self.connections.len()
            invariant
                i <= self.connections@.len(),
                self@ == ids_of(self.connections@),
                forall|c: ConnectionId| r@.contains(c) ==> self@.contains(c),
            decreases self.connections.len() - i,
        {
            if self.connections[i].cancel_token.is_cancelled() {
                let ghost id = self.connections@[i as int].id;
                r.push(self.connections[i].id);
                assert(self@[i as int] == id);
                proof {
                    assert forall|c: ConnectionId| r@.contains(c) implies self@.contains(c) by {
                        if c != id {
                            assert(r@.drop_last().contains(c)) by {
                                let j = choose|j: int| 0 <= j < r@.len() && r@[j] == c;
                                assert(r@.drop_last()[j] == c);
                            }
                        }
                    }
                }
            }
            i += 1;
        }
        r
    }

    /// Removes the entries of all of `ids`.
    pub fn unregister_all(&mut self, ids: &Vec<ConnectionId>)
        requires
            old(self).wf(),
        ensures
            final(self).wf(),
            forall|c: ConnectionId| final(self)@.contains(c) <==> (old(self)@.contains(c) && !ids@.contains(c)),
    {
        let mut i: usize = 0;
        while i < ids.len()
            invariant
                i <= ids@.len(),
                self.wf(),
                forall|c: ConnectionId| self@.contains(c) <==> (old(self)@.contains(c) && !ids@.subrange(0, i as int).contains(c)),
            decreases ids.len() - i,
        {
            let id = ids[i];
            let ghost before = self@;
            assert(forall|c: ConnectionId| before.contains(c) <==> (old(self)@.contains(c) && !ids@.subrange(0, i as int).contains(c)));
            self.unregister_connection(id);
            proof {
                assert forall|c: ConnectionId| self@.contains(c) <==> (old(self)@.contains(c) && !ids@.subrange(0, i + 1).contains(c)) by {
                    assert(ids@.subrange(0, i + 1) =~= ids@.subrange(0, i as int).push(id));
                    let done = ids@.subrange(0, i as int);
                    let next = ids@.subrange(0, i + 1);
                    if done.contains(c) {
                        let j = choose|j: int| 0 <= j < done.len() && done[j] == c;
                        assert(next[j] == c);
                    }
                    if next.contains(c) && c != id {
                        let j = choose|j: int| 0 <= j < next.len() && next[j] == c;
                        assert(done[j] == c);
                    }
                    if c != id {
                        assert(self@.contains(c) <==> before.contains(c));
                    } else {
                        assert(next[i as int] == id);
                    }
                }
            }
            i += 1;
        }
        assert(ids@.subrange(0, i as int) =~= ids@);
    }

    /// Removes the entries whose token has been cancelled.
    pub fn cleanup_cancelled_connections(&mut self)
        requires
            old(self).wf(),
        ensures
            final(self).wf(),
            forall|c: ConnectionId| final(self)@.contains(c) ==> old(self)@.contains(c),
    {
        let ids = self.cancelled_ids();
        self.unregister_all(&ids);
    }

    /// Ends a request on connection `id` and returns its entry: a streaming
    /// response keeps its token alive (its stream cancels it when done); any
    /// other response has the token cancelled. Either way the entry is removed.
    pub fn complete_request(&mut self, id: ConnectionId, streaming: bool) -> (removed: Option<ConnectionInfo>)
        requires
            old(self).wf(),
        ensures
            final(self).wf(),
            !final(self)@.contains(id),
            forall|c: ConnectionId| c != id ==> (final(self)@.contains(c) <==> old(self)@.contains(c)),
            removed is Some <==> old(self)@.contains(id),
            removed is Some ==> exists|j: int| {
                &&& 0 <= j < old(self)@.len()
                &&& old(self)@[j] == id
                &&& streaming ==> removed->Some_0 == old(self).entries()[j]
                &&& !streaming ==> cancelled_from(old(self).entries()[j], removed->Some_0)
            },
    {
        match self.position(id) {
            Some(i) => {
                let mut e = self.take_at(i);
                assert(old(self)@[i as int] == id);
                if !streaming {
                    e.cancel();
                }
                Some(e)
            },
            None => None,
        }
    }
}

/// A `Content-Type` value announces a server-sent-event stream when it
/// contains `text/event-stream`.
pub fn is_event_stream(content_type: &str) -> (r: bool)
    ensures
        r == contains_seq(content_type@, "text/event-stream"@),
{
    contains_str(content_type, "text/event-stream")
}

} // verus!
