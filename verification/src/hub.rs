//! The clients that are connected.

use vstd::prelude::*;

verus! {

/// A connected client.
#[derive(Debug, Clone, Copy, PartialEq, Eq, Structural)]
pub struct ClientConn {
    pub id: u64,
    /// It has shown the right token.
    pub authed: bool,
    /// Nothing more is sent to it.
    pub closed: bool,
}

/// Where the client with this number stands.
pub open spec fn client_index(clients: Seq<ClientConn>, id: u64) -> Option<int>
    decreases clients.len(),
{
    if clients.len() == 0 {
        None
    } else if clients.last().id == id {
        Some(clients.len() - 1)
    } else {
        client_index(clients.drop_last(), id)
    }
}

/// The numbers of the clients that hear of events.
pub open spec fn listeners(clients: Seq<ClientConn>) -> Seq<u64>
    decreases clients.len(),
{
    if clients.len() == 0 {
        Seq::empty()
    } else {
        let before = listeners(clients.drop_last());
        if clients.last().authed {
            before.push(clients.last().id)
        } else {
            before
        }
    }
}

/// The clients but those with the given numbers.
pub open spec fn without(clients: Seq<ClientConn>, gone: Seq<u64>) -> Seq<ClientConn>
    decreases clients.len(),
{
    if clients.len() == 0 {
        Seq::empty()
    } else {
        let before = without(clients.drop_last(), gone);
        if gone.contains(clients.last().id) {
            before
        } else {
            before.push(clients.last())
        }
    }
}

/// Every number is given once, in ascending order, and all below the next one.
pub open spec fn in_order(clients: Seq<ClientConn>, next_id: u64) -> bool {
    &&& forall|i: int, j: int|
        0 <= i < j < clients.len() ==> (#[trigger] clients[i]).id < (#[trigger] clients[j]).id
    &&& forall|i: int| 0 <= i < clients.len() ==> (#[trigger] clients[i]).id < next_id
}

/// Whether a client has shown the right token.
pub open spec fn has_shown_token(clients: Seq<ClientConn>, id: u64) -> bool {
    match client_index(clients, id) {
        Some(index) => clients[index].authed,
        None => false,
    }
}

/// The clients once one of them has shown the right token.
pub open spec fn authenticated(clients: Seq<ClientConn>, id: u64) -> Seq<ClientConn> {
    match client_index(clients, id) {
        Some(index) => clients.update(index, ClientConn { authed: true, ..clients[index] }),
        None => clients,
    }
}

/// The clients once nothing is sent to one of them any more.
pub open spec fn closed(clients: Seq<ClientConn>, id: u64) -> Seq<ClientConn> {
    match client_index(clients, id) {
        Some(index) => clients.update(index, ClientConn { closed: true, ..clients[index] }),
        None => clients,
    }
}

/// All connected clients, in the order in which they came.
pub struct ClientHub {
    next_id: u64,
    clients: Vec<ClientConn>,
}

impl View for ClientHub {
    type V = Seq<ClientConn>;

    closed spec fn view(&self) -> Seq<ClientConn> {
        self.clients@
    }
}

impl ClientHub {
    /// The number for the next client.
    pub closed spec fn upcoming(&self) -> u64 {
        self.next_id
    }

    pub open spec fn well_formed(&self) -> bool {
        in_order(self@, self.upcoming())
    }

    pub fn new() -> (hub: Self)
        ensures
            hub.well_formed(),
            hub@ == Seq::<ClientConn>::empty(),
            hub.upcoming() == 1,
    {
        ClientHub { next_id: 1, clients: Vec::new() }
    }

    /// Takes in a client, which hears of nothing yet. `None` once the numbers are used up.
    pub fn connect(&mut self) -> (id: Option<u64>)
        requires
            old(self).well_formed(),
        ensures
            final(self).well_formed(),
            if old(self).upcoming() < u64::MAX {
                &&& id == Some(old(self).upcoming())
                &&& final(self)@ == old(self)@.push(
                    ClientConn { id: old(self).upcoming(), authed: false, closed: false },
                )
                &&& final(self).upcoming() == old(self).upcoming() + 1
            } else {
                id is None && *final(self) == *old(self)
            },
    {
        let id: u64 = self.next_id;
        if id == u64::MAX {
            return None;
        }
        self.next_id = id + 1;
        self.clients.push(ClientConn { id, authed: false, closed: false });
        Some(id)
    }

    fn find(&self, id: u64) -> (index: Option<usize>)
        ensures
            match (index, client_index(self@, id)) {
                (Some(index), Some(at)) => index == at && index < self@.len() && self@[at].id == id,
                (None, None) => true,
                _ => false,
            },
    {
        let mut index: usize = self.clients.len();
        assert(self@.take(index as int) == self@);
        while index > 0
            invariant
                index <= self.clients@.len(),
                client_index(self@, id) == client_index(self@.take(index as int), id),
            decreases index,
        {
            index = index - 1;
            assert(self@.take(index + 1).drop_last() == self@.take(index as int));
            if self.clients[index].id == id {
                return Some(index);
            }
        }
        None
    }

    /// From now on the client hears of events.
    pub fn authenticate(&mut self, id: u64)
        requires
            old(self).well_formed(),
        ensures
            final(self).well_formed(),
            final(self).upcoming() == old(self).upcoming(),
            final(self)@ == authenticated(old(self)@, id),
    {
        if let Some(index) = self.find(id) {
            let client: ClientConn = self.clients[index];
            self.clients.set(
                index,
                ClientConn { id: client.id, authed: true, closed: client.closed },
            );
        }
    }

    /// From now on nothing is sent to the client.
    pub fn close(&mut self, id: u64)
        requires
            old(self).well_formed(),
        ensures
            final(self).well_formed(),
            final(self).upcoming() == old(self).upcoming(),
            final(self)@ == self::closed(old(self)@, id),
    {
        if let Some(index) = self.find(id) {
            let client: ClientConn = self.clients[index];
            self.clients.set(
                index,
                ClientConn { id: client.id, authed: client.authed, closed: true },
            );
        }
    }

    /// Whether the client has shown the right token.
    pub fn is_authed(&self, id: u64) -> (authed: bool)
        ensures
            authed == has_shown_token(self@, id),
    {
        match self.find(id) {
            Some(index) => self.clients[index].authed,
            None => false,
        }
    }

    /// Whether nothing is sent to the client any more. A client that is gone counts as closed.
    pub fn is_closed(&self, id: u64) -> (closed: bool)
        ensures
            closed == (match client_index(self@, id) {
                Some(index) => self@[index].closed,
                None => true,
            }),
    {
        match self.find(id) {
            Some(index) => self.clients[index].closed,
            None => true,
        }
    }

    /// The clients to which an event must be sent.
    pub fn broadcast(&self) -> (targets: Vec<u64>)
        ensures
            targets@ == listeners(self@),
    {
        let mut targets: Vec<u64> = Vec::new();
        let mut index: usize = 0;
        assert(self@.take(0) == Seq::<ClientConn>::empty());
        while index < self.clients.len()
            invariant
                index <= self.clients@.len(),
                targets@ == listeners(self@.take(index as int)),
            decreases self.clients@.len() - index,
        {
            assert(self@.take(index + 1).drop_last() == self@.take(index as int));
            if self.clients[index].authed {
                targets.push(self.clients[index].id);
            }
            index = index + 1;
        }
        assert(self@.take(index as int) == self@);
        targets
    }

    /// Lets clients go: one that has left, or those that were too slow to take an event.
    pub fn disconnect(&mut self, gone: &Vec<u64>)
        requires
            old(self).well_formed(),
        ensures
            final(self).well_formed(),
            final(self).upcoming() == old(self).upcoming(),
            final(self)@ == without(old(self)@, gone@),
    {
        let ghost all = self.clients@;
        let mut kept: Vec<ClientConn> = Vec::new();
        let mut index: usize = 0;
        assert(all.take(0) == Seq::<ClientConn>::empty());
        while index < self.clients.len()
            invariant
                index <= self.clients@.len(),
                self.clients@ == all,
                self.next_id == old(self).upcoming(),
                in_order(all, self.next_id),
                in_order(kept@, self.next_id),
                forall|i: int, j: int|
                    0 <= i < kept@.len() && index <= j < all.len() ==> (#[trigger] kept@[i]).id < (
                    #[trigger] all[j]).id,
                kept@ == without(all.take(index as int), gone@),
            decreases self.clients@.len() - index,
        {
            let client: ClientConn = self.clients[index];
            assert(all.take(index + 1).drop_last() == all.take(index as int));
            let mut leaves = false;
            let mut at: usize = 0;
            while at < gone.len() && !leaves
                invariant
                    at <= gone@.len(),
                    leaves ==> gone@.contains(client.id),
                    !leaves ==> forall|i: int| 0 <= i < at ==> gone@[i] != client.id,
                decreases gone@.len() - at, (if leaves {
                        0int
                    } else {
                        1int
                    }),
            {
                if gone[at] == client.id {
                    leaves = true;
                } else {
                    at = at + 1;
                }
            }
            if !leaves {
                kept.push(client);
            }
            index = index + 1;
        }
        assert(all.take(index as int) == all);
        self.clients = kept;
    }
}

/// An event goes to exactly those clients that have shown the right token.
pub proof fn law_only_authenticated_clients_hear(clients: Seq<ClientConn>, id: u64)
    ensures
        listeners(clients).contains(id) <==> exists|i: int|
            0 <= i < clients.len() && (#[trigger] clients[i]).authed && clients[i].id == id,
    decreases clients.len(),
{
    if clients.len() > 0 {
        let shorter = clients.drop_last();
        let before = listeners(shorter);
        law_only_authenticated_clients_hear(shorter, id);
        if before.contains(id) {
            let i = choose|i: int|
                0 <= i < shorter.len() && (#[trigger] shorter[i]).authed && shorter[i].id == id;
            assert(clients[i].authed && clients[i].id == id);
            let k = choose|k: int| 0 <= k < before.len() && before[k] == id;
            assert(listeners(clients)[k] == id);
        }
        if clients.last().authed && clients.last().id == id {
            assert(clients[clients.len() - 1].authed);
            assert(listeners(clients)[before.len() as int] == id);
        }
        if exists|i: int|
            0 <= i < clients.len() && (#[trigger] clients[i]).authed && clients[i].id == id {
            let i = choose|i: int|
                0 <= i < clients.len() && (#[trigger] clients[i]).authed && clients[i].id == id;
            if i < shorter.len() {
                assert(shorter[i].authed && shorter[i].id == id);
            }
        }
        if listeners(clients).contains(id) && !before.contains(id) {
            let k = choose|k: int|
                0 <= k < listeners(clients).len() && listeners(clients)[k] == id;
            if k < before.len() {
                assert(before[k] == id);
            }
        }
    }
}

/// Closing a connection does not change who hears of events.
pub proof fn lemma_closing_keeps_listeners(clients: Seq<ClientConn>, id: u64)
    ensures
        listeners(closed(clients, id)) == listeners(clients),
    decreases clients.len(),
{
    if clients.len() > 0 {
        let rest = clients.drop_last();
        lemma_closing_keeps_listeners(rest, id);
        if clients.last().id == id {
            assert(closed(clients, id).drop_last() == rest);
        } else {
            lemma_client_index(rest, id);
            assert(closed(clients, id).drop_last() == closed(rest, id));
        }
    }
}

/// When a client has shown the right token, no other one comes to hear of events.
pub proof fn lemma_new_listener(clients: Seq<ClientConn>, client: u64, id: u64)
    requires
        !listeners(clients).contains(id),
        listeners(authenticated(clients, client)).contains(id),
    ensures
        id == client,
{
    let after = authenticated(clients, client);
    lemma_client_index(clients, client);
    law_only_authenticated_clients_hear(clients, id);
    law_only_authenticated_clients_hear(after, id);
    let i = choose|i: int| 0 <= i < after.len() && (#[trigger] after[i]).authed && after[i].id == id;
    if id != client {
        assert(clients[i].authed && clients[i].id == id);
    }
}

/// Where a client is found it stands.
pub proof fn lemma_client_index(clients: Seq<ClientConn>, id: u64)
    ensures
        client_index(clients, id) matches Some(index) ==> 0 <= index < clients.len()
            && clients[index].id == id,
    decreases clients.len(),
{
    if clients.len() > 0 && clients.last().id != id {
        lemma_client_index(clients.drop_last(), id);
    }
}

} // verus!
