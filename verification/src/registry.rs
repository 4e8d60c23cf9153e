//! The connection registry: the authoritative map from client id to client
//! record, mutated only at connect and disconnect time.
//!
//! Id assignment follows the exact smallest-free-id rule: the id handed to a
//! new client is the least non-negative integer not currently held by a live
//! record, computed against the current live set, so ids may be reused after
//! churn but two live clients never share one.
use vstd::prelude::*;

use vstd::seq_lib::seq_to_set_is_finite;
use vstd::set_lib::{lemma_int_range, lemma_len_subset, set_int_range};

use crate::error::RatError;
use crate::codec::{decode_packet, spec_decode, Decoded, DecodedV};
use crate::message::{Client, Packet, PacketV};
use crate::Id;

verus! {

/// Some live record holds the id.
pub open spec fn has_id(s: Seq<Client>, id: int) -> bool {
    exists|k: int| 0 <= k < s.len() && s[k].id == id
}

/// Some live record holds the id together with this display name.
pub open spec fn has_record(s: Seq<Client>, id: int, name: Seq<char>) -> bool {
    exists|k: int| 0 <= k < s.len() && s[k].id == id && s[k].name@ == name
}

/// What one successful registration does: `id` was the smallest id free in
/// `pre`, and `post` is `pre` with exactly the one new record appended.
pub open spec fn register_post(pre: Seq<Client>, post: Seq<Client>, id: int, name: Seq<char>) -> bool {
    &&& !has_id(pre, id)
    &&& forall|j: int| 0 <= j < id ==> has_id(pre, j)
    &&& post.len() == pre.len() + 1
    &&& post.subrange(0, pre.len() as int) == pre
    &&& post.last().id == id
    &&& post.last().name@ == name
}

/// The table of currently connected clients. All mutation goes through
/// [`ClientManager::register`] (or the packet-level
/// [`ClientManager::create_client_con`]), [`ClientManager::insert`] and
/// [`ClientManager::deregister`]; the callers serialize access, and never
/// hold it across a suspension point.
pub struct ClientManager {
    clients: Vec<Client>,
}

impl View for ClientManager {
    type V = Seq<Client>;

    closed spec fn view(&self) -> Seq<Client> {
        self.clients@
    }
}

impl ClientManager {
    /// No two live records share an id.
    pub open spec fn wf(&self) -> bool {
        forall|i: int, j: int| 0 <= i < j < self@.len() ==> self@[i].id != self@[j].id
    }

    /// An empty registry.
    pub fn new() -> (r: Self)
        ensures
            r@ == Seq::<Client>::empty(),
            r.wf(),
    {
        ClientManager { clients: Vec::new() }
    }

    /// How many clients are currently registered.
    pub fn len(&self) -> (n: usize)
        ensures
            n == self@.len(),
    {
        self.clients.len()
    }

    /// Whether some live record holds this id.
    pub fn contains_id(&self, id: Id) -> (r: bool)
        ensures
            r == has_id(self@, id as int),
    {
        let mut k: usize = 0;
        while k < self.clients.len()
            invariant
                k <= self.clients.len(),
                forall|i: int| 0 <= i < k ==> self.clients@[i].id != id,
            decreases self.clients.len() - k,
        {
            if self.clients[k].id == id {
                return true;
            }
            k = k + 1;
        }
        false
    }

    /// The smallest id not held by any live record. Scans upward from 0
    /// against the current live set, never against its size, so ids freed by
    /// departed clients are reused before new ones are minted.
    pub fn generate_client_id(&self) -> (id: Id)
        requires
            self.wf(),
        ensures
            !has_id(self@, id as int),
            forall|j: int| 0 <= j < id ==> has_id(self@, j),
    {
        let n = self.clients.len();
        let mut id: usize = 0;
        while self.contains_id(id)
            invariant
                self.wf(),
                n == self@.len(),
                id <= n,
                forall|j: int| 0 <= j < id ==> has_id(self@, j),
            decreases self@.len() - id,
        {
            proof {
                lemma_live_prefix_bound(self@, id as int);
            }
            id = id + 1;
        }
        id
    }

    /// Register a new client under the smallest free id and return that id.
    pub fn register(&mut self, name: String) -> (id: Id)
        requires
            old(self).wf(),
        ensures
            final(self).wf(),
            register_post(old(self)@, final(self)@, id as int, name@),
            has_id(final(self)@, id as int),
    {
        let id = self.generate_client_id();
        let ghost pre = self@;
        self.clients.push(Client { id, name });
        proof {
            assert(self@.subrange(0, pre.len() as int) =~= pre);
            assert(self@.last().id == id);
            assert forall|i: int, j: int| 0 <= i < j < self@.len() implies self@[i].id
                != self@[j].id by {
                if j < pre.len() {
                } else {
                    assert(self@[i] == pre[i]);
                }
            };
        }
        id
    }

    /// Insert (or replace) a record wholesale, keying by its id, as a map
    /// insert would.
    pub fn insert(&mut self, client: Client)
        requires
            old(self).wf(),
        ensures
            final(self).wf(),
            has_record(final(self)@, client.id as int, client.name@),
            forall|x: int, n: Seq<char>| x != client.id as int ==> (has_record(final(self)@, x, n)
                <==> has_record(old(self)@, x, n)),
    {
        let ghost pre = self@;
        self.deregister(client.id);
        let ghost mid = self@;
        let ghost c = client;
        self.clients.push(client);
        proof {
            assert(self@.drop_last() =~= mid);
            assert(self@.last() == c);
            assert forall|i: int, j: int| 0 <= i < j < self@.len() implies self@[i].id
                != self@[j].id by {
                if j < mid.len() {
                    assert(self@[i] == mid[i] && self@[j] == mid[j]);
                } else {
                    assert(self@[i] == mid[i]);
                    assert(!has_id(mid, c.id as int));
                }
            };
            assert(has_record(self@, c.id as int, c.name@)) by {
                assert(self@[self@.len() - 1] == c);
            };
            assert forall|x: int, n: Seq<char>| x != c.id as int implies (has_record(self@, x, n)
                <==> has_record(mid, x, n)) by {
                if has_record(self@, x, n) {
                    let k = choose|k: int| 0 <= k < self@.len() && self@[k].id == x
                        && self@[k].name@ == n;
                    assert(k < mid.len() && mid[k] == self@[k]);
                }
                if has_record(mid, x, n) {
                    let k = choose|k: int| 0 <= k < mid.len() && mid[k].id == x
                        && mid[k].name@ == n;
                    assert(self@[k] == mid[k]);
                }
            };
        }
    }

    /// Borrow the record holding this id, if one does. The registry after the
    /// borrow is the registry before it with only that record exchanged for
    /// whatever the caller left behind.
    pub fn get_mut(&mut self, id: &Id) -> (r: Option<&mut Client>)
        requires
            old(self).wf(),
        ensures
            r is None ==> !has_id(old(self)@, *id as int) && final(self)@ == old(self)@,
            r matches Some(c) ==> exists|k: int|
                0 <= k < old(self)@.len() && old(self)@[k].id == *id && *c == old(self)@[k]
                && final(self)@ == old(self)@.update(k, *final(c)),
    {
        let n = self.clients.len();
        let mut k: usize = 0;
        while k < n
            invariant
                self@ == old(self)@,
                n == self@.len(),
                k <= n,
                forall|i: int| 0 <= i < k ==> self@[i].id != *id,
            decreases n - k,
        {
            if self.clients[k].id == *id {
                return Some(&mut self.clients[k]);
            }
            k = k + 1;
        }
        None
    }

    /// Remove the record holding this id, if one does; every other record
    /// stays. Removing an absent id changes nothing.
    pub fn deregister(&mut self, id: Id)
        requires
            old(self).wf(),
        ensures
            final(self).wf(),
            !has_id(final(self)@, id as int),
            forall|x: int, n: Seq<char>| x != id as int ==> (has_record(final(self)@, x, n)
                <==> has_record(old(self)@, x, n)),
            has_id(old(self)@, id as int) ==> final(self)@.len() == old(self)@.len() - 1,
            !has_id(old(self)@, id as int) ==> final(self)@ == old(self)@,
    {
        let ghost pre = self@;
        let mut k: usize = 0;
        while k < self.clients.len()
            invariant
                self@ == pre,
                old(self)@ == pre,
                self.wf(),
                k <= self@.len(),
                forall|i: int| 0 <= i < k ==> self@[i].id != id,
            decreases self@.len() - k,
        {
            if self.clients[k].id == id {
                self.clients.swap_remove(k);
                proof {
                    lemma_swap_remove_facts(pre, k as int, id as int);
                    assert(self@ == pre.update(k as int, pre.last()).drop_last());
                    assert(pre[k as int].id == id);
                    assert(has_id(pre, id as int));
                    assert(self@.len() == pre.len() - 1);
                }
                return ;
            }
            k = k + 1;
        }
    }

    /// Handle the first packet of a connection, as decoded from `buf`: a
    /// `Connect` registers a new client and yields its id and name; anything
    /// else is rejected without touching the registry — an unreadable buffer
    /// as a parse error, a structurally valid packet of the wrong variant as
    /// a protocol error.
    pub fn create_client_con(&mut self, buf: &[u8]) -> (r: Result<(Id, String), RatError>)
        requires
            old(self).wf(),
        ensures
            final(self).wf(),
            match spec_decode(buf@) {
                DecodedV::Packet(p, n) => match p {
                    PacketV::Connect(name) => r matches Ok((id, nm)) && nm@ == name
                        && register_post(old(self)@, final(self)@, id as int, name),
                    _ => r matches Err(e) && e is ProtocolError && final(self)@ == old(self)@,
                },
                _ => r matches Err(e) && e is ParseError && final(self)@ == old(self)@,
            },
    {
        match decode_packet(buf) {
            Decoded::Packet(p, _) => match p {
                Packet::Connect(data) => {
                    let name = data.get_name();
                    let id = self.register(data.get_name());
                    Ok((id, name))
                },
                _ => Err(RatError::ProtocolError),
            },
            _ => Err(RatError::ParseError),
        }
    }
}

/// If every id up to and including `id` is live, the registry holds more than
/// `id` records: the pigeonhole step behind the smallest-free-id scan.
proof fn lemma_live_prefix_bound(s: Seq<Client>, id: int)
    requires
        0 <= id,
        forall|j: int| 0 <= j <= id ==> has_id(s, j),
    ensures
        id < s.len(),
{
    let ids = s.map_values(|c: Client| c.id as int);
    assert forall|j: int| 0 <= j <= id implies ids.to_set().contains(j) by {
        assert(has_id(s, j));
        let k = choose|k: int| 0 <= k < s.len() && s[k].id == j;
        assert(ids[k] == s[k].id as int);
        assert(ids.contains(j));
    };
    assert(set_int_range(0, id + 1).subset_of(ids.to_set()));
    lemma_int_range(0, id + 1);
    seq_to_set_is_finite(ids);
    lemma_len_subset(set_int_range(0, id + 1), ids.to_set());
    ids.lemma_cardinality_of_set();
}

/// What `swap_remove` at the position of `id` leaves behind, when ids are
/// pairwise distinct.
proof fn lemma_swap_remove_facts(pre: Seq<Client>, k: int, id: int)
    requires
        0 <= k < pre.len(),
        pre[k].id == id,
        forall|i: int, j: int| 0 <= i < j < pre.len() ==> pre[i].id != pre[j].id,
    ensures
        ({
            let post = pre.update(k, pre.last()).drop_last();
            &&& forall|i: int, j: int| 0 <= i < j < post.len() ==> post[i].id != post[j].id
            &&& !has_id(post, id)
            &&& forall|x: int, n: Seq<char>| x != id ==> (has_record(post, x, n) <==> has_record(
                pre,
                x,
                n,
            ))
        }),
{
    let post = pre.update(k, pre.last()).drop_last();
    assert forall|i: int| 0 <= i < post.len() implies post[i].id != id by {
        if i == k {
            assert(post[i] == pre[pre.len() - 1]);
        }
    };
    assert forall|x: int, n: Seq<char>| x != id implies (has_record(post, x, n) <==> has_record(
        pre,
        x,
        n,
    )) by {
        if has_record(post, x, n) {
            let i = choose|i: int| 0 <= i < post.len() && post[i].id == x && post[i].name@ == n;
            if i == k {
                assert(pre[pre.len() - 1].id == x && pre[pre.len() - 1].name@ == n);
            } else {
                assert(pre[i].id == x && pre[i].name@ == n);
            }
        }
        if has_record(pre, x, n) {
            let i = choose|i: int| 0 <= i < pre.len() && pre[i].id == x && pre[i].name@ == n;
            if i == pre.len() - 1 {
                if k < pre.len() - 1 {
                    assert(post[k] == pre[pre.len() - 1]);
                }
            } else if i != k {
                assert(post[i] == pre[i]);
            }
        }
    };
}

/// Law: registrations hand out pairwise-distinct ids. Two registrations in
/// a row — however many clients were already connected — assign two different
/// ids, and both stay registered afterwards.
pub proof fn lemma_register_distinct(
    s0: Seq<Client>,
    s1: Seq<Client>,
    s2: Seq<Client>,
    id1: int,
    id2: int,
    n1: Seq<char>,
    n2: Seq<char>,
)
    requires
        register_post(s0, s1, id1, n1),
        register_post(s1, s2, id2, n2),
    ensures
        id1 != id2,
        has_id(s2, id1),
        has_id(s2, id2),
{
    assert(s1[s1.len() - 1].id == id1);
    assert(s2[s2.len() - 1].id == id2);
    assert(s2[s1.len() - 1] == s1[s1.len() - 1]) by {
        assert(s2.subrange(0, s1.len() as int)[s1.len() - 1] == s2[s1.len() - 1]);
    };
}

/// A chain of registrations, one state to the next, handing out `ids` in
/// order.
pub open spec fn register_chain(states: Seq<Seq<Client>>, ids: Seq<int>, names: Seq<Seq<char>>) -> bool {
    &&& states.len() == ids.len() + 1
    &&& names.len() == ids.len()
    &&& forall|k: int| 0 <= k < ids.len() ==> register_post(states[k], states[k + 1], ids[k], names[k])
}

/// Registration never unregisters anyone: a live id stays live across any
/// suffix of a registration chain.
proof fn lemma_chain_keeps_id(
    states: Seq<Seq<Client>>,
    ids: Seq<int>,
    names: Seq<Seq<char>>,
    i: int,
    j: int,
    x: int,
)
    requires
        register_chain(states, ids, names),
        0 <= i <= j < states.len(),
        has_id(states[i], x),
    ensures
        has_id(states[j], x),
    decreases j - i,
{
    if i < j {
        lemma_chain_keeps_id(states, ids, names, i, j - 1, x);
        let pre = states[j - 1];
        let post = states[j];
        assert(register_post(pre, post, ids[j - 1], names[j - 1]));
        let k = choose|k: int| 0 <= k < pre.len() && pre[k].id == x;
        assert(post[k] == post.subrange(0, pre.len() as int)[k]);
    }
}

/// Law: for K registrations drained one at a time off concurrent handshakes,
/// the ids handed out are pairwise distinct, and every one of them is still
/// registered when the last handshake finishes.
pub proof fn lemma_chain_ids_distinct(states: Seq<Seq<Client>>, ids: Seq<int>, names: Seq<Seq<char>>)
    requires
        register_chain(states, ids, names),
    ensures
        forall|i: int, j: int| 0 <= i < j < ids.len() ==> ids[i] != ids[j],
        forall|i: int| 0 <= i < ids.len() ==> has_id(states.last(), ids[i]),
{
    assert forall|i: int| 0 <= i < ids.len() implies has_id(states[i + 1], ids[i]) by {
        assert(register_post(states[i], states[i + 1], ids[i], names[i]));
        assert(states[i + 1][states[i + 1].len() - 1].id == ids[i]);
    };
    assert forall|i: int, j: int| 0 <= i < j < ids.len() implies ids[i] != ids[j] by {
        assert(has_id(states[i + 1], ids[i]));
        lemma_chain_keeps_id(states, ids, names, i + 1, j, ids[i]);
        assert(register_post(states[j], states[j + 1], ids[j], names[j]));
    };
    assert forall|i: int| 0 <= i < ids.len() implies has_id(states.last(), ids[i]) by {
        assert(has_id(states[i + 1], ids[i]));
        lemma_chain_keeps_id(states, ids, names, i + 1, states.len() - 1, ids[i]);
    };
}

} // verus!
