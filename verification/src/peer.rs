//! Peer management: contacts plus live-connection tracking.

use vstd::prelude::*;
use vstd::string::StrSliceExecFns;
use vstd::string::StringSliceAdditionalSpecFns;

use crate::storage::{
    contact_like, seq_has_addr, spec_without_contact, str_eq, Contact, MessageStorage,
    StorageError,
};

verus! {

/// What is known of an active connection.
pub struct ConnectionInfo {
    pub connected_at: i64,
    pub info: Vec<(String, String)>,
}

/// Contacts in the store plus the set of currently connected peers.
pub struct PeerManager {
    storage: MessageStorage,
    active_connections: Vec<(String, ConnectionInfo)>,
}

impl PeerManager {
    /// The underlying contact store.
    pub closed spec fn storage_view(self) -> MessageStorage {
        self.storage
    }

    /// The addresses currently marked online.
    pub closed spec fn online_view(self) -> Seq<Seq<char>> {
        self.active_connections@.map_values(|e: (String, ConnectionInfo)| e.0@)
    }

    /// Whether `addr` is marked online.
    pub open spec fn spec_online(self, addr: Seq<char>) -> bool {
        exists|i: int| 0 <= i < self.online_view().len() && #[trigger] self.online_view()[i]
            == addr
    }

    /// The store is well-formed and no address is marked online twice.
    pub closed spec fn wf(self) -> bool {
        &&& self.storage.wf()
        &&& forall|i: int, j: int|
            #![trigger self.active_connections@[i], self.active_connections@[j]]
            0 <= i < j < self.active_connections@.len() ==> self.active_connections@[i].0@
                != self.active_connections@[j].0@
    }

    /// A manager over the given store, with nobody online.
    pub fn new(storage: MessageStorage) -> (r: PeerManager)
        requires
            storage.wf(),
        ensures
            r.wf(),
            r.online_view().len() == 0,
            r.storage_view() == storage,
    {
        PeerManager { storage, active_connections: Vec::new() }
    }

    /// Add or refresh a contact: the row with this address afterwards
    /// carries exactly the given nickname and key, and every other row is
    /// untouched.
    pub fn add_peer(
        &mut self,
        onion_address: &str,
        nickname: Option<&str>,
        public_key: Option<&str>,
    ) -> (r: Result<bool, StorageError>)
        requires
            old(self).wf(),
        ensures
            final(self).wf(),
            r == Ok::<bool, StorageError>(true),
            seq_has_addr(final(self).storage_view().contacts_view(), onion_address@),
            final(self).online_view() == old(self).online_view(),
            final(self).storage_view().messages_view() == old(self).storage_view().messages_view(),
            forall|j: int|
                0 <= j < final(self).storage_view().contacts_view().len() ==> (#[trigger] final(self).storage_view().contacts_view()[j]).onion_address@ == onion_address@ ==> {
                    &&& (match final(self).storage_view().contacts_view()[j].nickname {
                        Some(s) => nickname matches Some(a) && s@ == a@,
                        None => nickname is None,
                    })
                    &&& (match final(self).storage_view().contacts_view()[j].public_key {
                        Some(s) => public_key matches Some(a) && s@ == a@,
                        None => public_key is None,
                    })
                    &&& final(self).storage_view().contacts_view()[j].last_seen is Some
                },
            forall|j: int|
                0 <= j < final(self).storage_view().contacts_view().len() ==> (#[trigger] final(self).storage_view().contacts_view()[j]).onion_address@ != onion_address@ ==> 0 <= j
                    < old(self).storage_view().contacts_view().len() && final(self).storage_view().contacts_view()[j] == old(self).storage_view().contacts_view()[j],
    {
        self.storage.add_contact(onion_address, nickname, public_key)
    }

    /// The contact with the given address, if known; the returned row
    /// carries the stored fields.
    pub fn get_peer(&self, onion_address: &str) -> (r: Result<Option<Contact>, StorageError>)
        ensures
            match r {
                Ok(opt) => match opt {
                    Some(c) => seq_has_addr(self.storage_view().contacts_view(), onion_address@)
                        && c.onion_address@ == onion_address@ && exists|j: int|
                        0 <= j < self.storage_view().contacts_view().len() && contact_like(
                            c,
                            #[trigger] self.storage_view().contacts_view()[j],
                        ),
                    None => !seq_has_addr(self.storage_view().contacts_view(), onion_address@),
                },
                Err(_) => false,
            },
    {
        self.storage.get_contact(onion_address)
    }

    /// Every known contact, field-exact, in insertion order.
    pub fn get_all_peers(&self) -> (r: Result<Vec<Contact>, StorageError>)
        ensures
            match r {
                Ok(v) => v@.len() == self.storage_view().contacts_view().len() && forall|i: int|
                    0 <= i < v@.len() ==> contact_like(
                        #[trigger] v@[i],
                        self.storage_view().contacts_view()[i],
                    ),
                Err(_) => false,
            },
    {
        self.storage.get_all_contacts()
    }

    /// Remove a contact, disconnecting it first; the result tells whether
    /// one was present, and nothing else changes.
    pub fn remove_peer(&mut self, onion_address: &str) -> (r: Result<bool, StorageError>)
        requires
            old(self).wf(),
        ensures
            final(self).wf(),
            r == Ok::<bool, StorageError>(
                seq_has_addr(old(self).storage_view().contacts_view(), onion_address@),
            ),
            final(self).storage_view().contacts_view() == spec_without_contact(
                old(self).storage_view().contacts_view(),
                onion_address@,
            ),
            final(self).storage_view().messages_view() == old(self).storage_view().messages_view(),
            !seq_has_addr(final(self).storage_view().contacts_view(), onion_address@),
            !final(self).spec_online(onion_address@),
            forall|a2: Seq<char>|
                a2 != onion_address@ ==> final(self).spec_online(a2) == old(self).spec_online(a2),
    {
        let r = self.storage.delete_contact(onion_address);
        proof {
            crate::storage::lemma_without_contact_absent(
                old(self).storage_view().contacts_view(),
                onion_address@,
            );
        }
        let ghost mid = *self;
        self.disconnect_peer(onion_address);
        proof {
            assert(mid.online_view() == old(self).online_view());
            assert forall|a2: Seq<char>| a2 != onion_address@ implies self.spec_online(a2) == old(self).spec_online(a2) by {
                assert(self.spec_online(a2) == mid.spec_online(a2));
                assert(mid.spec_online(a2) == old(self).spec_online(a2));
            }
        }
        r
    }

    /// Store a new public key for a known peer; an unknown peer leaves
    /// everything untouched and yields `false`.  The known peer's nickname
    /// survives the refresh.
    pub fn update_peer_key(&mut self, onion_address: &str, public_key: &str) -> (r: Result<
        bool,
        StorageError,
    >)
        requires
            old(self).wf(),
        ensures
            final(self).wf(),
            r == Ok::<bool, StorageError>(
                seq_has_addr(old(self).storage_view().contacts_view(), onion_address@),
            ),
            !seq_has_addr(old(self).storage_view().contacts_view(), onion_address@) ==> *final(self) == *old(self),
            final(self).online_view() == old(self).online_view(),
            final(self).storage_view().messages_view() == old(self).storage_view().messages_view(),
            seq_has_addr(old(self).storage_view().contacts_view(), onion_address@) ==> {
                &&& seq_has_addr(final(self).storage_view().contacts_view(), onion_address@)
                &&& forall|j: int|
                    0 <= j < final(self).storage_view().contacts_view().len() ==> (
                    #[trigger] final(self).storage_view().contacts_view()[j]).onion_address@
                        == onion_address@ ==> (match final(self).storage_view().contacts_view()[j].public_key {
                        Some(s) => s@ == public_key@,
                        None => false,
                    })
                &&& forall|j: int|
                    0 <= j < final(self).storage_view().contacts_view().len() ==> (
                    #[trigger] final(self).storage_view().contacts_view()[j]).onion_address@
                        == onion_address@ ==> exists|j2: int|
                        0 <= j2 < old(self).storage_view().contacts_view().len() && (
                        #[trigger] old(self).storage_view().contacts_view()[j2]).onion_address@
                            == onion_address@ && crate::storage::opt_view(
                            final(self).storage_view().contacts_view()[j].nickname,
                        ) == crate::storage::opt_view(
                            old(self).storage_view().contacts_view()[j2].nickname,
                        )
            },
    {
        let existing = match self.storage.get_contact(onion_address) {
            Ok(e) => e,
            Err(e) => {
                proof {
                    assert(false);
                }
                return Err(e);
            },
        };
        match existing {
            Some(peer) => {
                let nick: Option<&str> = match &peer.nickname {
                    Some(n) => Some(n.as_str()),
                    None => None,
                };
                self.storage.add_contact(onion_address, nick, Some(public_key))
            },
            None => Ok(false),
        }
    }

    /// Mark a peer online and refresh its last-seen time in the store;
    /// every other peer's presence is kept.
    pub fn mark_peer_online(
        &mut self,
        onion_address: &str,
        connection_info: Option<Vec<(String, String)>>,
    )
        requires
            old(self).wf(),
        ensures
            final(self).wf(),
            final(self).spec_online(onion_address@),
            forall|a2: Seq<char>|
                a2 != onion_address@ ==> final(self).spec_online(a2) == old(self).spec_online(a2),
    {
        let refreshed = match self.storage.get_contact(onion_address) {
            Ok(Some(peer)) => {
                let nick: Option<&str> = match &peer.nickname {
                    Some(n) => Some(n.as_str()),
                    None => None,
                };
                let key: Option<&str> = match &peer.public_key {
                    Some(k) => Some(k.as_str()),
                    None => None,
                };
                match self.storage.add_contact(onion_address, nick, key) {
                    Ok(_) => true,
                    Err(_) => false,
                }
            },
            Ok(None) => false,
            Err(_) => false,
        };
        let _ = refreshed;
        self.disconnect_peer(onion_address);
        let entry = ConnectionInfo {
            connected_at: crate::trusted::now_timestamp(),
            info: match connection_info {
                Some(v) => v,
                None => Vec::new(),
            },
        };
        let ghost mid = *self;
        let ghost pre = self.active_connections@;
        self.active_connections.push((onion_address.to_owned(), entry));
        proof {
            let n = pre.len() as int;
            assert(self.active_connections@[n].0@ == onion_address@);
            assert(self.online_view()[n] == onion_address@);
            assert(self.spec_online(onion_address@));
            assert forall|a2: Seq<char>| a2 != onion_address@ implies self.spec_online(a2) == old(
                self,
            ).spec_online(a2) by {
                if self.spec_online(a2) {
                    let j = choose|j: int|
                        0 <= j < self.online_view().len() && #[trigger] self.online_view()[j]
                            == a2;
                    assert(self.online_view()[j] == self.active_connections@[j].0@);
                    assert(j != n);
                    assert(self.active_connections@[j] == pre[j]);
                    assert(mid.online_view()[j] == pre[j].0@);
                    assert(mid.spec_online(a2));
                }
                if mid.spec_online(a2) {
                    let k = choose|k: int|
                        0 <= k < mid.online_view().len() && #[trigger] mid.online_view()[k] == a2;
                    assert(mid.online_view()[k] == pre[k].0@);
                    assert(self.active_connections@[k] == pre[k]);
                    assert(self.online_view()[k] == a2);
                    assert(self.spec_online(a2));
                }
                assert(mid.spec_online(a2) == old(self).spec_online(a2));
            }
            assert forall|i: int, j: int|
                #![trigger self.active_connections@[i], self.active_connections@[j]]
                0 <= i < j < self.active_connections@.len() implies self.active_connections@[i].0@
                != self.active_connections@[j].0@ by {
                assert(self.active_connections@[i] == pre[i]);
                if j < n {
                    assert(self.active_connections@[j] == pre[j]);
                } else {
                    if pre[i].0@ == onion_address@ {
                        assert(mid.online_view()[i] == onion_address@);
                        assert(mid.spec_online(onion_address@));
                    }
                }
            }
        }
    }

    /// Forget a live connection; every other peer's presence is kept.
    pub fn disconnect_peer(&mut self, onion_address: &str)
        requires
            old(self).wf(),
        ensures
            final(self).wf(),
            final(self).storage_view() == old(self).storage_view(),
            !final(self).spec_online(onion_address@),
            forall|a2: Seq<char>|
                a2 != onion_address@ ==> final(self).spec_online(a2) == old(self).spec_online(a2),
    {
        let n = self.active_connections.len();
        let mut i: usize = 0;
        while i < n
            invariant
                old(self).wf(),
                self.active_connections@.len() == n,
                i <= n,
                *self == *old(self),
                forall|j: int|
                    0 <= j < i ==> (#[trigger] self.active_connections@[j]).0@
                        != onion_address@,
            decreases n - i,
        {
            if str_eq(self.active_connections[i].0.as_str(), onion_address) {
                let ghost pre = self.active_connections@;
                let _ = self.active_connections.remove(i);
                proof {
                    assert(pre[i as int].0@ == onion_address@);
                    assert forall|j: int|
                        0 <= j < self.active_connections@.len() implies (
                    #[trigger] self.active_connections@[j]).0@ != onion_address@ by {
                        if j < i {
                            assert(self.active_connections@[j] == pre[j]);
                            if pre[j].0@ == onion_address@ {
                                assert(pre[j].0@ != pre[i as int].0@);
                            }
                        } else {
                            assert(self.active_connections@[j] == pre[j + 1]);
                            if pre[j + 1].0@ == onion_address@ {
                                assert(pre[i as int].0@ != pre[j + 1].0@);
                            }
                        }
                    }
                    assert forall|a: int, b: int|
                        #![trigger self.active_connections@[a], self.active_connections@[b]]
                        0 <= a < b < self.active_connections@.len() implies self.active_connections@[a].0@
                        != self.active_connections@[b].0@ by {
                        let pa: int = if a < i { a } else { a + 1 };
                        let pb: int = if b < i { b } else { b + 1 };
                        assert(self.active_connections@[a] == pre[pa]);
                        assert(self.active_connections@[b] == pre[pb]);
                        assert(pre[pa].0@ != pre[pb].0@);
                    }
                    assert forall|k: int|
                        0 <= k < self.online_view().len() implies #[trigger] self.online_view()[k]
                        != onion_address@ by {
                        assert(self.online_view()[k] == self.active_connections@[k].0@);
                    }
                    assert forall|a2: Seq<char>| a2 != onion_address@ implies self.spec_online(a2)
                        == old(self).spec_online(a2) by {
                        if self.spec_online(a2) {
                            let j = choose|j: int|
                                0 <= j < self.online_view().len() && #[trigger] self.online_view()[j]
                                    == a2;
                            assert(self.online_view()[j] == self.active_connections@[j].0@);
                            let pj: int = if j < i { j } else { j + 1 };
                            assert(self.active_connections@[j] == pre[pj]);
                            assert(old(self).online_view()[pj] == pre[pj].0@);
                            assert(old(self).spec_online(a2));
                        }
                        if old(self).spec_online(a2) {
                            let k = choose|k: int|
                                0 <= k < old(self).online_view().len()
                                    && #[trigger] old(self).online_view()[k] == a2;
                            assert(old(self).online_view()[k] == pre[k].0@);
                            assert(k != i);
                            let nk: int = if k < i { k } else { k - 1 };
                            assert(self.active_connections@[nk] == pre[k]);
                            assert(self.online_view()[nk] == a2);
                            assert(self.spec_online(a2));
                        }
                    }
                }
                return ;
            }
            i = i + 1;
        }
        proof {
            assert forall|k: int|
                0 <= k < self.online_view().len() implies #[trigger] self.online_view()[k]
                != onion_address@ by {
                assert(self.online_view()[k] == self.active_connections@[k].0@);
            }
        }
    }

    /// Whether the peer has a live connection.
    pub fn is_peer_online(&self, onion_address: &str) -> (r: bool)
        ensures
            r == self.spec_online(onion_address@),
    {
        let n = self.active_connections.len();
        let mut i: usize = 0;
        while i < n
            invariant
                self.active_connections@.len() == n,
                i <= n,
                forall|j: int|
                    0 <= j < i ==> (#[trigger] self.active_connections@[j]).0@
                        != onion_address@,
            decreases n - i,
        {
            if str_eq(self.active_connections[i].0.as_str(), onion_address) {
                proof {
                    assert(self.online_view()[i as int] == onion_address@);
                }
                return true;
            }
            i = i + 1;
        }
        proof {
            assert forall|k: int|
                0 <= k < self.online_view().len() implies #[trigger] self.online_view()[k]
                != onion_address@ by {
                assert(self.online_view()[k] == self.active_connections@[k].0@);
            }
        }
        false
    }

    /// The addresses of every online peer, each once.
    pub fn get_online_peers(&self) -> (r: Vec<String>)
        requires
            self.wf(),
        ensures
            r@.len() == self.online_view().len(),
            forall|i: int| 0 <= i < r@.len() ==> (#[trigger] r@[i])@ == self.online_view()[i],
            forall|i: int, j: int|
                #![trigger r@[i], r@[j]]
                0 <= i < j < r@.len() ==> (r@[i])@ != (r@[j])@,
    {
        let n = self.active_connections.len();
        let mut out: Vec<String> = Vec::new();
        let mut i: usize = 0;
        while i < n
            invariant
                self.active_connections@.len() == n,
                i <= n,
                out@.len() == i,
                forall|j: int|
                    0 <= j < i ==> (#[trigger] out@[j])@ == self.active_connections@[j].0@,
            decreases n - i,
        {
            out.push(self.active_connections[i].0.clone());
            i = i + 1;
        }
        proof {
            assert forall|i2: int| 0 <= i2 < out@.len() implies (#[trigger] out@[i2])@
                == self.online_view()[i2] by {
                assert(self.online_view()[i2] == self.active_connections@[i2].0@);
            }
            assert forall|a: int, b: int|
                #![trigger out@[a], out@[b]]
                0 <= a < b < out@.len() implies (out@[a])@ != (out@[b])@ by {
                assert((out@[a])@ == self.active_connections@[a].0@);
                assert((out@[b])@ == self.active_connections@[b].0@);
            }
        }
        out
    }
}

} // verus!
