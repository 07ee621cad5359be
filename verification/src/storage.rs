//! Contact and message store.
//!
//! The store keeps messages and contacts in memory, with the two
//! invariants the rest of the system relies on: message identifiers are
//! unique, and an insertion whose identifier is already present is ignored
//! — re-fetched offline packages are therefore stored at most once.
//! Contacts are keyed by address and upserted.  Durability behind this
//! interface is a host concern; the store's behaviour is what is specified
//! here.

use vstd::prelude::*;
use vstd::string::StrSliceExecFns;
use vstd::string::StringSliceAdditionalSpecFns;

use crate::util;

verus! {

/// Failures of the storage layer.
#[derive(Debug)]
pub enum StorageError {
    Database(String),
    Serialization(String),
}

/// A stored message row.
pub struct StoredMessage {
    pub id: String,
    pub msg_type: String,
    pub sender_id: Option<String>,
    pub recipient_id: Option<String>,
    /// The message payload as JSON text.
    pub payload: String,
    pub timestamp: i64,
    pub is_sent: bool,
    pub is_read: bool,
}

/// A contact row.
pub struct Contact {
    pub onion_address: String,
    pub nickname: Option<String>,
    pub public_key: Option<String>,
    pub last_seen: Option<i64>,
}

/// The characters of an optional string.
pub open spec fn opt_view(o: Option<String>) -> Option<Seq<char>> {
    match o {
        Some(s) => Some(s@),
        None => None,
    }
}

/// Two rows with the same field contents.
pub open spec fn row_like(a: StoredMessage, b: StoredMessage) -> bool {
    &&& a.id@ == b.id@
    &&& a.msg_type@ == b.msg_type@
    &&& opt_view(a.sender_id) == opt_view(b.sender_id)
    &&& opt_view(a.recipient_id) == opt_view(b.recipient_id)
    &&& a.payload@ == b.payload@
    &&& a.timestamp == b.timestamp
    &&& a.is_sent == b.is_sent
    &&& a.is_read == b.is_read
}

/// Two contacts with the same field contents.
pub open spec fn contact_like(a: Contact, b: Contact) -> bool {
    &&& a.onion_address@ == b.onion_address@
    &&& opt_view(a.nickname) == opt_view(b.nickname)
    &&& opt_view(a.public_key) == opt_view(b.public_key)
    &&& a.last_seen == b.last_seen
}

/// Whether some row holds the identifier `id`.
pub open spec fn seq_has_id(msgs: Seq<StoredMessage>, id: Seq<char>) -> bool {
    exists|i: int| 0 <= i < msgs.len() && #[trigger] msgs[i].id@ == id
}

/// Whether some contact row holds the address `addr`.
pub open spec fn seq_has_addr(cs: Seq<Contact>, addr: Seq<char>) -> bool {
    exists|i: int| 0 <= i < cs.len() && #[trigger] cs[i].onion_address@ == addr
}

/// Insertion with duplicate suppression: a record whose identifier is
/// already present leaves the store as it is.
pub open spec fn spec_insert(msgs: Seq<StoredMessage>, rec: StoredMessage) -> Seq<StoredMessage> {
    if seq_has_id(msgs, rec.id@) {
        msgs
    } else {
        msgs.push(rec)
    }
}

/// Delivering the same record twice stores it at most once: the second
/// insertion is a no-op.
pub proof fn lemma_insert_idempotent(msgs: Seq<StoredMessage>, rec: StoredMessage)
    ensures
        spec_insert(spec_insert(msgs, rec), rec) == spec_insert(msgs, rec),
{
    if !seq_has_id(msgs, rec.id@) {
        let pushed = msgs.push(rec);
        assert(pushed[msgs.len() as int].id@ == rec.id@);
        assert(seq_has_id(pushed, rec.id@));
    }
}

/// Whether a row belongs to the conversation with `peer`; an absent peer
/// matches every row.
pub open spec fn row_matches(m: StoredMessage, peer: Option<Seq<char>>) -> bool {
    match peer {
        None => true,
        Some(p) => (m.sender_id matches Some(s) && s@ == p) || (m.recipient_id matches Some(r)
            && r@ == p),
    }
}

/// The most recent `limit` rows of the conversation with `peer`, newest
/// first.
pub open spec fn spec_select(msgs: Seq<StoredMessage>, peer: Option<Seq<char>>, limit: nat) -> Seq<
    StoredMessage,
>
    decreases msgs.len(),
{
    if msgs.len() == 0 || limit == 0 {
        Seq::empty()
    } else if row_matches(msgs.last(), peer) {
        seq![msgs.last()] + spec_select(msgs.drop_last(), peer, (limit - 1) as nat)
    } else {
        spec_select(msgs.drop_last(), peer, limit)
    }
}

/// The rows outside the conversation with `peer`, in their stored order.
pub open spec fn spec_without(msgs: Seq<StoredMessage>, peer: Seq<char>) -> Seq<StoredMessage>
    decreases msgs.len(),
{
    if msgs.len() == 0 {
        Seq::empty()
    } else if row_matches(msgs.last(), Some(peer)) {
        spec_without(msgs.drop_last(), peer)
    } else {
        spec_without(msgs.drop_last(), peer).push(msgs.last())
    }
}

/// The contact rows whose address is not `addr`, in their stored order.
pub open spec fn spec_without_contact(cs: Seq<Contact>, addr: Seq<char>) -> Seq<Contact>
    decreases cs.len(),
{
    if cs.len() == 0 {
        Seq::empty()
    } else if cs.last().onion_address@ == addr {
        spec_without_contact(cs.drop_last(), addr)
    } else {
        spec_without_contact(cs.drop_last(), addr).push(cs.last())
    }
}

/// A sequence in reverse order.
pub open spec fn rev_seq<T>(s: Seq<T>) -> Seq<T>
    decreases s.len(),
{
    if s.len() == 0 {
        Seq::empty()
    } else {
        seq![s.last()] + rev_seq(s.drop_last())
    }
}

/// The persistent store of messages and contacts.
pub struct MessageStorage {
    db_path: String,
    messages: Vec<StoredMessage>,
    contacts: Vec<Contact>,
}

impl MessageStorage {
    /// The stored message rows, oldest first.
    pub closed spec fn messages_view(self) -> Seq<StoredMessage> {
        self.messages@
    }

    /// The stored contact rows.
    pub closed spec fn contacts_view(self) -> Seq<Contact> {
        self.contacts@
    }

    /// Message identifiers and contact addresses are unique.
    pub closed spec fn wf(self) -> bool {
        &&& forall|i: int, j: int|
            #![trigger self.messages@[i], self.messages@[j]]
            0 <= i < j < self.messages@.len() ==> self.messages@[i].id@
                != self.messages@[j].id@
        &&& forall|i: int, j: int|
            #![trigger self.contacts@[i], self.contacts@[j]]
            0 <= i < j < self.contacts@.len() ==> self.contacts@[i].onion_address@
                != self.contacts@[j].onion_address@
    }

    /// A fresh, empty store at the default database name.
    pub fn new() -> (r: Result<Self, StorageError>)
        ensures
            match r {
                Ok(s) => s.wf() && s.messages_view().len() == 0 && s.contacts_view().len() == 0,
                Err(_) => false,
            },
    {
        Self::with_path(crate::config::db_file_name())
    }

    /// A fresh, empty store at the given database path.
    pub fn with_path(db_path: String) -> (r: Result<Self, StorageError>)
        ensures
            match r {
                Ok(s) => s.wf() && s.messages_view().len() == 0 && s.contacts_view().len() == 0,
                Err(_) => false,
            },
    {
        Ok(MessageStorage { db_path, messages: Vec::new(), contacts: Vec::new() })
    }

    /// Prepare the underlying tables; the in-memory tables need nothing.
    pub fn init_database(&self) -> (r: Result<(), StorageError>)
        ensures
            r is Ok,
    {
        Ok(())
    }

    /// Store a message unless its identifier is already present; the
    /// result tells whether the row was inserted.
    pub fn save_message(
        &mut self,
        msg_id: &str,
        msg_type: &str,
        sender_id: Option<&str>,
        recipient_id: Option<&str>,
        payload: &str,
        timestamp: i64,
        is_sent: bool,
    ) -> (r: Result<bool, StorageError>)
        requires
            old(self).wf(),
        ensures
            final(self).wf(),
            r == Ok::<bool, StorageError>(!seq_has_id(old(self).messages_view(), msg_id@)),
            final(self).contacts_view() == old(self).contacts_view(),
            final(self).messages_view() == spec_insert(
                old(self).messages_view(),
                final(self).messages_view().last(),
            ),
            seq_has_id(old(self).messages_view(), msg_id@) ==> *final(self) == *old(self),
            !seq_has_id(old(self).messages_view(), msg_id@) ==> {
                &&& final(self).messages_view().len() == old(self).messages_view().len() + 1
                &&& final(self).messages_view().drop_last() == old(self).messages_view()
                &&& final(self).messages_view().last().id@ == msg_id@
                &&& final(self).messages_view().last().msg_type@ == msg_type@
                &&& (match final(self).messages_view().last().sender_id {
                    Some(s) => sender_id matches Some(a) && s@ == a@,
                    None => sender_id is None,
                })
                &&& (match final(self).messages_view().last().recipient_id {
                    Some(s) => recipient_id matches Some(a) && s@ == a@,
                    None => recipient_id is None,
                })
                &&& final(self).messages_view().last().payload@ == payload@
                &&& final(self).messages_view().last().timestamp == timestamp
                &&& final(self).messages_view().last().is_sent == is_sent
                &&& final(self).messages_view().last().is_read == false
            },
    {
        let n = self.messages.len();
        let mut i: usize = 0;
        while i < n
            invariant
                old(self).wf(),
                self.messages@.len() == n,
                i <= n,
                forall|j: int| 0 <= j < i ==> self.messages@[j].id@ != msg_id@,
                *self == *old(self),
            decreases n - i,
        {
            if str_eq(self.messages[i].id.as_str(), msg_id) {
                proof {
                    assert(seq_has_id(old(self).messages_view(), msg_id@));
                }
                return Ok(false);
            }
            i = i + 1;
        }
        proof {
            assert(!seq_has_id(old(self).messages_view(), msg_id@));
        }
        let rec = StoredMessage {
            id: msg_id.to_owned(),
            msg_type: msg_type.to_owned(),
            sender_id: opt_owned(sender_id),
            recipient_id: opt_owned(recipient_id),
            payload: payload.to_owned(),
            timestamp,
            is_sent,
            is_read: false,
        };
        self.messages.push(rec);
        proof {
            assert(final(self).messages_view().drop_last() =~= old(self).messages_view());
        }
        Ok(true)
    }

    /// The most recent `limit` rows of the conversation with
    /// `contact_onion` (or of all conversations), newest first by arrival:
    /// the store hands rows back in reverse insertion order, and per-message
    /// timestamps stay advisory.
    pub fn get_messages(&self, contact_onion: Option<&str>, limit: usize) -> (r: Result<
        Vec<StoredMessage>,
        StorageError,
    >)
        ensures
            match r {
                Ok(v) => {
                    let sel = spec_select(
                        self.messages_view(),
                        match contact_onion {
                            Some(p) => Some(p@),
                            None => None,
                        },
                        limit as nat,
                    );
                    v@.len() == sel.len() && forall|i: int|
                        0 <= i < v@.len() ==> row_like(#[trigger] v@[i], sel[i])
                },
                Err(_) => false,
            },
    {
        let ghost peer: Option<Seq<char>> = match contact_onion {
            Some(p) => Some(p@),
            None => None,
        };
        let mut out: Vec<StoredMessage> = Vec::new();
        let ghost mut taken: Seq<StoredMessage> = Seq::empty();
        let mut i: usize = self.messages.len();
        proof {
            assert(self.messages@.take(i as int) =~= self.messages@);
            assert(taken + spec_select(self.messages@.take(i as int), peer, limit as nat) =~= spec_select(
                self.messages_view(),
                peer,
                limit as nat,
            ));
        }
        while i > 0 && out.len() < limit
            invariant
                peer == (match contact_onion {
                    Some(p) => Some(p@),
                    None => None,
                }),
                i <= self.messages@.len(),
                out@.len() == taken.len(),
                out@.len() <= limit,
                forall|k: int| 0 <= k < out@.len() ==> row_like(#[trigger] out@[k], taken[k]),
                spec_select(self.messages_view(), peer, limit as nat) == taken + spec_select(
                    self.messages@.take(i as int),
                    peer,
                    (limit - out@.len()) as nat,
                ),
            decreases i,
        {
            i = i - 1;
            let ghost pre = self.messages@.take(i + 1);
            proof {
                assert(pre.last() == self.messages@[i as int]);
                assert(pre.drop_last() =~= self.messages@.take(i as int));
            }
            let m = &self.messages[i];
            let keep = match contact_onion {
                Some(p) => {
                    let s_match = match &m.sender_id {
                        Some(s) => str_eq(s.as_str(), p),
                        None => false,
                    };
                    let r_match = match &m.recipient_id {
                        Some(s) => str_eq(s.as_str(), p),
                        None => false,
                    };
                    s_match || r_match
                },
                None => true,
            };
            proof {
                assert(keep == row_matches(self.messages@[i as int], peer));
            }
            if keep {
                let ghost taken_old = taken;
                let ghost out_old = out@;
                out.push(clone_row(&self.messages[i]));
                proof {
                    taken = taken.push(self.messages@[i as int]);
                    assert(taken_old + (seq![self.messages@[i as int]] + spec_select(
                        self.messages@.take(i as int),
                        peer,
                        (limit - out@.len()) as nat,
                    )) =~= taken + spec_select(
                        self.messages@.take(i as int),
                        peer,
                        (limit - out@.len()) as nat,
                    ));
                }
            }
        }
        proof {
            if i == 0 {
                assert(self.messages@.take(0) =~= Seq::<StoredMessage>::empty());
            }
            assert(spec_select(self.messages_view(), peer, limit as nat) =~= taken);
        }
        Ok(out)
    }

    /// Mark the message with identifier `msg_id` as read; the result tells
    /// whether such a row exists.
    pub fn mark_as_read(&mut self, msg_id: &str) -> (r: Result<bool, StorageError>)
        requires
            old(self).wf(),
        ensures
            final(self).wf(),
            r == Ok::<bool, StorageError>(seq_has_id(old(self).messages_view(), msg_id@)),
            final(self).contacts_view() == old(self).contacts_view(),
            final(self).messages_view().len() == old(self).messages_view().len(),
            forall|j: int|
                0 <= j < old(self).messages_view().len() ==> if old(self).messages_view()[j].id@ == msg_id@ {
                    row_like(
                        #[trigger] final(self).messages_view()[j],
                        StoredMessage {
                            is_read: true,
                            ..old(self).messages_view()[j]
                        },
                    )
                } else {
                    final(self).messages_view()[j] == old(self).messages_view()[j]
                },
    {
        let n = self.messages.len();
        let mut i: usize = 0;
        while i < n
            invariant
                old(self).wf(),
                self.messages@.len() == n,
                i <= n,
                forall|j: int| 0 <= j < i ==> self.messages@[j].id@ != msg_id@,
                *self == *old(self),
            decreases n - i,
        {
            if str_eq(self.messages[i].id.as_str(), msg_id) {
                let row = clone_row_read(&self.messages[i]);
                self.messages.set(i, row);
                proof {
                    assert(seq_has_id(old(self).messages_view(), msg_id@));
                    assert(final(self).messages_view()[i as int].id@ == msg_id@);
                }
                return Ok(true);
            }
            i = i + 1;
        }
        Ok(false)
    }

    /// Insert or refresh a contact; its last-seen time becomes the current
    /// clock reading.
    pub fn add_contact(
        &mut self,
        onion_address: &str,
        nickname: Option<&str>,
        public_key: Option<&str>,
    ) -> (r: Result<bool, StorageError>)
        requires
            old(self).wf(),
        ensures
            final(self).wf(),
            r == Ok::<bool, StorageError>(true),
            final(self).messages_view() == old(self).messages_view(),
            seq_has_addr(final(self).contacts_view(), onion_address@),
            seq_has_addr(old(self).contacts_view(), onion_address@) ==> final(self).contacts_view().len() == old(self).contacts_view().len(),
            !seq_has_addr(old(self).contacts_view(), onion_address@) ==> final(self).contacts_view().len() == old(self).contacts_view().len() + 1,
            forall|j: int|
                0 <= j < final(self).contacts_view().len() ==> (#[trigger] final(self).contacts_view()[j]).onion_address@ == onion_address@ ==> {
                    &&& (match final(self).contacts_view()[j].nickname {
                        Some(s) => nickname matches Some(a) && s@ == a@,
                        None => nickname is None,
                    })
                    &&& (match final(self).contacts_view()[j].public_key {
                        Some(s) => public_key matches Some(a) && s@ == a@,
                        None => public_key is None,
                    })
                    &&& final(self).contacts_view()[j].last_seen is Some
                },
            forall|j: int|
                0 <= j < final(self).contacts_view().len() ==> (#[trigger] final(self).contacts_view()[j]).onion_address@ != onion_address@ ==> 0 <= j < old(self).contacts_view().len() && final(self).contacts_view()[j] == old(self).contacts_view()[j],
    {
        let last_seen = crate::trusted::now_timestamp();
        let rec = Contact {
            onion_address: onion_address.to_owned(),
            nickname: opt_owned(nickname),
            public_key: opt_owned(public_key),
            last_seen: Some(last_seen),
        };
        proof {
            assert(rec.last_seen is Some);
        }
        let n = self.contacts.len();
        let mut i: usize = 0;
        while i < n
            invariant
                old(self).wf(),
                self.contacts@.len() == n,
                i <= n,
                forall|j: int| 0 <= j < i ==> self.contacts@[j].onion_address@ != onion_address@,
                *self == *old(self),
                rec.onion_address@ == onion_address@,
                (match rec.nickname {
                    Some(s) => nickname matches Some(a) && s@ == a@,
                    None => nickname is None,
                }),
                (match rec.public_key {
                    Some(s) => public_key matches Some(a) && s@ == a@,
                    None => public_key is None,
                }),
                rec.last_seen is Some,
            decreases n - i,
        {
            if str_eq(self.contacts[i].onion_address.as_str(), onion_address) {
                self.contacts.set(i, rec);
                proof {
                    assert(seq_has_addr(old(self).contacts_view(), onion_address@));
                    assert(final(self).contacts_view()[i as int].onion_address@ == onion_address@);
                    assert(seq_has_addr(final(self).contacts_view(), onion_address@));
                }
                return Ok(true);
            }
            i = i + 1;
        }
        self.contacts.push(rec);
        proof {
            assert(!seq_has_addr(old(self).contacts_view(), onion_address@));
            assert(final(self).contacts_view()[n as int].onion_address@ == onion_address@);
            assert(seq_has_addr(final(self).contacts_view(), onion_address@));
        }
        Ok(true)
    }

    /// The contact with address `onion_address`, if present.
    pub fn get_contact(&self, onion_address: &str) -> (r: Result<Option<Contact>, StorageError>)
        ensures
            match r {
                Ok(opt) => match opt {
                    Some(c) => seq_has_addr(self.contacts_view(), onion_address@)
                        && c.onion_address@ == onion_address@ && exists|j: int|
                        0 <= j < self.contacts_view().len() && contact_like(
                            c,
                            #[trigger] self.contacts_view()[j],
                        ),
                    None => !seq_has_addr(self.contacts_view(), onion_address@),
                },
                Err(_) => false,
            },
    {
        let n = self.contacts.len();
        let mut i: usize = 0;
        while i < n
            invariant
                self.contacts@.len() == n,
                i <= n,
                forall|j: int| 0 <= j < i ==> self.contacts@[j].onion_address@ != onion_address@,
            decreases n - i,
        {
            if str_eq(self.contacts[i].onion_address.as_str(), onion_address) {
                let c = clone_contact(&self.contacts[i]);
                proof {
                    assert(contact_like(c, self.contacts_view()[i as int]));
                }
                return Ok(Some(c));
            }
            i = i + 1;
        }
        Ok(None)
    }

    /// All contacts, in insertion order; the last-seen reading on each row
    /// is advisory and imposes no order here.
    pub fn get_all_contacts(&self) -> (r: Result<Vec<Contact>, StorageError>)
        ensures
            match r {
                Ok(v) => v@.len() == self.contacts_view().len() && forall|i: int|
                    0 <= i < v@.len() ==> contact_like(#[trigger] v@[i], self.contacts_view()[i]),
                Err(_) => false,
            },
    {
        let n = self.contacts.len();
        let mut out: Vec<Contact> = Vec::new();
        let mut i: usize = 0;
        while i < n
            invariant
                self.contacts@.len() == n,
                i <= n,
                out@.len() == i,
                forall|j: int| 0 <= j < i ==> contact_like(#[trigger] out@[j], self.contacts@[j]),
            decreases n - i,
        {
            out.push(clone_contact(&self.contacts[i]));
            i = i + 1;
        }
        Ok(out)
    }

    /// Remove the contact with address `onion_address`; the result tells
    /// whether one was present.
    pub fn delete_contact(&mut self, onion_address: &str) -> (r: Result<bool, StorageError>)
        requires
            old(self).wf(),
        ensures
            final(self).wf(),
            r == Ok::<bool, StorageError>(seq_has_addr(old(self).contacts_view(), onion_address@)),
            final(self).messages_view() == old(self).messages_view(),
            final(self).contacts_view() == spec_without_contact(
                old(self).contacts_view(),
                onion_address@,
            ),
    {
        let ghost target = onion_address@;
        let mut krev: Vec<Contact> = Vec::new();
        let mut found = false;
        proof {
            assert(spec_without_contact(old(self).contacts_view(), target) =~= spec_without_contact(
                self.contacts@,
                target,
            ) + rev_seq(krev@));
        }
        while self.contacts.len() > 0
            invariant
                target == onion_address@,
                old(self).wf(),
                self.messages@ == old(self).messages_view(),
                self.db_path == old(self).db_path,
                forall|i: int, j: int|
                    #![trigger self.contacts@[i], self.contacts@[j]]
                    0 <= i < j < self.contacts@.len() ==> self.contacts@[i].onion_address@
                        != self.contacts@[j].onion_address@,
                spec_without_contact(old(self).contacts_view(), target) == spec_without_contact(
                    self.contacts@,
                    target,
                ) + rev_seq(krev@),
                found == (seq_has_addr(old(self).contacts_view(), target) && !seq_has_addr(
                    self.contacts@,
                    target,
                )),
                seq_has_addr(old(self).contacts_view(), target) || !found,
                !seq_has_addr(old(self).contacts_view(), target) ==> !found && !seq_has_addr(
                    self.contacts@,
                    target,
                ),
                seq_has_addr(old(self).contacts_view(), target) && !found ==> seq_has_addr(
                    self.contacts@,
                    target,
                ),
            decreases self.contacts@.len(),
        {
            let ghost pre = self.contacts@;
            let c = match self.contacts.pop() {
                Some(c) => c,
                None => {
                    proof {
                        assert(false);
                    }
                    return Err(StorageError::Database("empty".to_owned()));
                },
            };
            proof {
                assert(pre.drop_last() == self.contacts@);
                assert(pre.last() == c);
                assert forall|k: int|
                    0 <= k < pre.len() && #[trigger] pre[k].onion_address@ == target && c.onion_address@ == target
                    implies k == pre.len() - 1 by {}
            }
            if str_eq(c.onion_address.as_str(), onion_address) {
                found = true;
                proof {
                    assert(c.onion_address@ == target);
                    assert(pre[pre.len() - 1].onion_address@ == target);
                    assert(seq_has_addr(pre, target));
                    assert(seq_has_addr(old(self).contacts_view(), target) || !seq_has_addr(
                        pre,
                        target,
                    ));
                    assert(!seq_has_addr(self.contacts@, target));
                }
            } else {
                let ghost krev_old = krev@;
                krev.push(c);
                proof {
                    assert(c.onion_address@ != target);
                    assert(krev@.last() == c);
                    assert(krev@.drop_last() =~= krev_old);
                    assert(rev_seq(krev@) == seq![c] + rev_seq(krev@.drop_last()));
                    assert(rev_seq(krev@.drop_last()) == rev_seq(krev_old));
                    assert(spec_without_contact(pre, target) == spec_without_contact(
                        self.contacts@,
                        target,
                    ).push(c));
                    assert(spec_without_contact(self.contacts@, target).push(c) + rev_seq(krev_old)
                        =~= spec_without_contact(self.contacts@, target) + rev_seq(krev@));
                    if seq_has_addr(pre, target) {
                        let k = choose|k: int|
                            0 <= k < pre.len() && #[trigger] pre[k].onion_address@ == target;
                        assert(k < pre.len() - 1);
                        assert(self.contacts@[k].onion_address@ == target);
                        assert(seq_has_addr(self.contacts@, target));
                    }
                }
            }
        }
        proof {
            assert(self.contacts@ =~= Seq::<Contact>::empty());
            assert(spec_without_contact(self.contacts@, target) =~= Seq::<Contact>::empty());
        }
        while krev.len() > 0
            invariant
                target == onion_address@,
                old(self).wf(),
                self.messages@ == old(self).messages_view(),
                self.db_path == old(self).db_path,
                spec_without_contact(old(self).contacts_view(), target) == self.contacts@
                    + rev_seq(krev@),
                found == seq_has_addr(old(self).contacts_view(), target),
            decreases krev@.len(),
        {
            let ghost krev_pre = krev@;
            let c = match krev.pop() {
                Some(c) => c,
                None => {
                    proof {
                        assert(false);
                    }
                    return Err(StorageError::Database("empty".to_owned()));
                },
            };
            let ghost cs_pre = self.contacts@;
            self.contacts.push(c);
            proof {
                assert(krev_pre.last() == c);
                assert(krev_pre.drop_last() =~= krev@);
                assert(rev_seq(krev_pre) == seq![c] + rev_seq(krev_pre.drop_last()));
                assert(rev_seq(krev_pre.drop_last()) == rev_seq(krev@));
                assert(cs_pre + (seq![c] + rev_seq(krev@)) =~= self.contacts@ + rev_seq(krev@));
            }
        }
        proof {
            assert(rev_seq(krev@) =~= Seq::<Contact>::empty());
            assert(self.contacts@ + Seq::<Contact>::empty() =~= self.contacts@);
            assert(self.contacts@ == spec_without_contact(old(self).contacts_view(), target));
            lemma_without_contact_unique(old(self).contacts_view(), target);
        }
        Ok(found)
    }

    /// Remove every message of the conversation with `onion_address`; the
    /// result counts the removed rows.
    pub fn delete_messages_for_contact(&mut self, onion_address: &str) -> (r: Result<
        usize,
        StorageError,
    >)
        requires
            old(self).wf(),
        ensures
            final(self).wf(),
            final(self).contacts_view() == old(self).contacts_view(),
            final(self).messages_view() == spec_without(old(self).messages_view(), onion_address@),
            r matches Ok(k) && k == old(self).messages_view().len() - final(self).messages_view().len(),
    {
        let ghost target = onion_address@;
        let n0 = self.messages.len();
        let mut krev: Vec<StoredMessage> = Vec::new();
        proof {
            assert(spec_without(old(self).messages_view(), target) =~= spec_without(
                self.messages@,
                target,
            ) + rev_seq(krev@));
        }
        while self.messages.len() > 0
            invariant
                target == onion_address@,
                old(self).wf(),
                self.contacts@ == old(self).contacts_view(),
                self.db_path == old(self).db_path,
                forall|i: int, j: int|
                    #![trigger self.messages@[i], self.messages@[j]]
                    0 <= i < j < self.messages@.len() ==> self.messages@[i].id@
                        != self.messages@[j].id@,
                spec_without(old(self).messages_view(), target) == spec_without(
                    self.messages@,
                    target,
                ) + rev_seq(krev@),
            decreases self.messages@.len(),
        {
            let ghost pre = self.messages@;
            let m = match self.messages.pop() {
                Some(m) => m,
                None => {
                    proof {
                        assert(false);
                    }
                    return Err(StorageError::Database("empty".to_owned()));
                },
            };
            proof {
                assert(pre.drop_last() == self.messages@);
                assert(pre.last() == m);
            }
            let s_match = match &m.sender_id {
                Some(s) => str_eq(s.as_str(), onion_address),
                None => false,
            };
            let r_match = match &m.recipient_id {
                Some(s) => str_eq(s.as_str(), onion_address),
                None => false,
            };
            if !(s_match || r_match) {
                let ghost krev_old = krev@;
                krev.push(m);
                proof {
                    assert(!row_matches(pre.last(), Some(target)));
                    assert(krev@.last() == m);
                    assert(krev@.drop_last() =~= krev_old);
                    assert(rev_seq(krev@) == seq![m] + rev_seq(krev@.drop_last()));
                    assert(rev_seq(krev@.drop_last()) == rev_seq(krev_old));
                    assert(spec_without(pre, target) == spec_without(self.messages@, target).push(
                        m,
                    ));
                    assert(spec_without(self.messages@, target).push(m) + rev_seq(
                        krev_old,
                    ) =~= spec_without(self.messages@, target) + rev_seq(krev@));
                }
            } else {
                proof {
                    assert(row_matches(pre.last(), Some(target)));
                }
            }
        }
        proof {
            assert(self.messages@ =~= Seq::<StoredMessage>::empty());
            assert(spec_without(self.messages@, target) =~= Seq::<StoredMessage>::empty());
        }
        while krev.len() > 0
            invariant
                target == onion_address@,
                old(self).wf(),
                self.contacts@ == old(self).contacts_view(),
                self.db_path == old(self).db_path,
                spec_without(old(self).messages_view(), target) == self.messages@ + rev_seq(krev@),
            decreases krev@.len(),
        {
            let ghost krev_pre = krev@;
            let m = match krev.pop() {
                Some(m) => m,
                None => {
                    proof {
                        assert(false);
                    }
                    return Err(StorageError::Database("empty".to_owned()));
                },
            };
            let ghost ms_pre = self.messages@;
            self.messages.push(m);
            proof {
                assert(krev_pre.last() == m);
                assert(krev_pre.drop_last() =~= krev@);
                assert(rev_seq(krev_pre) == seq![m] + rev_seq(krev_pre.drop_last()));
                assert(rev_seq(krev_pre.drop_last()) == rev_seq(krev@));
                assert(ms_pre + (seq![m] + rev_seq(krev@)) =~= self.messages@ + rev_seq(krev@));
            }
        }
        proof {
            assert(rev_seq(krev@) =~= Seq::<StoredMessage>::empty());
            assert(self.messages@ + Seq::<StoredMessage>::empty() =~= self.messages@);
            assert(self.messages@ == spec_without(old(self).messages_view(), target));
            lemma_without_unique(old(self).messages_view(), target);
            lemma_without_sub(old(self).messages_view(), target);
        }
        let n1 = self.messages.len();
        Ok(n0 - n1)
    }

    /// Remove the conversation with a contact, keeping the contact.
    pub fn clear_chat(&mut self, onion_address: &str) -> (r: Result<usize, StorageError>)
        requires
            old(self).wf(),
        ensures
            final(self).wf(),
            final(self).contacts_view() == old(self).contacts_view(),
            final(self).messages_view() == spec_without(old(self).messages_view(), onion_address@),
            r matches Ok(k) && k == old(self).messages_view().len() - final(self).messages_view().len(),
    {
        self.delete_messages_for_contact(onion_address)
    }

    /// Remove a contact together with its conversation.
    pub fn delete_chat(&mut self, onion_address: &str) -> (r: Result<bool, StorageError>)
        requires
            old(self).wf(),
        ensures
            final(self).wf(),
            final(self).messages_view() == spec_without(old(self).messages_view(), onion_address@),
            final(self).contacts_view() == spec_without_contact(
                old(self).contacts_view(),
                onion_address@,
            ),
            r == Ok::<bool, StorageError>(seq_has_addr(old(self).contacts_view(), onion_address@)),
    {
        match self.delete_messages_for_contact(onion_address) {
            Ok(_) => {},
            Err(e) => {
                proof {
                    assert(false);
                }
                return Err(e);
            },
        }
        self.delete_contact(onion_address)
    }

    /// Remove everything: all messages and all contacts.
    pub fn wipe(&mut self) -> (r: Result<(), StorageError>)
        ensures
            final(self).wf(),
            final(self).messages_view().len() == 0,
            final(self).contacts_view().len() == 0,
            r is Ok,
    {
        self.messages = Vec::new();
        self.contacts = Vec::new();
        Ok(())
    }
}

/// Removing a conversation keeps identifiers unique and never grows the
/// store.
proof fn lemma_without_unique(msgs: Seq<StoredMessage>, peer: Seq<char>)
    requires
        forall|i: int, j: int|
            #![trigger msgs[i], msgs[j]]
            0 <= i < j < msgs.len() ==> msgs[i].id@ != msgs[j].id@,
    ensures
        forall|i: int, j: int|
            #![trigger spec_without(msgs, peer)[i], spec_without(msgs, peer)[j]]
            0 <= i < j < spec_without(msgs, peer).len() ==> spec_without(msgs, peer)[i].id@
                != spec_without(msgs, peer)[j].id@,
    decreases msgs.len(),
{
    if msgs.len() > 0 {
        assert(forall|i: int, j: int|
            #![trigger msgs.drop_last()[i], msgs.drop_last()[j]]
            0 <= i < j < msgs.drop_last().len() ==> msgs.drop_last()[i].id@
                != msgs.drop_last()[j].id@);
        lemma_without_unique(msgs.drop_last(), peer);
        lemma_without_sub(msgs.drop_last(), peer);
        if !row_matches(msgs.last(), Some(peer)) {
            let f = spec_without(msgs, peer);
            let fd = spec_without(msgs.drop_last(), peer);
            assert forall|i: int, j: int|
                #![trigger f[i], f[j]]
                0 <= i < j < f.len() implies f[i].id@ != f[j].id@ by {
                if j < fd.len() {
                } else {
                    assert(f[j] == msgs.last());
                    lemma_without_member(msgs.drop_last(), peer, i);
                }
            }
        }
    }
}

/// Each row of the filtered store is a row of the store.
proof fn lemma_without_member(msgs: Seq<StoredMessage>, peer: Seq<char>, i: int)
    requires
        0 <= i < spec_without(msgs, peer).len(),
    ensures
        exists|k: int| 0 <= k < msgs.len() && #[trigger] msgs[k] == spec_without(msgs, peer)[i],
    decreases msgs.len(),
{
    if msgs.len() > 0 {
        let fd = spec_without(msgs.drop_last(), peer);
        if !row_matches(msgs.last(), Some(peer)) && i == fd.len() {
            assert(msgs[msgs.len() - 1] == spec_without(msgs, peer)[i]);
        } else {
            lemma_without_member(msgs.drop_last(), peer, i);
            let k = choose|k: int|
                0 <= k < msgs.drop_last().len() && #[trigger] msgs.drop_last()[k] == fd[i];
            assert(msgs[k] == spec_without(msgs, peer)[i]);
        }
    }
}

/// The filtered store is no longer than the store.
proof fn lemma_without_sub(msgs: Seq<StoredMessage>, peer: Seq<char>)
    ensures
        spec_without(msgs, peer).len() <= msgs.len(),
    decreases msgs.len(),
{
    if msgs.len() > 0 {
        lemma_without_sub(msgs.drop_last(), peer);
    }
}

/// Removing a contact keeps addresses unique.
proof fn lemma_without_contact_unique(cs: Seq<Contact>, addr: Seq<char>)
    requires
        forall|i: int, j: int|
            #![trigger cs[i], cs[j]]
            0 <= i < j < cs.len() ==> cs[i].onion_address@ != cs[j].onion_address@,
    ensures
        forall|i: int, j: int|
            #![trigger spec_without_contact(cs, addr)[i], spec_without_contact(cs, addr)[j]]
            0 <= i < j < spec_without_contact(cs, addr).len() ==> spec_without_contact(
                cs,
                addr,
            )[i].onion_address@ != spec_without_contact(cs, addr)[j].onion_address@,
        spec_without_contact(cs, addr).len() <= cs.len(),
    decreases cs.len(),
{
    if cs.len() > 0 {
        assert(forall|i: int, j: int|
            #![trigger cs.drop_last()[i], cs.drop_last()[j]]
            0 <= i < j < cs.drop_last().len() ==> cs.drop_last()[i].onion_address@
                != cs.drop_last()[j].onion_address@);
        lemma_without_contact_unique(cs.drop_last(), addr);
        if cs.last().onion_address@ != addr {
            let f = spec_without_contact(cs, addr);
            let fd = spec_without_contact(cs.drop_last(), addr);
            assert forall|i: int, j: int|
                #![trigger f[i], f[j]]
                0 <= i < j < f.len() implies f[i].onion_address@ != f[j].onion_address@ by {
                if j < fd.len() {
                } else {
                    assert(f[j] == cs.last());
                    lemma_without_contact_member(cs.drop_last(), addr, i);
                }
            }
        }
    }
}

/// The filtered store no longer holds the removed address.
pub proof fn lemma_without_contact_absent(cs: Seq<Contact>, addr: Seq<char>)
    ensures
        !seq_has_addr(spec_without_contact(cs, addr), addr),
    decreases cs.len(),
{
    if cs.len() > 0 {
        lemma_without_contact_absent(cs.drop_last(), addr);
        let f = spec_without_contact(cs, addr);
        let fd = spec_without_contact(cs.drop_last(), addr);
        if cs.last().onion_address@ != addr {
            assert forall|k: int| 0 <= k < f.len() implies (#[trigger] f[k]).onion_address@
                != addr by {
                if k < fd.len() {
                    assert(f[k] == fd[k]);
                    assert(!seq_has_addr(fd, addr));
                } else {
                    assert(f[k] == cs.last());
                }
            }
        }
    }
}

/// Each contact of the filtered store is a contact of the store.
proof fn lemma_without_contact_member(cs: Seq<Contact>, addr: Seq<char>, i: int)
    requires
        0 <= i < spec_without_contact(cs, addr).len(),
    ensures
        exists|k: int|
            0 <= k < cs.len() && #[trigger] cs[k] == spec_without_contact(cs, addr)[i],
    decreases cs.len(),
{
    if cs.len() > 0 {
        let fd = spec_without_contact(cs.drop_last(), addr);
        if cs.last().onion_address@ != addr && i == fd.len() {
            assert(cs[cs.len() - 1] == spec_without_contact(cs, addr)[i]);
        } else {
            lemma_without_contact_member(cs.drop_last(), addr, i);
            let k = choose|k: int|
                0 <= k < cs.drop_last().len() && #[trigger] cs.drop_last()[k] == fd[i];
            assert(cs[k] == spec_without_contact(cs, addr)[i]);
        }
    }
}

/// Equality of two strings by their characters.
pub fn str_eq(a: &str, b: &str) -> (r: bool)
    ensures
        r == (a@ == b@),
{
    let av: Vec<u8> = a.as_bytes_vec();
    let bv: Vec<u8> = b.as_bytes_vec();
    let r = util::bytes_eq(&av, &bv);
    proof {
        if av@ == bv@ {
            assert(crate::crypto::str_bytes(a@) == crate::crypto::str_bytes(b@));
            crate::crypto::lemma_utf8_unique(a@);
            assert(a@ == b@);
        }
    }
    r
}

/// An owned copy of an optional borrowed string.
fn opt_owned(o: Option<&str>) -> (r: Option<String>)
    ensures
        match r {
            Some(s) => o matches Some(a) && s@ == a@,
            None => o is None,
        },
{
    match o {
        Some(s) => Some(s.to_owned()),
        None => None,
    }
}

/// A copy of an optional string with the same characters.
fn clone_opt(o: &Option<String>) -> (r: Option<String>)
    ensures
        match r {
            Some(s) => o matches Some(a) && s@ == a@,
            None => o is None,
        },
{
    match o {
        Some(s) => Some(s.clone()),
        None => None,
    }
}

/// A field-exact copy of a stored row.
fn clone_row(m: &StoredMessage) -> (r: StoredMessage)
    ensures
        row_like(r, *m),
{
    StoredMessage {
        id: m.id.clone(),
        msg_type: m.msg_type.clone(),
        sender_id: clone_opt(&m.sender_id),
        recipient_id: clone_opt(&m.recipient_id),
        payload: m.payload.clone(),
        timestamp: m.timestamp,
        is_sent: m.is_sent,
        is_read: m.is_read,
    }
}

/// A copy of a stored row with the read flag set.
fn clone_row_read(m: &StoredMessage) -> (r: StoredMessage)
    ensures
        row_like(r, StoredMessage { is_read: true, ..*m }),
{
    StoredMessage {
        id: m.id.clone(),
        msg_type: m.msg_type.clone(),
        sender_id: clone_opt(&m.sender_id),
        recipient_id: clone_opt(&m.recipient_id),
        payload: m.payload.clone(),
        timestamp: m.timestamp,
        is_sent: m.is_sent,
        is_read: true,
    }
}

/// A copy of a contact with the same field characters.
fn clone_contact(c: &Contact) -> (r: Contact)
    ensures
        contact_like(r, *c),
{
    Contact {
        onion_address: c.onion_address.clone(),
        nickname: clone_opt(&c.nickname),
        public_key: clone_opt(&c.public_key),
        last_seen: c.last_seen,
    }
}

} // verus!
