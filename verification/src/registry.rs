use vstd::prelude::*;
use crate::ext::{
    decision_channel, new_prompt_id, send_decision, shutdown_channel, switch_send,
    DecisionReceiver,
};
use crate::messages::{
    is_timeout_deny, timeout_response, PermissionPromptEvent, PermissionRequest,
    PermissionResponse,
};
use crate::pending::PendingTable;

verus! {

/// One live session endpoint: the bound port (immutable for the endpoint's
/// lifetime), the table of suspended requests, the shutdown switch of its
/// listener, the launch artifacts registered for later cleanup, and the
/// session identifier that freshly emitted notifications carry — rewritten in
/// place by a re-key.
pub struct PermissionServerEntry {
    pub port: u16,
    pub pending: PendingTable,
    pub shutdown_tx: tokio::sync::watch::Sender<bool>,
    pub mcp_config_path: String,
    pub mcp_script_path: String,
    pub session_id: String,
}

/// The mathematical content of a session endpoint: everything the broker's
/// contracts speak about. The shutdown switch and the decision slots are
/// opaque and have no model beyond the set of pending prompt identifiers.
pub struct EntryModel {
    pub port: u16,
    pub pending: Set<Seq<char>>,
    pub session_id: Seq<char>,
    pub config_path: Seq<char>,
    pub script_path: Seq<char>,
}

impl View for PermissionServerEntry {
    type V = EntryModel;

    open spec fn view(&self) -> EntryModel {
        EntryModel {
            port: self.port,
            pending: self.pending@,
            session_id: self.session_id@,
            config_path: self.mcp_config_path@,
            script_path: self.mcp_script_path@,
        }
    }
}

/// The process-wide registry state, abstractly: session identifier to
/// endpoint model, keys unique, no ordering significance.
pub type RegistryModel = Map<Seq<char>, EntryModel>;

/// A freshly started endpoint's model: no pending prompt, no artifacts yet,
/// notifications carrying the identifier it started under.
pub open spec fn fresh_entry_model(sid: Seq<char>, port: u16) -> EntryModel {
    EntryModel {
        port,
        pending: Set::empty(),
        session_id: sid,
        config_path: Seq::empty(),
        script_path: Seq::empty(),
    }
}

/// `e` with its pending set replaced.
pub open spec fn entry_with_pending(e: EntryModel, pending: Set<Seq<char>>) -> EntryModel {
    EntryModel {
        port: e.port,
        pending,
        session_id: e.session_id,
        config_path: e.config_path,
        script_path: e.script_path,
    }
}

/// `e` relocated under a new identity: port, pending table and artifacts
/// undisturbed, only the identifier carried by future notifications changes.
pub open spec fn rekeyed_entry(e: EntryModel, sid: Seq<char>) -> EntryModel {
    EntryModel {
        port: e.port,
        pending: e.pending,
        session_id: sid,
        config_path: e.config_path,
        script_path: e.script_path,
    }
}

/// `e` with its launch artifact locations recorded.
pub open spec fn entry_with_paths(e: EntryModel, config: Seq<char>, script: Seq<char>) -> EntryModel {
    EntryModel {
        port: e.port,
        pending: e.pending,
        session_id: e.session_id,
        config_path: config,
        script_path: script,
    }
}

/// Some live endpoint listens on `port`.
pub open spec fn has_port(m: RegistryModel, port: u16) -> bool {
    exists|k: Seq<char>| m.contains_key(k) && m[k].port == port
}

/// The session that owns `port` (meaningful when `has_port` holds: live
/// ports are distinct, so the owner is unique).
pub open spec fn port_owner(m: RegistryModel, port: u16) -> Seq<char> {
    choose|k: Seq<char>| m.contains_key(k) && m[k].port == port
}

/// `port` is not held by any live endpoint other than `sid`'s.
pub open spec fn port_available(m: RegistryModel, sid: Seq<char>, port: u16) -> bool {
    forall|k: Seq<char>| m.contains_key(k) && k != sid ==> m[k].port != port
}

/// Starting a session registers a fresh endpoint under its identifier,
/// replacing a previous endpoint of the same identifier if one was live.
pub open spec fn spec_start(m: RegistryModel, sid: Seq<char>, port: u16) -> RegistryModel {
    m.insert(sid, fresh_entry_model(sid, port))
}

/// Stopping a session removes its endpoint; stopping an unknown session
/// changes nothing.
pub open spec fn spec_stop(m: RegistryModel, sid: Seq<char>) -> RegistryModel {
    m.remove(sid)
}

/// Re-keying relocates the endpoint under the new identifier and rewrites
/// the identifier its notifications carry; with an unknown old identifier
/// nothing changes.
pub open spec fn spec_rekey(m: RegistryModel, old_id: Seq<char>, new_id: Seq<char>) -> RegistryModel {
    if m.contains_key(old_id) {
        m.remove(old_id).insert(new_id, rekeyed_entry(m[old_id], new_id))
    } else {
        m
    }
}

/// Recording launch artifacts rewrites the endpoint's artifact locations.
pub open spec fn spec_set_paths(
    m: RegistryModel,
    sid: Seq<char>,
    config: Seq<char>,
    script: Seq<char>,
) -> RegistryModel {
    if m.contains_key(sid) {
        m.insert(sid, entry_with_paths(m[sid], config, script))
    } else {
        m
    }
}

/// Opening a prompt adds its identifier to the owning session's pending set.
pub open spec fn spec_open(m: RegistryModel, sid: Seq<char>, pid: Seq<char>) -> RegistryModel {
    if m.contains_key(sid) {
        m.insert(sid, entry_with_pending(m[sid], m[sid].pending.insert(pid)))
    } else {
        m
    }
}

/// A timed-out prompt leaves its session's pending set; the session itself
/// stays live.
pub open spec fn spec_timeout(m: RegistryModel, sid: Seq<char>, pid: Seq<char>) -> RegistryModel {
    if m.contains_key(sid) {
        m.insert(sid, entry_with_pending(m[sid], m[sid].pending.remove(pid)))
    } else {
        m
    }
}

/// A resolution removes the prompt from its session's pending set the
/// instant the decision is handed to the slot; any failed lookup leaves the
/// registry untouched.
pub open spec fn spec_resolve(m: RegistryModel, sid: Seq<char>, pid: Seq<char>) -> RegistryModel {
    if m.contains_key(sid) && m[sid].pending.contains(pid) {
        m.insert(sid, entry_with_pending(m[sid], m[sid].pending.remove(pid)))
    } else {
        m
    }
}

/// What `open_prompt` promises when the port is live: the registry takes the
/// new prompt under the port's owner, and the notification carries the
/// broker-minted prompt identifier, the owner's identifier as it stands at
/// emission time, and the request's tool name and input.
pub open spec fn open_prompt_post(
    pre: RegistryModel,
    port: u16,
    request: PermissionRequest,
    pid: Seq<char>,
    ev: PermissionPromptEvent,
    post: RegistryModel,
) -> bool {
    let sid = port_owner(pre, port);
    &&& post == spec_open(pre, sid, pid)
    &&& ev.prompt_id@ == pid
    &&& ev.session_id@ == sid
    &&& ev.tool_name@ == request.tool_name@
    &&& ev.input@ == request.input@
    &&& pid.len() == 36
}

/// Why a resolution was not delivered. Timeout is not here: it is a normal
/// outcome, not an error.
#[derive(Debug, Clone, Copy, PartialEq, Eq)]
pub enum ResolveError {
    /// No endpoint is registered under the session identifier.
    SessionNotFound,
    /// The prompt is not pending for that endpoint: already resolved, timed
    /// out, or never existed.
    PromptNotFound,
    /// The slot's receiving side was already dropped (endpoint shutting down
    /// mid-resolve); non-fatal, the request sees a denial anyway.
    DeliveryFailure,
}

/// Process-wide map from session identifier to live endpoint: the single
/// source of truth for "is this session's broker alive and where". At most
/// one live endpoint per identifier, and live ports are distinct.
pub struct PermissionServerRegistry {
    servers: Vec<(String, PermissionServerEntry)>,
}

impl View for PermissionServerRegistry {
    type V = RegistryModel;

    closed spec fn view(&self) -> RegistryModel {
        Map::new(
            |sid: Seq<char>| self.key_seq().contains(sid),
            |sid: Seq<char>| self.servers@[self.index_of(sid)].1@,
        )
    }
}

impl PermissionServerRegistry {
    /// The registered session identifiers, in storage order.
    spec fn key_seq(self) -> Seq<Seq<char>> {
        self.servers@.map(|i: int, p: (String, PermissionServerEntry)| p.0@)
    }

    /// Where `sid` is stored.
    spec fn index_of(self, sid: Seq<char>) -> int {
        choose|i: int| 0 <= i < self.key_seq().len() && self.key_seq()[i] == sid
    }

    /// The registry's invariant: unique session identifiers, distinct live
    /// ports, well-formed pending tables, and each endpoint's own identifier
    /// field agreeing with the key it is registered under.
    pub closed spec fn wf(self) -> bool {
        &&& forall|i: int, j: int|
            0 <= i < j < self.key_seq().len() ==> self.key_seq()[i] != self.key_seq()[j]
        &&& forall|i: int, j: int|
            0 <= i < j < self.servers@.len() ==> self.servers@[i].1.port != self.servers@[j].1.port
        &&& forall|i: int| 0 <= i < self.servers@.len() ==> self.servers@[i].1.pending.wf()
        &&& forall|i: int|
            0 <= i < self.servers@.len() ==> self.servers@[i].1.session_id@ == self.servers@[i].0@
    }

    /// Storage position `i` holds the entry the model associates with its key.
    proof fn lemma_at_index(self, i: int)
        requires
            forall|x: int, y: int|
                0 <= x < y < self.key_seq().len() ==> self.key_seq()[x] != self.key_seq()[y],
            0 <= i < self.key_seq().len(),
        ensures
            self@.contains_key(self.key_seq()[i]),
            self.index_of(self.key_seq()[i]) == i,
            self@[self.key_seq()[i]] == self.servers@[i].1@,
    {
        assert(self.key_seq()[i] == self.key_seq()[i]);
        let w = self.index_of(self.key_seq()[i]);
        assert(0 <= w < self.key_seq().len() && self.key_seq()[w] == self.key_seq()[i]);
        if w != i {
            assert(false);
        }
    }

    /// A key the model contains sits at its unique storage position.
    proof fn lemma_at_key(self, sid: Seq<char>)
        requires
            forall|x: int, y: int|
                0 <= x < y < self.key_seq().len() ==> self.key_seq()[x] != self.key_seq()[y],
            self@.contains_key(sid),
        ensures
            0 <= self.index_of(sid) < self.key_seq().len(),
            self.key_seq()[self.index_of(sid)] == sid,
            self@[sid] == self.servers@[self.index_of(sid)].1@,
    {
    }

    /// The invariant, read at the model's level: endpoints carry the
    /// identifier they are registered under, and live ports are distinct.
    proof fn lemma_view_facts(self)
        requires
            self.wf(),
        ensures
            forall|k: Seq<char>| self@.contains_key(k) ==> #[trigger] self@[k].session_id == k,
            forall|k1: Seq<char>, k2: Seq<char>|
                self@.contains_key(k1) && self@.contains_key(k2) && k1 != k2 ==> self@[k1].port
                    != self@[k2].port,
    {
        assert forall|k: Seq<char>| self@.contains_key(k) implies #[trigger] self@[k].session_id
            == k by {
            self.lemma_at_key(k);
        }
        assert forall|k1: Seq<char>, k2: Seq<char>|
            self@.contains_key(k1) && self@.contains_key(k2) && k1 != k2 implies self@[k1].port
            != self@[k2].port by {
            self.lemma_at_key(k1);
            self.lemma_at_key(k2);
            let w1 = self.index_of(k1);
            let w2 = self.index_of(k2);
            assert(w1 != w2);
        }
    }

    /// An empty registry: no session is live.
    pub fn new() -> (r: PermissionServerRegistry)
        ensures
            r.wf(),
            r@ == Map::<Seq<char>, EntryModel>::empty(),
    {
        let r = PermissionServerRegistry { servers: Vec::new() };
        proof {
            assert(r@ =~= Map::<Seq<char>, EntryModel>::empty());
        }
        r
    }

    /// Where `sid` is stored, if anywhere.
    fn find_index(&self, session_id: &String) -> (r: Option<usize>)
        ensures
            match r {
                Some(i) => 0 <= i < self.key_seq().len() && self.key_seq()[i as int]
                    == session_id@,
                None => !self@.contains_key(session_id@),
            },
    {
        let mut i: usize = 0;
        while i < self.servers.len()
            invariant
                0 <= i <= self.servers@.len(),
                forall|j: int| 0 <= j < i ==> self.key_seq()[j] != session_id@,
            decreases self.servers@.len() - i,
        {
            let p = &self.servers[i];
            if p.0 == *session_id {
                return Some(i);
            }
            i += 1;
        }
        None
    }

    /// Where the endpoint listening on `port` is stored, if any is.
    fn find_port_index(&self, port: u16) -> (r: Option<usize>)
        ensures
            match r {
                Some(i) => 0 <= i < self.servers@.len() && self.servers@[i as int].1.port == port,
                None => !has_port(self@, port),
            },
    {
        let mut i: usize = 0;
        while i < self.servers.len()
            invariant
                0 <= i <= self.servers@.len(),
                forall|j: int| 0 <= j < i ==> self.servers@[j].1.port != port,
            decreases self.servers@.len() - i,
        {
            let p = &self.servers[i];
            if p.1.port == port {
                return Some(i);
            }
            i += 1;
        }
        proof {
            assert forall|k: Seq<char>| !(self@.contains_key(k) && self@[k].port == port) by {
                if self@.contains_key(k) {
                    let w = choose|w: int|
                        0 <= w < self.key_seq().len() && self.key_seq()[w] == k;
                    assert(self@[k] == self.servers@[self.index_of(k)].1@);
                    assert(self.key_seq()[self.index_of(k)] == k);
                }
            }
        }
        None
    }

    /// Removes and returns the pair at storage position `i`.
    fn take_at(&mut self, i: usize) -> (r: (String, PermissionServerEntry))
        requires
            old(self).wf(),
            i < old(self).servers@.len(),
        ensures
            final(self).wf(),
            r.0@ == old(self).key_seq()[i as int],
            old(self)@.contains_key(r.0@),
            r.1@ == old(self)@[r.0@],
            r.1.pending.wf(),
            r.1.session_id@ == r.0@,
            final(self)@ == old(self)@.remove(r.0@),
    {
        let pair = self.servers.remove(i);
        proof {
            let pre = *old(self);
            let post = *self;
            let id = pre.key_seq()[i as int];
            pre.lemma_at_index(i as int);
            assert(post.key_seq().len() == pre.key_seq().len() - 1);
            assert forall|j: int|
                0 <= j < post.key_seq().len() implies post.key_seq()[j] == (if j < i {
                pre.key_seq()[j]
            } else {
                pre.key_seq()[j + 1]
            }) by {
                assert(post.servers@[j] == (if j < i {
                    pre.servers@[j]
                } else {
                    pre.servers@[j + 1]
                }));
            }
            assert forall|j: int, k: int|
                0 <= j < k < post.key_seq().len() implies post.key_seq()[j]
                != post.key_seq()[k] by {
                if j < i && k < i {
                } else if j < i {
                    assert(post.key_seq()[k] == pre.key_seq()[k + 1]);
                } else {
                    assert(post.key_seq()[j] == pre.key_seq()[j + 1]);
                    assert(post.key_seq()[k] == pre.key_seq()[k + 1]);
                }
            }
            assert(post.wf());
            assert forall|x: Seq<char>|
                post@.contains_key(x) implies pre@.remove(id).contains_key(x) && post@[x]
                == pre@.remove(id)[x] by {
                post.lemma_at_key(x);
                let w = post.index_of(x);
                let v = if w < i {
                    w
                } else {
                    w + 1
                };
                assert(post.servers@[w] == pre.servers@[v]);
                assert(pre.key_seq()[v] == x);
                pre.lemma_at_index(v);
                if x == id {
                    assert(pre.key_seq()[v] == pre.key_seq()[i as int] && v != i);
                    assert(false);
                }
            }
            assert forall|x: Seq<char>| pre@.remove(id).contains_key(x) implies post@.contains_key(
                x,
            ) by {
                pre.lemma_at_key(x);
                let w = pre.index_of(x);
                assert(w != i);
                if w < i {
                    assert(post.key_seq()[w] == x);
                } else {
                    assert(post.key_seq()[w - 1] == x);
                }
                assert(post.key_seq().contains(x));
            }
            assert(post@ =~= pre@.remove(id));
        }
        pair
    }

    /// Appends an entry under a key not yet registered.
    fn put(&mut self, session_id: String, entry: PermissionServerEntry)
        requires
            old(self).wf(),
            !old(self)@.contains_key(session_id@),
            entry.pending.wf(),
            entry.session_id@ == session_id@,
            forall|k: Seq<char>|
                old(self)@.contains_key(k) ==> old(self)@[k].port != entry.port,
        ensures
            final(self).wf(),
            final(self)@ == old(self)@.insert(session_id@, entry@),
    {
        let ghost id = session_id@;
        let ghost v = entry;
        self.servers.push((session_id, entry));
        proof {
            let pre = *old(self);
            let post = *self;
            let n = pre.key_seq().len() as int;
            assert(post.servers@ == pre.servers@.push((
                post.servers@[n].0,
                post.servers@[n].1,
            )));
            assert forall|j: int| 0 <= j < n implies post.key_seq()[j] == pre.key_seq()[j] by {
                assert(post.servers@[j] == pre.servers@[j]);
            }
            assert(post.key_seq()[n] == id);
            assert(!pre.key_seq().contains(id));
            assert forall|j: int, k: int|
                0 <= j < k < post.key_seq().len() implies post.key_seq()[j]
                != post.key_seq()[k] by {
                if k == n {
                    if post.key_seq()[j] == id {
                        assert(pre.key_seq()[j] == id);
                        assert(pre.key_seq().contains(id));
                    }
                }
            }
            assert forall|j: int, k: int|
                0 <= j < k < post.servers@.len() implies post.servers@[j].1.port
                != post.servers@[k].1.port by {
                if k == n {
                    pre.lemma_at_index(j);
                }
            }
            assert(post.wf());
            assert forall|x: Seq<char>|
                post@.contains_key(x) implies pre@.insert(id, v@).contains_key(x) && post@[x]
                == pre@.insert(id, v@)[x] by {
                post.lemma_at_key(x);
                let w = post.index_of(x);
                if w == n {
                    assert(x == id);
                    assert(post@[x] == v@);
                } else {
                    assert(pre.key_seq()[w] == x);
                    pre.lemma_at_index(w);
                    if x == id {
                        assert(pre.key_seq().contains(id));
                        assert(false);
                    }
                }
            }
            assert forall|x: Seq<char>| pre@.insert(id, v@).contains_key(x)
                implies post@.contains_key(x) by {
                if x == id {
                    assert(post.key_seq()[n] == x);
                } else {
                    pre.lemma_at_key(x);
                    let w = pre.index_of(x);
                    assert(post.key_seq()[w] == x);
                }
                assert(post.key_seq().contains(x));
            }
            assert(post@ =~= pre@.insert(id, v@));
        }
    }

    /// Registers a freshly bound endpoint under `session_id`: no pending
    /// prompt, no launch artifacts yet. A previous endpoint under the same
    /// identifier is replaced; dropping it closes its shutdown switch, which
    /// stops its listener. Returns the receiver on which the new listener's
    /// serving loop awaits shutdown — or `None` when the port is already
    /// held by a different live session, which bound ports make impossible.
    pub fn start_server(&mut self, session_id: &String, port: u16) -> (r: Option<
        tokio::sync::watch::Receiver<bool>,
    >)
        requires
            old(self).wf(),
        ensures
            final(self).wf(),
            port_available(old(self)@, session_id@, port) ==> r is Some && final(self)@
                == spec_start(old(self)@, session_id@, port),
            !port_available(old(self)@, session_id@, port) ==> r is None && *final(self) == *old(
                self,
            ),
    {
        proof {
            old(self).lemma_view_facts();
        }
        match self.find_port_index(port) {
            Some(j) => {
                proof {
                    old(self).lemma_at_index(j as int);
                }
                if !(self.servers[j].0 == *session_id) {
                    proof {
                        let holder = old(self).key_seq()[j as int];
                        assert(old(self)@.contains_key(holder) && holder != session_id@
                            && old(self)@[holder].port == port);
                    }
                    return None;
                }
            },
            None => {},
        }
        proof {
            assert(port_available(old(self)@, session_id@, port));
        }
        match self.find_index(session_id) {
            Some(i) => {
                let _replaced = self.take_at(i);
            },
            None => {},
        }
        let ghost mid = *self;
        let (shutdown_tx, shutdown_rx) = shutdown_channel(false);
        let entry = PermissionServerEntry {
            port,
            pending: PendingTable::new(),
            shutdown_tx,
            mcp_config_path: String::new(),
            mcp_script_path: String::new(),
            session_id: session_id.clone(),
        };
        proof {
            assert(entry@ =~= fresh_entry_model(session_id@, port));
            assert forall|k: Seq<char>|
                mid@.contains_key(k) implies mid@[k].port != entry.port by {}
        }
        self.put(session_id.clone(), entry);
        proof {
            assert(self@ =~= spec_start(old(self)@, session_id@, port));
        }
        Some(shutdown_rx)
    }

    /// Records the launch artifacts produced for `session_id`, so that a
    /// later stop can clean them up; with an unknown identifier nothing
    /// changes. Ordering contract of the lifecycle: artifacts exist only
    /// after the port is known, hence only after the endpoint is registered.
    pub fn set_mcp_paths(&mut self, session_id: &String, config_path: String, script_path: String)
        requires
            old(self).wf(),
        ensures
            final(self).wf(),
            final(self)@ == spec_set_paths(old(self)@, session_id@, config_path@, script_path@),
    {
        proof {
            old(self).lemma_view_facts();
        }
        match self.find_index(session_id) {
            Some(i) => {
                proof {
                    old(self).lemma_at_index(i as int);
                }
                let (key, mut entry) = self.take_at(i);
                entry.mcp_config_path = config_path;
                entry.mcp_script_path = script_path;
                self.put(key, entry);
                proof {
                    assert(self@ =~= spec_set_paths(
                        old(self)@,
                        session_id@,
                        config_path@,
                        script_path@,
                    ));
                }
            },
            None => {},
        }
    }

    /// The state half of serving one approval request on the endpoint bound
    /// to `port`: mints a prompt identifier, creates the single-use decision
    /// slot, enters it in the owner's pending table, and builds the
    /// notification from the owner's identifier as it stands now — a re-key
    /// that happened before this point is visible in the emitted payload.
    /// Returns the prompt identifier, the receiver the request suspends on,
    /// and the notification; `None` when no live endpoint holds the port
    /// (the session was stopped while the request was in flight).
    pub fn open_prompt(&mut self, port: u16, request: PermissionRequest) -> (r: Option<
        (String, DecisionReceiver, PermissionPromptEvent),
    >)
        requires
            old(self).wf(),
        ensures
            final(self).wf(),
            !has_port(old(self)@, port) ==> r is None && *final(self) == *old(self),
            has_port(old(self)@, port) ==> (r matches Some(t) && open_prompt_post(
                old(self)@,
                port,
                request,
                t.0@,
                t.2,
                final(self)@,
            )),
    {
        proof {
            old(self).lemma_view_facts();
        }
        match self.find_port_index(port) {
            None => None,
            Some(i) => {
                proof {
                    old(self).lemma_at_index(i as int);
                }
                let (key, mut entry) = self.take_at(i);
                let pid = new_prompt_id();
                let (slot_tx, slot_rx) = decision_channel();
                entry.pending.insert(pid.clone(), slot_tx);
                let event = PermissionPromptEvent {
                    prompt_id: pid.clone(),
                    session_id: entry.session_id.clone(),
                    tool_name: request.tool_name,
                    input: request.input,
                };
                self.put(key, entry);
                proof {
                    let o = port_owner(old(self)@, port);
                    assert(old(self)@.contains_key(key@) && old(self)@[key@].port == port);
                    assert(o == key@);
                    assert(self@ =~= spec_open(old(self)@, key@, pid@));
                }
                Some((pid, slot_rx, event))
            },
        }
    }

    /// The timeout half of serving one approval request: called when the
    /// wait on the decision slot elapsed (or the slot's sender was dropped
    /// by a shutdown) — removes the prompt, if it is still pending on the
    /// endpoint bound to `port`, and synthesizes the denial the suspended
    /// caller receives. The caller always gets a well-formed decision.
    pub fn timeout_prompt(&mut self, port: u16, prompt_id: &String) -> (r: PermissionResponse)
        requires
            old(self).wf(),
        ensures
            final(self).wf(),
            is_timeout_deny(r),
            !has_port(old(self)@, port) ==> *final(self) == *old(self),
            has_port(old(self)@, port) ==> final(self)@ == spec_timeout(
                old(self)@,
                port_owner(old(self)@, port),
                prompt_id@,
            ),
    {
        proof {
            old(self).lemma_view_facts();
        }
        match self.find_port_index(port) {
            None => {},
            Some(i) => {
                proof {
                    old(self).lemma_at_index(i as int);
                }
                let (key, mut entry) = self.take_at(i);
                let _slot = entry.pending.remove(prompt_id);
                self.put(key, entry);
                proof {
                    let o = port_owner(old(self)@, port);
                    assert(old(self)@.contains_key(key@) && old(self)@[key@].port == port);
                    assert(o == key@);
                    assert(self@ =~= spec_timeout(old(self)@, key@, prompt_id@));
                }
            },
        }
        timeout_response()
    }

    /// Delivers a decision to a pending prompt: fails with `SessionNotFound`
    /// when no endpoint is registered under `session_id`, with
    /// `PromptNotFound` when the prompt is not pending there (already
    /// resolved, timed out, or never existed), and otherwise removes the
    /// entry and hands the decision to the slot exactly once —
    /// `DeliveryFailure` then only means the waiting side was already gone,
    /// which it observes as an implicit denial anyway.
    pub fn resolve_prompt(
        &mut self,
        session_id: &String,
        prompt_id: &String,
        response: PermissionResponse,
    ) -> (r: Result<(), ResolveError>)
        requires
            old(self).wf(),
        ensures
            final(self).wf(),
            final(self)@ == spec_resolve(old(self)@, session_id@, prompt_id@),
            !old(self)@.contains_key(session_id@) ==> r == Err::<(), ResolveError>(
                ResolveError::SessionNotFound,
            ),
            old(self)@.contains_key(session_id@) && !old(self)@[session_id@].pending.contains(
                prompt_id@,
            ) ==> r == Err::<(), ResolveError>(ResolveError::PromptNotFound),
            old(self)@.contains_key(session_id@) && old(self)@[session_id@].pending.contains(
                prompt_id@,
            ) ==> r == Ok::<(), ResolveError>(()) || r == Err::<(), ResolveError>(
                ResolveError::DeliveryFailure,
            ),
    {
        proof {
            old(self).lemma_view_facts();
        }
        match self.find_index(session_id) {
            None => {
                proof {
                    assert(spec_resolve(old(self)@, session_id@, prompt_id@) == old(self)@);
                }
                Err(ResolveError::SessionNotFound)
            },
            Some(i) => {
                proof {
                    old(self).lemma_at_index(i as int);
                }
                let (key, mut entry) = self.take_at(i);
                let slot = entry.pending.remove(prompt_id);
                self.put(key, entry);
                proof {
                    let e = old(self)@[session_id@];
                    if e.pending.contains(prompt_id@) {
                        assert(self@ =~= spec_resolve(old(self)@, session_id@, prompt_id@));
                    } else {
                        assert(e.pending.remove(prompt_id@) =~= e.pending);
                        assert(entry_with_pending(e, e.pending.remove(prompt_id@)) =~= e);
                        assert(self@ =~= old(self)@);
                    }
                }
                match slot {
                    None => Err(ResolveError::PromptNotFound),
                    Some(tx) => {
                        match send_decision(tx, response) {
                            Ok(_) => Ok(()),
                            Err(_) => Err(ResolveError::DeliveryFailure),
                        }
                    },
                }
            },
        }
    }

    /// Stops a session: removes its endpoint, flips the shutdown switch so
    /// the listener ceases accepting connections, and — by dropping the
    /// pending table and every decision slot in it — immediately unblocks
    /// and implicitly denies every still-suspended request. Returns the
    /// recorded launch artifact locations for cleanup. Stopping an unknown
    /// session is a no-op, not an error.
    pub fn stop_server(&mut self, session_id: &String) -> (r: Option<(String, String)>)
        requires
            old(self).wf(),
        ensures
            final(self).wf(),
            final(self)@ == spec_stop(old(self)@, session_id@),
            !old(self)@.contains_key(session_id@) ==> r is None && *final(self) == *old(self),
            old(self)@.contains_key(session_id@) ==> (r matches Some(paths) && paths.0@ == old(
                self,
            )@[session_id@].config_path && paths.1@ == old(self)@[session_id@].script_path),
    {
        match self.find_index(session_id) {
            None => {
                proof {
                    assert(old(self)@.remove(session_id@) =~= old(self)@);
                }
                None
            },
            Some(i) => {
                proof {
                    old(self).lemma_at_index(i as int);
                }
                let (_key, entry) = self.take_at(i);
                switch_send(&entry.shutdown_tx, true);
                // the rest of `entry` — its pending table with every slot —
                // is dropped here, which each suspended waiter observes as
                // its sender going away: the implicit denial
                Some((entry.mcp_config_path, entry.mcp_script_path))
            },
        }
    }

    /// Re-keys a session from a placeholder identifier to its final one:
    /// relocates the endpoint in the registry and rewrites the identifier
    /// field that notification emission reads, without disturbing the live
    /// port, listener, or pending table. A no-op when `old_id` is unknown.
    /// An endpoint already live under `new_id` is replaced, as a start under
    /// that identifier would replace it.
    pub fn rekey_server(&mut self, old_id: &String, new_id: &String)
        requires
            old(self).wf(),
        ensures
            final(self).wf(),
            final(self)@ == spec_rekey(old(self)@, old_id@, new_id@),
    {
        proof {
            old(self).lemma_view_facts();
        }
        match self.find_index(old_id) {
            None => {},
            Some(i) => {
                proof {
                    old(self).lemma_at_index(i as int);
                }
                let (_key, mut entry) = self.take_at(i);
                entry.session_id = new_id.clone();
                match self.find_index(new_id) {
                    Some(j) => {
                        let _replaced = self.take_at(j);
                    },
                    None => {},
                }
                self.put(new_id.clone(), entry);
                proof {
                    assert(self@ =~= spec_rekey(old(self)@, old_id@, new_id@));
                }
            },
        }
    }

    /// Whether an endpoint is registered under `session_id`.
    pub fn contains_session(&self, session_id: &String) -> (r: bool)
        ensures
            r == self@.contains_key(session_id@),
    {
        match self.find_index(session_id) {
            Some(i) => {
                proof {
                    assert(self.key_seq().contains(session_id@));
                }
                true
            },
            None => false,
        }
    }
}

} // verus!
