use vstd::prelude::*;

use crate::store::{
    key_of, lemma_key_is_direction_agnostic, segment_key, ConnectionKey, NetworkUtilization,
    UtilizationRecord,
};
use crate::traffic::{IpAddress, Protocol, Segment, Socket};

verus! {

/// The name given to a connection whose owning process could not be named.
pub const UNKNOWN_PROCESS: &'static str = "<UNKNOWN>";

/// A socket as the operating system reports it, with the process that owns it.
#[derive(PartialEq, Eq, Structural, Clone, Copy, Debug)]
pub struct OpenSocket {
    pub protocol: Protocol,
    pub local_socket: Socket,
    pub remote_socket: Socket,
    pub owner_pid: i32,
}

/// What a process-name lookup gave for one pid.
#[derive(Clone, Debug)]
pub struct ProcessName {
    pub pid: i32,
    pub name: Option<String>,
}

pub open spec fn open_socket_key(s: OpenSocket) -> ConnectionKey {
    key_of(s.protocol, s.local_socket, s.remote_socket)
}

/// The name found for `pid`: that of the first lookup of `pid`, if it gave one.
pub open spec fn name_of(lookups: Seq<ProcessName>, pid: i32) -> Option<Seq<char>>
    decreases lookups.len(),
{
    if lookups.len() == 0 {
        None
    } else if lookups[0].pid == pid {
        match lookups[0].name {
            Some(n) => Some(n@),
            None => None,
        }
    } else {
        name_of(lookups.skip(1), pid)
    }
}

/// The owner shown for `pid`: its name, or the placeholder.
pub open spec fn owner_of(lookups: Seq<ProcessName>, pid: i32) -> Seq<char> {
    match name_of(lookups, pid) {
        Some(n) => n,
        None => UNKNOWN_PROCESS@,
    }
}

/// Each socket's key mapped to its owner; where two sockets share a key the
/// later one is kept.
pub open spec fn ownership_of(sockets: Seq<OpenSocket>, lookups: Seq<ProcessName>) -> Map<ConnectionKey, Seq<char>>
    decreases sockets.len(),
{
    if sockets.len() == 0 {
        Map::empty()
    } else {
        ownership_of(sockets.drop_last(), lookups).insert(
            open_socket_key(sockets.last()),
            owner_of(lookups, sockets.last().owner_pid),
        )
    }
}

/// Which process owns each connection, for one tick. Each key has at most one entry.
pub struct ConnectionOwnership {
    entries: Vec<(ConnectionKey, String)>,
    model: Ghost<Map<ConnectionKey, Seq<char>>>,
}

impl View for ConnectionOwnership {
    type V = Map<ConnectionKey, Seq<char>>;

    closed spec fn view(&self) -> Map<ConnectionKey, Seq<char>> {
        self.model@
    }
}

impl ConnectionOwnership {
    pub closed spec fn wf(&self) -> bool {
        &&& forall|i: int, j: int|
            0 <= i < j < self.entries@.len() ==> self.entries@[i].0 != self.entries@[j].0
        &&& forall|i: int|
            0 <= i < self.entries@.len() ==> #[trigger] self.model@.contains_key(self.entries@[i].0)
                && self.model@[self.entries@[i].0] == self.entries@[i].1@
        &&& forall|k: ConnectionKey|
            #[trigger] self.model@.contains_key(k) ==> exists|i: int|
                0 <= i < self.entries@.len() && self.entries@[i].0 == k
    }

    pub fn new() -> (r: ConnectionOwnership)
        ensures
            r.wf(),
            r@ == Map::<ConnectionKey, Seq<char>>::empty(),
    {
        ConnectionOwnership { entries: Vec::new(), model: Ghost(Map::empty()) }
    }

    fn find(&self, key: &ConnectionKey) -> (r: Option<usize>)
        requires
            self.wf(),
        ensures
            match r {
                Some(i) => i < self.entries@.len() && self.entries@[i as int].0 == *key,
                None => !self@.contains_key(*key),
            },
    {
        let mut i: usize = 0;
        while i < self.entries.len()
            invariant
                self.wf(),
                i <= self.entries@.len(),
                forall|j: int| 0 <= j < i ==> self.entries@[j].0 != *key,
            decreases self.entries@.len() - i,
        {
            if self.entries[i].0 == *key {
                return Some(i);
            }
            i = i + 1;
        }
        None
    }

    /// Sets the owner of `key`, replacing any earlier one.
    pub fn insert(&mut self, key: ConnectionKey, name: String)
        requires
            old(self).wf(),
        ensures
            final(self).wf(),
            final(self)@ == old(self)@.insert(key, name@),
    {
        let found = self.find(&key);
        let ghost old_entries = self.entries@;
        let ghost name_view = name@;
        match found {
            Some(i) => {
                self.entries.set(i, (key, name));
            },
            None => {
                self.entries.push((key, name));
            },
        }
        self.model = Ghost(self.model@.insert(key, name_view));
        proof {
            assert forall|k: ConnectionKey| #[trigger] self.model@.contains_key(k) implies exists|i: int|
                0 <= i < self.entries@.len() && self.entries@[i].0 == k by {
                if k != key {
                    let i = choose|i: int| 0 <= i < old_entries.len() && old_entries[i].0 == k;
                    assert(self.entries@[i].0 == k);
                } else {
                    match found {
                        Some(i) => assert(self.entries@[i as int].0 == k),
                        None => assert(self.entries@[old_entries.len() as int].0 == k),
                    }
                }
            }
        }
    }

    /// The owner of `key`, if one was recorded.
    pub fn get(&self, key: &ConnectionKey) -> (r: Option<String>)
        requires
            self.wf(),
        ensures
            match r {
                Some(n) => self@.contains_key(*key) && n@ == self@[*key],
                None => !self@.contains_key(*key),
            },
    {
        match self.find(key) {
            Some(i) => Some(self.entries[i].1.clone()),
            None => None,
        }
    }
}

/// Each pid that owns one of `sockets`, once.
pub fn distinct_pids(sockets: &Vec<OpenSocket>) -> (r: Vec<i32>)
    ensures
        forall|i: int, j: int| 0 <= i < j < r@.len() ==> r@[i] != r@[j],
        forall|p: i32| r@.contains(p) <==> exists|i: int| 0 <= i < sockets@.len() && sockets@[i].owner_pid == p,
{
    let mut r: Vec<i32> = Vec::new();
    let mut i: usize = 0;
    while i < sockets.len()
        invariant
            i <= sockets@.len(),
            forall|a: int, b: int| 0 <= a < b < r@.len() ==> r@[a] != r@[b],
            forall|p: i32| r@.contains(p) <==> exists|j: int| 0 <= j < i && sockets@[j].owner_pid == p,
        decreases sockets@.len() - i,
    {
        let pid = sockets[i].owner_pid;
        let mut seen = false;
        let mut j: usize = 0;
        while j < r.len()
            invariant
                j <= r@.len(),
                seen == exists|a: int| 0 <= a < j && r@[a] == pid,
            decreases r@.len() - j,
        {
            if r[j] == pid {
                seen = true;
            }
            j = j + 1;
        }
        let ghost before = r@;
        if !seen {
            r.push(pid);
        }
        proof {
            assert forall|p: i32| r@.contains(p) <==> exists|j: int| 0 <= j < i + 1 && sockets@[j].owner_pid == p by {
                if p == pid {
                    assert(sockets@[i as int].owner_pid == p);
                    if seen {
                        let a = choose|a: int| 0 <= a < before.len() && before[a] == pid;
                        assert(r@[a] == p);
                    } else {
                        assert(r@[before.len() as int] == p);
                    }
                } else {
                    if r@.contains(p) {
                        let a = choose|a: int| 0 <= a < r@.len() && r@[a] == p;
                        assert(before[a] == p);
                        assert(before.contains(p));
                    }
                    if exists|j: int| 0 <= j < i + 1 && sockets@[j].owner_pid == p {
                        let j = choose|j: int| 0 <= j < i + 1 && sockets@[j].owner_pid == p;
                        assert(j < i);
                        assert(before.contains(p));
                        let a = choose|a: int| 0 <= a < before.len() && before[a] == p;
                        assert(r@[a] == p);
                    }
                }
            }
        }
        i = i + 1;
    }
    r
}

/// The name that `lookups` gives for `pid`, if any.
pub fn find_name(lookups: &Vec<ProcessName>, pid: i32) -> (r: Option<String>)
    ensures
        match r {
            Some(n) => name_of(lookups@, pid) == Some(n@),
            None => name_of(lookups@, pid) == None::<Seq<char>>,
        },
{
    let mut i: usize = 0;
    assert(lookups@.skip(0) =~= lookups@);
    while i < lookups.len()
        invariant
            i <= lookups@.len(),
            name_of(lookups@, pid) == name_of(lookups@.skip(i as int), pid),
        decreases lookups@.len() - i,
    {
        assert(lookups@.skip(i as int)[0] == lookups@[i as int]);
        if lookups[i].pid == pid {
            return match &lookups[i].name {
                Some(n) => Some(n.clone()),
                None => None,
            };
        }
        assert(lookups@.skip(i as int).skip(1) =~= lookups@.skip(i + 1));
        i = i + 1;
    }
    None
}

/// The owner to show for `pid`: its name, or the placeholder.
pub fn owner_name(lookups: &Vec<ProcessName>, pid: i32) -> (r: String)
    ensures
        r@ == owner_of(lookups@, pid),
{
    match find_name(lookups, pid) {
        Some(n) => n,
        None => UNKNOWN_PROCESS.to_owned(),
    }
}

/// The ownership of one tick: every reported socket's connection, mapped to the
/// name of its owning process, or to the placeholder where the name could not be
/// found. No socket is left out.
pub fn build_ownership(sockets: &Vec<OpenSocket>, lookups: &Vec<ProcessName>) -> (r: ConnectionOwnership)
    ensures
        r.wf(),
        r@ == ownership_of(sockets@, lookups@),
{
    let mut owners = ConnectionOwnership::new();
    let mut i: usize = 0;
    while i < sockets.len()
        invariant
            i <= sockets@.len(),
            owners.wf(),
            owners@ == ownership_of(sockets@.take(i as int), lookups@),
        decreases sockets@.len() - i,
    {
        let s = sockets[i];
        let key = ConnectionKey::new(s.protocol, s.local_socket, s.remote_socket);
        let name = owner_name(lookups, s.owner_pid);
        owners.insert(key, name);
        assert(sockets@.take(i + 1).drop_last() =~= sockets@.take(i as int));
        i = i + 1;
    }
    assert(sockets@.take(i as int) =~= sockets@);
    owners
}

/// The operating system's side of the correlation: its socket table, and the
/// name of a process.
pub trait OsQueries {
    /// Every socket open now, each with its owning process.
    fn open_sockets(&mut self) -> Vec<OpenSocket>;

    /// The name of process `pid`, or `None` where it cannot be found (it may
    /// have exited since the sockets were listed).
    fn process_name(&mut self, pid: i32) -> Option<String>;
}

/// The pids that own one of `sockets`.
pub open spec fn socket_pids(sockets: Seq<OpenSocket>) -> Set<i32> {
    Set::new(|p: i32| exists|i: int| 0 <= i < sockets.len() && sockets[i].owner_pid == p)
}

/// The pids that `lookups` names.
pub open spec fn looked_up_pids(lookups: Seq<ProcessName>) -> Set<i32> {
    Set::new(|p: i32| exists|i: int| 0 <= i < lookups.len() && lookups[i].pid == p)
}

/// Asks `os` for the name of each of `pids`, once each, in order.
pub fn lookup_names<Q: OsQueries>(os: &mut Q, pids: &Vec<i32>) -> (r: Vec<ProcessName>)
    ensures
        r@.len() == pids@.len(),
        forall|i: int| 0 <= i < r@.len() ==> (#[trigger] r@[i]).pid == pids@[i],
{
    let mut r: Vec<ProcessName> = Vec::new();
    let mut i: usize = 0;
    while i < pids.len()
        invariant
            i <= pids@.len(),
            r@.len() == i,
            forall|j: int| 0 <= j < i ==> (#[trigger] r@[j]).pid == pids@[j],
        decreases pids@.len() - i,
    {
        let pid = pids[i];
        let name = os.process_name(pid);
        r.push(ProcessName { pid, name });
        i = i + 1;
    }
    r
}

/// One tick's snapshot of who owns what: the sockets that `os` reports, the
/// names it gives for their pids (each distinct pid asked once), and the
/// ownership built from the two. Whatever `os` answers, every reported socket
/// has an owner, named where the lookup of its pid gave a name.
pub fn current_connections<Q: OsQueries>(os: &mut Q) -> (r: (ConnectionOwnership, Vec<OpenSocket>, Vec<ProcessName>))
    ensures
        r.0.wf(),
        r.0@ == ownership_of(r.1@, r.2@),
        forall|i: int, j: int| 0 <= i < j < r.2@.len() ==> r.2@[i].pid != r.2@[j].pid,
        looked_up_pids(r.2@) == socket_pids(r.1@),
{
    let sockets = os.open_sockets();
    let pids = distinct_pids(&sockets);
    let lookups = lookup_names(os, &pids);
    let owners = build_ownership(&sockets, &lookups);
    proof {
        assert forall|p: i32|
            #[trigger] looked_up_pids(lookups@).contains(p) <==> socket_pids(sockets@).contains(p) by {
            if exists|i: int| 0 <= i < lookups@.len() && lookups@[i].pid == p {
                let i = choose|i: int| 0 <= i < lookups@.len() && lookups@[i].pid == p;
                assert(pids@[i] == p);
                assert(pids@.contains(p));
            }
            if exists|i: int| 0 <= i < sockets@.len() && sockets@[i].owner_pid == p {
                assert(pids@.contains(p));
                let i = choose|i: int| 0 <= i < pids@.len() && pids@[i] == p;
                assert(lookups@[i].pid == p);
            }
        }
        assert(looked_up_pids(lookups@) =~= socket_pids(sockets@));
        assert forall|i: int, j: int| 0 <= i < j < lookups@.len() implies lookups@[i].pid != lookups@[j].pid by {
            assert(lookups@[i].pid == pids@[i]);
            assert(lookups@[j].pid == pids@[j]);
        }
    }
    (owners, sockets, lookups)
}

/// Every socket that was reported appears in the ownership, under its own key.
pub proof fn lemma_every_socket_is_owned(sockets: Seq<OpenSocket>, lookups: Seq<ProcessName>, i: int)
    requires
        0 <= i < sockets.len(),
    ensures
        ownership_of(sockets, lookups).contains_key(open_socket_key(sockets[i])),
    decreases sockets.len(),
{
    if i < sockets.len() - 1 {
        lemma_every_socket_is_owned(sockets.drop_last(), lookups, i);
        assert(sockets.drop_last()[i] == sockets[i]);
    }
}

/// One line of the view: a connection's record joined with its owner.
#[derive(Clone, Debug)]
pub struct ConnectionRow {
    pub key: ConnectionKey,
    pub record: UtilizationRecord,
    pub process: String,
}

/// The address that stands for "any": `0.0.0.0`, or `::` for IPv6.
pub open spec fn unspecified_address(ip: IpAddress) -> IpAddress {
    match ip {
        IpAddress::V4(_) => IpAddress::V4(0),
        IpAddress::V6(_, _) => IpAddress::V6(0, 0),
    }
}

/// The peer of a socket that has none (a UDP socket, a listening one): the
/// unspecified address of the same family, port 0.
pub open spec fn spec_no_peer(s: Socket) -> Socket {
    Socket { ip: unspecified_address(s.ip), port: 0 }
}

/// The key of a socket bound to `s` with no peer.
pub open spec fn peerless_key(protocol: Protocol, s: Socket) -> ConnectionKey {
    key_of(protocol, s, spec_no_peer(s))
}

/// The owner of a socket with no peer that receives what comes to endpoint `s`:
/// one bound to `s` itself, else one bound to the unspecified address on the
/// same port.
pub open spec fn bound_owner(owners: Map<ConnectionKey, Seq<char>>, protocol: Protocol, s: Socket) -> Option<Seq<char>> {
    let exact = peerless_key(protocol, s);
    let any = peerless_key(protocol, Socket { ip: unspecified_address(s.ip), port: s.port });
    if owners.contains_key(exact) {
        Some(owners[exact])
    } else if owners.contains_key(any) {
        Some(owners[any])
    } else {
        None
    }
}

/// The owner shown beside `k`: the owner of the socket with exactly its key;
/// else that of a socket with no peer bound to one of its endpoints (the lesser
/// first); else the placeholder.
pub open spec fn shown_owner(owners: Map<ConnectionKey, Seq<char>>, k: ConnectionKey) -> Seq<char> {
    if owners.contains_key(k) {
        owners[k]
    } else if bound_owner(owners, k.protocol, k.local_socket).is_some() {
        bound_owner(owners, k.protocol, k.local_socket).unwrap()
    } else if bound_owner(owners, k.protocol, k.remote_socket).is_some() {
        bound_owner(owners, k.protocol, k.remote_socket).unwrap()
    } else {
        UNKNOWN_PROCESS@
    }
}

/// The peer to record for a socket that has none.
pub fn no_peer(s: &Socket) -> (r: Socket)
    ensures
        r == spec_no_peer(*s),
{
    let ip = match s.ip {
        IpAddress::V4(_) => IpAddress::V4(0),
        IpAddress::V6(_, _) => IpAddress::V6(0, 0),
    };
    Socket { ip, port: 0 }
}

fn find_bound_owner(owners: &ConnectionOwnership, protocol: Protocol, s: &Socket) -> (r: Option<String>)
    requires
        owners.wf(),
    ensures
        match r {
            Some(n) => bound_owner(owners@, protocol, *s) == Some(n@),
            None => bound_owner(owners@, protocol, *s) == None::<Seq<char>>,
        },
{
    let exact = ConnectionKey::new(protocol, *s, no_peer(s));
    match owners.get(&exact) {
        Some(n) => Some(n),
        None => {
            let any_address = Socket { ip: no_peer(s).ip, port: s.port };
            let any = ConnectionKey::new(protocol, any_address, no_peer(&any_address));
            owners.get(&any)
        },
    }
}

/// The owner to show beside `key`.
pub fn shown_owner_of(owners: &ConnectionOwnership, key: &ConnectionKey) -> (r: String)
    requires
        owners.wf(),
    ensures
        r@ == shown_owner(owners@, *key),
{
    if let Some(n) = owners.get(key) {
        return n;
    }
    if let Some(n) = find_bound_owner(owners, key.protocol, &key.local_socket) {
        return n;
    }
    if let Some(n) = find_bound_owner(owners, key.protocol, &key.remote_socket) {
        return n;
    }
    UNKNOWN_PROCESS.to_owned()
}

/// Joins each record of `snapshot` with the owner of its connection: one row for
/// each connection that has a record.
pub fn connection_rows(snapshot: &NetworkUtilization, owners: &ConnectionOwnership) -> (r: Vec<ConnectionRow>)
    requires
        snapshot.wf(),
        owners.wf(),
    ensures
        forall|i: int, j: int| 0 <= i < j < r@.len() ==> r@[i].key != r@[j].key,
        forall|i: int|
            0 <= i < r@.len() ==> #[trigger] snapshot@.contains_key(r@[i].key) && snapshot@[r@[i].key]
                == r@[i].record && r@[i].process@ == shown_owner(owners@, r@[i].key),
        forall|k: ConnectionKey| #[trigger] snapshot@.contains_key(k) ==> exists|i: int| 0 <= i < r@.len() && r@[i].key == k,
{
    let records = snapshot.records();
    let mut rows: Vec<ConnectionRow> = Vec::new();
    let mut i: usize = 0;
    while i < records.len()
        invariant
            i <= records@.len(),
            owners.wf(),
            rows@.len() == i,
            forall|a: int, b: int| 0 <= a < b < records@.len() ==> records@[a].0 != records@[b].0,
            forall|a: int| 0 <= a < i ==> (#[trigger] rows@[a]).key == records@[a].0 && rows@[a].record == records@[a].1
                && rows@[a].process@ == shown_owner(owners@, records@[a].0),
        decreases records@.len() - i,
    {
        let (key, record) = records[i];
        let process = shown_owner_of(owners, &key);
        rows.push(ConnectionRow { key, record, process });
        i = i + 1;
    }
    proof {
        assert forall|k: ConnectionKey| #[trigger] snapshot@.contains_key(k) implies exists|a: int| 0 <= a < rows@.len() && rows@[a].key == k by {
            let a = choose|a: int| 0 <= a < records@.len() && records@[a].0 == k;
            assert(rows@[a].key == k);
        }
        assert forall|a: int| 0 <= a < rows@.len() implies #[trigger] snapshot@.contains_key(rows@[a].key) && snapshot@[rows@[a].key]
                == rows@[a].record && rows@[a].process@ == shown_owner(owners@, rows@[a].key) by {
            assert(rows@[a].key == records@[a].0);
            assert(snapshot@.contains_key(records@[a].0));
        }
    }
    rows
}

/// A segment and the peer's own report of the same flow, with the two
/// endpoints named the other way round, have one key.
pub proof fn lemma_segment_and_peer_socket_share_key(segment: Segment, socket: OpenSocket)
    requires
        segment.protocol == socket.protocol,
        segment.local_socket == socket.remote_socket,
        segment.remote_socket == socket.local_socket,
    ensures
        segment_key(segment) == open_socket_key(socket),
{
    lemma_key_is_direction_agnostic(segment.protocol, segment.local_socket, segment.remote_socket);
}

} // verus!
