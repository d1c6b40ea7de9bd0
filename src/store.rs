use vstd::prelude::*;

use crate::traffic::{Direction, Protocol, Segment, Socket, IpAddress};

verus! {

/// The identity of a flow, independent of which endpoint a report calls local:
/// the two sockets are held in a fixed order, the lesser first.
#[derive(PartialEq, Eq, Structural, Clone, Copy, Debug, Hash)]
pub struct ConnectionKey {
    pub protocol: Protocol,
    pub local_socket: Socket,
    pub remote_socket: Socket,
}

/// Bytes counted for one connection during one interval.
#[derive(PartialEq, Eq, Structural, Clone, Copy, Debug, Hash)]
pub struct UtilizationRecord {
    pub bytes_downloaded: u64,
    pub bytes_uploaded: u64,
}

/// The order in which sockets are compared: IPv4 before IPv6, then the address,
/// then the port.
pub open spec fn socket_lt(a: Socket, b: Socket) -> bool {
    let (ta, ha, la) = match a.ip {
        IpAddress::V4(x) => (0int, 0int, x as int),
        IpAddress::V6(h, l) => (1int, h as int, l as int),
    };
    let (tb, hb, lb) = match b.ip {
        IpAddress::V4(x) => (0int, 0int, x as int),
        IpAddress::V6(h, l) => (1int, h as int, l as int),
    };
    ta < tb || (ta == tb && (ha < hb || (ha == hb && (la < lb || (la == lb && a.port < b.port)))))
}

/// The key of the flow between `a` and `b`.
pub open spec fn key_of(protocol: Protocol, a: Socket, b: Socket) -> ConnectionKey {
    if socket_lt(b, a) {
        ConnectionKey { protocol, local_socket: b, remote_socket: a }
    } else {
        ConnectionKey { protocol, local_socket: a, remote_socket: b }
    }
}

pub open spec fn segment_key(s: Segment) -> ConnectionKey {
    key_of(s.protocol, s.local_socket, s.remote_socket)
}

fn ip_parts(ip: IpAddress) -> (r: (u8, u64, u64))
    ensures
        match ip {
            IpAddress::V4(x) => r == (0u8, 0u64, x as u64),
            IpAddress::V6(h, l) => r == (1u8, h, l),
        },
{
    match ip {
        IpAddress::V4(x) => (0, 0, x as u64),
        IpAddress::V6(h, l) => (1, h, l),
    }
}

fn socket_less(a: &Socket, b: &Socket) -> (r: bool)
    ensures
        r == socket_lt(*a, *b),
{
    let (ta, ha, la) = ip_parts(a.ip);
    let (tb, hb, lb) = ip_parts(b.ip);
    ta < tb || (ta == tb && (ha < hb || (ha == hb && (la < lb || (la == lb && a.port < b.port)))))
}

impl ConnectionKey {
    /// The key of the flow between `a` and `b`, whichever of the two is named first.
    pub fn new(protocol: Protocol, a: Socket, b: Socket) -> (r: ConnectionKey)
        ensures
            r == key_of(protocol, a, b),
    {
        if socket_less(&b, &a) {
            ConnectionKey { protocol, local_socket: b, remote_socket: a }
        } else {
            ConnectionKey { protocol, local_socket: a, remote_socket: b }
        }
    }

    pub fn of_segment(segment: &Segment) -> (r: ConnectionKey)
        ensures
            r == segment_key(*segment),
    {
        ConnectionKey::new(segment.protocol, segment.local_socket, segment.remote_socket)
    }
}

/// The same pair of sockets gives the same key in either order.
pub proof fn lemma_key_is_direction_agnostic(protocol: Protocol, a: Socket, b: Socket)
    ensures
        key_of(protocol, a, b) == key_of(protocol, b, a),
{
}

pub open spec fn zero_record() -> UtilizationRecord {
    UtilizationRecord { bytes_downloaded: 0, bytes_uploaded: 0 }
}

/// `n`, or `u64::MAX` where `n` does not fit.
pub open spec fn saturate(n: int) -> u64 {
    if n > u64::MAX { u64::MAX } else { n as u64 }
}

/// A record with one more segment counted: incoming bytes are downloads,
/// outgoing bytes uploads; a counter stops at `u64::MAX`.
pub open spec fn add_segment(r: UtilizationRecord, s: Segment) -> UtilizationRecord {
    match s.direction {
        Direction::Incoming => UtilizationRecord {
            bytes_downloaded: saturate(r.bytes_downloaded + s.byte_length),
            ..r
        },
        Direction::Outgoing => UtilizationRecord {
            bytes_uploaded: saturate(r.bytes_uploaded + s.byte_length),
            ..r
        },
    }
}

/// The record of `k` in `m`, zero where there is none yet.
pub open spec fn record_or_zero(m: Map<ConnectionKey, UtilizationRecord>, k: ConnectionKey) -> UtilizationRecord {
    if m.contains_key(k) { m[k] } else { zero_record() }
}

/// The mapping after one segment is counted.
pub open spec fn count_segment(m: Map<ConnectionKey, UtilizationRecord>, s: Segment) -> Map<ConnectionKey, UtilizationRecord> {
    m.insert(segment_key(s), add_segment(record_or_zero(m, segment_key(s)), s))
}

/// The mapping after each segment of `s` is counted, in order.
pub open spec fn count_all(m: Map<ConnectionKey, UtilizationRecord>, s: Seq<Segment>) -> Map<ConnectionKey, UtilizationRecord>
    decreases s.len(),
{
    if s.len() == 0 {
        m
    } else {
        count_segment(count_all(m, s.drop_last()), s.last())
    }
}

/// Bytes of incoming segments of `k` in `s`.
pub open spec fn downloaded(s: Seq<Segment>, k: ConnectionKey) -> int
    decreases s.len(),
{
    if s.len() == 0 {
        0
    } else {
        downloaded(s.drop_last(), k) + if segment_key(s.last()) == k && s.last().direction
            == Direction::Incoming {
            s.last().byte_length as int
        } else {
            0
        }
    }
}

/// Bytes of outgoing segments of `k` in `s`.
pub open spec fn uploaded(s: Seq<Segment>, k: ConnectionKey) -> int
    decreases s.len(),
{
    if s.len() == 0 {
        0
    } else {
        uploaded(s.drop_last(), k) + if segment_key(s.last()) == k && s.last().direction
            == Direction::Outgoing {
            s.last().byte_length as int
        } else {
            0
        }
    }
}

proof fn lemma_count_segment_commutes(m: Map<ConnectionKey, UtilizationRecord>, a: Segment, b: Segment)
    ensures
        count_segment(count_segment(m, a), b) == count_segment(count_segment(m, b), a),
{
    assert(count_segment(count_segment(m, a), b) =~= count_segment(count_segment(m, b), a));
}

proof fn lemma_count_moves_to_end(m: Map<ConnectionKey, UtilizationRecord>, x: Segment, t: Seq<Segment>)
    ensures
        count_all(count_segment(m, x), t) == count_segment(count_all(m, t), x),
    decreases t.len(),
{
    if t.len() > 0 {
        lemma_count_moves_to_end(m, x, t.drop_last());
        lemma_count_segment_commutes(count_all(m, t.drop_last()), x, t.last());
    }
}

proof fn lemma_count_concat(m: Map<ConnectionKey, UtilizationRecord>, a: Seq<Segment>, b: Seq<Segment>)
    ensures
        count_all(m, a + b) == count_all(count_all(m, a), b),
    decreases b.len(),
{
    if b.len() == 0 {
        assert(a + b =~= a);
    } else {
        assert((a + b).drop_last() =~= a + b.drop_last());
        lemma_count_concat(m, a, b.drop_last());
    }
}

proof fn lemma_count_permutation(m: Map<ConnectionKey, UtilizationRecord>, s1: Seq<Segment>, s2: Seq<Segment>)
    requires
        s1.to_multiset() == s2.to_multiset(),
    ensures
        count_all(m, s1) == count_all(m, s2),
    decreases s1.len(),
{
    broadcast use vstd::seq_lib::group_to_multiset_ensures;

    if s1.len() == 0 {
        assert(s1.to_multiset().len() == s1.len());
        assert(s2.to_multiset().len() == s2.len());
        assert(s2 =~= s1);
    } else {
        let x = s1.last();
        assert(s1.drop_last().push(x) =~= s1);
        assert(s2.to_multiset().count(x) > 0);
        assert(s2.contains(x));
        let j = choose|j: int| 0 <= j < s2.len() && s2[j] == x;
        let rest = s2.remove(j);
        assert(s1.drop_last().to_multiset() =~= s1.to_multiset().remove(x));
        assert(rest.to_multiset() =~= s2.to_multiset().remove(x));
        lemma_count_permutation(m, s1.drop_last(), rest);
        let front = s2.take(j);
        let back = s2.skip(j + 1);
        assert(s2 =~= (front + seq![x]) + back);
        assert(rest =~= front + back);
        lemma_count_concat(m, front + seq![x], back);
        lemma_count_concat(m, front, seq![x]);
        let mf = count_all(m, front);
        assert(seq![x].drop_last() =~= Seq::<Segment>::empty());
        assert(count_all(mf, seq![x]) == count_segment(count_all(mf, seq![x].drop_last()), x));
        assert(count_all(mf, seq![x]) == count_segment(mf, x));
        lemma_count_moves_to_end(mf, x, back);
        lemma_count_concat(m, front, back);
        assert(count_all(m, s2) == count_segment(count_all(m, rest), x));
        assert(count_all(m, s1) == count_segment(count_all(m, s1.drop_last()), x));
    }
}

/// Counting is order-free: segments counted into a fresh store in any order
/// leave the same records.
pub proof fn lemma_accumulation_is_order_free(s1: Seq<Segment>, s2: Seq<Segment>)
    requires
        s1.to_multiset() == s2.to_multiset(),
    ensures
        count_all(Map::empty(), s1) == count_all(Map::empty(), s2),
{
    lemma_count_permutation(Map::empty(), s1, s2);
}

/// From a fresh store, the record of a connection holds the sums of its
/// incoming and outgoing bytes, each stopped at `u64::MAX`; a connection with
/// no segment has no record.
pub proof fn lemma_record_is_sum(s: Seq<Segment>, k: ConnectionKey)
    ensures
        count_all(Map::empty(), s).contains_key(k) <==> exists|i: int| 0 <= i < s.len() && segment_key(s[i]) == k,
        count_all(Map::empty(), s).contains_key(k) ==> count_all(Map::empty(), s)[k] == (UtilizationRecord {
            bytes_downloaded: saturate(downloaded(s, k)),
            bytes_uploaded: saturate(uploaded(s, k)),
        }),
        downloaded(s, k) >= 0,
        uploaded(s, k) >= 0,
        !count_all(Map::empty(), s).contains_key(k) ==> downloaded(s, k) == 0 && uploaded(s, k) == 0,
    decreases s.len(),
{
    if s.len() > 0 {
        let p = s.drop_last();
        lemma_record_is_sum(p, k);
        if exists|i: int| 0 <= i < p.len() && segment_key(p[i]) == k {
            let i = choose|i: int| 0 <= i < p.len() && segment_key(p[i]) == k;
            assert(s[i] == p[i]);
        }
        if exists|i: int| 0 <= i < s.len() && segment_key(s[i]) == k {
            let i = choose|i: int| 0 <= i < s.len() && segment_key(s[i]) == k;
            if i < p.len() {
                assert(p[i] == s[i]);
            }
        }
    }
}

proof fn lemma_sums_concat(a: Seq<Segment>, b: Seq<Segment>, k: ConnectionKey)
    ensures
        downloaded(a + b, k) == downloaded(a, k) + downloaded(b, k),
        uploaded(a + b, k) == uploaded(a, k) + uploaded(b, k),
    decreases b.len(),
{
    if b.len() == 0 {
        assert(a + b =~= a);
    } else {
        assert((a + b).drop_last() =~= a + b.drop_last());
        lemma_sums_concat(a, b.drop_last(), k);
    }
}

/// A store that counts `s` and is emptied after its first `cut` segments hands
/// out in its snapshot exactly the records of those, and holds afterwards exactly
/// the records of the rest: each segment's bytes are in one of the two, never in
/// both, never in neither.
pub proof fn lemma_cut_counts_each_segment_once(s: Seq<Segment>, cut: int, k: ConnectionKey)
    requires
        0 <= cut <= s.len(),
    ensures
        downloaded(s.take(cut), k) + downloaded(s.skip(cut), k) == downloaded(s, k),
        uploaded(s.take(cut), k) + uploaded(s.skip(cut), k) == uploaded(s, k),
        record_or_zero(count_all(Map::empty(), s.take(cut)), k) == (UtilizationRecord {
            bytes_downloaded: saturate(downloaded(s.take(cut), k)),
            bytes_uploaded: saturate(uploaded(s.take(cut), k)),
        }),
        record_or_zero(count_all(Map::empty(), s.skip(cut)), k) == (UtilizationRecord {
            bytes_downloaded: saturate(downloaded(s.skip(cut), k)),
            bytes_uploaded: saturate(uploaded(s.skip(cut), k)),
        }),
{
    assert(s.take(cut) + s.skip(cut) =~= s);
    lemma_sums_concat(s.take(cut), s.skip(cut), k);
    lemma_record_is_sum(s.take(cut), k);
    lemma_record_is_sum(s.skip(cut), k);
}

/// After a reset the store is empty, and a segment counted next starts its
/// connection's record from zero.
pub proof fn lemma_reset_starts_from_zero(after: NetworkUtilization, s: Segment)
    requires
        after@ == Map::<ConnectionKey, UtilizationRecord>::empty(),
    ensures
        after@.dom().is_empty(),
        count_segment(after@, s)[segment_key(s)] == add_segment(zero_record(), s),
        count_segment(after@, s).dom() == set![segment_key(s)],
{
    assert(count_segment(after@, s).dom() =~= set![segment_key(s)]);
}

/// Per-connection byte counters for one interval. Each key has at most one entry.
pub struct NetworkUtilization {
    entries: Vec<(ConnectionKey, UtilizationRecord)>,
    model: Ghost<Map<ConnectionKey, UtilizationRecord>>,
}

impl View for NetworkUtilization {
    type V = Map<ConnectionKey, UtilizationRecord>;

    closed spec fn view(&self) -> Map<ConnectionKey, UtilizationRecord> {
        self.model@
    }
}

impl NetworkUtilization {
    pub closed spec fn wf(&self) -> bool {
        &&& forall|i: int, j: int|
            0 <= i < j < self.entries@.len() ==> self.entries@[i].0 != self.entries@[j].0
        &&& forall|i: int|
            0 <= i < self.entries@.len() ==> #[trigger] self.model@.contains_key(self.entries@[i].0)
                && self.model@[self.entries@[i].0] == self.entries@[i].1
        &&& forall|k: ConnectionKey|
            #[trigger] self.model@.contains_key(k) ==> exists|i: int|
                0 <= i < self.entries@.len() && self.entries@[i].0 == k
    }

    /// An empty store.
    pub fn new() -> (r: NetworkUtilization)
        ensures
            r.wf(),
            r@ == Map::<ConnectionKey, UtilizationRecord>::empty(),
    {
        NetworkUtilization { entries: Vec::new(), model: Ghost(Map::empty()) }
    }

    fn find(&self, key: &ConnectionKey) -> (r: Option<usize>)
        requires
            self.wf(),
        ensures
            match r {
                Some(i) => i < self.entries@.len() && self.entries@[i as int].0 == *key,
                None => !self@.contains_key(*key),
            },
    {
        let mut i: usize = 0;
        while i < self.entries.len()
            invariant
                self.wf(),
                i <= self.entries@.len(),
                forall|j: int| 0 <= j < i ==> self.entries@[j].0 != *key,
            decreases self.entries@.len() - i,
        {
            if self.entries[i].0 == *key {
                return Some(i);
            }
            i = i + 1;
        }
        None
    }

    /// The record of `key`, if any segment of it was counted.
    pub fn get(&self, key: &ConnectionKey) -> (r: Option<UtilizationRecord>)
        requires
            self.wf(),
        ensures
            r == (if self@.contains_key(*key) { Some(self@[*key]) } else { None::<UtilizationRecord> }),
    {
        match self.find(key) {
            Some(i) => Some(self.entries[i].1),
            None => None,
        }
    }

    /// The number of connections with a record.
    pub fn len(&self) -> (r: usize)
        requires
            self.wf(),
        ensures
            r == self@.dom().len(),
    {
        proof {
            self.lemma_len();
        }
        self.entries.len()
    }

    proof fn lemma_len(&self)
        requires
            self.wf(),
        ensures
            self@.dom().finite(),
            self@.dom().len() == self.entries@.len(),
        decreases self.entries@.len(),
    {
        let keys = self.entries@.map_values(|e: (ConnectionKey, UtilizationRecord)| e.0);
        assert forall|i: int, j: int| 0 <= i < j < keys.len() implies keys[i] != keys[j] by {}
        keys.unique_seq_to_set();
        assert(self@.dom() =~= keys.to_set()) by {
            assert forall|k: ConnectionKey| self@.dom().contains(k) implies keys.to_set().contains(k) by {
                let i = choose|i: int| 0 <= i < self.entries@.len() && self.entries@[i].0 == k;
                assert(keys[i] == k);
            }
        }
    }

    /// Every record, one entry per connection.
    pub fn records(&self) -> (r: Vec<(ConnectionKey, UtilizationRecord)>)
        requires
            self.wf(),
        ensures
            forall|i: int, j: int| 0 <= i < j < r@.len() ==> r@[i].0 != r@[j].0,
            forall|i: int| 0 <= i < r@.len() ==> #[trigger] self@.contains_key(r@[i].0) && self@[r@[i].0] == r@[i].1,
            forall|k: ConnectionKey| #[trigger] self@.contains_key(k) ==> exists|i: int| 0 <= i < r@.len() && r@[i].0 == k,
    {
        let mut r: Vec<(ConnectionKey, UtilizationRecord)> = Vec::new();
        let mut i: usize = 0;
        while i < self.entries.len()
            invariant
                self.wf(),
                i <= self.entries@.len(),
                r@ == self.entries@.take(i as int),
            decreases self.entries@.len() - i,
        {
            r.push(self.entries[i]);
            i = i + 1;
            assert(r@ =~= self.entries@.take(i as int));
        }
        assert(r@ =~= self.entries@);
        r
    }

    /// Counts one segment: its bytes are added to the downloads of its
    /// connection if it is incoming, to the uploads otherwise, starting from zero
    /// for a connection not seen in this interval.
    pub fn update(&mut self, segment: &Segment)
        requires
            old(self).wf(),
        ensures
            final(self).wf(),
            final(self)@ == count_segment(old(self)@, *segment),
    {
        let key = ConnectionKey::of_segment(segment);
        let found = self.find(&key);
        let current = match found {
            Some(i) => self.entries[i].1,
            None => UtilizationRecord { bytes_downloaded: 0, bytes_uploaded: 0 },
        };
        let next = match segment.direction {
            Direction::Incoming => UtilizationRecord {
                bytes_downloaded: current.bytes_downloaded.saturating_add(segment.byte_length),
                bytes_uploaded: current.bytes_uploaded,
            },
            Direction::Outgoing => UtilizationRecord {
                bytes_downloaded: current.bytes_downloaded,
                bytes_uploaded: current.bytes_uploaded.saturating_add(segment.byte_length),
            },
        };
        proof {
            assert(next == add_segment(record_or_zero(self@, key), *segment));
        }
        let ghost old_entries = self.entries@;
        match found {
            Some(i) => {
                self.entries.set(i, (key, next));
            },
            None => {
                self.entries.push((key, next));
            },
        }
        self.model = Ghost(self.model@.insert(key, next));
        proof {
            assert forall|k: ConnectionKey| #[trigger] self.model@.contains_key(k) implies exists|i: int|
                0 <= i < self.entries@.len() && self.entries@[i].0 == k by {
                if k != key {
                    let i = choose|i: int| 0 <= i < old_entries.len() && old_entries[i].0 == k;
                    assert(self.entries@[i].0 == k);
                } else {
                    match found {
                        Some(i) => assert(self.entries@[i as int].0 == k),
                        None => assert(self.entries@[old_entries.len() as int].0 == k),
                    }
                }
            }
        }
    }

    /// Hands out everything counted so far and leaves the store empty, so that
    /// the next interval starts from zero.
    pub fn snapshot_and_reset(&mut self) -> (r: NetworkUtilization)
        requires
            old(self).wf(),
        ensures
            r.wf(),
            r@ == old(self)@,
            final(self).wf(),
            final(self)@ == Map::<ConnectionKey, UtilizationRecord>::empty(),
    {
        let mut snapshot = NetworkUtilization::new();
        std::mem::swap(self, &mut snapshot);
        snapshot
    }
}

} // verus!
