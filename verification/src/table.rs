//! The routing table: longest-prefix-match over IP destinations. Each
//! address is expanded to one byte per bit, most significant bit first, and a
//! route key is that expansion truncated to its mask length. Lookup returns
//! the peer under the longest stored key that prefixes the expanded
//! destination.

use vstd::prelude::*;

use crate::addr::{IpAddress, SocketAddress};
use crate::peer::{
    add_host_model, host_of, spec_best, CandidateV, Host, HostV, Peer, PeerV,
};

verus! {

/// Lookup failure: no stored prefix covers the address.
#[derive(Debug, PartialEq, Eq, Structural)]
pub enum Error {
    NotFind,
}

/// The bits of one byte, most significant first, one byte per bit.
pub open spec fn byte_bits(b: u8) -> Seq<u8> {
    seq![
        ((b / 128) % 2) as u8,
        ((b / 64) % 2) as u8,
        ((b / 32) % 2) as u8,
        ((b / 16) % 2) as u8,
        ((b / 8) % 2) as u8,
        ((b / 4) % 2) as u8,
        ((b / 2) % 2) as u8,
        (b % 2) as u8,
    ]
}

/// The bit expansion of a byte string, eight entries per byte.
pub open spec fn bits_of(bytes: Seq<u8>) -> Seq<u8>
    decreases bytes.len(),
{
    if bytes.len() == 0 {
        Seq::empty()
    } else {
        bits_of(bytes.drop_last()) + byte_bits(bytes.last())
    }
}

pub proof fn lemma_bits_of_len(bytes: Seq<u8>)
    ensures
        bits_of(bytes).len() == 8 * bytes.len(),
    decreases bytes.len(),
{
    if bytes.len() > 0 {
        lemma_bits_of_len(bytes.drop_last());
    }
}

/// Pushes the eight bits of `u` onto `v`, most significant first.
pub fn split_u8(u: u8, v: &mut Vec<u8>)
    ensures
        final(v)@ == old(v)@ + byte_bits(u),
{
    v.push((u / 128) % 2);
    v.push((u / 64) % 2);
    v.push((u / 32) % 2);
    v.push((u / 16) % 2);
    v.push((u / 8) % 2);
    v.push((u / 4) % 2);
    v.push((u / 2) % 2);
    v.push(u % 2);
    proof {
        assert(v@ =~= old(v)@ + byte_bits(u));
    }
}

/// The bit expansion of an address, 32 or 128 entries.
pub fn encode_bytes(ip: &IpAddress) -> (r: Vec<u8>)
    ensures
        r@ == bits_of(ip@),
        r@.len() == 8 * ip@.len(),
{
    let octets = ip.octets();
    let mut v: Vec<u8> = Vec::new();
    let mut i: usize = 0;
    while i < octets.len()
        invariant
            i <= octets@.len(),
            octets@ == ip@,
            v@ == bits_of(octets@.subrange(0, i as int)),
        decreases octets@.len() - i,
    {
        split_u8(octets[i], &mut v);
        i = i + 1;
        proof {
            assert(octets@.subrange(0, i as int).drop_last() =~= octets@.subrange(
                0,
                i as int - 1,
            ));
            assert(octets@.subrange(0, i as int).last() == octets@[i as int - 1]);
        }
    }
    proof {
        assert(octets@.subrange(0, octets@.len() as int) =~= octets@);
        lemma_bits_of_len(ip@);
    }
    v
}

/// One stored route: a truncated bit key and the peer owning it.
#[derive(Debug)]
pub struct TableEntry {
    pub key: Vec<u8>,
    pub peer: Peer,
}

/// Model of `TableEntry`.
pub ghost struct TableEntryV {
    pub key: Seq<u8>,
    pub peer: PeerV,
}

impl View for TableEntry {
    type V = TableEntryV;

    open spec fn view(&self) -> TableEntryV {
        TableEntryV { key: self.key@, peer: self.peer@ }
    }
}

/// Whether `key` is a prefix of the expanded address `bits`.
pub open spec fn covers(key: Seq<u8>, bits: Seq<u8>) -> bool {
    key.len() <= bits.len() && key == bits.subrange(0, key.len() as int)
}

/// The best (longest-key) covering entry among the first `n`, keeping the
/// earlier entry on equal lengths.
pub open spec fn lpm_upto(t: Seq<TableEntryV>, bits: Seq<u8>, n: int) -> Option<TableEntryV>
    decreases n,
{
    if n <= 0 || n > t.len() {
        None
    } else {
        let prev = lpm_upto(t, bits, n - 1);
        let e = t[n - 1];
        if covers(e.key, bits) {
            match prev {
                Option::None => Option::Some(e),
                Option::Some(p) => if e.key.len() > p.key.len() {
                    Option::Some(e)
                } else {
                    Option::Some(p)
                },
            }
        } else {
            prev
        }
    }
}

/// The longest-prefix match over the whole table.
pub open spec fn spec_lpm(t: Seq<TableEntryV>, bits: Seq<u8>) -> Option<TableEntryV> {
    lpm_upto(t, bits, t.len() as int)
}

/// What the longest-prefix match returns: a covering entry of the table no
/// other covering entry beats in key length, or nothing when no entry covers.
pub proof fn lemma_lpm_props(t: Seq<TableEntryV>, bits: Seq<u8>, n: int)
    requires
        0 <= n <= t.len(),
    ensures
        match lpm_upto(t, bits, n) {
            Option::Some(e) => {
                &&& exists|i: int| 0 <= i < n && #[trigger] t[i] == e
                &&& covers(e.key, bits)
                &&& forall|j: int|
                    0 <= j < n && covers(#[trigger] t[j].key, bits) ==> t[j].key.len()
                        <= e.key.len()
            },
            Option::None => forall|j: int| 0 <= j < n ==> !covers(#[trigger] t[j].key, bits),
        },
    decreases n,
{
    if n > 0 {
        lemma_lpm_props(t, bits, n - 1);
    }
}

/// The index of `key` in the table, searching from `i`; `-1` when absent.
pub open spec fn find_key_from(t: Seq<TableEntryV>, key: Seq<u8>, i: int) -> int
    decreases t.len() - i,
{
    if i < 0 || i >= t.len() {
        -1
    } else if t[i].key == key {
        i
    } else {
        find_key_from(t, key, i + 1)
    }
}

/// The index of `key` in the table, or `-1`.
pub open spec fn find_key(t: Seq<TableEntryV>, key: Seq<u8>) -> int {
    find_key_from(t, key, 0)
}

pub proof fn lemma_find_key_from(t: Seq<TableEntryV>, key: Seq<u8>, i: int)
    requires
        0 <= i <= t.len(),
    ensures
        find_key_from(t, key, i) == -1 ==> forall|j: int|
            i <= j < t.len() ==> (#[trigger] t[j].key) != key,
        find_key_from(t, key, i) != -1 ==> {
            let k = find_key_from(t, key, i);
            &&& i <= k < t.len()
            &&& t[k].key == key
            &&& forall|j: int| i <= j < k ==> (#[trigger] t[j].key) != key
        },
    decreases t.len() - i,
{
    if i < t.len() {
        lemma_find_key_from(t, key, i + 1);
    }
}

/// Stored keys are pairwise distinct.
pub open spec fn wf_table(t: Seq<TableEntryV>) -> bool {
    forall|i: int, j: int|
        0 <= i < t.len() && 0 <= j < t.len() && i != j ==> (#[trigger] t[i].key) != (
        #[trigger] t[j].key)
}

/// The table after an upsert of `(key, name, host)`, with whether the host
/// was novel. An existing key keeps its peer's name and merges the host; a
/// new key appends a fresh peer holding only that host.
pub open spec fn insert_model(
    t: Seq<TableEntryV>,
    key: Seq<u8>,
    name: Seq<char>,
    h: HostV,
) -> (Seq<TableEntryV>, bool) {
    let i = find_key(t, key);
    if i >= 0 {
        let merged = add_host_model(t[i].peer.host, h);
        (
            t.update(i, TableEntryV { key, peer: PeerV { name: t[i].peer.name, host: merged.0 } }),
            merged.1,
        )
    } else {
        (
            t.push(
                TableEntryV {
                    key,
                    peer: PeerV { name, host: add_host_model(Seq::empty(), h).0 },
                },
            ),
            true,
        )
    }
}

/// The table after removing `key`; `true` reports that it was present.
pub open spec fn delete_model(t: Seq<TableEntryV>, key: Seq<u8>) -> (Seq<TableEntryV>, bool) {
    let i = find_key(t, key);
    if i >= 0 {
        (t.remove(i), true)
    } else {
        (t, false)
    }
}

/// The socket addresses of all peers whose best reachability is a socket, in
/// table order.
pub open spec fn reachable_socks(t: Seq<TableEntryV>) -> Seq<(Seq<u8>, u16)>
    decreases t.len(),
{
    if t.len() == 0 {
        Seq::empty()
    } else {
        let rest = reachable_socks(t.drop_last());
        match host_of(spec_best(t.last().peer.host)) {
            HostV::Socket(a) => rest.push(a),
            _ => rest,
        }
    }
}

/// The index of the first peer named `name`, searching from `i`; `-1` when
/// absent.
pub open spec fn find_name_from(t: Seq<TableEntryV>, name: Seq<char>, i: int) -> int
    decreases t.len() - i,
{
    if i < 0 || i >= t.len() {
        -1
    } else if t[i].peer.name == name {
        i
    } else {
        find_name_from(t, name, i + 1)
    }
}

pub open spec fn find_name(t: Seq<TableEntryV>, name: Seq<char>) -> int {
    find_name_from(t, name, 0)
}

/// What a routing table offers: longest-prefix lookup, upsert and removal,
/// stated over the table's sequence of keyed entries.
pub trait LikeRouter: View<V = Seq<TableEntryV>> {
    fn find(&self, addr: IpAddress) -> (r: Option<Peer>)
        ensures
            match r {
                Some(p) => spec_lpm(self@, bits_of(addr@)) matches Some(e) && e.peer == p@,
                None => spec_lpm(self@, bits_of(addr@)) is None,
            },
    ;

    fn insert(&mut self, addr: IpAddress, mask: u16, peer_name: String, peer_host: Host) -> (r:
        Result<(), ()>)
        requires
            mask as int <= 8 * addr@.len(),
        ensures
            ({
                let key = bits_of(addr@).subrange(0, mask as int);
                let m = insert_model(old(self)@, key, peer_name@, peer_host@);
                &&& final(self)@ == m.0
                &&& (r is Ok) == m.1
                &&& wf_table(old(self)@) ==> wf_table(final(self)@)
            }),
    ;

    fn delete(&mut self, addr: IpAddress, mask: u16) -> (r: Result<(), ()>)
        requires
            mask as int <= 8 * addr@.len(),
        ensures
            ({
                let key = bits_of(addr@).subrange(0, mask as int);
                let m = delete_model(old(self)@, key);
                &&& final(self)@ == m.0
                &&& (r is Ok) == m.1
                &&& wf_table(old(self)@) ==> wf_table(final(self)@)
            }),
    ;
}

/// The routing table of one IP family.
#[derive(Debug)]
pub struct Table {
    pub entries: Vec<TableEntry>,
}

impl View for Table {
    type V = Seq<TableEntryV>;

    open spec fn view(&self) -> Seq<TableEntryV> {
        self.entries@.map_values(|e: TableEntry| e@)
    }
}

impl Default for Table {
    fn default() -> (r: Self)
        ensures
            r@ == Seq::<TableEntryV>::empty(),
            wf_table(r@),
    {
        let r = Table { entries: Vec::new() };
        proof {
            assert(r@ =~= Seq::<TableEntryV>::empty());
        }
        r
    }
}

impl Table {
    pub fn new() -> (r: Self)
        ensures
            r@ == Seq::<TableEntryV>::empty(),
            wf_table(r@),
    {
        Self::default()
    }


    /// Whether `key` is a prefix of `bits`.
    fn is_prefix(key: &Vec<u8>, bits: &Vec<u8>) -> (r: bool)
        ensures
            r == covers(key@, bits@),
    {
        if key.len() > bits.len() {
            proof {
                assert(!covers(key@, bits@));
            }
            return false;
        }
        let mut i: usize = 0;
        while i < key.len()
            invariant
                i <= key@.len(),
                key@.len() <= bits@.len(),
                forall|k: int| 0 <= k < i ==> key@[k] == bits@[k],
            decreases key@.len() - i,
        {
            if key[i] != bits[i] {
                proof {
                    assert(key@[i as int] != bits@.subrange(0, key@.len() as int)[i as int]);
                }
                return false;
            }
            i = i + 1;
        }
        proof {
            assert(key@ =~= bits@.subrange(0, key@.len() as int));
        }
        true
    }


    /// Byte-for-byte key equality.
    fn key_eq(a: &Vec<u8>, b: &Vec<u8>) -> (r: bool)
        ensures
            r == (a@ == b@),
    {
        if a.len() != b.len() {
            proof {
                assert(a@ != b@);
            }
            return false;
        }
        let mut i: usize = 0;
        while i < a.len()
            invariant
                i <= a@.len(),
                a@.len() == b@.len(),
                forall|k: int| 0 <= k < i ==> a@[k] == b@[k],
            decreases a@.len() - i,
        {
            if a[i] != b[i] {
                proof {
                    assert(a@[i as int] != b@[i as int]);
                }
                return false;
            }
            i = i + 1;
        }
        proof {
            assert(a@ =~= b@);
        }
        true
    }

    /// The socket addresses of all peers currently reachable over the
    /// network, in table order.
    pub fn get_all_nodes(&self) -> (r: Vec<SocketAddress>)
        ensures
            r@.map_values(|s: SocketAddress| s@) == reachable_socks(self@),
    {
        let mut v: Vec<SocketAddress> = Vec::new();
        let mut i: usize = 0;
        while i < self.entries.len()
            invariant
                i <= self.entries@.len(),
                v@.map_values(|s: SocketAddress| s@) == reachable_socks(
                    self@.subrange(0, i as int),
                ),
            decreases self.entries@.len() - i,
        {
            proof {
                assert(self@[i as int] == self.entries@[i as int]@);
            }
            match self.entries[i].peer.get_host() {
                Host::Localhost => {},
                Host::Unreachable => {},
                Host::Socket(addr) => {
                    v.push(addr);
                },
            }
            i = i + 1;
            proof {
                assert(self@.subrange(0, i as int).drop_last() =~= self@.subrange(
                    0,
                    i as int - 1,
                ));
                assert(self@.subrange(0, i as int).last() == self@[i as int - 1]);
                assert(v@.map_values(|s: SocketAddress| s@) =~= reachable_socks(
                    self@.subrange(0, i as int),
                ));
            }
        }
        proof {
            assert(self@.subrange(0, self@.len() as int) =~= self@);
        }
        v
    }

    /// The first peer carrying `name`, in table order.
    pub fn get_by_peer_name(&self, name: &str) -> (r: Option<Peer>)
        ensures
            match r {
                Some(p) => {
                    let k = find_name(self@, name@);
                    k >= 0 && p@ == self@[k].peer
                },
                None => find_name(self@, name@) == -1,
            },
    {
        proof {
            lemma_find_name_from(self@, name@, 0);
        }
        let mut i: usize = 0;
        while i < self.entries.len()
            invariant
                i <= self.entries@.len(),
                forall|j: int| 0 <= j < i ==> (#[trigger] self@[j].peer.name) != name@,
            decreases self.entries@.len() - i,
        {
            proof {
                assert(self@[i as int] == self.entries@[i as int]@);
            }
            if crate::utils::str_eq(self.entries[i].peer.name.as_str(), name) {
                proof {
                    assert(self@[i as int].peer.name == name@);
                    assert(find_name(self@, name@) == i) by {
                        lemma_find_name_from(self@, name@, 0);
                        let k = find_name_from(self@, name@, 0);
                        assert(k != -1);
                        if k < i {
                            assert(self@[k].peer.name == name@);
                            assert(false);
                        }
                        if k > i {
                            assert(false);
                        }
                    }
                }
                return Some(self.entries[i].peer.duplicate());
            }
            i = i + 1;
        }
        proof {
            assert(find_name(self@, name@) == -1);
        }
        None
    }

    /// All peers, in table order.
    pub fn get_all_peer(&self) -> (r: Vec<Peer>)
        ensures
            r@.len() == self@.len(),
            forall|i: int| 0 <= i < r@.len() ==> (#[trigger] r@[i]@) == self@[i].peer,
    {
        let mut v: Vec<Peer> = Vec::new();
        let mut i: usize = 0;
        while i < self.entries.len()
            invariant
                i <= self.entries@.len(),
                v@.len() == i,
                forall|j: int| 0 <= j < i ==> (#[trigger] v@[j]@) == self@[j].peer,
            decreases self.entries@.len() - i,
        {
            proof {
                assert(self@[i as int] == self.entries@[i as int]@);
            }
            v.push(self.entries[i].peer.duplicate());
            i = i + 1;
        }
        v
    }
}

impl LikeRouter for Table {
    /// Longest-prefix lookup of a destination address.
    fn find(&self, addr: IpAddress) -> (r: Option<Peer>)
    {
        let bits = encode_bytes(&addr);
        let ghost bitsv = bits@;
        let mut best: Option<usize> = None;
        let mut i: usize = 0;
        while i < self.entries.len()
            invariant
                i <= self.entries@.len(),
                bitsv == bits@,
                match best {
                    Option::None => lpm_upto(self@, bitsv, i as int) is None,
                    Option::Some(b) => {
                        &&& b < i
                        &&& lpm_upto(self@, bitsv, i as int) == Option::Some(self@[b as int])
                    },
                },
            decreases self.entries@.len() - i,
        {
            let e = &self.entries[i];
            proof {
                assert(self@[i as int] == self.entries@[i as int]@);
            }
            if Self::is_prefix(&e.key, &bits) {
                match best {
                    None => {
                        best = Some(i);
                    },
                    Some(b) => {
                        if e.key.len() > self.entries[b].key.len() {
                            best = Some(i);
                        }
                    },
                }
            }
            i = i + 1;
        }
        match best {
            None => None,
            Some(b) => {
                proof {
                    assert(self@[b as int] == self.entries@[b as int]@);
                }
                Some(self.entries[b].peer.duplicate())
            },
        }
    }

    /// Upserts the route `addr/mask -> peer_name`, merging `peer_host` into
    /// the peer already holding the prefix if one does. `Ok` reports a novel
    /// host, `Err` a duplicate.
    fn insert(&mut self, addr: IpAddress, mask: u16, peer_name: String, peer_host: Host) -> (r:
        Result<(), ()>)
    {
        let mut key = encode_bytes(&addr);
        key.truncate(mask as usize);
        let ghost keyv = key@;
        proof {
            assert(keyv == bits_of(addr@).subrange(0, mask as int));
            lemma_find_key_from(old(self)@, keyv, 0);
        }
        let mut i: usize = 0;
        while i < self.entries.len()
            invariant
                i <= self.entries@.len(),
                self@ == old(self)@,
                keyv == key@,
                forall|j: int| 0 <= j < i ==> (#[trigger] old(self)@[j].key) != keyv,
            decreases self.entries@.len() - i,
        {
            proof {
                assert(self@[i as int] == self.entries@[i as int]@);
            }
            if Self::key_eq(&self.entries[i].key, &key) {
                proof {
                    assert(self@[i as int].key == keyv);
                    assert(old(self)@[i as int].key == keyv);
                    assert(find_key(old(self)@, keyv) == i) by {
                        lemma_find_key_from(old(self)@, keyv, 0);
                        let k = find_key_from(old(self)@, keyv, 0);
                        assert(k != -1);
                        if k < i {
                            assert(old(self)@[k].key == keyv);
                            assert(false);
                        }
                        if k > i {
                            assert(false);
                        }
                    }
                }
                let mut entry = self.entries.remove(i);
                let r = entry.peer.add_host(peer_host);
                self.entries.insert(i, entry);
                proof {
                    assert(self@ =~= old(self)@.update(
                        i as int,
                        TableEntryV {
                            key: keyv,
                            peer: PeerV {
                                name: old(self)@[i as int].peer.name,
                                host: add_host_model(old(self)@[i as int].peer.host, peer_host@).0,
                            },
                        },
                    ));
                    assert(wf_table(old(self)@) ==> wf_table(self@));
                }
                return r;
            }
            i = i + 1;
        }
        proof {
            assert(find_key(old(self)@, keyv) == -1);
        }
        let mut peer = Peer::new(peer_name);
        let r = peer.add_host(peer_host);
        let entry = TableEntry { key, peer };
        self.entries.push(entry);
        proof {
            assert(self@ =~= old(self)@.push(
                TableEntryV {
                    key: keyv,
                    peer: PeerV {
                        name: peer_name@,
                        host: add_host_model(Seq::empty(), peer_host@).0,
                    },
                },
            ));
            assert(add_host_model(Seq::<CandidateV>::empty(), peer_host@).1);
            if wf_table(old(self)@) {
                assert forall|a: int, b: int|
                    0 <= a < self@.len() && 0 <= b < self@.len() && a != b implies (
                #[trigger] self@[a].key) != (#[trigger] self@[b].key) by {
                    if a == self@.len() - 1 {
                        assert(self@[b].key == old(self)@[b].key);
                    } else if b == self@.len() - 1 {
                        assert(self@[a].key == old(self)@[a].key);
                    }
                }
            }
        }
        r
    }

    /// Removes the route stored under `addr/mask`; `Err` when absent.
    fn delete(&mut self, addr: IpAddress, mask: u16) -> (r: Result<(), ()>)
    {
        let mut key = encode_bytes(&addr);
        key.truncate(mask as usize);
        let ghost keyv = key@;
        proof {
            assert(keyv == bits_of(addr@).subrange(0, mask as int));
            lemma_find_key_from(old(self)@, keyv, 0);
        }
        let mut i: usize = 0;
        while i < self.entries.len()
            invariant
                i <= self.entries@.len(),
                self@ == old(self)@,
                keyv == key@,
                forall|j: int| 0 <= j < i ==> (#[trigger] old(self)@[j].key) != keyv,
            decreases self.entries@.len() - i,
        {
            proof {
                assert(self@[i as int] == self.entries@[i as int]@);
            }
            if Self::key_eq(&self.entries[i].key, &key) {
                proof {
                    assert(self@[i as int].key == keyv);
                    assert(old(self)@[i as int].key == keyv);
                    assert(find_key(old(self)@, keyv) == i) by {
                        lemma_find_key_from(old(self)@, keyv, 0);
                        let k = find_key_from(old(self)@, keyv, 0);
                        assert(k != -1);
                        if k < i {
                            assert(old(self)@[k].key == keyv);
                            assert(false);
                        }
                        if k > i {
                            assert(false);
                        }
                    }
                }
                self.entries.remove(i);
                proof {
                    assert(self@ =~= old(self)@.remove(i as int));
                    if wf_table(old(self)@) {
                        assert forall|a: int, b: int|
                            0 <= a < self@.len() && 0 <= b < self@.len() && a != b implies (
                        #[trigger] self@[a].key) != (#[trigger] self@[b].key) by {
                            let a0 = if a < i { a } else { a + 1 };
                            let b0 = if b < i { b } else { b + 1 };
                            assert(self@[a].key == old(self)@[a0].key);
                            assert(self@[b].key == old(self)@[b0].key);
                        }
                    }
                }
                return Ok(());
            }
            i = i + 1;
        }
        proof {
            assert(find_key(old(self)@, keyv) == -1);
        }
        Err(())
    }
}

/// An upsert keeps the stored keys pairwise distinct.
pub proof fn lemma_insert_wf(t: Seq<TableEntryV>, key: Seq<u8>, name: Seq<char>, h: HostV)
    requires
        wf_table(t),
    ensures
        wf_table(insert_model(t, key, name, h).0),
{
    let t2 = insert_model(t, key, name, h).0;
    let i = find_key(t, key);
    lemma_find_key_from(t, key, 0);
    if i >= 0 {
        assert forall|a: int, b: int|
            0 <= a < t2.len() && 0 <= b < t2.len() && a != b implies (#[trigger] t2[a].key) != (
        #[trigger] t2[b].key) by {
            assert(t[a].key != t[b].key);
        }
    } else {
        assert forall|a: int, b: int|
            0 <= a < t2.len() && 0 <= b < t2.len() && a != b implies (#[trigger] t2[a].key) != (
        #[trigger] t2[b].key) by {
            if a == t2.len() - 1 {
                assert(t2[b].key == t[b].key);
            } else if b == t2.len() - 1 {
                assert(t2[a].key == t[a].key);
            } else {
                assert(t[a].key != t[b].key);
            }
        }
    }
}

/// Inserting a route and then looking up an address that its prefix covers
/// returns the peer now stored under that prefix, provided no strictly
/// longer stored prefix also covers the address: the longest prefix wins.
pub proof fn lemma_insert_find(
    t: Seq<TableEntryV>,
    key: Seq<u8>,
    name: Seq<char>,
    h: HostV,
    bits: Seq<u8>,
)
    requires
        wf_table(t),
        covers(key, bits),
        forall|j: int|
            0 <= j < t.len() && covers(#[trigger] t[j].key, bits) ==> t[j].key.len() <= key.len(),
    ensures
        ({
            let i = find_key(t, key);
            let peer = if i >= 0 {
                PeerV { name: t[i].peer.name, host: add_host_model(t[i].peer.host, h).0 }
            } else {
                PeerV { name, host: add_host_model(Seq::empty(), h).0 }
            };
            spec_lpm(insert_model(t, key, name, h).0, bits) == Option::Some(
                TableEntryV { key, peer },
            )
        }),
{
    let t2 = insert_model(t, key, name, h).0;
    let i = find_key(t, key);
    lemma_find_key_from(t, key, 0);
    lemma_insert_wf(t, key, name, h);
    let peer = if i >= 0 {
        PeerV { name: t[i].peer.name, host: add_host_model(t[i].peer.host, h).0 }
    } else {
        PeerV { name, host: add_host_model(Seq::empty(), h).0 }
    };
    let at = if i >= 0 {
        i
    } else {
        t.len() as int
    };
    assert(t2[at] == TableEntryV { key, peer });
    lemma_lpm_props(t2, bits, t2.len() as int);
    match spec_lpm(t2, bits) {
        Option::None => {
            assert(covers(t2[at].key, bits));
            assert(false);
        },
        Option::Some(e) => {
            let w = choose|w: int| 0 <= w < t2.len() && #[trigger] t2[w] == e;
            assert(forall|j: int|
                0 <= j < t2.len() && covers(#[trigger] t2[j].key, bits) ==> t2[j].key.len()
                    <= key.len());
            assert(covers(t2[w].key, bits));
            assert(e.key.len() <= key.len());
            assert(covers(t2[at].key, bits));
            assert(key.len() <= e.key.len());
            assert(e.key.len() == key.len());
            assert(e.key =~= bits.subrange(0, key.len() as int));
            assert(e.key == key);
            assert(w == at) by {
                if w != at {
                    assert(t2[w].key != t2[at].key);
                }
            }
        },
    }
}

/// Inserting a route, deleting it again and looking up an address that no
/// other stored prefix covers finds nothing: the table holds no ghosts.
pub proof fn lemma_insert_delete_find(
    t: Seq<TableEntryV>,
    key: Seq<u8>,
    name: Seq<char>,
    h: HostV,
    bits: Seq<u8>,
)
    requires
        wf_table(t),
        forall|j: int|
            0 <= j < t.len() ==> (#[trigger] t[j].key) == key || !covers(t[j].key, bits),
    ensures
        spec_lpm(delete_model(insert_model(t, key, name, h).0, key).0, bits) is None,
{
    let t2 = insert_model(t, key, name, h).0;
    let t3 = delete_model(t2, key).0;
    let i = find_key(t, key);
    lemma_find_key_from(t, key, 0);
    lemma_insert_wf(t, key, name, h);
    let at = if i >= 0 {
        i
    } else {
        t.len() as int
    };
    assert(t2[at].key == key);
    lemma_find_key_from(t2, key, 0);
    let k2 = find_key(t2, key);
    assert(k2 != -1);
    assert(k2 == at) by {
        if k2 != at {
            assert(t2[k2].key != t2[at].key);
        }
    }
    assert(t3 =~= t2.remove(at));
    lemma_lpm_props(t3, bits, t3.len() as int);
    match spec_lpm(t3, bits) {
        Option::None => {},
        Option::Some(e) => {
            let w = choose|w: int| 0 <= w < t3.len() && #[trigger] t3[w] == e;
            let w0 = if w < at {
                w
            } else {
                w + 1
            };
            assert(t3[w] == t2[w0]);
            assert(covers(t2[w0].key, bits));
            if i >= 0 {
                assert(t2[w0].key == t[w0].key);
                assert(t[w0].key != key) by {
                    assert(t2[w0].key != t2[at].key);
                }
                assert(false);
            } else {
                assert(w0 < t.len());
                assert(t2[w0].key == t[w0].key);
                assert(t[w0].key != key) by {
                    assert(t2[w0].key != t2[at].key);
                }
                assert(false);
            }
        },
    }
}

pub proof fn lemma_find_name_from(t: Seq<TableEntryV>, name: Seq<char>, i: int)
    requires
        0 <= i <= t.len(),
    ensures
        find_name_from(t, name, i) == -1 ==> forall|j: int|
            i <= j < t.len() ==> (#[trigger] t[j].peer.name) != name,
        find_name_from(t, name, i) != -1 ==> {
            let k = find_name_from(t, name, i);
            &&& i <= k < t.len()
            &&& t[k].peer.name == name
            &&& forall|j: int| i <= j < k ==> (#[trigger] t[j].peer.name) != name
        },
    decreases t.len() - i,
{
    if i < t.len() {
        lemma_find_name_from(t, name, i + 1);
    }
}

} // verus!
