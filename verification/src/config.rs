//! The configuration of a node: protocol parameters with their defaults, the
//! checks on a configuration, and the addresses it yields.

use std::collections::HashMap;
use vstd::prelude::*;
use crate::types::Replica;
use crate::aacs::select::keys_of;
use crate::parse::{chars_of, string_of, u16_of, parse_u16, first_segment, last_segment, first_segment_of, last_segment_of};

verus! {

broadcast use vstd::std_specs::hash::group_hash_axioms;

/// The parameters of agreement on a common subset.
pub struct ACSParams {
    pub kappa: usize,
}

impl Default for ACSParams {
    /// A committee of two leaders.
    fn default() -> (p: ACSParams)
        ensures
            p.kappa == 2,
    {
        ACSParams { kappa: 2 }
    }
}

/// The parameters of the distributed random beacon.
pub struct DRBParams {
    pub batch: usize,
    pub frequency: u32,
}

impl Default for DRBParams {
    /// Batches of 50 beacons, every 25 rounds.
    fn default() -> (p: DRBParams)
        ensures
            p.batch == 50,
            p.frequency == 25,
    {
        DRBParams { batch: 50, frequency: 25 }
    }
}

/// The signature scheme of a configuration.
#[derive(Copy, Clone, Debug, PartialEq, Eq, Structural)]
pub enum Algorithm {
    ED25519,
    SECP256K1,
    RSA,
    NOPKI,
}

/// Why a configuration is refused.
#[derive(Copy, Clone, Debug)]
pub enum ParseError {
    /// The network map has the wrong size: expected, found.
    InvalidMapLen(usize, usize),
    /// Too many faults for the number of nodes: faults, nodes.
    IncorrectFaults(usize, usize),
    /// A key map names a node that does not exist.
    InvalidMapEntry(Replica),
    /// A public (or shared secret) key has the wrong size.
    InvalidPkSize(usize),
    /// The secret key has the wrong size.
    InvalidSkSize(usize),
    /// The scheme is not supported.
    Unimplemented(&'static str),
}

/// The key sizes, in bytes, of the signature schemes.
pub struct KeySizes {
    pub ed25519_pk: usize,
    pub ed25519_pvt: usize,
    pub secp256k1_pk: usize,
    pub secp256k1_pvt: usize,
    pub secret_key: usize,
}

/// Whether `r` names one of the `n` nodes.
pub open spec fn valid_replica(r: Replica, n: usize) -> bool {
    r < n
}

/// Whether `r` names one of the `n` nodes.
pub fn is_valid_replica(r: Replica, n: usize) -> (b: bool)
    ensures
        b == valid_replica(r, n),
{
    r < n
}

/// The configuration of a node, as far as its checks and addresses read it.
/// `client_addr` is the host and port of the synchronizer.
pub struct Node {
    pub net_map_delphi: HashMap<Replica, String>,
    pub delay: u64,
    pub acs: ACSParams,
    pub drb: DRBParams,
    pub id: Replica,
    pub num_nodes: usize,
    pub num_faults: usize,
    pub block_size: usize,
    pub client_port: u16,
    pub client_addr: (String, u16),
    pub payload: usize,
    pub prot_payload: String,
    pub crypto_alg: Algorithm,
    pub pk_map: HashMap<Replica, Vec<u8>>,
    pub secret_key_bytes: Vec<u8>,
    pub sk_map: HashMap<Replica, Vec<u8>>,
}

/// The protocol setting selects approximate agreement: its first
/// comma-separated field is `a`.
pub open spec fn approx_payload(p: Seq<char>) -> bool {
    p.len() >= 1 && p[0] == 'a' && (p.len() == 1 || p[1] == ',')
}

/// Whether the protocol setting selects approximate agreement, the only
/// protocol that a node of approximate agreement runs.
pub fn is_approx_payload(p: &String) -> (b: bool)
    ensures
        b == approx_payload(p@),
{
    let cs = chars_of(p.as_str());
    cs.len() >= 1 && cs[0] == 'a' && (cs.len() == 1 || cs[1] == ',')
}

/// The error that one entry of a key map gives, if any.
pub open spec fn entry_error(r: Replica, len: nat, n: usize, size: usize) -> Option<ParseError> {
    if !valid_replica(r, n) {
        Some(ParseError::InvalidMapEntry(r))
    } else if len != size {
        Some(ParseError::InvalidPkSize(len as usize))
    } else {
        None
    }
}

/// The check of a key map: with no faulty entry the check passes (`None`);
/// otherwise it reports the error of one faulty entry (the map's order tells
/// which).
pub open spec fn map_check_ok(m: Map<Replica, Seq<u8>>, n: usize, size: usize, r: Option<ParseError>) -> bool {
    match r {
        None => forall|k: Replica| #[trigger] m.contains_key(k) ==> entry_error(k, m[k].len(), n, size) is None,
        Some(e) => exists|k: Replica| #[trigger] m.contains_key(k) && entry_error(k, m[k].len(), n, size) == Some(e),
    }
}

/// The check of a node's configuration.
pub open spec fn validate_ok(c: &Node, sizes: &KeySizes, r: Result<(), ParseError>) -> bool {
    let n = c.num_nodes;
    if c.net_map_delphi@.len() != n {
        r == Err::<(), ParseError>(ParseError::InvalidMapLen(n, c.net_map_delphi@.len() as usize))
    } else if 2 * c.num_faults >= n {
        r == Err::<(), ParseError>(ParseError::IncorrectFaults(c.num_faults, n))
    } else {
        let pks = c.pk_map@.map_values(|v: Vec<u8>| v@);
        let sks = c.sk_map@.map_values(|v: Vec<u8>| v@);
        match c.crypto_alg {
            Algorithm::ED25519 => key_check_ok(pks, n, sizes.ed25519_pk, c.secret_key_bytes@.len(), sizes.ed25519_pvt, r),
            Algorithm::SECP256K1 => key_check_ok(pks, n, sizes.secp256k1_pk, c.secret_key_bytes@.len(), sizes.secp256k1_pvt, r),
            Algorithm::RSA => r == Err::<(), ParseError>(ParseError::Unimplemented("RSA")),
            Algorithm::NOPKI => match r {
                Ok(_) => map_check_ok(sks, n, sizes.secret_key, None),
                Err(e) => map_check_ok(sks, n, sizes.secret_key, Some(e)),
            },
        }
    }
}

/// The check of the public keys and then of this node's secret key.
pub open spec fn key_check_ok(pks: Map<Replica, Seq<u8>>, n: usize, pk_size: usize, sk_len: nat, sk_size: usize, r: Result<(), ParseError>) -> bool {
    if forall|k: Replica| #[trigger] pks.contains_key(k) ==> entry_error(k, pks[k].len(), n, pk_size) is None {
        r == if sk_len != sk_size { Err(ParseError::InvalidSkSize(sk_len as usize)) } else { Ok(()) }
    } else {
        r matches Err(e) && map_check_ok(pks, n, pk_size, Some(e))
    }
}

/// Checks every entry of a key map.
fn check_map(m: &HashMap<Replica, Vec<u8>>, n: usize, size: usize) -> (r: Option<ParseError>)
    ensures
        map_check_ok(m@.map_values(|v: Vec<u8>| v@), n, size, r),
{
    let ghost mv = m@.map_values(|v: Vec<u8>| v@);
    let ks = keys_of(m);
    let mut i: usize = 0;
    while i < ks.len()
        invariant
            i <= ks@.len(),
            ks@.to_set() == m@.dom(),
            mv == m@.map_values(|v: Vec<u8>| v@),
            forall|j: int| 0 <= j < i ==> entry_error(ks@[j], mv[#[trigger] ks@[j]].len(), n, size) is None,
        decreases ks@.len() - i,
    {
        let k = ks[i];
        assert(ks@.to_set().contains(k));
        let v = m.get(&k).unwrap();
        if !is_valid_replica(k, n) {
            assert(mv.contains_key(k) && entry_error(k, mv[k].len(), n, size) == Some(ParseError::InvalidMapEntry(k)));
            return Some(ParseError::InvalidMapEntry(k));
        }
        if v.len() != size {
            assert(mv.contains_key(k) && entry_error(k, mv[k].len(), n, size) == Some(ParseError::InvalidPkSize(v.len())));
            return Some(ParseError::InvalidPkSize(v.len()));
        }
        i = i + 1;
    }
    assert forall|k: Replica| #[trigger] mv.contains_key(k) implies entry_error(k, mv[k].len(), n, size) is None by {
        assert(ks@.to_set().contains(k));
        let j = choose|j: int| 0 <= j < ks@.len() && ks@[j] == k;
        assert(entry_error(ks@[j], mv[ks@[j]].len(), n, size) is None);
    }
    None
}

/// The network map of a node's own entry: it listens on every interface.
pub open spec fn listen_text(port: u16) -> Seq<char> {
    "0.0.0.0:"@ + decimal(port as nat)
}

/// The decimal digits of a number, without leading zeros.
pub open spec fn decimal(x: nat) -> Seq<char>
    decreases x,
{
    if x < 10 {
        seq![digit_char(x)]
    } else {
        decimal(x / 10).push(digit_char(x % 10))
    }
}

/// The character of a digit.
pub open spec fn digit_char(d: nat) -> char {
    (d + 48) as char
}

/// The decimal digits of `x`.
pub fn decimal_chars(x: u16) -> (v: Vec<char>)
    ensures
        v@ == decimal(x as nat),
{
    let mut digits: Vec<char> = Vec::new();
    let mut y: u16 = x;
    // Collect the digits from the lowest, then reverse them.
    loop
        invariant_except_break
            y <= x,
            decimal(x as nat) == decimal(y as nat) + digits@.reverse(),
        ensures
            decimal(x as nat) == digits@.reverse(),
        decreases y,
    {
        let d = y % 10;
        let c = char_of_digit(d);
        if y < 10 {
            let ghost before = digits@;
            digits.push(c);
            assert(digits@.drop_last() =~= before);
            assert(digits@.reverse() =~= seq![c] + before.reverse());
            assert(decimal(y as nat) == seq![c]);
            break;
        }
        digits.push(c);
        proof {
            assert(decimal(y as nat) == decimal((y / 10) as nat).push(digit_char((y % 10) as nat)));
            assert(digits@.reverse() =~= seq![c] + digits@.drop_last().reverse());
            assert(decimal((y / 10) as nat).push(c) + digits@.drop_last().reverse() =~= decimal((y / 10) as nat) + digits@.reverse());
        }
        y = y / 10;
    }
    let mut v: Vec<char> = Vec::new();
    let mut k: usize = digits.len();
    while k > 0
        invariant
            k <= digits@.len(),
            v@ == digits@.reverse().subrange(0, (digits@.len() - k) as int),
        decreases k,
    {
        k = k - 1;
        v.push(digits[k]);
        assert(v@ =~= digits@.reverse().subrange(0, (digits@.len() - k) as int));
    }
    assert(v@ =~= digits@.reverse());
    v
}

/// The character of a digit.
fn char_of_digit(d: u16) -> (c: char)
    requires
        d < 10,
    ensures
        c == digit_char(d as nat),
{
    if d == 0 { '0' } else if d == 1 { '1' } else if d == 2 { '2' } else if d == 3 { '3' } else if d == 4 { '4' }
    else if d == 5 { '5' } else if d == 6 { '6' } else if d == 7 { '7' } else if d == 8 { '8' } else { '9' }
}

/// The text "0.0.0.0:" followed by `port`.
fn listen_address(port: u16) -> (s: String)
    ensures
        s@ == listen_text(port),
{
    let mut cs = chars_of("0.0.0.0:");
    let mut ds = decimal_chars(port);
    cs.append(&mut ds);
    string_of(&cs)
}

impl Node {
    /// A configuration with no nodes yet: ED25519, a delay of 50, the default
    /// parameters, and the synchronizer at 0.0.0.0:5000.
    pub fn new() -> (c: Node)
        ensures
            c.net_map_delphi@ == Map::<Replica, String>::empty(),
            c.delay == 50,
            c.acs.kappa == 2,
            c.drb.batch == 50 && c.drb.frequency == 25,
            c.id == 0 && c.num_nodes == 0 && c.num_faults == 0,
            c.block_size == 0 && c.client_port == 0 && c.payload == 0,
            c.client_addr.0@ == "0.0.0.0"@ && c.client_addr.1 == 5000,
            c.prot_payload@ == Seq::<char>::empty(),
            c.crypto_alg == Algorithm::ED25519,
            c.pk_map@ == Map::<Replica, Vec<u8>>::empty(),
            c.secret_key_bytes@ == Seq::<u8>::empty(),
            c.sk_map@ == Map::<Replica, Vec<u8>>::empty(),
    {
        Node {
            net_map_delphi: HashMap::new(),
            delay: 50,
            acs: ACSParams::default(),
            drb: DRBParams::default(),
            id: 0,
            num_nodes: 0,
            num_faults: 0,
            block_size: 0,
            client_port: 0,
            client_addr: (string_of(&chars_of("0.0.0.0")), 5000),
            payload: 0,
            prot_payload: String::new(),
            crypto_alg: Algorithm::ED25519,
            pk_map: HashMap::new(),
            secret_key_bytes: Vec::new(),
            sk_map: HashMap::new(),
        }
    }

    /// Checks the configuration: the network map names every node, fewer than
    /// half the nodes are faulty, and the keys of the signature scheme have the
    /// sizes in `sizes` and belong to existing nodes.
    pub fn validate(&self, sizes: &KeySizes) -> (r: Result<(), ParseError>)
        requires
            2 * self.num_faults <= usize::MAX,
        ensures
            validate_ok(self, sizes, r),
    {
        let n = self.num_nodes;
        if self.net_map_delphi.len() != n {
            return Err(ParseError::InvalidMapLen(n, self.net_map_delphi.len()));
        }
        if 2 * self.num_faults >= n {
            return Err(ParseError::IncorrectFaults(self.num_faults, n));
        }
        match self.crypto_alg {
            Algorithm::ED25519 => {
                match check_map(&self.pk_map, n, sizes.ed25519_pk) {
                    Some(e) => Err(e),
                    None => {
                        if self.secret_key_bytes.len() != sizes.ed25519_pvt {
                            Err(ParseError::InvalidSkSize(self.secret_key_bytes.len()))
                        } else {
                            Ok(())
                        }
                    },
                }
            },
            Algorithm::SECP256K1 => {
                match check_map(&self.pk_map, n, sizes.secp256k1_pk) {
                    Some(e) => Err(e),
                    None => {
                        if self.secret_key_bytes.len() != sizes.secp256k1_pvt {
                            Err(ParseError::InvalidSkSize(self.secret_key_bytes.len()))
                        } else {
                            Ok(())
                        }
                    },
                }
            },
            Algorithm::RSA => Err(ParseError::Unimplemented("RSA")),
            Algorithm::NOPKI => {
                match check_map(&self.sk_map, n, sizes.secret_key) {
                    Some(e) => Err(e),
                    None => Ok(()),
                }
            },
        }
    }

    /// This node's entry of the network map.
    pub fn my_ip(&self) -> (ip: String)
        requires
            self.net_map_delphi@.contains_key(self.id),
        ensures
            ip@ == self.net_map_delphi@[self.id]@,
    {
        self.net_map_delphi.get(&self.id).unwrap().clone()
    }

    /// The address at which the node listens for its synchronizer: every
    /// interface, at `client_port`.
    pub fn client_ip(&self) -> (ip: String)
        ensures
            ip@ == listen_text(self.client_port),
    {
        listen_address(self.client_port)
    }
}

/// The views of a network map.
pub open spec fn net_view(m: Map<Replica, String>) -> Map<Replica, Seq<char>> {
    m.map_values(|s: String| s@)
}

/// The port at the end of an address.
pub open spec fn port_of(ip: Seq<char>) -> u16 {
    u16_of(last_segment(ip))->Ok_0
}

/// The addresses that are read for their port (this node's own, and the
/// synchronizer's, which comes after the `n` nodes) end in a port number.
pub open spec fn ports_ok(ips: Seq<Seq<char>>, id: usize, n: usize) -> bool {
    &&& id < ips.len() ==> u16_of(last_segment(ips[id as int])) is Ok
    &&& n < ips.len() ==> u16_of(last_segment(ips[n as int])) is Ok
}

/// The network-map entry of node `k`: its address, or, for this node, every
/// interface at its port.
pub open spec fn net_entry(ips: Seq<Seq<char>>, id: usize, k: usize) -> Seq<char> {
    if k == id { listen_text(port_of(ips[k as int])) } else { ips[k as int] }
}

/// The network map after the first `upto` addresses are entered.
pub open spec fn updated_net(m: Map<Replica, Seq<char>>, ips: Seq<Seq<char>>, id: usize, upto: int) -> Map<Replica, Seq<char>> {
    Map::new(|k: Replica| m.contains_key(k) || k < upto, |k: Replica| if k < upto { net_entry(ips, id, k) } else { m[k] })
}

impl Node {
    /// Enters the addresses `ips` of the nodes, in order, into the network
    /// map (this node's own as every interface at its port); the address after
    /// the `n` nodes' is also the synchronizer's.
    pub fn update_config(&mut self, ips: Vec<String>)
        requires
            ports_ok(ips@.map_values(|s: String| s@), old(self).id, old(self).num_nodes),
        ensures
            net_view(final(self).net_map_delphi@)
                == updated_net(net_view(old(self).net_map_delphi@), ips@.map_values(|s: String| s@), old(self).id, ips@.len() as int),
            old(self).num_nodes < ips@.len() ==> final(self).client_addr.0@ == first_segment(ips@[old(self).num_nodes as int]@)
                && final(self).client_addr.1 == port_of(ips@[old(self).num_nodes as int]@),
            old(self).num_nodes >= ips@.len() ==> final(self).client_addr == old(self).client_addr,
            final(self).id == old(self).id,
            final(self).num_nodes == old(self).num_nodes,
            final(self).num_faults == old(self).num_faults,
            final(self).client_port == old(self).client_port,
            final(self).crypto_alg == old(self).crypto_alg,
            final(self).pk_map@ == old(self).pk_map@,
            final(self).sk_map@ == old(self).sk_map@,
            final(self).secret_key_bytes@ == old(self).secret_key_bytes@,
            final(self).delay == old(self).delay,
            final(self).acs == old(self).acs,
            final(self).drb == old(self).drb,
            final(self).block_size == old(self).block_size,
            final(self).payload == old(self).payload,
            final(self).prot_payload@ == old(self).prot_payload@,
    {
        let ghost ipv = ips@.map_values(|s: String| s@);
        let ghost m0 = net_view(self.net_map_delphi@);
        let n = self.num_nodes;
        let id = self.id;
        let mut idx: usize = 0;
        assert(updated_net(m0, ipv, id, 0) =~= m0);
        while idx < ips.len()
            invariant
                idx <= ips@.len(),
                ipv == ips@.map_values(|s: String| s@),
                ports_ok(ipv, id, n),
                n == old(self).num_nodes,
                id == old(self).id,
                self.id == id,
                self.num_nodes == n,
                self.num_faults == old(self).num_faults,
                self.client_port == old(self).client_port,
                self.crypto_alg == old(self).crypto_alg,
                self.pk_map@ == old(self).pk_map@,
                self.sk_map@ == old(self).sk_map@,
                self.secret_key_bytes@ == old(self).secret_key_bytes@,
                self.delay == old(self).delay,
                self.acs == old(self).acs,
                self.drb == old(self).drb,
                self.block_size == old(self).block_size,
                self.payload == old(self).payload,
                self.prot_payload@ == old(self).prot_payload@,
                net_view(self.net_map_delphi@) == updated_net(m0, ipv, id, idx as int),
                n < idx ==> self.client_addr.0@ == first_segment(ipv[n as int]) && self.client_addr.1 == port_of(ipv[n as int]),
                n >= idx ==> self.client_addr == old(self).client_addr,
            decreases ips@.len() - idx,
        {
            let cs = chars_of(ips[idx].as_str());
            assert(cs@ == ipv[idx as int]);
            if idx == n {
                let host = first_segment_of(&cs);
                let port = parse_u16(&last_segment_of(&cs)).unwrap();
                self.client_addr = (string_of(&host), port);
            }
            let entry = if idx == id {
                let port = parse_u16(&last_segment_of(&cs)).unwrap();
                listen_address(port)
            } else {
                ips[idx].clone()
            };
            let ghost ev = entry@;
            assert(ev == net_entry(ipv, id, idx));
            let ghost before = net_view(self.net_map_delphi@);
            self.net_map_delphi.insert(idx, entry);
            assert(net_view(self.net_map_delphi@) =~= before.insert(idx, ev));
            assert(updated_net(m0, ipv, id, idx + 1) =~= updated_net(m0, ipv, id, idx as int).insert(idx, ev));
            idx = idx + 1;
        }
    }
}

} // verus!
