//! The network interfaces of a Linux system: their addresses and flags, as the entries of
//! `getifaddrs` give them, and their traffic counters, as the files under
//! `/sys/class/net/<name>/statistics` hold them.
use vstd::prelude::*;
use crate::text::{chars_of, hex2, parse_uint, parse_uint_chars, push_hex2, string_of, trim_end, trim_end_chars};
use crate::sysinfo::error::{Error, InnerError};

verus! {

/// The interface is up.
pub const IFF_UP: i32 = 0x1;
/// It has a valid broadcast address.
pub const IFF_BROADCAST: i32 = 0x2;
/// Debugging is on.
pub const IFF_DEBUG: i32 = 0x4;
/// It is a loopback.
pub const IFF_LOOPBACK: i32 = 0x8;
/// It is a point-to-point link.
pub const IFF_POINTOPOINT: i32 = 0x10;
/// It avoids trailers.
pub const IFF_NOTRAILERS: i32 = 0x20;
/// Resources are allocated.
pub const IFF_RUNNING: i32 = 0x40;
/// It has no address resolution.
pub const IFF_NOARP: i32 = 0x80;
/// It receives all packets.
pub const IFF_PROMISC: i32 = 0x100;
/// It receives all multicast packets.
pub const IFF_ALLMULTI: i32 = 0x200;
/// It is the master of a load balancer.
pub const IFF_MASTER: i32 = 0x400;
/// It is a slave of a load balancer.
pub const IFF_SLAVE: i32 = 0x800;
/// It supports multicast.
pub const IFF_MULTICAST: i32 = 0x1000;
/// It can set its media type.
pub const IFF_PORTSEL: i32 = 0x2000;
/// It selects its media automatically.
pub const IFF_AUTOMEDIA: i32 = 0x4000;
/// Its addresses are lost when it goes down.
pub const IFF_DYNAMIC: i32 = 0x8000;

/// The flags of an interface.
#[derive(Debug, Clone, Copy, PartialEq, Eq, Structural)]
pub struct State {
    inner: i32,
}

/// Whether `flags` has the flag `bit`.
pub open spec fn has_flag(flags: i32, bit: i32) -> bool {
    flags & bit != 0
}

impl State {
    /// The flags.
    pub closed spec fn flags(&self) -> i32 {
        self.inner
    }

    /// The state with the given flags.
    pub fn new(inner: i32) -> (r: Self)
        ensures
            r.flags() == inner,
    {
        State { inner }
    }

    /// Whether the state has the flag `bit`.
    pub fn has(&self, bit: i32) -> (r: bool)
        ensures
            r == has_flag(self.flags(), bit),
    {
        self.inner & bit != 0
    }

    /// The interface is up.
    pub fn is_up(&self) -> (r: bool)
        ensures
            r == has_flag(self.flags(), IFF_UP),
    {
        self.has(IFF_UP)
    }

    /// It has a valid broadcast address.
    pub fn is_broadcast(&self) -> (r: bool)
        ensures
            r == has_flag(self.flags(), IFF_BROADCAST),
    {
        self.has(IFF_BROADCAST)
    }

    /// Debugging is on.
    pub fn is_debug(&self) -> (r: bool)
        ensures
            r == has_flag(self.flags(), IFF_DEBUG),
    {
        self.has(IFF_DEBUG)
    }

    /// It is a loopback.
    pub fn is_loopback(&self) -> (r: bool)
        ensures
            r == has_flag(self.flags(), IFF_LOOPBACK),
    {
        self.has(IFF_LOOPBACK)
    }

    /// It is a point-to-point link.
    pub fn is_point_to_point(&self) -> (r: bool)
        ensures
            r == has_flag(self.flags(), IFF_POINTOPOINT),
    {
        self.has(IFF_POINTOPOINT)
    }

    /// It avoids trailers.
    pub fn is_no_trailers(&self) -> (r: bool)
        ensures
            r == has_flag(self.flags(), IFF_NOTRAILERS),
    {
        self.has(IFF_NOTRAILERS)
    }

    /// Resources are allocated.
    pub fn is_running(&self) -> (r: bool)
        ensures
            r == has_flag(self.flags(), IFF_RUNNING),
    {
        self.has(IFF_RUNNING)
    }

    /// It has no address resolution.
    pub fn is_no_arp(&self) -> (r: bool)
        ensures
            r == has_flag(self.flags(), IFF_NOARP),
    {
        self.has(IFF_NOARP)
    }

    /// It receives all packets.
    pub fn is_promisc(&self) -> (r: bool)
        ensures
            r == has_flag(self.flags(), IFF_PROMISC),
    {
        self.has(IFF_PROMISC)
    }

    /// It receives all multicast packets.
    pub fn is_all_multi(&self) -> (r: bool)
        ensures
            r == has_flag(self.flags(), IFF_ALLMULTI),
    {
        self.has(IFF_ALLMULTI)
    }

    /// It is the master of a load balancer.
    pub fn is_master(&self) -> (r: bool)
        ensures
            r == has_flag(self.flags(), IFF_MASTER),
    {
        self.has(IFF_MASTER)
    }

    /// It is a slave of a load balancer.
    pub fn is_slave(&self) -> (r: bool)
        ensures
            r == has_flag(self.flags(), IFF_SLAVE),
    {
        self.has(IFF_SLAVE)
    }

    /// It supports multicast.
    pub fn is_multicast(&self) -> (r: bool)
        ensures
            r == has_flag(self.flags(), IFF_MULTICAST),
    {
        self.has(IFF_MULTICAST)
    }

    /// It can set its media type.
    pub fn is_port_sel(&self) -> (r: bool)
        ensures
            r == has_flag(self.flags(), IFF_PORTSEL),
    {
        self.has(IFF_PORTSEL)
    }

    /// It selects its media automatically.
    pub fn is_auto_media(&self) -> (r: bool)
        ensures
            r == has_flag(self.flags(), IFF_AUTOMEDIA),
    {
        self.has(IFF_AUTOMEDIA)
    }

    /// Its addresses are lost when it goes down.
    pub fn is_dynamic(&self) -> (r: bool)
        ensures
            r == has_flag(self.flags(), IFF_DYNAMIC),
    {
        self.has(IFF_DYNAMIC)
    }
}

/// A counter file that does not hold a number.
pub open spec fn counter_of(text: Seq<char>) -> Option<u64> {
    match parse_uint(trim_end(text), u64::MAX as int) {
        Ok(v) => Some(v as u64),
        Err(_) => None,
    }
}

/// Reads a counter file: its text without trailing whitespace, as a number; `ParseIntError`
/// otherwise.
pub fn parse_counter(text: &str) -> (r: Result<u64, Error>)
    ensures
        match counter_of(text@) {
            Some(v) => r matches Ok(n) && n == v,
            None => r matches Err(Error::Internal(InnerError::ParseIntError)),
        },
{
    let t = chars_of(text);
    let w = trim_end_chars(t.as_slice());
    match parse_uint_chars(w.as_slice(), u64::MAX) {
        Ok(v) => Ok(v),
        Err(_) => Err(Error::Internal(InnerError::ParseIntError)),
    }
}

/// The address of an entry of `getifaddrs`.
#[derive(Debug, Clone)]
pub enum Address {
    /// The entry has no address.
    Unset,
    /// An IPv4 address, as its numeric host text.
    V4(String),
    /// An IPv6 address, as its numeric host text.
    V6(String),
    /// A link-layer address: its bytes.
    Packet(Vec<u8>),
    /// An address of another family.
    Other,
}

/// An entry of `getifaddrs`: the interface name, its flags and an address.
#[derive(Debug, Clone)]
pub struct IfAddrEntry {
    pub name: String,
    pub flags: i32,
    pub addr: Address,
}

/// The text of a link-layer address: its first six bytes, as two lower-case hexadecimal
/// digits each, joined by colons.
pub open spec fn mac_text(b: Seq<u8>) -> Seq<char> {
    hex2(b[0]) + seq![':'] + hex2(b[1]) + seq![':'] + hex2(b[2]) + seq![':'] + hex2(b[3]) + seq![
        ':',
    ] + hex2(b[4]) + seq![':'] + hex2(b[5])
}

/// The text of a link-layer address.
pub fn mac_string(b: &[u8]) -> (r: String)
    requires
        b@.len() >= 6,
    ensures
        r@ == mac_text(b@),
{
    let mut v: Vec<char> = Vec::new();
    push_hex2(&mut v, b[0]);
    v.push(':');
    push_hex2(&mut v, b[1]);
    v.push(':');
    push_hex2(&mut v, b[2]);
    v.push(':');
    push_hex2(&mut v, b[3]);
    v.push(':');
    push_hex2(&mut v, b[4]);
    v.push(':');
    push_hex2(&mut v, b[5]);
    assert(v@ =~= mac_text(b@));
    string_of(v.as_slice())
}

/// A network interface.
#[derive(Debug)]
pub struct Network {
    name: String,
    ipv4: String,
    ipv6: String,
    mac: String,
    state: State,
    rx_packets: u64,
    tx_packets: u64,
    rx_bytes: u64,
    tx_bytes: u64,
}

/// The view of a network interface.
pub struct NetworkView {
    pub name: Seq<char>,
    pub ipv4: Seq<char>,
    pub ipv6: Seq<char>,
    pub mac: Seq<char>,
    pub flags: i32,
    pub rx_packets: u64,
    pub tx_packets: u64,
    pub rx_bytes: u64,
    pub tx_bytes: u64,
}

impl View for Network {
    type V = NetworkView;

    closed spec fn view(&self) -> NetworkView {
        NetworkView {
            name: self.name@,
            ipv4: self.ipv4@,
            ipv6: self.ipv6@,
            mac: self.mac@,
            flags: self.state.flags(),
            rx_packets: self.rx_packets,
            tx_packets: self.tx_packets,
            rx_bytes: self.rx_bytes,
            tx_bytes: self.tx_bytes,
        }
    }
}

/// An entry whose address can be read: a link-layer address has six bytes.
pub open spec fn entry_readable(e: IfAddrEntry) -> bool {
    e.addr matches Address::Packet(b) ==> b@.len() >= 6
}

/// The interface `n` after an entry of it was read: its address of that family is
/// replaced, and its flags are those of the entry.
pub open spec fn apply_entry(n: NetworkView, e: IfAddrEntry) -> NetworkView {
    let a = match e.addr {
        Address::V4(h) => NetworkView { ipv4: h@, ..n },
        Address::V6(h) => NetworkView { ipv6: h@, ..n },
        Address::Packet(b) => NetworkView { mac: mac_text(b@), ..n },
        _ => n,
    };
    NetworkView { flags: e.flags, ..a }
}

/// The interface `n` after the entries of its name among the first `k` were read.
pub open spec fn apply_entries(n: NetworkView, es: Seq<IfAddrEntry>, k: int) -> NetworkView
    decreases k,
{
    if k <= 0 {
        n
    } else {
        let m = apply_entries(n, es, k - 1);
        if es[k - 1].name@ == n.name {
            apply_entry(m, es[k - 1])
        } else {
            m
        }
    }
}

/// Every entry can be read.
pub open spec fn entries_readable(es: Seq<IfAddrEntry>) -> bool {
    forall|i: int| 0 <= i < es.len() ==> entry_readable(#[trigger] es[i])
}

/// The four counter files of an interface.
pub struct FlowTexts {
    pub rx_bytes: String,
    pub tx_bytes: String,
    pub rx_packets: String,
    pub tx_packets: String,
}

/// The counters of four counter files, where all hold numbers.
pub open spec fn flow_of(f: FlowTexts) -> Option<(u64, u64, u64, u64)> {
    match (
        counter_of(f.rx_bytes@),
        counter_of(f.tx_bytes@),
        counter_of(f.rx_packets@),
        counter_of(f.tx_packets@),
    ) {
        (Some(a), Some(b), Some(c), Some(d)) => Some((a, b, c, d)),
        _ => None,
    }
}

impl Network {
    /// An interface named `name`, with no address, no flag and zero counters.
    pub fn new(name: String) -> (r: Self)
        ensures
            r@ == (NetworkView {
                name: name@,
                ipv4: Seq::empty(),
                ipv6: Seq::empty(),
                mac: Seq::empty(),
                flags: 0,
                rx_packets: 0,
                tx_packets: 0,
                rx_bytes: 0,
                tx_bytes: 0,
            }),
    {
        Network {
            name,
            ipv4: String::new(),
            ipv6: String::new(),
            mac: String::new(),
            state: State::new(0),
            rx_bytes: 0,
            tx_bytes: 0,
            rx_packets: 0,
            tx_packets: 0,
        }
    }

    /// Takes the counters from the texts of the four counter files; `ParseIntError` where
    /// one of them does not hold a number, and then the counters are unchanged.
    pub fn update_flow(&mut self, flow: &FlowTexts) -> (r: Result<(), Error>)
        ensures
            match flow_of(*flow) {
                Some(c) => r is Ok && final(self)@ == (NetworkView {
                    rx_bytes: c.0,
                    tx_bytes: c.1,
                    rx_packets: c.2,
                    tx_packets: c.3,
                    ..old(self)@
                }),
                None => r matches Err(Error::Internal(InnerError::ParseIntError)) && final(self)@
                    == old(self)@,
            },
    {
        let rx_bytes = parse_counter(flow.rx_bytes.as_str())?;
        let tx_bytes = parse_counter(flow.tx_bytes.as_str())?;
        let rx_packets = parse_counter(flow.rx_packets.as_str())?;
        let tx_packets = parse_counter(flow.tx_packets.as_str())?;
        self.rx_bytes = rx_bytes;
        self.tx_bytes = tx_bytes;
        self.rx_packets = rx_packets;
        self.tx_packets = tx_packets;
        Ok(())
    }

    /// Reads one entry of the interface.
    pub fn apply(&mut self, e: &IfAddrEntry)
        requires
            entry_readable(*e),
        ensures
            final(self)@ == apply_entry(old(self)@, *e),
    {
        match &e.addr {
            Address::V4(h) => {
                self.ipv4 = h.clone();
            },
            Address::V6(h) => {
                self.ipv6 = h.clone();
            },
            Address::Packet(b) => {
                self.mac = mac_string(b.as_slice());
            },
            _ => {},
        }
        self.state = State::new(e.flags);
    }

    /// Reads the entries of `getifaddrs` that name this interface, in order.
    pub fn update_baseinfo(&mut self, entries: &Vec<IfAddrEntry>) -> (r: Result<(), Error>)
        requires
            entries_readable(entries@),
        ensures
            r is Ok,
            final(self)@ == apply_entries(old(self)@, entries@, entries@.len() as int),
    {
        let mut i: usize = 0;
        while i < entries.len()
            invariant
                i <= entries@.len(),
                entries_readable(entries@),
                self@ == apply_entries(old(self)@, entries@, i as int),
                self@.name == old(self)@.name,
            decreases entries.len() - i,
        {
            let nm = chars_of(self.name.as_str());
            let en = chars_of(entries[i].name.as_str());
            if crate::sysinfo::procfs::chars_eq(nm.as_slice(), en.as_slice()) {
                assert(entry_readable(entries@[i as int]));
                self.apply(&entries[i]);
            }
            i = i + 1;
        }
        Ok(())
    }

    /// Takes the counters, then reads the entries of the interface; an error of the
    /// counters stops it before the entries.
    pub fn update(&mut self, flow: &FlowTexts, entries: &Vec<IfAddrEntry>) -> (r: Result<
        (),
        Error,
    >)
        requires
            entries_readable(entries@),
        ensures
            match flow_of(*flow) {
                Some(c) => r is Ok && final(self)@ == apply_entries(
                    NetworkView {
                        rx_bytes: c.0,
                        tx_bytes: c.1,
                        rx_packets: c.2,
                        tx_packets: c.3,
                        ..old(self)@
                    },
                    entries@,
                    entries@.len() as int,
                ),
                None => r is Err && final(self)@ == old(self)@,
            },
    {
        self.update_flow(flow)?;
        self.update_baseinfo(entries)
    }

    /// The name of the interface.
    pub fn name(&self) -> (r: &str)
        ensures
            r@ == self@.name,
    {
        self.name.as_str()
    }

    /// The IPv4 address of the interface.
    pub fn ipv4(&self) -> (r: &str)
        ensures
            r@ == self@.ipv4,
    {
        self.ipv4.as_str()
    }

    /// The IPv6 address of the interface.
    pub fn ipv6(&self) -> (r: &str)
        ensures
            r@ == self@.ipv6,
    {
        self.ipv6.as_str()
    }

    /// The link-layer address of the interface.
    pub fn mac(&self) -> (r: &str)
        ensures
            r@ == self@.mac,
    {
        self.mac.as_str()
    }

    /// The flags of the interface.
    pub fn state(&self) -> (r: &State)
        ensures
            r.flags() == self@.flags,
    {
        &self.state
    }

    /// The interface is up.
    pub fn is_up(&self) -> (r: bool)
        ensures
            r == has_flag(self@.flags, IFF_UP),
    {
        self.state.is_up()
    }

    /// It has a valid broadcast address.
    pub fn is_broadcast(&self) -> (r: bool)
        ensures
            r == has_flag(self@.flags, IFF_BROADCAST),
    {
        self.state.is_broadcast()
    }

    /// Debugging is on.
    pub fn is_debug(&self) -> (r: bool)
        ensures
            r == has_flag(self@.flags, IFF_DEBUG),
    {
        self.state.is_debug()
    }

    /// It is a loopback.
    pub fn is_loopback(&self) -> (r: bool)
        ensures
            r == has_flag(self@.flags, IFF_LOOPBACK),
    {
        self.state.is_loopback()
    }

    /// It is a point-to-point link.
    pub fn is_point_to_point(&self) -> (r: bool)
        ensures
            r == has_flag(self@.flags, IFF_POINTOPOINT),
    {
        self.state.is_point_to_point()
    }

    /// It avoids trailers.
    pub fn is_no_trailers(&self) -> (r: bool)
        ensures
            r == has_flag(self@.flags, IFF_NOTRAILERS),
    {
        self.state.is_no_trailers()
    }

    /// Resources are allocated.
    pub fn is_running(&self) -> (r: bool)
        ensures
            r == has_flag(self@.flags, IFF_RUNNING),
    {
        self.state.is_running()
    }

    /// It has no address resolution.
    pub fn is_no_arp(&self) -> (r: bool)
        ensures
            r == has_flag(self@.flags, IFF_NOARP),
    {
        self.state.is_no_arp()
    }

    /// It receives all packets.
    pub fn is_promisc(&self) -> (r: bool)
        ensures
            r == has_flag(self@.flags, IFF_PROMISC),
    {
        self.state.is_promisc()
    }

    /// It receives all multicast packets.
    pub fn is_all_multi(&self) -> (r: bool)
        ensures
            r == has_flag(self@.flags, IFF_ALLMULTI),
    {
        self.state.is_all_multi()
    }

    /// It is the master of a load balancer.
    pub fn is_master(&self) -> (r: bool)
        ensures
            r == has_flag(self@.flags, IFF_MASTER),
    {
        self.state.is_master()
    }

    /// It is a slave of a load balancer.
    pub fn is_slave(&self) -> (r: bool)
        ensures
            r == has_flag(self@.flags, IFF_SLAVE),
    {
        self.state.is_slave()
    }

    /// It supports multicast.
    pub fn is_multicast(&self) -> (r: bool)
        ensures
            r == has_flag(self@.flags, IFF_MULTICAST),
    {
        self.state.is_multicast()
    }

    /// It can set its media type.
    pub fn is_port_sel(&self) -> (r: bool)
        ensures
            r == has_flag(self@.flags, IFF_PORTSEL),
    {
        self.state.is_port_sel()
    }

    /// It selects its media automatically.
    pub fn is_auto_media(&self) -> (r: bool)
        ensures
            r == has_flag(self@.flags, IFF_AUTOMEDIA),
    {
        self.state.is_auto_media()
    }

    /// Its addresses are lost when it goes down.
    pub fn is_dynamic(&self) -> (r: bool)
        ensures
            r == has_flag(self@.flags, IFF_DYNAMIC),
    {
        self.state.is_dynamic()
    }

    /// Packets received.
    pub fn rx_packets(&self) -> (r: u64)
        ensures
            r == self@.rx_packets,
    {
        self.rx_packets
    }

    /// Packets sent.
    pub fn tx_packets(&self) -> (r: u64)
        ensures
            r == self@.tx_packets,
    {
        self.tx_packets
    }

    /// Bytes received.
    pub fn rx_bytes(&self) -> (r: u64)
        ensures
            r == self@.rx_bytes,
    {
        self.rx_bytes
    }

    /// Bytes sent.
    pub fn tx_bytes(&self) -> (r: u64)
        ensures
            r == self@.tx_bytes,
    {
        self.tx_bytes
    }
}

/// Whether `n` is among `names`.
pub open spec fn named(names: Seq<Seq<char>>, n: Seq<char>) -> bool {
    exists|j: int| 0 <= j < names.len() && names[j] == n
}

/// The interface names of the first `k` entries, each once, in the order of their first
/// entries.
pub open spec fn names_upto(es: Seq<IfAddrEntry>, k: int) -> Seq<Seq<char>>
    decreases k,
{
    if k <= 0 {
        Seq::empty()
    } else {
        let p = names_upto(es, k - 1);
        if named(p, es[k - 1].name@) {
            p
        } else {
            p.push(es[k - 1].name@)
        }
    }
}

/// The interface names of the entries, each once, in the order of their first entries.
pub open spec fn interface_names_of(es: Seq<IfAddrEntry>) -> Seq<Seq<char>> {
    names_upto(es, es.len() as int)
}

/// A fresh interface named `name` with the counters of `c`.
pub open spec fn counted(name: Seq<char>, c: (u64, u64, u64, u64)) -> NetworkView {
    NetworkView {
        name,
        ipv4: Seq::empty(),
        ipv6: Seq::empty(),
        mac: Seq::empty(),
        flags: 0,
        rx_bytes: c.0,
        tx_bytes: c.1,
        rx_packets: c.2,
        tx_packets: c.3,
    }
}

/// The views of a list of interfaces.
pub open spec fn networks_view(v: Seq<Network>) -> Seq<NetworkView> {
    v.map_values(|n: Network| n@)
}

/// The position of `n` in `names`, or -1.
pub open spec fn name_index(names: Seq<Seq<char>>, n: Seq<char>) -> int
    decreases names.len(),
{
    if names.len() == 0 {
        -1
    } else if names.last() == n {
        names.len() - 1
    } else {
        name_index(names.drop_last(), n)
    }
}

proof fn lemma_name_index(names: Seq<Seq<char>>, n: Seq<char>)
    ensures
        -1 <= name_index(names, n) < names.len(),
        name_index(names, n) >= 0 ==> names[name_index(names, n)] == n,
        name_index(names, n) == -1 <==> !named(names, n),
    decreases names.len(),
{
    if names.len() > 0 {
        lemma_name_index(names.drop_last(), n);
        if names.last() != n {
            if named(names, n) {
                let j = choose|j: int| 0 <= j < names.len() && names[j] == n;
                assert(names.drop_last()[j] == n);
            }
            if named(names.drop_last(), n) {
                let j = choose|j: int| 0 <= j < names.len() - 1 && names.drop_last()[j] == n;
                assert(names[j] == n);
            }
        } else {
            assert(names[names.len() - 1] == n);
        }
    }
}

proof fn lemma_names_prefix(es: Seq<IfAddrEntry>, k: int, m: int)
    requires
        0 <= k <= m,
    ensures
        names_upto(es, k).len() <= names_upto(es, m).len(),
        forall|q: int|
            0 <= q < names_upto(es, k).len() ==> #[trigger] names_upto(es, m)[q] == names_upto(
                es,
                k,
            )[q],
    decreases m - k,
{
    if k < m {
        lemma_names_prefix(es, k, m - 1);
    }
}

proof fn lemma_names_distinct(es: Seq<IfAddrEntry>, k: int)
    ensures
        forall|a: int, b: int|
            0 <= a < b < names_upto(es, k).len() ==> names_upto(es, k)[a] != names_upto(es, k)[b],
    decreases k,
{
    if k > 0 {
        lemma_names_distinct(es, k - 1);
        let p = names_upto(es, k - 1);
        if !named(p, es[k - 1].name@) {
            assert forall|a: int, b: int|
                0 <= a < b < names_upto(es, k).len() implies names_upto(es, k)[a] != names_upto(
                es,
                k,
            )[b] by {
                if b == p.len() {
                    if names_upto(es, k)[a] == names_upto(es, k)[b] {
                        assert(p[a] == es[k - 1].name@);
                    }
                }
            }
        }
    }
}

proof fn lemma_no_earlier_entry(es: Seq<IfAddrEntry>, i: int, n: Seq<char>)
    requires
        !named(names_upto(es, i), n),
    ensures
        forall|t: int| 0 <= t < i ==> (#[trigger] es[t]).name@ != n,
    decreases i,
{
    if i > 0 {
        let p = names_upto(es, i - 1);
        if named(p, n) {
            let j = choose|j: int| 0 <= j < p.len() && p[j] == n;
            lemma_names_prefix(es, i - 1, i);
            assert(names_upto(es, i)[j] == n);
        }
        if es[i - 1].name@ == n {
            if !named(p, n) {
                assert(names_upto(es, i)[p.len() as int] == n);
            }
        }
        lemma_no_earlier_entry(es, i - 1, n);
    }
}

proof fn lemma_untouched(v: NetworkView, es: Seq<IfAddrEntry>, k: int)
    requires
        forall|t: int| 0 <= t < k ==> (#[trigger] es[t]).name@ != v.name,
    ensures
        apply_entries(v, es, k) == v,
    decreases k,
{
    if k > 0 {
        lemma_untouched(v, es, k - 1);
    }
}

proof fn lemma_apply_keeps_name(v: NetworkView, es: Seq<IfAddrEntry>, k: int)
    ensures
        apply_entries(v, es, k).name == v.name,
    decreases k,
{
    if k > 0 {
        lemma_apply_keeps_name(v, es, k - 1);
    }
}

/// The network interfaces of the system, in the order of their first entries.
#[derive(Debug)]
pub struct NetworksInfo {
    networks: Vec<Network>,
}

/// The interfaces after the first `k` entries were read: one for each name, whose counters
/// are those of the flow of its name, with the entries of its name applied.
pub open spec fn networks_after(es: Seq<IfAddrEntry>, flows: Seq<(u64, u64, u64, u64)>, k: int) -> Seq<
    NetworkView,
> {
    Seq::new(
        names_upto(es, k).len(),
        |j: int| apply_entries(counted(names_upto(es, k)[j], flows[j]), es, k),
    )
}

impl NetworksInfo {
    /// The interfaces, in the order of their first entries.
    pub closed spec fn list(&self) -> Seq<NetworkView> {
        networks_view(self.networks@)
    }

    /// The interfaces of the entries of `getifaddrs`: one for each name, in the order of
    /// its first entry, with the counters of its counter files (`flows`, one for each name
    /// in that order) and its entries applied. A counter file that does not hold a number
    /// is the error.
    pub fn new(entries: &Vec<IfAddrEntry>, flows: &Vec<FlowTexts>) -> (r: Result<Self, Error>)
        requires
            entries_readable(entries@),
            flows@.len() == interface_names_of(entries@).len(),
        ensures
            match r {
                Ok(info) => (forall|j: int|
                    0 <= j < flows@.len() ==> flow_of(#[trigger] flows@[j]) is Some) && info.list()
                    == networks_after(
                    entries@,
                    flows@.map_values(|f: FlowTexts| flow_of(f)->0),
                    entries@.len() as int,
                ),
                Err(e) => e matches Error::Internal(InnerError::ParseIntError) && exists|j: int|
                    0 <= j < flows@.len() && flow_of(#[trigger] flows@[j]) is None,
            },
    {
        let ghost es = entries@;
        let ghost fl = flows@.map_values(|f: FlowTexts| flow_of(f)->0);
        let mut networks: Vec<Network> = Vec::new();
        let mut i: usize = 0;
        assert(networks_view(networks@) =~= networks_after(es, fl, 0));
        while i < entries.len()
            invariant
                i <= es.len(),
                es == entries@,
                fl == flows@.map_values(|f: FlowTexts| flow_of(f)->0),
                entries_readable(es),
                flows@.len() == interface_names_of(es).len(),
                networks_view(networks@) == networks_after(es, fl, i as int),
                forall|j: int|
                    0 <= j < names_upto(es, i as int).len() ==> flow_of(#[trigger] flows@[j]) is Some,
            decreases entries.len() - i,
        {
            let ghost names = names_upto(es, i as int);
            let ghost n = es[i as int].name@;
            proof {
                lemma_names_prefix(es, i as int + 1, es.len() as int);
                lemma_names_distinct(es, i as int);
                lemma_name_index(names, n);
            }
            let en = chars_of(entries[i].name.as_str());
            let mut p: usize = 0;
            let mut found = false;
            assert(networks_view(networks@).len() == networks@.len());
            while p < networks.len() && !found
                invariant
                    p <= networks@.len(),
                    networks@.len() == names.len(),
                    networks_view(networks@) == networks_after(es, fl, i as int),
                    names == names_upto(es, i as int),
                    en@ == n,
                    found ==> p < networks@.len() && names[p as int] == n,
                    !found ==> forall|q: int| 0 <= q < p ==> names[q] != n,
                decreases networks@.len() - p + (if found {
                    0int
                } else {
                    1int
                }),
            {
                proof {
                    lemma_apply_keeps_name(
                        counted(names[p as int], fl[p as int]),
                        es,
                        i as int,
                    );
                }
                assert(networks@[p as int]@ == networks_after(es, fl, i as int)[p as int]);
                let nm = chars_of(networks[p].name.as_str());
                if crate::sysinfo::procfs::chars_eq(nm.as_slice(), en.as_slice()) {
                    found = true;
                } else {
                    p = p + 1;
                }
            }
            assert(entry_readable(es[i as int]));
            if found {
                let ghost old_nets = networks@;
                let ghost old_view = networks_view(networks@);
                let mut net = networks.remove(p);
                assert(net == old_nets[p as int]);
                net.apply(&entries[i]);
                let ghost nv = net@;
                networks.insert(p, net);
                proof {
                    assert(networks@ =~= old_nets.update(p as int, networks@[p as int]));
                    assert(named(names, n));
                    assert(names_upto(es, i + 1) == names);
                    assert forall|j: int| 0 <= j < names.len() implies networks_view(networks@)[j]
                        == networks_after(es, fl, i + 1)[j] by {
                        assert(old_view[j] == networks_after(es, fl, i as int)[j]);
                        if j == p {
                            assert(networks@[j]@ == nv);
                            assert(old_nets[j]@ == old_view[j]);
                            assert(nv == apply_entry(old_view[j], es[i as int]));
                        } else {
                            if j < p {
                                assert(names[j] != names[p as int]);
                            } else {
                                assert(names[p as int] != names[j]);
                            }
                            assert(networks@[j] == old_nets[j]);
                        }
                    }
                    assert(networks_view(networks@) =~= networks_after(es, fl, i + 1));
                }
            } else {
                assert(!named(names, n)) by {
                    if named(names, n) {
                        let q = choose|q: int| 0 <= q < names.len() && names[q] == n;
                        assert(names[q] != n);
                    }
                }
                assert(names_upto(es, i + 1) == names.push(n));
                let j = networks.len();
                let mut net = Network::new(entries[i].name.clone());
                match net.update_flow(&flows[j]) {
                    Ok(()) => {},
                    Err(e) => {
                        return Err(e);
                    },
                }
                proof {
                    lemma_name_index(names, n);
                    lemma_no_earlier_entry(es, i as int, n);
                    lemma_untouched(counted(n, fl[j as int]), es, i as int);
                }
                net.apply(&entries[i]);
                let ghost before = networks@;
                let ghost before_view = networks_view(networks@);
                networks.push(net);
                proof {
                    assert(names_upto(es, i + 1) == names.push(n));
                    assert forall|q: int| 0 <= q < names.len() implies networks_view(networks@)[q]
                        == networks_after(es, fl, i + 1)[q] by {
                        assert(names[q] != n);
                        assert(networks@[q] == before[q]);
                        assert(before_view[q] == networks_after(es, fl, i as int)[q]);
                        assert(names_upto(es, i + 1)[q] == names[q]);
                    }
                    assert(networks_view(networks@) =~= networks_after(es, fl, i + 1));
                }
            }
            i = i + 1;
        }
        proof {
            assert forall|j: int| 0 <= j < flows@.len() implies flow_of(#[trigger] flows@[j]) is Some by {
            }
        }
        Ok(NetworksInfo { networks })
    }

    /// The interfaces, in the order of their first entries.
    pub fn iter(&self) -> (r: &[Network])
        ensures
            networks_view(r@) == self.list(),
    {
        self.networks.as_slice()
    }

    /// The interfaces, to be changed in place.
    pub fn iter_mut(&mut self) -> (r: &mut Vec<Network>)
        ensures
            networks_view(r@) == old(self).list(),
            final(self).list() == networks_view(final(r)@),
    {
        &mut self.networks
    }

    fn position(&self, name: &str) -> (r: Option<usize>)
        ensures
            match r {
                Some(j) => j < self.list().len() && self.list()[j as int].name == name@ && forall|
                    q: int,
                | 0 <= q < j ==> (#[trigger] self.list()[q]).name != name@,
                None => forall|q: int|
                    0 <= q < self.list().len() ==> (#[trigger] self.list()[q]).name != name@,
            },
    {
        let target = chars_of(name);
        let mut j: usize = 0;
        while j < self.networks.len()
            invariant
                j <= self.networks@.len(),
                target@ == name@,
                forall|q: int| 0 <= q < j ==> (#[trigger] self.list()[q]).name != name@,
            decreases self.networks.len() - j,
        {
            assert(self.list()[j as int] == self.networks@[j as int]@);
            let nm = chars_of(self.networks[j].name.as_str());
            if crate::sysinfo::procfs::chars_eq(nm.as_slice(), target.as_slice()) {
                return Some(j);
            }
            j = j + 1;
        }
        None
    }

    /// The first interface named `name`.
    pub fn get(&self, name: &str) -> (r: Option<&Network>)
        ensures
            match r {
                Some(n) => exists|j: int|
                    0 <= j < self.list().len() && n@ == self.list()[j] && n@.name == name@,
                None => forall|q: int|
                    0 <= q < self.list().len() ==> (#[trigger] self.list()[q]).name != name@,
            },
    {
        match self.position(name) {
            Some(j) => {
                assert(self.list()[j as int] == self.networks@[j as int]@);
                Some(&self.networks[j])
            },
            None => None,
        }
    }

    /// The first interface named `name`, to be changed in place.
    pub fn get_mut(&mut self, name: &str) -> (r: Option<&mut Network>)
        ensures
            match r {
                Some(n) => exists|j: int|
                    0 <= j < old(self).list().len() && n@ == old(self).list()[j] && n@.name
                        == name@ && final(self).list() == old(self).list().update(j, final(n)@),
                None => (forall|q: int|
                    0 <= q < old(self).list().len() ==> (#[trigger] old(self).list()[q]).name
                        != name@) && final(self).list() == old(self).list(),
            },
    {
        match self.position(name) {
            Some(j) => {
                assert(self.list()[j as int] == self.networks@[j as int]@);
                let r = &mut self.networks[j];
                Some(r)
            },
            None => None,
        }
    }
}

/// The interface names of the entries of `getifaddrs`, each once, in the order of their
/// first entries: the counter files are read for these.
pub fn interface_names(entries: &Vec<IfAddrEntry>) -> (r: Vec<String>)
    ensures
        r@.map_values(|s: String| s@) == interface_names_of(entries@),
{
    let mut out: Vec<String> = Vec::new();
    let mut i: usize = 0;
    assert(out@.map_values(|s: String| s@) =~= names_upto(entries@, 0));
    while i < entries.len()
        invariant
            i <= entries@.len(),
            out@.map_values(|s: String| s@) == names_upto(entries@, i as int),
        decreases entries.len() - i,
    {
        let ghost names = names_upto(entries@, i as int);
        let ghost n = entries@[i as int].name@;
        let en = chars_of(entries[i].name.as_str());
        let mut q: usize = 0;
        let mut found = false;
        while q < out.len() && !found
            invariant
                q <= out@.len(),
                out@.map_values(|s: String| s@) == names,
                en@ == n,
                found ==> q < names.len() && names[q as int] == n,
                !found ==> forall|k: int| 0 <= k < q ==> names[k] != n,
            decreases out@.len() - q + (if found {
                0int
            } else {
                1int
            }),
        {
            assert(names[q as int] == out@[q as int]@);
            let nm = chars_of(out[q].as_str());
            if crate::sysinfo::procfs::chars_eq(nm.as_slice(), en.as_slice()) {
                found = true;
            } else {
                q = q + 1;
            }
        }
        if found {
            assert(named(names, n));
        } else {
            assert(!named(names, n)) by {
                if named(names, n) {
                    let k = choose|k: int| 0 <= k < names.len() && names[k] == n;
                    assert(names[k] != n);
                }
            }
            let ghost before = out@;
            out.push(entries[i].name.clone());
            assert(out@.map_values(|s: String| s@) =~= before.map_values(|s: String| s@).push(n));
        }
        i = i + 1;
    }
    out
}

/// The interfaces have distinct names.
pub proof fn law_interface_names_distinct(es: Seq<IfAddrEntry>)
    ensures
        forall|a: int, b: int|
            0 <= a < b < interface_names_of(es).len() ==> interface_names_of(es)[a]
                != interface_names_of(es)[b],
{
    lemma_names_distinct(es, es.len() as int);
}

/// Reading an entry of an interface replaces its flags by the entry's, whatever they were,
/// and its address of the entry's family by the entry's address; its name, its other
/// addresses and its counters stay.
pub proof fn law_entry_replaces_flags(n: NetworkView, e: IfAddrEntry)
    ensures
        apply_entry(n, e).flags == e.flags,
        apply_entry(n, e).name == n.name,
        apply_entry(n, e).rx_bytes == n.rx_bytes && apply_entry(n, e).tx_bytes == n.tx_bytes,
        apply_entry(n, e).rx_packets == n.rx_packets && apply_entry(n, e).tx_packets
            == n.tx_packets,
        e.addr matches Address::V4(h) ==> apply_entry(n, e).ipv4 == h@ && apply_entry(n, e).ipv6
            == n.ipv6 && apply_entry(n, e).mac == n.mac,
        e.addr matches Address::V6(h) ==> apply_entry(n, e).ipv6 == h@ && apply_entry(n, e).ipv4
            == n.ipv4 && apply_entry(n, e).mac == n.mac,
        e.addr matches Address::Packet(_) ==> apply_entry(n, e).ipv4 == n.ipv4 && apply_entry(
            n,
            e,
        ).ipv6 == n.ipv6,
        !(e.addr is V4 || e.addr is V6 || e.addr is Packet) ==> apply_entry(n, e).ipv4 == n.ipv4
            && apply_entry(n, e).ipv6 == n.ipv6 && apply_entry(n, e).mac == n.mac,
{
}

/// After the entries `es[0..k]` were read, an interface has the flags of the last entry of
/// its name among them, whatever its flags were before; with no entry of its name, it is
/// unchanged. Its name and counters stay.
pub proof fn law_entries_last_flags(n: NetworkView, es: Seq<IfAddrEntry>, k: int)
    requires
        0 <= k <= es.len(),
    ensures
        apply_entries(n, es, k).name == n.name,
        apply_entries(n, es, k).rx_bytes == n.rx_bytes,
        apply_entries(n, es, k).tx_bytes == n.tx_bytes,
        apply_entries(n, es, k).rx_packets == n.rx_packets,
        apply_entries(n, es, k).tx_packets == n.tx_packets,
        forall|j: int|
            0 <= j < k && (#[trigger] es[j]).name@ == n.name && (forall|l: int|
                j < l < k ==> (#[trigger] es[l]).name@ != n.name) ==> apply_entries(n, es, k).flags
                == es[j].flags,
        (forall|j: int| 0 <= j < k ==> (#[trigger] es[j]).name@ != n.name) ==> apply_entries(
            n,
            es,
            k,
        ) == n,
    decreases k,
{
    if k > 0 {
        law_entries_last_flags(n, es, k - 1);
        assert forall|j: int|
            0 <= j < k && (#[trigger] es[j]).name@ == n.name && (forall|l: int|
                j < l < k ==> (#[trigger] es[l]).name@ != n.name) implies apply_entries(
            n,
            es,
            k,
        ).flags == es[j].flags by {
            if j < k - 1 {
                assert(es[k - 1].name@ != n.name);
            }
        }
    }
}

/// The counters taken from the four counter files are, in order, the received bytes,
/// sent bytes, received packets and sent packets of those files; they are taken exactly
/// when all four files hold numbers.
pub proof fn law_flow_counters(f: FlowTexts)
    ensures
        flow_of(f) is Some <==> (counter_of(f.rx_bytes@) is Some && counter_of(f.tx_bytes@) is Some
            && counter_of(f.rx_packets@) is Some && counter_of(f.tx_packets@) is Some),
        flow_of(f) matches Some(c) ==> Some(c.0) == counter_of(f.rx_bytes@) && Some(c.1)
            == counter_of(f.tx_bytes@) && Some(c.2) == counter_of(f.rx_packets@) && Some(c.3)
            == counter_of(f.tx_packets@),
{
}

} // verus!
