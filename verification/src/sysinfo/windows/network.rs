//! The network adapters of a Windows system: how the answers of `GetAdaptersAddresses`
//! and `GetIfEntry2` make each adapter, its address texts and its counters.
use vstd::prelude::*;
use crate::sysinfo::error::{Error, InnerError};
use crate::sysinfo::windows::text::{before_nul, units_before_nul, utf16_lossy, utf16_text};
use crate::text::{is_digit, law_decimal_parses_back, lemma_split_cons, lemma_split_single, parse_uint, split, IntErrorKind};
use crate::text::{starts_with, starts_with_chars, chars_of, contains, contains_chars, decimal, decimal_chars, hex2, push_all, push_hex2, string_of};

verus! {

/// The status of a call that succeeded.
pub const ERROR_SUCCESS: u32 = 0;

/// The status of an adapter query whose buffer was too small.
pub const ERROR_BUFFER_OVERFLOW: u32 = 111;

/// What to do after an adapter query.
#[derive(Debug, Clone, Copy, PartialEq, Eq, Structural)]
pub enum AdapterStep {
    /// The buffer holds the adapters.
    Read,
    /// Ask again, with the size that the query named.
    Retry,
    /// The query failed.
    Failed,
}

/// The step after an adapter query that answered `status`.
pub open spec fn adapter_step_of(status: u32) -> AdapterStep {
    if status == ERROR_SUCCESS {
        AdapterStep::Read
    } else if status == ERROR_BUFFER_OVERFLOW {
        AdapterStep::Retry
    } else {
        AdapterStep::Failed
    }
}

/// Decides `adapter_step_of`.
pub fn adapter_step(status: u32) -> (r: AdapterStep)
    ensures
        r == adapter_step_of(status),
{
    if status == ERROR_SUCCESS {
        AdapterStep::Read
    } else if status == ERROR_BUFFER_OVERFLOW {
        AdapterStep::Retry
    } else {
        AdapterStep::Failed
    }
}

/// The first address of an adapter, as the query gives it.
#[derive(Debug, Clone)]
pub enum IpAnswer {
    /// The adapter has no unicast address, or it has no socket address.
    Missing,
    /// An IPv4 address: its four bytes, in the order of the network.
    V4(Vec<u8>),
    /// An IPv6 address: its eight words, in the order of the host.
    V6(Vec<u16>),
    /// An address of another family.
    OtherFamily,
}

/// The text of an IPv4 address: its bytes in decimal, joined by dots.
pub open spec fn ipv4_text(b: Seq<u8>) -> Seq<char> {
    decimal(b[0] as nat) + seq!['.'] + decimal(b[1] as nat) + seq!['.'] + decimal(b[2] as nat)
        + seq!['.'] + decimal(b[3] as nat)
}

/// The words of an IPv6 address in decimal, joined by colons, from word `k` on.
pub open spec fn words_text(w: Seq<u16>, k: int) -> Seq<char>
    decreases w.len() - k,
{
    if k >= w.len() - 1 {
        decimal(w[k] as nat)
    } else {
        decimal(w[k] as nat) + seq![':'] + words_text(w, k + 1)
    }
}

/// The text of an IPv6 address: its eight words in decimal, joined by colons.
pub open spec fn ipv6_text(w: Seq<u16>) -> Seq<char> {
    words_text(w, 0)
}

/// An address of an adapter.
#[derive(Debug, Clone, PartialEq, Eq)]
pub enum IpAddr {
    V4(String),
    V6(String),
}

/// The address that an answer gives, as text; `None` where it gives none.
pub open spec fn ip_of(a: IpAnswer) -> Option<(bool, Seq<char>)> {
    match a {
        IpAnswer::V4(b) => Some((true, ipv4_text(b@))),
        IpAnswer::V6(w) => Some((false, ipv6_text(w@))),
        _ => None,
    }
}

/// An answer whose address has its bytes: four for IPv4, eight words for IPv6.
pub open spec fn ip_answer_whole(a: IpAnswer) -> bool {
    &&& (a matches IpAnswer::V4(b) ==> b@.len() == 4)
    &&& (a matches IpAnswer::V6(w) ==> w@.len() == 8)
}

/// The text of an IPv4 address.
pub fn ipv4_string(b: &[u8]) -> (r: String)
    requires
        b@.len() == 4,
    ensures
        r@ == ipv4_text(b@),
{
    let mut v: Vec<char> = Vec::new();
    let mut i: usize = 0;
    while i < 4
        invariant
            i <= 4,
            b@.len() == 4,
            i == 0 ==> v@ == Seq::<char>::empty(),
            i == 1 ==> v@ == decimal(b@[0] as nat),
            i == 2 ==> v@ == decimal(b@[0] as nat) + seq!['.'] + decimal(b@[1] as nat),
            i == 3 ==> v@ == decimal(b@[0] as nat) + seq!['.'] + decimal(b@[1] as nat) + seq!['.']
                + decimal(b@[2] as nat),
            i == 4 ==> v@ == ipv4_text(b@),
        decreases 4 - i,
    {
        if i > 0 {
            v.push('.');
        }
        let d = decimal_chars(b[i] as u64);
        push_all(&mut v, d.as_slice());
        i = i + 1;
        assert(i == 1 ==> v@ =~= decimal(b@[0] as nat));
        assert(i == 2 ==> v@ =~= decimal(b@[0] as nat) + seq!['.'] + decimal(b@[1] as nat));
        assert(i == 3 ==> v@ =~= decimal(b@[0] as nat) + seq!['.'] + decimal(b@[1] as nat) + seq![
            '.',
        ] + decimal(b@[2] as nat));
        assert(i == 4 ==> v@ =~= ipv4_text(b@));
    }
    string_of(v.as_slice())
}

/// The text of the words `k..` of an IPv6 address.
fn words_string(w: &[u16], k: usize) -> (r: Vec<char>)
    requires
        k < w@.len(),
    ensures
        r@ == words_text(w@, k as int),
    decreases w@.len() - k,
{
    let mut v = decimal_chars(w[k] as u64);
    if k < w.len() - 1 {
        v.push(':');
        let rest = words_string(w, k + 1);
        push_all(&mut v, rest.as_slice());
    }
    v
}

/// The text of an IPv6 address.
pub fn ipv6_string(w: &[u16]) -> (r: String)
    requires
        w@.len() == 8,
    ensures
        r@ == ipv6_text(w@),
{
    let v = words_string(w, 0);
    string_of(v.as_slice())
}

/// The address of an adapter from the answer of its query; `GetIPAddressFailed` where the
/// answer gives none.
pub fn get_ip_address(answer: &IpAnswer) -> (r: Result<IpAddr, Error>)
    requires
        ip_answer_whole(*answer),
    ensures
        match ip_of(*answer) {
            Some((true, t)) => r matches Ok(IpAddr::V4(s)) && s@ == t,
            Some((false, t)) => r matches Ok(IpAddr::V6(s)) && s@ == t,
            None => r matches Err(Error::Internal(InnerError::GetIPAddressFailed)),
        },
{
    match answer {
        IpAnswer::V4(b) => Ok(IpAddr::V4(ipv4_string(b.as_slice()))),
        IpAnswer::V6(w) => Ok(IpAddr::V6(ipv6_string(w.as_slice()))),
        _ => Err(Error::Internal(InnerError::GetIPAddressFailed)),
    }
}

/// The text of an eight-byte physical address: two lower-case hexadecimal digits each,
/// joined by colons.
pub open spec fn mac8_text(b: Seq<u8>) -> Seq<char> {
    hex2(b[0]) + seq![':'] + hex2(b[1]) + seq![':'] + hex2(b[2]) + seq![':'] + hex2(b[3]) + seq![
        ':',
    ] + hex2(b[4]) + seq![':'] + hex2(b[5]) + seq![':'] + hex2(b[6]) + seq![':'] + hex2(b[7])
}

/// The text of an eight-byte physical address.
pub fn mac8_string(b: &[u8]) -> (r: String)
    requires
        b@.len() == 8,
    ensures
        r@ == mac8_text(b@),
{
    let mut v: Vec<char> = Vec::new();
    push_hex2(&mut v, b[0]);
    v.push(':');
    push_hex2(&mut v, b[1]);
    v.push(':');
    push_hex2(&mut v, b[2]);
    v.push(':');
    push_hex2(&mut v, b[3]);
    v.push(':');
    push_hex2(&mut v, b[4]);
    v.push(':');
    push_hex2(&mut v, b[5]);
    v.push(':');
    push_hex2(&mut v, b[6]);
    v.push(':');
    push_hex2(&mut v, b[7]);
    assert(v@ =~= mac8_text(b@));
    string_of(v.as_slice())
}

/// The counters of an interface row of `GetIfEntry2`.
#[derive(Debug, Clone, Copy, PartialEq, Eq, Structural)]
pub struct IfRow {
    pub in_octets: u64,
    pub out_octets: u64,
    pub in_ucast_pkts: u64,
    pub in_nucast_pkts: u64,
    pub out_ucast_pkts: u64,
    pub out_nucast_pkts: u64,
}

/// What the adapter query answers of one adapter.
#[derive(Debug, Clone)]
pub struct AdapterAnswer {
    /// The friendly name, as zero-terminated UTF-16.
    pub friendly_name: Vec<u16>,
    /// The locally unique identifier of the interface.
    pub luid: u64,
    /// The physical address, eight bytes.
    pub physical_address: Vec<u8>,
    /// The first address.
    pub ip: IpAnswer,
    /// The row of the interface, `None` where `GetIfEntry2` failed.
    pub row: Option<IfRow>,
}

/// An answer that can be read: eight bytes of physical address, and a whole address.
pub open spec fn adapter_readable(a: AdapterAnswer) -> bool {
    a.physical_address@.len() == 8 && ip_answer_whole(a.ip)
}

/// A network adapter.
#[derive(Debug)]
pub struct Network {
    id: u64,
    name: String,
    ipv4: String,
    ipv6: String,
    mac: String,
    rx_packets: u64,
    tx_packets: u64,
    rx_bytes: u64,
    tx_bytes: u64,
}

/// The view of an adapter.
pub struct NetworkView {
    pub id: u64,
    pub name: Seq<char>,
    pub ipv4: Seq<char>,
    pub ipv6: Seq<char>,
    pub mac: Seq<char>,
    pub rx_packets: u64,
    pub tx_packets: u64,
    pub rx_bytes: u64,
    pub tx_bytes: u64,
}

impl View for Network {
    type V = NetworkView;

    closed spec fn view(&self) -> NetworkView {
        NetworkView {
            id: self.id,
            name: self.name@,
            ipv4: self.ipv4@,
            ipv6: self.ipv6@,
            mac: self.mac@,
            rx_packets: self.rx_packets,
            tx_packets: self.tx_packets,
            rx_bytes: self.rx_bytes,
            tx_bytes: self.tx_bytes,
        }
    }
}

/// The adapter `n` after its row was read: bytes, and packets of both kinds added
/// (wrapping); unchanged where the row could not be had.
pub open spec fn flow_after(n: NetworkView, row: Option<IfRow>) -> NetworkView {
    match row {
        None => n,
        Some(r) => NetworkView {
            rx_bytes: r.in_octets,
            tx_bytes: r.out_octets,
            rx_packets: r.in_ucast_pkts.wrapping_add(r.in_nucast_pkts),
            tx_packets: r.out_ucast_pkts.wrapping_add(r.out_nucast_pkts),
            ..n
        },
    }
}

/// The adapter `n` after an answer of it was read: its id, physical address and the
/// address of the answer's family; `None` where the answer gives no address.
pub open spec fn baseinfo_after(n: NetworkView, a: AdapterAnswer) -> Option<NetworkView> {
    match ip_of(a.ip) {
        None => None,
        Some((v4, t)) => {
            let m = NetworkView { id: a.luid, mac: mac8_text(a.physical_address@), ..n };
            if v4 {
                Some(NetworkView { ipv4: t, ..m })
            } else {
                Some(NetworkView { ipv6: t, ..m })
            }
        },
    }
}

/// Whether an adapter is in the loopback state: its IPv4 address lies in `127.0.0.0/8`,
/// its text starting with `127.`, or its IPv6 address is `0:0:0:0:0:0:0:1`.
pub open spec fn loopback(n: NetworkView) -> bool {
    starts_with(n.ipv4, "127."@) || n.ipv6 == "0:0:0:0:0:0:0:1"@
}

impl Network {
    /// An adapter named `name`, with no address and zero counters.
    pub fn new(name: String) -> (r: Self)
        ensures
            r@ == (NetworkView {
                id: 0,
                name: name@,
                ipv4: Seq::empty(),
                ipv6: Seq::empty(),
                mac: Seq::empty(),
                rx_packets: 0,
                tx_packets: 0,
                rx_bytes: 0,
                tx_bytes: 0,
            }),
    {
        Network {
            id: 0,
            name,
            ipv4: String::new(),
            ipv6: String::new(),
            mac: String::new(),
            rx_packets: 0,
            tx_packets: 0,
            rx_bytes: 0,
            tx_bytes: 0,
        }
    }

    /// Takes the counters of the row of the interface, where it could be had.
    pub fn update_flow(&mut self, row: &Option<IfRow>)
        ensures
            final(self)@ == flow_after(old(self)@, *row),
    {
        match row {
            None => {},
            Some(r) => {
                self.rx_bytes = r.in_octets;
                self.tx_bytes = r.out_octets;
                self.rx_packets = r.in_ucast_pkts.wrapping_add(r.in_nucast_pkts);
                self.tx_packets = r.out_ucast_pkts.wrapping_add(r.out_nucast_pkts);
            },
        }
    }

    /// Reads an answer of the adapter: its id, physical address and address; where the
    /// answer gives no address, `GetIPAddressFailed`, and the adapter is unchanged.
    pub fn update_baseinfo(&mut self, a: &AdapterAnswer) -> (r: Result<(), Error>)
        requires
            adapter_readable(*a),
        ensures
            match baseinfo_after(old(self)@, *a) {
                Some(n) => r is Ok && final(self)@ == n,
                None => r matches Err(Error::Internal(InnerError::GetIPAddressFailed))
                    && final(self)@ == old(self)@,
            },
    {
        let ip = get_ip_address(&a.ip)?;
        self.id = a.luid;
        self.mac = mac8_string(a.physical_address.as_slice());
        match ip {
            IpAddr::V4(t) => {
                self.ipv4 = t;
            },
            IpAddr::V6(t) => {
                self.ipv6 = t;
            },
        }
        Ok(())
    }

    /// The locally unique identifier of the adapter.
    pub fn luid(&self) -> (r: u64)
        ensures
            r == self@.id,
    {
        self.id
    }

    /// The name of the adapter.
    pub fn name(&self) -> (r: &str)
        ensures
            r@ == self@.name,
    {
        self.name.as_str()
    }

    /// The IPv4 address of the adapter.
    pub fn ipv4(&self) -> (r: &str)
        ensures
            r@ == self@.ipv4,
    {
        self.ipv4.as_str()
    }

    /// The IPv6 address of the adapter.
    pub fn ipv6(&self) -> (r: &str)
        ensures
            r@ == self@.ipv6,
    {
        self.ipv6.as_str()
    }

    /// The physical address of the adapter.
    pub fn mac(&self) -> (r: &str)
        ensures
            r@ == self@.mac,
    {
        self.mac.as_str()
    }

    /// Whether the adapter is a loopback.
    pub fn is_loopback(&self) -> (r: bool)
        ensures
            r == loopback(self@),
    {
        let v4 = chars_of(self.ipv4.as_str());
        let pat = chars_of("127.");
        if starts_with_chars(v4.as_slice(), pat.as_slice()) {
            return true;
        }
        let v6 = chars_of(self.ipv6.as_str());
        let one = chars_of("0:0:0:0:0:0:0:1");
        crate::sysinfo::procfs::chars_eq(v6.as_slice(), one.as_slice())
    }

    /// Packets received.
    pub fn rx_packets(&self) -> (r: u64)
        ensures
            r == self@.rx_packets,
    {
        self.rx_packets
    }

    /// Packets sent.
    pub fn tx_packets(&self) -> (r: u64)
        ensures
            r == self@.tx_packets,
    {
        self.tx_packets
    }

    /// Bytes received.
    pub fn rx_bytes(&self) -> (r: u64)
        ensures
            r == self@.rx_bytes,
    {
        self.rx_bytes
    }

    /// Bytes sent.
    pub fn tx_bytes(&self) -> (r: u64)
        ensures
            r == self@.tx_bytes,
    {
        self.tx_bytes
    }
}

/// The name of an adapter: its friendly name up to its zero, decoded.
pub open spec fn adapter_name(a: AdapterAnswer) -> Seq<char> {
    utf16_text(before_nul(a.friendly_name@))
}

/// The name of an adapter.
pub fn get_name(a: &AdapterAnswer) -> (r: String)
    ensures
        r@ == adapter_name(*a),
{
    let units = units_before_nul(a.friendly_name.as_slice());
    utf16_lossy(units.as_slice())
}

/// The views of a list of adapters.
pub open spec fn networks_view(v: Seq<Network>) -> Seq<NetworkView> {
    v.map_values(|n: Network| n@)
}

/// A fresh adapter named `name`.
pub open spec fn fresh(name: Seq<char>) -> NetworkView {
    NetworkView {
        id: 0,
        name,
        ipv4: Seq::empty(),
        ipv6: Seq::empty(),
        mac: Seq::empty(),
        rx_packets: 0,
        tx_packets: 0,
        rx_bytes: 0,
        tx_bytes: 0,
    }
}

/// The adapters of the first `k` answers: the first answer of each name that gives an
/// address makes the adapter, with the counters of its row; later answers of a kept name
/// are passed over, and so are answers that give no address.
pub open spec fn adapters_upto(es: Seq<AdapterAnswer>, k: int) -> Seq<NetworkView>
    decreases k,
{
    if k <= 0 {
        Seq::empty()
    } else {
        let p = adapters_upto(es, k - 1);
        let a = es[k - 1];
        if exists|j: int| 0 <= j < p.len() && p[j].name == adapter_name(a) {
            p
        } else {
            match baseinfo_after(fresh(adapter_name(a)), a) {
                None => p,
                Some(n) => p.push(flow_after(n, a.row)),
            }
        }
    }
}

/// Every answer can be read.
pub open spec fn adapters_readable(es: Seq<AdapterAnswer>) -> bool {
    forall|i: int| 0 <= i < es.len() ==> adapter_readable(#[trigger] es[i])
}

/// The network adapters of the system.
#[derive(Debug)]
pub struct NetworksInfo {
    networks: Vec<Network>,
}

impl NetworksInfo {
    /// The adapters, in the order of their first answers.
    pub closed spec fn list(&self) -> Seq<NetworkView> {
        networks_view(self.networks@)
    }

    /// The adapters of the answers of the adapter query.
    pub fn new(answers: &Vec<AdapterAnswer>) -> (r: Result<Self, Error>)
        requires
            adapters_readable(answers@),
        ensures
            r matches Ok(info) && info.list() == adapters_upto(answers@, answers@.len() as int),
    {
        let mut networks: Vec<Network> = Vec::new();
        let mut i: usize = 0;
        while i < answers.len()
            invariant
                i <= answers@.len(),
                adapters_readable(answers@),
                networks_view(networks@) == adapters_upto(answers@, i as int),
            decreases answers.len() - i,
        {
            let ghost p = adapters_upto(answers@, i as int);
            let name = get_name(&answers[i]);
            let target = chars_of(name.as_str());
            let mut q: usize = 0;
            let mut found = false;
            while q < networks.len() && !found
                invariant
                    q <= networks@.len(),
                    networks_view(networks@) == p,
                    target@ == adapter_name(answers@[i as int]),
                    found ==> q < p.len() && p[q as int].name == target@,
                    !found ==> forall|k: int| 0 <= k < q ==> p[k].name != target@,
                decreases networks@.len() - q + (if found {
                    0int
                } else {
                    1int
                }),
            {
                assert(p[q as int] == networks@[q as int]@);
                let nm = chars_of(networks[q].name.as_str());
                if crate::sysinfo::procfs::chars_eq(nm.as_slice(), target.as_slice()) {
                    found = true;
                } else {
                    q = q + 1;
                }
            }
            if !found {
                assert(!exists|j: int| 0 <= j < p.len() && p[j].name == adapter_name(answers@[i as int]));
                let mut net = Network::new(name);
                assert(adapter_readable(answers@[i as int]));
                match net.update_baseinfo(&answers[i]) {
                    Ok(()) => {
                        net.update_flow(&answers[i].row);
                        let ghost before = networks_view(networks@);
                        let ghost nv = net@;
                        networks.push(net);
                        assert(networks_view(networks@) =~= before.push(nv));
                    },
                    Err(_) => {},
                }
            } else {
                assert(p[q as int].name == adapter_name(answers@[i as int]));
            }
            i = i + 1;
        }
        Ok(NetworksInfo { networks })
    }

    /// The adapters.
    pub fn iter(&self) -> (r: &[Network])
        ensures
            networks_view(r@) == self.list(),
    {
        self.networks.as_slice()
    }

    /// The adapters, to be changed in place.
    pub fn iter_mut(&mut self) -> (r: &mut Vec<Network>)
        ensures
            networks_view(r@) == old(self).list(),
            final(self).list() == networks_view(final(r)@),
    {
        &mut self.networks
    }

    /// The adapter named `name`.
    pub fn get(&self, name: &str) -> (r: Option<&Network>)
        ensures
            match r {
                Some(n) => exists|j: int|
                    0 <= j < self.list().len() && n@ == self.list()[j] && n@.name == name@,
                None => forall|q: int|
                    0 <= q < self.list().len() ==> (#[trigger] self.list()[q]).name != name@,
            },
    {
        let target = chars_of(name);
        let mut j: usize = 0;
        while j < self.networks.len()
            invariant
                j <= self.networks@.len(),
                target@ == name@,
                forall|q: int| 0 <= q < j ==> (#[trigger] self.list()[q]).name != name@,
            decreases self.networks.len() - j,
        {
            assert(self.list()[j as int] == self.networks@[j as int]@);
            let nm = chars_of(self.networks[j].name.as_str());
            if crate::sysinfo::procfs::chars_eq(nm.as_slice(), target.as_slice()) {
                return Some(&self.networks[j]);
            }
            j = j + 1;
        }
        None
    }
}

proof fn lemma_decimal_free_of(n: nat, sep: char, max: int)
    requires
        !is_digit(sep),
        n <= max,
    ensures
        forall|i: int| 0 <= i < decimal(n).len() ==> decimal(n)[i] != sep,
        parse_uint(decimal(n), max) == Ok::<int, IntErrorKind>(n as int),
{
    law_decimal_parses_back(n, max);
}

/// The text of an IPv4 address splits at its dots into four pieces that read back as its
/// four bytes, in order.
pub proof fn law_ipv4_text_reads_back(b: Seq<u8>)
    requires
        b.len() == 4,
    ensures
        split(ipv4_text(b), '.').len() == 4,
        forall|i: int|
            0 <= i < 4 ==> parse_uint(#[trigger] split(ipv4_text(b), '.')[i], 255) == Ok::<
                int,
                IntErrorKind,
            >(b[i] as int),
{
    let d = |i: int| decimal(b[i] as nat);
    lemma_decimal_free_of(b[0] as nat, '.', 255);
    lemma_decimal_free_of(b[1] as nat, '.', 255);
    lemma_decimal_free_of(b[2] as nat, '.', 255);
    lemma_decimal_free_of(b[3] as nat, '.', 255);
    lemma_split_single(d(3), '.');
    lemma_split_cons(d(2), '.', d(3));
    lemma_split_cons(d(1), '.', d(2) + seq!['.'] + d(3));
    lemma_split_cons(d(0), '.', d(1) + seq!['.'] + (d(2) + seq!['.'] + d(3)));
    assert(ipv4_text(b) =~= d(0) + seq!['.'] + (d(1) + seq!['.'] + (d(2) + seq!['.'] + d(3))));
    assert(split(ipv4_text(b), '.') =~= seq![d(0), d(1), d(2), d(3)]);
}

proof fn lemma_words_text_split(w: Seq<u16>, k: int)
    requires
        0 <= k < w.len(),
    ensures
        split(words_text(w, k), ':').len() == w.len() - k,
        forall|i: int|
            k <= i < w.len() ==> parse_uint(#[trigger] split(words_text(w, k), ':')[i - k], 65535)
                == Ok::<int, IntErrorKind>(w[i] as int),
    decreases w.len() - k,
{
    lemma_decimal_free_of(w[k] as nat, ':', 65535);
    if k >= w.len() - 1 {
        lemma_split_single(decimal(w[k] as nat), ':');
    } else {
        lemma_words_text_split(w, k + 1);
        lemma_split_cons(decimal(w[k] as nat), ':', words_text(w, k + 1));
        let p = split(words_text(w, k), ':');
        let q = split(words_text(w, k + 1), ':');
        assert(p == seq![decimal(w[k] as nat)] + q);
        assert forall|i: int| k <= i < w.len() implies parse_uint(#[trigger] p[i - k], 65535)
            == Ok::<int, IntErrorKind>(w[i] as int) by {
            if i > k {
                assert(p[i - k] == q[i - (k + 1)]);
            }
        }
    }
}

/// The text of an IPv6 address splits at its colons into eight pieces that read back as
/// its eight words, in order.
pub proof fn law_ipv6_text_reads_back(w: Seq<u16>)
    requires
        w.len() == 8,
    ensures
        split(ipv6_text(w), ':').len() == 8,
        forall|i: int|
            0 <= i < 8 ==> parse_uint(#[trigger] split(ipv6_text(w), ':')[i], 65535) == Ok::<
                int,
                IntErrorKind,
            >(w[i] as int),
{
    lemma_words_text_split(w, 0);
    assert forall|i: int| 0 <= i < 8 implies parse_uint(#[trigger] split(ipv6_text(w), ':')[i], 65535)
        == Ok::<int, IntErrorKind>(w[i] as int) by {
        assert(split(words_text(w, 0), ':')[i - 0] == split(ipv6_text(w), ':')[i]);
    }
}

} // verus!
