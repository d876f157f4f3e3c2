//! Socket addresses, as plain values.

use vstd::prelude::*;
use vstd::string::StringExecFns;

use crate::text::push_decimal;

verus! {

/// An IP address, as the number that its bits make.
#[derive(Debug, Clone, Copy, PartialEq, Eq, Structural)]
pub enum IpAddr {
    /// An IPv4 address.
    V4(u32),
    /// An IPv6 address.
    V6(u128),
}

/// The IPv4 address of this host: 127.0.0.1.
pub const LOCALHOST_V4: u32 = 0x7f00_0001;

/// The IPv6 address of this host: ::1.
pub const LOCALHOST_V6: u128 = 1;

/// The address of a socket.
#[allow(inconsistent_fields)]
#[derive(Debug, Clone, Copy, PartialEq, Eq, Structural)]
pub enum SocketAddr {
    /// An IPv4 address with a port.
    V4 {
        /// The bits of the IP address.
        ip: u32,
        /// The port.
        port: u16,
    },
    /// An IPv6 address with a port.
    V6 {
        /// The bits of the IP address.
        ip: u128,
        /// The port.
        port: u16,
        /// The flow information.
        flowinfo: u32,
        /// The scope.
        scope_id: u32,
    },
}

impl SocketAddr {
    /// The IP address.
    pub open spec fn spec_ip(self) -> IpAddr {
        match self {
            SocketAddr::V4 { ip, .. } => IpAddr::V4(ip),
            SocketAddr::V6 { ip, .. } => IpAddr::V6(ip),
        }
    }

    /// The port.
    pub open spec fn spec_port(self) -> u16 {
        match self {
            SocketAddr::V4 { port, .. } => port,
            SocketAddr::V6 { port, .. } => port,
        }
    }

    /// The address of a port at an IP address, without flow information or
    /// scope.
    pub open spec fn spec_new(ip: IpAddr, port: u16) -> SocketAddr {
        match ip {
            IpAddr::V4(ip) => SocketAddr::V4 { ip, port },
            IpAddr::V6(ip) => SocketAddr::V6 { ip, port, flowinfo: 0, scope_id: 0 },
        }
    }

    /// The address of a port at an IP address, without flow information or
    /// scope.
    pub fn new(ip: IpAddr, port: u16) -> (addr: SocketAddr)
        ensures
            addr == Self::spec_new(ip, port),
            addr.spec_ip() == ip,
            addr.spec_port() == port,
    {
        match ip {
            IpAddr::V4(ip) => SocketAddr::V4 { ip, port },
            IpAddr::V6(ip) => SocketAddr::V6 { ip, port, flowinfo: 0, scope_id: 0 },
        }
    }

    /// The address of a port of this host, in IPv4.
    pub fn localhost(port: u16) -> (addr: SocketAddr)
        ensures
            addr == Self::spec_new(IpAddr::V4(LOCALHOST_V4), port),
    {
        SocketAddr::new(IpAddr::V4(LOCALHOST_V4), port)
    }

    /// The address of a port of this host, in IPv6.
    pub fn localhost_v6(port: u16) -> (addr: SocketAddr)
        ensures
            addr == Self::spec_new(IpAddr::V6(LOCALHOST_V6), port),
    {
        SocketAddr::new(IpAddr::V6(LOCALHOST_V6), port)
    }

    /// The IP address.
    pub fn ip(self) -> (ip: IpAddr)
        ensures
            ip == self.spec_ip(),
    {
        match self {
            SocketAddr::V4 { ip, .. } => IpAddr::V4(ip),
            SocketAddr::V6 { ip, .. } => IpAddr::V6(ip),
        }
    }

    /// The port.
    pub fn port(self) -> (port: u16)
        ensures
            port == self.spec_port(),
    {
        match self {
            SocketAddr::V4 { port, .. } => port,
            SocketAddr::V6 { port, .. } => port,
        }
    }
}

/// The address of the other end of a connection.
#[derive(Debug, PartialEq, Eq)]
pub struct PeerAddr {
    /// The address.
    pub addr: SocketAddr,
    /// How the IP address is written out, if it is an IPv6 address.
    pub ip_text: String,
}

impl Clone for PeerAddr {
    fn clone(&self) -> (copy: Self)
        ensures
            copy == *self,
    {
        PeerAddr { addr: self.addr, ip_text: self.ip_text.clone() }
    }
}

/// One of the four numbers of an IPv4 address, counted from the back.
pub open spec fn octet(ip: u32, place: nat) -> nat {
    if place == 0 {
        ip as nat % 256
    } else if place == 1 {
        ip as nat / 0x100 % 256
    } else if place == 2 {
        ip as nat / 0x1_0000 % 256
    } else {
        ip as nat / 0x100_0000
    }
}

/// An IPv4 address, written out.
pub open spec fn ipv4_text(ip: u32) -> Seq<char> {
    crate::text::decimal(octet(ip, 3)) + "."@ + crate::text::decimal(octet(ip, 2)) + "."@
        + crate::text::decimal(octet(ip, 1)) + "."@ + crate::text::decimal(octet(ip, 0))
}

impl PeerAddr {
    /// The address, written out: the IP address and then the port. An IPv6
    /// address stands in brackets, with its scope, if it has one.
    pub open spec fn spec_text(&self) -> Seq<char> {
        match self.addr {
            SocketAddr::V4 { ip, port } => ipv4_text(ip) + ":"@ + crate::text::decimal(port as nat),
            SocketAddr::V6 { port, scope_id, .. } => "["@ + self.ip_text@ + (if scope_id == 0 {
                Seq::<char>::empty()
            } else {
                "%"@ + crate::text::decimal(scope_id as nat)
            }) + "]:"@ + crate::text::decimal(port as nat),
        }
    }

    /// The address, written out.
    pub fn text(&self) -> (text: String)
        ensures
            text@ == self.spec_text(),
    {
        match self.addr {
            SocketAddr::V4 { ip, port } => {
                let mut text = String::new();
                push_decimal(&mut text, (ip / 0x100_0000) as u64);
                text.append(".");
                push_decimal(&mut text, (ip / 0x1_0000 % 256) as u64);
                text.append(".");
                push_decimal(&mut text, (ip / 0x100 % 256) as u64);
                text.append(".");
                push_decimal(&mut text, (ip % 256) as u64);
                text.append(":");
                push_decimal(&mut text, port as u64);
                assert(text@ =~= self.spec_text());
                text
            },
            SocketAddr::V6 { port, scope_id, .. } => {
                let mut text = "[".to_owned();
                text.append(self.ip_text.as_str());
                if scope_id != 0 {
                    text.append("%");
                    push_decimal(&mut text, scope_id as u64);
                }
                text.append("]:");
                push_decimal(&mut text, port as u64);
                assert(text@ =~= self.spec_text());
                text
            },
        }
    }
}

impl PeerAddr {
    /// The text of an IPv6 address does not contain the characters that come
    /// behind it, nor a tilde.
    pub open spec fn has_plain_ip_text(&self) -> bool {
        self.addr is V6 ==> {
            &&& !self.ip_text@.contains('%')
            &&& !self.ip_text@.contains(']')
            &&& !self.ip_text@.contains('~')
        }
    }

    /// The addresses agree in all that is written out of them.
    pub open spec fn is_written_like(&self, other: PeerAddr) -> bool {
        match (self.addr, other.addr) {
            (SocketAddr::V4 { ip: ip1, port: port1 }, SocketAddr::V4 { ip: ip2, port: port2 }) => {
                &&& ip1 == ip2
                &&& port1 == port2
            },
            (
                SocketAddr::V6 { port: port1, scope_id: scope1, .. },
                SocketAddr::V6 { port: port2, scope_id: scope2, .. },
            ) => {
                &&& self.ip_text@ == other.ip_text@
                &&& port1 == port2
                &&& scope1 == scope2
            },
            _ => false,
        }
    }
}

/// A number holds no character but digits.
proof fn lemma_no_mark(n: nat, mark: char)
    requires
        mark < '0' || '9' < mark,
    ensures
        !crate::text::decimal(n).contains(mark),
{
    crate::text::lemma_decimal_digits(n);
}

/// Which characters an address that is written out starts with and is made of.
pub(crate) proof fn lemma_address_text(peer: PeerAddr)
    requires
        peer.has_plain_ip_text(),
    ensures
        peer.spec_text().len() > 0,
        peer.addr is V4 <==> '0' <= peer.spec_text()[0] <= '9',
        peer.addr is V6 <==> peer.spec_text()[0] == '[',
        !peer.spec_text().contains('~'),
{
    reveal_strlit(".");
    reveal_strlit(":");
    reveal_strlit("[");
    reveal_strlit("%");
    reveal_strlit("]:");
    let text = peer.spec_text();
    match peer.addr {
        SocketAddr::V4 { ip, port } => {
            let a = crate::text::decimal(octet(ip, 3));
            let b = crate::text::decimal(octet(ip, 2));
            let c = crate::text::decimal(octet(ip, 1));
            let d = crate::text::decimal(octet(ip, 0));
            let p = crate::text::decimal(port as nat);
            crate::text::lemma_decimal_digits(octet(ip, 3));
            assert(text[0] == a[0]);
            lemma_no_mark(octet(ip, 3), '~');
            lemma_no_mark(octet(ip, 2), '~');
            lemma_no_mark(octet(ip, 1), '~');
            lemma_no_mark(octet(ip, 0), '~');
            lemma_no_mark(port as nat, '~');
            lemma_not_in_either(a, "."@, '~');
            lemma_not_in_either(a + "."@, b, '~');
            lemma_not_in_either(a + "."@ + b, "."@, '~');
            lemma_not_in_either(a + "."@ + b + "."@, c, '~');
            lemma_not_in_either(a + "."@ + b + "."@ + c, "."@, '~');
            lemma_not_in_either(a + "."@ + b + "."@ + c + "."@, d, '~');
            lemma_not_in_either(ipv4_text(ip), ":"@, '~');
            lemma_not_in_either(ipv4_text(ip) + ":"@, p, '~');
        },
        SocketAddr::V6 { port, scope_id, .. } => {
            let p = crate::text::decimal(port as nat);
            let s = if scope_id == 0 {
                Seq::<char>::empty()
            } else {
                "%"@ + crate::text::decimal(scope_id as nat)
            };
            assert(text[0] == '[');
            lemma_no_mark(scope_id as nat, '~');
            lemma_no_mark(port as nat, '~');
            lemma_not_in_either("%"@, crate::text::decimal(scope_id as nat), '~');
            lemma_not_in_either("["@, peer.ip_text@, '~');
            lemma_not_in_either("["@ + peer.ip_text@, s, '~');
            lemma_not_in_either("["@ + peer.ip_text@ + s, "]:"@, '~');
            lemma_not_in_either("["@ + peer.ip_text@ + s + "]:"@, p, '~');
        },
    }
}

proof fn lemma_not_in_either(one: Seq<char>, other: Seq<char>, mark: char)
    requires
        !one.contains(mark),
        !other.contains(mark),
    ensures
        !(one + other).contains(mark),
{
    if (one + other).contains(mark) {
        let i = choose|i: int| 0 <= i < (one + other).len() && (one + other)[i] == mark;
        if i < one.len() {
            assert(one[i] == mark);
        } else {
            assert(other[i - one.len()] == mark);
        }
    }
}

/// An address that is written out tells the IP address, the port and the scope:
/// no two addresses that differ in one of these are written alike.
pub proof fn law_address_texts_tell_addresses_apart(one: PeerAddr, other: PeerAddr)
    requires
        one.has_plain_ip_text(),
        other.has_plain_ip_text(),
        one.spec_text() == other.spec_text(),
    ensures
        one.is_written_like(other),
{
    lemma_address_text(one);
    lemma_address_text(other);
    match (one.addr, other.addr) {
        (SocketAddr::V4 { ip: ip1, port: port1 }, SocketAddr::V4 { ip: ip2, port: port2 }) => {
            lemma_ipv4_parts(ip1, port1, ip2, port2);
        },
        (
            SocketAddr::V6 { port: port1, scope_id: scope1, .. },
            SocketAddr::V6 { port: port2, scope_id: scope2, .. },
        ) => {
            lemma_ipv6_parts(one.ip_text@, scope1, port1, other.ip_text@, scope2, port2);
        },
        _ => {},
    }
}

/// A number, a mark and what follows.
spec fn marked(n: nat, mark: char, behind: Seq<char>) -> Seq<char> {
    crate::text::decimal(n) + seq![mark] + behind
}

proof fn lemma_ipv4_layout(ip: u32, port: u16)
    ensures
        ipv4_text(ip) + ":"@ + crate::text::decimal(port as nat) == marked(
            octet(ip, 3),
            '.',
            marked(
                octet(ip, 2),
                '.',
                marked(
                    octet(ip, 1),
                    '.',
                    marked(octet(ip, 0), ':', crate::text::decimal(port as nat)),
                ),
            ),
        ),
{
    reveal_strlit(".");
    reveal_strlit(":");
    let a = crate::text::decimal(octet(ip, 3));
    let b = crate::text::decimal(octet(ip, 2));
    let c = crate::text::decimal(octet(ip, 1));
    let d = crate::text::decimal(octet(ip, 0));
    let p = crate::text::decimal(port as nat);
    assert("."@ =~= seq!['.']);
    assert(":"@ =~= seq![':']);
    let dot = seq!['.'];
    let colon = seq![':'];
    assert(a + dot + b + dot + c + dot + d + colon + p =~= a + dot + (b + dot + (c + dot + (d
        + colon + p))));
}

proof fn lemma_ipv4_parts(ip1: u32, port1: u16, ip2: u32, port2: u16)
    requires
        ipv4_text(ip1) + ":"@ + crate::text::decimal(port1 as nat) == ipv4_text(ip2) + ":"@
            + crate::text::decimal(port2 as nat),
    ensures
        ip1 == ip2,
        port1 == port2,
{
    lemma_ipv4_layout(ip1, port1);
    lemma_ipv4_layout(ip2, port2);
    let p1 = crate::text::decimal(port1 as nat);
    let p2 = crate::text::decimal(port2 as nat);
    let d1 = marked(octet(ip1, 0), ':', p1);
    let d2 = marked(octet(ip2, 0), ':', p2);
    let c1 = marked(octet(ip1, 1), '.', d1);
    let c2 = marked(octet(ip2, 1), '.', d2);
    let b1 = marked(octet(ip1, 2), '.', c1);
    let b2 = marked(octet(ip2, 2), '.', c2);
    lemma_marked(octet(ip1, 3), '.', b1, octet(ip2, 3), b2);
    lemma_marked(octet(ip1, 2), '.', c1, octet(ip2, 2), c2);
    lemma_marked(octet(ip1, 1), '.', d1, octet(ip2, 1), d2);
    lemma_marked(octet(ip1, 0), ':', p1, octet(ip2, 0), p2);
    crate::text::law_decimal_tells_numbers_apart(port1 as nat, port2 as nat);
    lemma_octets(ip1);
    lemma_octets(ip2);
}

/// A number and what follows the mark behind it can be told apart.
proof fn lemma_marked(n: nat, mark: char, behind: Seq<char>, m: nat, more: Seq<char>)
    requires
        mark < '0' || '9' < mark,
        marked(n, mark, behind) == marked(m, mark, more),
    ensures
        n == m,
        behind == more,
{
    lemma_no_mark(n, mark);
    lemma_no_mark(m, mark);
    crate::text::lemma_first_mark(
        mark,
        crate::text::decimal(n),
        behind,
        crate::text::decimal(m),
        more,
    );
    crate::text::law_decimal_tells_numbers_apart(n, m);
}

/// An IPv4 address is the number that its octets make.
proof fn lemma_octets(ip: u32)
    ensures
        ip == octet(ip, 3) * 0x100_0000 + octet(ip, 2) * 0x1_0000 + octet(ip, 1) * 0x100 + octet(
            ip,
            0,
        ),
{
    let n = ip as nat;
    assert(n / 0x100 == n / 0x1_0000 * 256 + n / 0x100 % 256);
    assert(n / 0x1_0000 == n / 0x100_0000 * 256 + n / 0x1_0000 % 256);
}

proof fn lemma_ipv6_parts(
    ip1: Seq<char>,
    scope1: u32,
    port1: u16,
    ip2: Seq<char>,
    scope2: u32,
    port2: u16,
)
    requires
        !ip1.contains('%') && !ip1.contains(']'),
        !ip2.contains('%') && !ip2.contains(']'),
        "["@ + ip1 + (if scope1 == 0 {
            Seq::<char>::empty()
        } else {
            "%"@ + crate::text::decimal(scope1 as nat)
        }) + "]:"@ + crate::text::decimal(port1 as nat) == "["@ + ip2 + (if scope2 == 0 {
            Seq::<char>::empty()
        } else {
            "%"@ + crate::text::decimal(scope2 as nat)
        }) + "]:"@ + crate::text::decimal(port2 as nat),
    ensures
        ip1 == ip2,
        scope1 == scope2,
        port1 == port2,
{
    reveal_strlit("[");
    reveal_strlit("%");
    reveal_strlit("]:");
    let s1 = if scope1 == 0 {
        Seq::<char>::empty()
    } else {
        "%"@ + crate::text::decimal(scope1 as nat)
    };
    let s2 = if scope2 == 0 {
        Seq::<char>::empty()
    } else {
        "%"@ + crate::text::decimal(scope2 as nat)
    };
    let p1 = crate::text::decimal(port1 as nat);
    let p2 = crate::text::decimal(port2 as nat);
    let text1 = "["@ + ip1 + s1 + "]:"@ + p1;
    let text2 = "["@ + ip2 + s2 + "]:"@ + p2;
    assert(text1.skip(1) =~= (ip1 + s1) + seq![']'] + (seq![':'] + p1));
    assert(text2.skip(1) =~= (ip2 + s2) + seq![']'] + (seq![':'] + p2));
    lemma_no_mark(scope1 as nat, ']');
    lemma_no_mark(scope2 as nat, ']');
    lemma_not_in_either("%"@, crate::text::decimal(scope1 as nat), ']');
    lemma_not_in_either("%"@, crate::text::decimal(scope2 as nat), ']');
    lemma_not_in_either(ip1, s1, ']');
    lemma_not_in_either(ip2, s2, ']');
    crate::text::lemma_first_mark(
        ']',
        ip1 + s1,
        seq![':'] + p1,
        ip2 + s2,
        seq![':'] + p2,
    );
    assert(p1 =~= (seq![':'] + p1).skip(1));
    assert(p2 =~= (seq![':'] + p2).skip(1));
    crate::text::law_decimal_tells_numbers_apart(port1 as nat, port2 as nat);
    let whole = ip1 + s1;
    if scope1 != 0 {
        assert(whole[ip1.len() as int] == '%');
    }
    if scope2 != 0 {
        assert(whole[ip2.len() as int] == '%');
    }
    if scope1 != 0 && scope2 != 0 {
        let d1 = crate::text::decimal(scope1 as nat);
        let d2 = crate::text::decimal(scope2 as nat);
        assert(whole =~= ip1 + seq!['%'] + d1);
        assert(whole =~= ip2 + seq!['%'] + d2);
        crate::text::lemma_first_mark('%', ip1, d1, ip2, d2);
        crate::text::law_decimal_tells_numbers_apart(scope1 as nat, scope2 as nat);
    } else if scope1 != 0 {
        assert(whole =~= ip2);
        assert(ip2[ip1.len() as int] == '%');
    } else if scope2 != 0 {
        assert(whole =~= ip1);
        assert(ip1[ip2.len() as int] == '%');
    } else {
        assert(whole =~= ip1);
        assert(whole =~= ip2);
    }
}

/// An address is made of its IP address and its port, and of nothing else.
pub proof fn law_a_new_address_has_its_ip_and_port(ip: IpAddr, port: u16)
    ensures
        match ip {
            IpAddr::V4(bits) => SocketAddr::spec_new(ip, port) == (SocketAddr::V4 {
                ip: bits,
                port,
            }),
            IpAddr::V6(bits) => SocketAddr::spec_new(ip, port) matches SocketAddr::V6 {
                ip: given,
                port: at,
                flowinfo,
                scope_id,
            } && given == bits && at == port && flowinfo == 0 && scope_id == 0,
        },
        SocketAddr::spec_new(ip, port).spec_ip() == ip,
        SocketAddr::spec_new(ip, port).spec_port() == port,
{
}

/// What an IPv4 address is made of when it is written out: the four bytes of the IP
/// address, the most significant first, in decimal and with dots between them, a
/// colon, and the port in decimal.
pub proof fn law_an_ipv4_address_is_four_bytes_and_a_port(peer: PeerAddr, ip: u32, port: u16)
    requires
        peer.addr == (SocketAddr::V4 { ip, port }),
    ensures
        ({
            let text = peer.spec_text();
            let bytes = crate::frame::be_bytes(ip as nat, 4);
            let a = crate::text::decimal(bytes[0] as nat);
            let b = crate::text::decimal(bytes[1] as nat);
            let c = crate::text::decimal(bytes[2] as nat);
            let d = crate::text::decimal(bytes[3] as nat);
            let at_b = a.len() + 1;
            let at_c = at_b + b.len() + 1;
            let at_d = at_c + c.len() + 1;
            let at_p = at_d + d.len() + 1;
            &&& a.is_prefix_of(text) && text[at_b - 1] == '.'
            &&& b.is_prefix_of(text.skip(at_b as int)) && text[at_c - 1] == '.'
            &&& c.is_prefix_of(text.skip(at_c as int)) && text[at_d - 1] == '.'
            &&& d.is_prefix_of(text.skip(at_d as int)) && text[at_p - 1] == ':'
            &&& text.skip(at_p as int) == crate::text::decimal(port as nat)
        }),
{
    let text = peer.spec_text();
    let bytes = crate::frame::be_bytes(ip as nat, 4);
    reveal_with_fuel(crate::frame::be_bytes, 5);
    assert(bytes[3] as nat == octet(ip, 0));
    assert(bytes[2] as nat == octet(ip, 1));
    assert(bytes[1] as nat == octet(ip, 2));
    assert(bytes[0] as nat == octet(ip, 3));
    lemma_ipv4_layout(ip, port);
    let p = crate::text::decimal(port as nat);
    let d = marked(octet(ip, 0), ':', p);
    let c = marked(octet(ip, 1), '.', d);
    let b = marked(octet(ip, 2), '.', c);
    lemma_marked_parts(octet(ip, 3), '.', b);
    lemma_marked_parts(octet(ip, 2), '.', c);
    lemma_marked_parts(octet(ip, 1), '.', d);
    lemma_marked_parts(octet(ip, 0), ':', p);
    let at_b = crate::text::decimal(octet(ip, 3)).len() as int + 1;
    let at_c = at_b + crate::text::decimal(octet(ip, 2)).len() + 1;
    let at_d = at_c + crate::text::decimal(octet(ip, 1)).len() + 1;
    let at_p = at_d + crate::text::decimal(octet(ip, 0)).len() + 1;
    assert(text.skip(at_b) == b);
    assert(text.skip(at_c) =~= b.skip(at_c - at_b));
    assert(text.skip(at_d) =~= c.skip(at_d - at_c));
    assert(text.skip(at_p) =~= d.skip(at_p - at_d));
    assert(text[at_c - 1] == b[at_c - at_b - 1]);
    assert(text[at_d - 1] == c[at_d - at_c - 1]);
    assert(text[at_p - 1] == d[at_p - at_d - 1]);
}

proof fn lemma_marked_parts(n: nat, mark: char, behind: Seq<char>)
    ensures
        ({
            let number = crate::text::decimal(n);
            let text = marked(n, mark, behind);
            &&& number.is_prefix_of(text)
            &&& text.len() == number.len() + 1 + behind.len()
            &&& text[number.len() as int] == mark
            &&& text.skip(number.len() as int + 1) == behind
        }),
{
    let number = crate::text::decimal(n);
    let text = marked(n, mark, behind);
    assert(number =~= text.take(number.len() as int));
    assert(text.skip(number.len() as int + 1) =~= behind);
}

/// What an IPv6 address is made of when it is written out: in brackets, the IP
/// address and, if it has a scope, a percent sign and the scope in decimal; a colon;
/// and the port in decimal.
pub proof fn law_an_ipv6_address_stands_in_brackets(
    peer: PeerAddr,
    ip: u128,
    port: u16,
    flowinfo: u32,
    scope_id: u32,
)
    requires
        peer.addr == (SocketAddr::V6 { ip, port, flowinfo, scope_id }),
    ensures
        ({
            let text = peer.spec_text();
            let scope = crate::text::decimal(scope_id as nat);
            let at_scope = 1 + peer.ip_text@.len() as int;
            let at_end = if scope_id == 0 {
                at_scope
            } else {
                at_scope + 1 + scope.len()
            };
            &&& text[0] == '['
            &&& text.subrange(1, at_scope) == peer.ip_text@
            &&& scope_id != 0 ==> text[at_scope] == '%' && text.subrange(at_scope + 1, at_end)
                == scope
            &&& text[at_end] == ']' && text[at_end + 1] == ':'
            &&& text.skip(at_end + 2) == crate::text::decimal(port as nat)
        }),
{
    reveal_strlit("[");
    reveal_strlit("%");
    reveal_strlit("]:");
    let text = peer.spec_text();
    let scope = crate::text::decimal(scope_id as nat);
    let at_scope = 1 + peer.ip_text@.len() as int;
    let at_end = if scope_id == 0 {
        at_scope
    } else {
        at_scope + 1 + scope.len()
    };
    assert(text.subrange(1, at_scope) =~= peer.ip_text@);
    if scope_id != 0 {
        assert(text.subrange(at_scope + 1, at_end) =~= scope);
    }
    assert(text.skip(at_end + 2) =~= crate::text::decimal(port as nat));
}

/// This host is 127.0.0.1 in IPv4, and in IPv6 the address whose last bit alone is
/// set.
pub proof fn law_this_host()
    ensures
        LOCALHOST_V4 == 127 * 256 * 256 * 256 + 1,
        LOCALHOST_V6 == 1,
{
}

/// Every address tells the IP address and the port that it holds, whatever else it
/// holds.
pub proof fn law_an_address_tells_its_ip_and_port(addr: SocketAddr)
    ensures
        addr matches SocketAddr::V4 { ip, port } ==> addr.spec_ip() == IpAddr::V4(ip)
            && addr.spec_port() == port,
        addr matches SocketAddr::V6 { ip, port, .. } ==> addr.spec_ip() == IpAddr::V6(ip)
            && addr.spec_port() == port,
{
}

} // verus!
