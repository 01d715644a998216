//! IP addresses and CIDR blocks.

use vstd::prelude::*;
use vstd::string::*;
use crate::engine::{add_text_function, add_value_method, add_value_value_method, is_opaque};
use crate::model::{CelValue, CelView, FunctionError};
use crate::text::{chars_of, concat2, decimal_string, decimal_text, same_text};

verus! {

/// An IP address: its family and its bits, an IPv4 address in the low 32.
#[derive(Debug, Clone, Copy, PartialEq, Eq, Structural)]
pub struct KubeIP {
    pub v6: bool,
    pub bits: u128,
}

/// A CIDR block: an address and the length of the network prefix.
#[derive(Debug, Clone, Copy, PartialEq, Eq, Structural)]
pub struct KubeCIDR {
    pub addr: KubeIP,
    pub prefix_len: u8,
}


impl cel::objects::Opaque for KubeIP {
    /// The name by which the engine knows values of this kind.
    fn runtime_type_name(&self) -> (r: &str)
        ensures
            r@ == "net.IP"@,
    {
        "net.IP"
    }
}

impl cel::objects::Opaque for KubeCIDR {
    /// The name by which the engine knows values of this kind.
    fn runtime_type_name(&self) -> (r: &str)
        ensures
            r@ == "net.CIDR"@,
    {
        "net.CIDR"
    }
}


/// The network that `IpNet::from_str` reads from `text`: whether it is an IPv6 network,
/// the bits of the address as it was written, and the length of the prefix. Nothing where
/// `text` is no network.
pub uninterp spec fn net_of(text: Seq<char>) -> Option<(bool, u128, u8)>;

/// The canonical form of the IPv4 address of the bits `bits`: its four bytes in decimal,
/// the highest first, with a dot between two of them.
pub open spec fn ipv4_text(bits: u32) -> Seq<char> {
    decimal_text((bits / 0x100_0000) as nat) + "."@ + decimal_text((bits / 0x1_0000 % 0x100) as nat)
        + "."@ + decimal_text((bits / 0x100 % 0x100) as nat) + "."@ + decimal_text(
        (bits % 0x100) as nat,
    )
}

/// The text that `Display` writes for the IPv6 address of the bits `bits`: its canonical
/// form.
pub uninterp spec fn ipv6_text(bits: u128) -> Seq<char>;

/// The canonical form of an address: of the IPv4 address in the low 32 bits of `bits`, or
/// of the IPv6 address that all of `bits` make.
pub open spec fn address_text(v6: bool, bits: u128) -> Seq<char> {
    if v6 {
        ipv6_text(bits)
    } else {
        ipv4_text((bits & 0xffff_ffff) as u32)
    }
}

/// `IpNet::from_str`, its outcome as plain values: the variant, `addr` as a number, and
/// `prefix_len`.
///
/// The outcome is a function of the text alone.
#[verifier::external_body]
fn parse_net(text: &str) -> (r: Option<(bool, u128, u8)>)
    ensures
        r == net_of(text@),
{
    match text.parse::<ipnet::IpNet>().ok()? {
        ipnet::IpNet::V4(n) => Some((false, u32::from(n.addr()).into(), n.prefix_len())),
        ipnet::IpNet::V6(n) => Some((true, u128::from(n.addr()), n.prefix_len())),
    }
}

/// The canonical form of the IPv4 address of the bits `bits`.
fn ipv4_string(bits: u32) -> (r: String)
    ensures
        r@ == ipv4_text(bits),
{
    let first: u32 = bits / 0x100_0000;
    let second: u32 = bits / 0x1_0000 % 0x100;
    let third: u32 = bits / 0x100 % 0x100;
    let last: u32 = bits % 0x100;
    let mut out = decimal_string(first as u128);
    out.append(".");
    out.append(decimal_string(second as u128).as_str());
    out.append(".");
    out.append(decimal_string(third as u128).as_str());
    out.append(".");
    out.append(decimal_string(last as u128).as_str());
    out
}

/// `Display` of the address of `Ipv6Net::new_assert`, made of the bits with a prefix of
/// full length.
#[verifier::external_body]
fn ipv6_string(bits: u128) -> (r: String)
    ensures
        r@ == ipv6_text(bits),
{
    ipnet::Ipv6Net::new_assert(bits.into(), 128).addr().to_string()
}

/// The canonical form of an address.
fn address_string(v6: bool, bits: u128) -> (r: String)
    ensures
        r@ == address_text(v6, bits),
{
    if v6 {
        ipv6_string(bits)
    } else {
        let low = bits & 0xffff_ffff;
        assert(low <= 0xffff_ffff) by (bit_vector)
            requires
                low == bits & 0xffff_ffff,
        ;
        ipv4_string(low as u32)
    }
}

/// Whether `s` holds the character `c`.
pub open spec fn holds_char(s: Seq<char>, c: char) -> bool {
    exists|i: int| 0 <= i < s.len() && #[trigger] s[i] == c
}

/// Whether no colon stands in `s` from `from` on.
pub open spec fn colon_free(s: Seq<char>, from: int) -> bool {
    forall|j: int| from <= j < s.len() ==> #[trigger] s[j] != ':'
}

/// Whether a number starts at `i` with a zero that another digit follows.
pub open spec fn zero_led_at(s: Seq<char>, i: int) -> bool {
    0 <= i && i + 1 < s.len() && s[i] == '0' && crate::duration::is_digit(s[i + 1]) && (i == 0
        || s[i - 1] == '.' || s[i - 1] == ':')
}

/// Whether a number of the dotted part of `s` starts with a zero that another digit
/// follows. The dotted part is what follows the last colon, if it holds a point.
pub open spec fn zero_led(s: Seq<char>) -> bool {
    (exists|j: int| 0 <= j < s.len() && #[trigger] s[j] == '.' && colon_free(s, j)) && (exists|
        i: int,
    | #[trigger] zero_led_at(s, i) && colon_free(s, i))
}

/// Whether a piece of `s` starts at `i`: a character that is no colon, at the start or
/// behind a colon.
pub open spec fn piece_starts_at(s: Seq<char>, i: int) -> bool {
    0 <= i < s.len() && s[i] != ':' && (i == 0 || s[i - 1] == ':')
}

/// How many pieces start among the first `upto` characters of `s`. A piece is what stands
/// between two colons, or between a colon and an end of the text.
pub open spec fn pieces(s: Seq<char>, upto: int) -> nat
    decreases upto,
{
    if upto <= 0 {
        0
    } else {
        pieces(s, upto - 1) + if piece_starts_at(s, upto - 1) {
            1nat
        } else {
            0nat
        }
    }
}

/// Whether two colons stand side by side at `i`.
pub open spec fn double_colon_at(s: Seq<char>, i: int) -> bool {
    0 <= i && i + 1 < s.len() && s[i] == ':' && s[i + 1] == ':'
}

/// Whether `s` writes a double colon beside all eight groups of an address, so that the
/// double colon stands for no group. A dotted piece holds two groups.
pub open spec fn elides_nothing(s: Seq<char>) -> bool {
    (exists|i: int| #[trigger] double_colon_at(s, i)) && pieces(s, s.len() as int) + (if holds_char(
        s,
        '.',
    ) {
        1nat
    } else {
        0nat
    }) == 8
}

/// Whether an IPv6 address is an IPv4 address in IPv6 notation, `::ffff:a.b.c.d`.
pub open spec fn is_mapped(bits: u128) -> bool {
    (bits >> 32) == 0xffff
}

/// The address that `s` writes: nothing where `s` holds a zone (`%`), is no address, is an
/// IPv4 address in IPv6 notation, writes a number of a dotted address with a leading
/// zero, or writes a double colon that stands for no group.
pub open spec fn ip_of(s: Seq<char>) -> Option<KubeIP> {
    if holds_char(s, '%') || zero_led(s) || elides_nothing(s) {
        None
    } else {
        match net_of(s + "/32"@) {
            Some((v6, bits, prefix)) => if v6 && is_mapped(bits) {
                None
            } else {
                Some(KubeIP { v6, bits })
            },
            None => None,
        }
    }
}

/// The block that `s` writes: nothing where `s` is no block, or its address is an IPv4
/// address in IPv6 notation.
pub open spec fn cidr_of(s: Seq<char>) -> Option<KubeCIDR> {
    match net_of(s) {
        Some((v6, bits, prefix)) => if v6 && is_mapped(bits) {
            None
        } else {
            Some(KubeCIDR { addr: KubeIP { v6, bits }, prefix_len: prefix })
        },
        None => None,
    }
}

fn holds_char_of(s: &Vec<char>, c: char) -> (r: bool)
    ensures
        r == holds_char(s@, c),
{
    let mut i: usize = 0;
    while i < s.len()
        invariant
            i <= s.len(),
            forall|j: int| 0 <= j < i ==> s@[j] != c,
        decreases s.len() - i,
    {
        if s[i] == c {
            return true;
        }
        i += 1;
    }
    false
}

fn zero_led_of(s: &Vec<char>) -> (r: bool)
    ensures
        r == zero_led(s@),
{
    // The dotted part starts after the last colon.
    let mut start: usize = 0;
    let mut i: usize = 0;
    while i < s.len()
        invariant
            i <= s.len(),
            start <= i,
            start > 0 ==> s@[start - 1] == ':',
            forall|j: int| start <= j < i ==> #[trigger] s@[j] != ':',
        decreases s.len() - i,
    {
        if s[i] == ':' {
            start = i + 1;
        }
        i += 1;
    }
    assert(colon_free(s@, start as int));
    assert forall|j: int| 0 <= j < start implies !colon_free(s@, j) by {
        assert(s@[start - 1] == ':');
    }
    let mut pointed = false;
    let mut k: usize = start;
    while k < s.len()
        invariant
            start <= k <= s.len(),
            pointed ==> exists|j: int| start <= j < k && #[trigger] s@[j] == '.',
            !pointed ==> forall|j: int| start <= j < k ==> #[trigger] s@[j] != '.',
        decreases s.len() - k,
    {
        if s[k] == '.' {
            pointed = true;
        }
        k += 1;
    }
    if !pointed {
        assert forall|j: int| 0 <= j < s.len() && #[trigger] s@[j] == '.' implies !colon_free(
            s@,
            j,
        ) by {
            assert(j < start);
        }
        return false;
    }
    proof {
        let j = choose|j: int| start <= j < s.len() && #[trigger] s@[j] == '.';
        assert(colon_free(s@, j));
        assert(0 <= j < s.len() && s@[j] == '.' && colon_free(s@, j));
    }
    if s.len() - start < 2 {
        assert forall|i: int| #[trigger] zero_led_at(s@, i) implies !colon_free(s@, i) by {}
        return false;
    }
    let mut m: usize = start;
    while m < s.len() - 1
        invariant
            start <= m <= s.len() - 1,
            colon_free(s@, start as int),
            exists|j: int| 0 <= j < s.len() && #[trigger] s@[j] == '.' && colon_free(s@, j),
            forall|i: int| start <= i < m ==> !#[trigger] zero_led_at(s@, i),
        decreases s.len() - m,
    {
        let c = s[m + 1];
        if s[m] == '0' && '0' <= c && c <= '9' && (m == 0 || s[m - 1] == '.' || s[m - 1] == ':') {
            assert(zero_led_at(s@, m as int));
            assert(colon_free(s@, m as int));
            return true;
        }
        m += 1;
    }
    assert forall|i: int| #[trigger] zero_led_at(s@, i) implies !colon_free(s@, i) by {
        if zero_led_at(s@, i) && i >= start {
            assert(false);
        }
    }
    false
}

fn elides_nothing_of(s: &Vec<char>) -> (r: bool)
    ensures
        r == elides_nothing(s@),
{
    let mut doubled = false;
    let mut count: usize = 0;
    let mut i: usize = 0;
    while i < s.len()
        invariant
            i <= s.len(),
            count == pieces(s@, i as int),
            count <= i,
            doubled ==> exists|j: int| #[trigger] double_colon_at(s@, j),
            !doubled ==> forall|j: int| j + 1 < i ==> !#[trigger] double_colon_at(s@, j),
        decreases s.len() - i,
    {
        if s[i] != ':' && (i == 0 || s[i - 1] == ':') {
            count += 1;
        }
        if s[i] == ':' && i > 0 && s[i - 1] == ':' {
            doubled = true;
            assert(double_colon_at(s@, i - 1));
        }
        i += 1;
    }
    let dotted = holds_char_of(s, '.');
    let wanted: usize = if dotted {
        7
    } else {
        8
    };
    doubled && count == wanted
}

/// Reads an IP address.
pub fn parse_ip_addr(s: &str) -> (r: Result<KubeIP, String>)
    ensures
        match r {
            Ok(a) => ip_of(s@) == Some(a),
            Err(_) => ip_of(s@) is None,
        },
{
    let chars = chars_of(s);
    if holds_char_of(&chars, '%') {
        return Err("IP address with zone is not allowed".to_owned());
    }
    if zero_led_of(&chars) || elides_nothing_of(&chars) {
        return Err("invalid IP address: invalid IP address syntax".to_owned());
    }
    let text = concat2(s, "/32");
    match parse_net(text.as_str()) {
        Some(net) => {
            if net.0 && (net.1 >> 32) == 0xffff {
                Err("IPv4-mapped IPv6 addresses are not allowed".to_owned())
            } else {
                Ok(KubeIP { v6: net.0, bits: net.1 })
            }
        },
        None => Err("invalid IP address: invalid IP address syntax".to_owned()),
    }
}

/// Reads a CIDR block.
pub fn parse_cidr_net(s: &str) -> (r: Result<KubeCIDR, String>)
    ensures
        match r {
            Ok(c) => cidr_of(s@) == Some(c),
            Err(_) => cidr_of(s@) is None,
        },
{
    match parse_net(s) {
        Some(net) => {
            if net.0 && (net.1 >> 32) == 0xffff {
                Err("IPv4-mapped IPv6 in CIDR is not allowed".to_owned())
            } else {
                Ok(KubeCIDR { addr: KubeIP { v6: net.0, bits: net.1 }, prefix_len: net.2 })
            }
        },
        None => Err("invalid CIDR: invalid IP address syntax".to_owned()),
    }
}

/// The address that `val` holds.
pub fn extract_ip(val: &CelValue) -> (r: Result<KubeIP, FunctionError>)
    ensures
        match r {
            Ok(a) => val@ == CelView::Ip(a),
            Err(e) => !(val@ is Ip) && e.says("ip"@, "expected IP type"@),
        },
{
    match val {
        CelValue::Ip(a) => Ok(*a),
        _ => Err(FunctionError::new("ip", "expected IP type")),
    }
}

/// The block that `val` holds.
pub fn extract_cidr(val: &CelValue) -> (r: Result<KubeCIDR, FunctionError>)
    ensures
        match r {
            Ok(c) => val@ == CelView::Cidr(c),
            Err(e) => !(val@ is Cidr) && e.says("cidr"@, "expected CIDR type"@),
        },
{
    match val {
        CelValue::Cidr(c) => Ok(*c),
        _ => Err(FunctionError::new("cidr", "expected CIDR type")),
    }
}

/// `ip(<string>)`: the address that the string writes.
pub fn parse_ip(s: &str) -> (r: Result<CelValue, FunctionError>)
    ensures
        match r {
            Ok(v) => ip_of(s@) matches Some(a) && v@ == CelView::Ip(a),
            Err(e) => ip_of(s@) is None && e.function@ == "ip"@,
        },
{
    match parse_ip_addr(s) {
        Ok(a) => Ok(CelValue::Ip(a)),
        Err(e) => Err(FunctionError::new("ip", e.as_str())),
    }
}

/// `isIP(<string>)`: whether the string writes an address.
pub fn is_ip(s: &str) -> (r: Result<CelValue, FunctionError>)
    ensures
        r matches Ok(v) && v@ == CelView::Bool(ip_of(s@) is Some),
{
    Ok(CelValue::Bool(parse_ip_addr(s).is_ok()))
}

/// `ip.isCanonical(<string>)`: whether the string writes an address in its canonical
/// form.
pub fn ip_is_canonical(s: &str) -> (r: Result<CelValue, FunctionError>)
    ensures
        r matches Ok(v) && v@ == CelView::Bool(
            match ip_of(s@) {
                Some(a) => address_text(a.v6, a.bits) == s@,
                None => false,
            },
        ),
{
    match parse_ip_addr(s) {
        Ok(a) => {
            let text = address_string(a.v6, a.bits);
            Ok(CelValue::Bool(same_text(text.as_str(), s)))
        },
        Err(_) => Ok(CelValue::Bool(false)),
    }
}

impl KubeIP {
    /// The first 16 bits of an IPv6 address.
    pub open spec fn first_segment(self) -> u128 {
        self.bits >> 112
    }

    /// Whether this is a loopback address: `127.0.0.0/8`, or `::1`.
    pub open spec fn loopback(self) -> bool {
        if self.v6 {
            self.bits == 1
        } else {
            (self.bits >> 24) == 127
        }
    }

    /// Whether this is the unspecified address: `0.0.0.0`, or `::`.
    pub open spec fn unspecified(self) -> bool {
        self.bits == 0
    }

    /// Whether this is a multicast address: `224.0.0.0/4`, or `ff00::/8`.
    pub open spec fn multicast(self) -> bool {
        if self.v6 {
            (self.bits >> 120) == 0xff
        } else {
            (self.bits >> 28) == 0xe
        }
    }

    /// Whether this is a link-local multicast address: `224.0.0.0/24`, or `ff02::/16` with
    /// any flags.
    pub open spec fn link_local_multicast(self) -> bool {
        if self.v6 {
            (self.first_segment() & 0xff0f) == 0xff02
        } else {
            (self.bits >> 8) == 0xe00000
        }
    }

    /// Whether this is a link-local unicast address: `169.254.0.0/16`, or `fe80::/10`.
    pub open spec fn link_local_unicast(self) -> bool {
        if self.v6 {
            (self.first_segment() & 0xffc0) == 0xfe80
        } else {
            (self.bits >> 16) == 0xa9fe
        }
    }

    /// Whether this is a global unicast address: not loopback, not unspecified, not
    /// multicast, not link-local and not the IPv4 broadcast address.
    pub open spec fn global_unicast(self) -> bool {
        !self.loopback() && !self.unspecified() && !self.multicast()
            && !self.link_local_unicast() && !(!self.v6 && self.bits == 0xffff_ffff)
    }
}

/// `<IP>.family()`: 4 or 6.
pub fn ip_family(this: &CelValue) -> (r: Result<CelValue, FunctionError>)
    ensures
        match r {
            Ok(v) => this@ matches CelView::Ip(a) && v@ == CelView::Int(
                if a.v6 {
                    6i64
                } else {
                    4i64
                },
            ),
            Err(e) => !(this@ is Ip) && e.says("ip"@, "expected IP type"@),
        },
{
    let a = extract_ip(this)?;
    Ok(
        CelValue::Int(
            if a.v6 {
                6
            } else {
                4
            },
        ),
    )
}

/// `<IP>.isLoopback()`.
pub fn ip_is_loopback(this: &CelValue) -> (r: Result<CelValue, FunctionError>)
    ensures
        match r {
            Ok(v) => this@ matches CelView::Ip(a) && v@ == CelView::Bool(a.loopback()),
            Err(e) => !(this@ is Ip) && e.says("ip"@, "expected IP type"@),
        },
{
    let a = extract_ip(this)?;
    Ok(
        CelValue::Bool(
            if a.v6 {
                a.bits == 1
            } else {
                (a.bits >> 24) == 127
            },
        ),
    )
}

/// `<IP>.isUnspecified()`.
pub fn ip_is_unspecified(this: &CelValue) -> (r: Result<CelValue, FunctionError>)
    ensures
        match r {
            Ok(v) => this@ matches CelView::Ip(a) && v@ == CelView::Bool(a.unspecified()),
            Err(e) => !(this@ is Ip) && e.says("ip"@, "expected IP type"@),
        },
{
    let a = extract_ip(this)?;
    Ok(CelValue::Bool(a.bits == 0))
}

/// `<IP>.isLinkLocalMulticast()`.
pub fn ip_is_link_local_multicast(this: &CelValue) -> (r: Result<CelValue, FunctionError>)
    ensures
        match r {
            Ok(v) => this@ matches CelView::Ip(a) && v@ == CelView::Bool(a.link_local_multicast()),
            Err(e) => !(this@ is Ip) && e.says("ip"@, "expected IP type"@),
        },
{
    let a = extract_ip(this)?;
    Ok(
        CelValue::Bool(
            if a.v6 {
                ((a.bits >> 112) & 0xff0f) == 0xff02
            } else {
                (a.bits >> 8) == 0xe00000
            },
        ),
    )
}

/// `<IP>.isLinkLocalUnicast()`.
pub fn ip_is_link_local_unicast(this: &CelValue) -> (r: Result<CelValue, FunctionError>)
    ensures
        match r {
            Ok(v) => this@ matches CelView::Ip(a) && v@ == CelView::Bool(a.link_local_unicast()),
            Err(e) => !(this@ is Ip) && e.says("ip"@, "expected IP type"@),
        },
{
    let a = extract_ip(this)?;
    Ok(CelValue::Bool(link_local_unicast_of(&a)))
}

fn link_local_unicast_of(a: &KubeIP) -> (r: bool)
    ensures
        r == a.link_local_unicast(),
{
    if a.v6 {
        ((a.bits >> 112) & 0xffc0) == 0xfe80
    } else {
        (a.bits >> 16) == 0xa9fe
    }
}

/// `<IP>.isGlobalUnicast()`.
pub fn ip_is_global_unicast(this: &CelValue) -> (r: Result<CelValue, FunctionError>)
    ensures
        match r {
            Ok(v) => this@ matches CelView::Ip(a) && v@ == CelView::Bool(a.global_unicast()),
            Err(e) => !(this@ is Ip) && e.says("ip"@, "expected IP type"@),
        },
{
    let a = extract_ip(this)?;
    let loopback = if a.v6 {
        a.bits == 1
    } else {
        (a.bits >> 24) == 127
    };
    let multicast = if a.v6 {
        (a.bits >> 120) == 0xff
    } else {
        (a.bits >> 28) == 0xe
    };
    let broadcast = !a.v6 && a.bits == 0xffff_ffff;
    Ok(
        CelValue::Bool(
            !loopback && a.bits != 0 && !multicast && !link_local_unicast_of(&a) && !broadcast,
        ),
    )
}

/// How many bits an address of a family has.
pub open spec fn width(v6: bool) -> u32 {
    if v6 {
        128
    } else {
        32
    }
}

/// The bits of `bits` that the first `prefix_len` bits of an address of the family hold:
/// the rest set to zero.
pub open spec fn network_bits(v6: bool, bits: u128, prefix_len: u8) -> u128 {
    if prefix_len as u32 >= width(v6) {
        bits
    } else if prefix_len == 0 {
        0
    } else {
        (bits >> ((width(v6) - prefix_len as u32) as u128)) << ((width(v6)
            - prefix_len as u32) as u128)
    }
}

fn network_bits_of(v6: bool, bits: u128, prefix_len: u8) -> (r: u128)
    ensures
        r == network_bits(v6, bits, prefix_len),
{
    let width: u32 = if v6 {
        128
    } else {
        32
    };
    if prefix_len as u32 >= width {
        bits
    } else if prefix_len == 0 {
        0
    } else {
        let shift: u32 = width - prefix_len as u32;
        (bits >> (shift as u128)) << (shift as u128)
    }
}

impl KubeCIDR {
    /// Whether the block holds the address `a`: they are of one family, and `a` has the
    /// bits of the block's prefix.
    pub open spec fn holds(self, a: KubeIP) -> bool {
        self.addr.v6 == a.v6 && network_bits(a.v6, a.bits, self.prefix_len) == network_bits(
            self.addr.v6,
            self.addr.bits,
            self.prefix_len,
        )
    }

    /// Whether the block holds all of the block `inner`: it holds the address of `inner`,
    /// and its prefix is no longer.
    pub open spec fn holds_block(self, inner: KubeCIDR) -> bool {
        self.holds(inner.addr) && self.prefix_len <= inner.prefix_len
    }

    /// The block with the bits of its address beyond the prefix set to zero.
    pub open spec fn masked(self) -> KubeCIDR {
        KubeCIDR {
            addr: KubeIP {
                v6: self.addr.v6,
                bits: network_bits(self.addr.v6, self.addr.bits, self.prefix_len),
            },
            prefix_len: self.prefix_len,
        }
    }

    fn holds_of(&self, a: &KubeIP) -> (r: bool)
        ensures
            r == self.holds(*a),
    {
        self.addr.v6 == a.v6 && network_bits_of(a.v6, a.bits, self.prefix_len) == network_bits_of(
            self.addr.v6,
            self.addr.bits,
            self.prefix_len,
        )
    }
}

/// `cidr(<string>)`: the block that the string writes.
pub fn parse_cidr(s: &str) -> (r: Result<CelValue, FunctionError>)
    ensures
        match r {
            Ok(v) => cidr_of(s@) matches Some(c) && v@ == CelView::Cidr(c),
            Err(e) => cidr_of(s@) is None && e.function@ == "cidr"@,
        },
{
    match parse_cidr_net(s) {
        Ok(c) => Ok(CelValue::Cidr(c)),
        Err(e) => Err(FunctionError::new("cidr", e.as_str())),
    }
}

/// `isCIDR(<string>)`: whether the string writes a block.
pub fn is_cidr(s: &str) -> (r: Result<CelValue, FunctionError>)
    ensures
        r matches Ok(v) && v@ == CelView::Bool(cidr_of(s@) is Some),
{
    Ok(CelValue::Bool(parse_cidr_net(s).is_ok()))
}

/// The address that the argument of `containsIP` stands for: the address it holds, or the
/// one that the string it holds writes.
pub open spec fn address_argument(arg: CelView) -> Option<KubeIP> {
    match arg {
        CelView::String(s) => ip_of(s),
        CelView::Ip(a) => Some(a),
        _ => None,
    }
}

/// The block that the argument of `containsCIDR` stands for: the block it holds, or the
/// one that the string it holds writes.
pub open spec fn block_argument(arg: CelView) -> Option<KubeCIDR> {
    match arg {
        CelView::String(s) => cidr_of(s),
        CelView::Cidr(c) => Some(c),
        _ => None,
    }
}

/// `<CIDR>.containsIP(<string | IP>)`: whether the block holds the address.
pub fn cidr_contains_ip(this: &CelValue, arg: &CelValue) -> (r: Result<CelValue, FunctionError>)
    ensures
        match r {
            Ok(v) => match (this@, address_argument(arg@)) {
                (CelView::Cidr(c), Some(a)) => v@ == CelView::Bool(c.holds(a)),
                _ => false,
            },
            Err(e) => !(this@ is Cidr) || address_argument(arg@) is None,
        },
{
    let cidr = extract_cidr(this)?;
    let ip = match arg {
        CelValue::String(s) => match parse_ip_addr(s.as_str()) {
            Ok(a) => a,
            Err(e) => {
                return Err(FunctionError::new("containsIP", e.as_str()));
            },
        },
        CelValue::Ip(a) => *a,
        _ => {
            if is_opaque(arg) {
                return Err(FunctionError::new("containsIP", "expected IP or string"));
            }
            return Err(FunctionError::new("containsIP", "expected IP or string argument"));
        },
    };
    Ok(CelValue::Bool(cidr.holds_of(&ip)))
}

/// `<CIDR>.containsCIDR(<string | CIDR>)`: whether the block holds all of the other.
pub fn cidr_contains_cidr(this: &CelValue, arg: &CelValue) -> (r: Result<CelValue, FunctionError>)
    ensures
        match r {
            Ok(v) => match (this@, block_argument(arg@)) {
                (CelView::Cidr(outer), Some(inner)) => v@ == CelView::Bool(outer.holds_block(inner)),
                _ => false,
            },
            Err(e) => !(this@ is Cidr) || block_argument(arg@) is None,
        },
{
    let outer = extract_cidr(this)?;
    let inner = match arg {
        CelValue::String(s) => match parse_cidr_net(s.as_str()) {
            Ok(c) => c,
            Err(e) => {
                return Err(FunctionError::new("containsCIDR", e.as_str()));
            },
        },
        CelValue::Cidr(c) => *c,
        _ => {
            if is_opaque(arg) {
                return Err(FunctionError::new("containsCIDR", "expected CIDR or string"));
            }
            return Err(FunctionError::new("containsCIDR", "expected CIDR or string argument"));
        },
    };
    Ok(CelValue::Bool(outer.holds_of(&inner.addr) && outer.prefix_len <= inner.prefix_len))
}

/// `<CIDR>.prefixLength()`.
pub fn cidr_prefix_length(this: &CelValue) -> (r: Result<CelValue, FunctionError>)
    ensures
        match r {
            Ok(v) => this@ matches CelView::Cidr(c) && v@ == CelView::Int(c.prefix_len as i64),
            Err(e) => !(this@ is Cidr) && e.says("cidr"@, "expected CIDR type"@),
        },
{
    let c = extract_cidr(this)?;
    Ok(CelValue::Int(c.prefix_len as i64))
}

/// `<CIDR>.masked()`: the block with the bits of its address beyond the prefix set to
/// zero.
pub fn cidr_masked(this: &CelValue) -> (r: Result<CelValue, FunctionError>)
    ensures
        match r {
            Ok(v) => this@ matches CelView::Cidr(c) && v@ == CelView::Cidr(c.masked()),
            Err(e) => !(this@ is Cidr) && e.says("cidr"@, "expected CIDR type"@),
        },
{
    let c = extract_cidr(this)?;
    Ok(
        CelValue::Cidr(
            KubeCIDR {
                addr: KubeIP {
                    v6: c.addr.v6,
                    bits: network_bits_of(c.addr.v6, c.addr.bits, c.prefix_len),
                },
                prefix_len: c.prefix_len,
            },
        ),
    )
}

/// The names of the functions of IP addresses and CIDR blocks.
pub open spec fn names() -> Set<Seq<char>> {
    set![
        "ip"@,
        "isIP"@,
        "ip.isCanonical"@,
        "family"@,
        "isLoopback"@,
        "isUnspecified"@,
        "isLinkLocalMulticast"@,
        "isLinkLocalUnicast"@,
        "isGlobalUnicast"@,
        "cidr"@,
        "isCIDR"@,
        "containsIP"@,
        "containsCIDR"@,
        "prefixLength"@,
        "masked"@,
    ]
}

/// Adds the functions of IP addresses and CIDR blocks.
pub fn register(ctx: &mut cel::Context<'_>)
    ensures
        crate::engine::functions_added(*old(ctx), *final(ctx), names()),
{
    add_text_function(ctx, "ip", parse_ip);
    add_text_function(ctx, "isIP", is_ip);
    add_text_function(ctx, "ip.isCanonical", ip_is_canonical);
    add_value_method(ctx, "family", ip_family);
    add_value_method(ctx, "isLoopback", ip_is_loopback);
    add_value_method(ctx, "isUnspecified", ip_is_unspecified);
    add_value_method(ctx, "isLinkLocalMulticast", ip_is_link_local_multicast);
    add_value_method(ctx, "isLinkLocalUnicast", ip_is_link_local_unicast);
    add_value_method(ctx, "isGlobalUnicast", ip_is_global_unicast);
    add_text_function(ctx, "cidr", parse_cidr);
    add_text_function(ctx, "isCIDR", is_cidr);
    add_value_value_method(ctx, "containsIP", cidr_contains_ip);
    add_value_value_method(ctx, "containsCIDR", cidr_contains_cidr);
    add_value_method(ctx, "prefixLength", cidr_prefix_length);
    add_value_method(ctx, "masked", cidr_masked);
    assert(crate::engine::is_root(*old(ctx)) ==> crate::engine::function_names(*ctx)
        =~= crate::engine::function_names(*old(ctx)).union(names()));
}

} // verus!
