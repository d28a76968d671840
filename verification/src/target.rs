//! What to scan: reading the target of a sweep from the text a user gave.

use vstd::prelude::*;
use vstd::string::*;
use crate::address::{address_of, dotted, format_address, parse_address};

verus! {

/// The target of a sweep.
#[derive(Clone, Copy, Debug, PartialEq, Eq, Structural)]
pub enum ScanTarget {
    /// One address.
    Single(u32),
    /// Every address from `start` to `end`, both included.
    Range { start: u32, end: u32 },
}

/// Why a target could not be read.
#[derive(Debug, PartialEq, Eq)]
pub enum InputError {
    /// The token is neither an address nor a network prefix.
    InvalidAddress(String),
    /// The first address of a range is not below the second.
    InvalidRange { start: u32, end: u32 },
}

/// What an `InputError` says, with its token as a sequence of characters.
pub enum InputFault {
    Address(Seq<char>),
    Range { start: u32, end: u32 },
}

impl View for InputError {
    type V = InputFault;

    open spec fn view(&self) -> InputFault {
        match *self {
            InputError::InvalidAddress(token) => InputFault::Address(token@),
            InputError::InvalidRange { start, end } => InputFault::Range { start, end },
        }
    }
}

/// The diagnostic for a token that cannot be read: it names the token.
pub open spec fn invalid_address_text(token: Seq<char>) -> Seq<char> {
    "Failed to parse '"@ + token + "' as either Ipv4Addr or Ipv4Net"@
}

/// The diagnostic for a range whose first address is not below the second: it
/// names both addresses.
pub open spec fn invalid_range_text(start: u32, end: u32) -> Seq<char> {
    "Invalid IP Range: "@ + dotted(start) + " to "@ + dotted(end)
        + ". Make sure ip_from is logically smaller than ip_to"@
}

/// The line that announces a target: it names the address, or both ends of
/// the range.
pub open spec fn target_text(target: ScanTarget) -> Seq<char> {
    match target {
        ScanTarget::Single(address) => "Scanning single IP "@ + dotted(address),
        ScanTarget::Range { start, end } => "Scanning IP Range "@ + dotted(start) + " to "@
            + dotted(end),
    }
}

impl ScanTarget {
    /// The line that announces the target to the user.
    pub fn describe(&self) -> (text: String)
        ensures
            text@ == target_text(*self),
    {
        match self {
            ScanTarget::Single(address) => {
                let mut text = "Scanning single IP ".to_owned();
                text.append(format_address(*address).as_str());
                text
            },
            ScanTarget::Range { start, end } => {
                let mut text = "Scanning IP Range ".to_owned();
                text.append(format_address(*start).as_str());
                text.append(" to ");
                text.append(format_address(*end).as_str());
                text
            },
        }
    }
}

impl InputError {
    /// The diagnostic to show to the user.
    pub fn message(&self) -> (text: String)
        ensures
            text@ == match self@ {
                InputFault::Address(token) => invalid_address_text(token),
                InputFault::Range { start, end } => invalid_range_text(start, end),
            },
    {
        match self {
            InputError::InvalidAddress(token) => {
                let mut text = "Failed to parse '".to_owned();
                text.append(token.as_str());
                text.append("' as either Ipv4Addr or Ipv4Net");
                text
            },
            InputError::InvalidRange { start, end } => {
                let mut text = "Invalid IP Range: ".to_owned();
                text.append(format_address(*start).as_str());
                text.append(" to ");
                text.append(format_address(*end).as_str());
                text.append(". Make sure ip_from is logically smaller than ip_to");
                text
            },
        }
    }
}

/// The network that a text in prefix notation denotes, as the address written
/// in it and the prefix length, or `None` where the text is not in that
/// notation. It names what `ipnet`'s `FromStr` for `Ipv4Net` makes of the
/// text; the notation is that crate's and is not restated here.
pub uninterp spec fn cidr_parse(s: Seq<char>) -> Option<(u32, u8)>;

/// The mask that keeps the first `prefix_len` bits of an address.
pub open spec fn netmask(prefix_len: u8) -> u32 {
    if prefix_len == 0 {
        0u32
    } else {
        0xffff_ffffu32 << ((32 - prefix_len) as u32)
    }
}

/// The mask that keeps the bits behind the first `prefix_len`.
pub open spec fn hostmask(prefix_len: u8) -> u32 {
    if prefix_len >= 32 {
        0u32
    } else {
        0xffff_ffffu32 >> (prefix_len as u32)
    }
}

/// The first address of the network that holds `addr`.
pub open spec fn network(addr: u32, prefix_len: u8) -> u32 {
    addr & netmask(prefix_len)
}

/// The last address of the network that holds `addr`.
pub open spec fn broadcast(addr: u32, prefix_len: u8) -> u32 {
    addr | hostmask(prefix_len)
}

/// The first usable host address of a network: the one after the network
/// address, or the network address itself where the prefix leaves fewer than
/// four addresses.
pub open spec fn first_host(addr: u32, prefix_len: u8) -> u32 {
    if prefix_len < 31 {
        (network(addr, prefix_len) + 1) as u32
    } else {
        network(addr, prefix_len)
    }
}

/// The last usable host address of a network: the one before the broadcast
/// address, or the broadcast address itself where the prefix leaves fewer
/// than four addresses.
pub open spec fn last_host(addr: u32, prefix_len: u8) -> u32 {
    if prefix_len < 31 {
        (broadcast(addr, prefix_len) - 1) as u32
    } else {
        broadcast(addr, prefix_len)
    }
}

/// Calls `ipnet`'s `FromStr` for `Ipv4Net` and hands back the address and the
/// prefix length of what it read. The contract gives the result its name and
/// claims, unproved, that a prefix length that was read is at most 32:
/// `Ipv4Net` cannot be made with a longer one.
#[verifier::external_body]
fn parse_ipv4_net(s: &str) -> (r: Option<(u32, u8)>)
    ensures
        r == cidr_parse(s@),
        r matches Some(net) ==> net.1 <= 32,
{
    match s.parse::<ipnet::Ipv4Net>() {
        Ok(net) => Some((u32::from(net.addr()), net.prefix_len())),
        Err(_) => None,
    }
}

/// Calls `ipnet::Ipv4Net::hosts` on the network of `addr` and `prefix_len`,
/// and hands back the first and the last address of the range it returns.
/// The contract claims, unproved, what the crate documents: the range runs
/// from the network address to the broadcast address, without these two
/// where the prefix length is below 31.
#[verifier::external_body]
fn ipv4_net_hosts(addr: u32, prefix_len: u8) -> (r: (u32, u32))
    requires
        prefix_len <= 32,
    ensures
        r.0 == first_host(addr, prefix_len),
        r.1 == last_host(addr, prefix_len),
{
    let mut hosts = ipnet::Ipv4Net::new_assert(addr.into(), prefix_len).hosts();
    let last = hosts.last().unwrap();
    (hosts.next().unwrap().into(), last.into())
}

/// The usable hosts of a network are at least one, in ascending order.
pub proof fn lemma_hosts_ordered(addr: u32, prefix_len: u8)
    requires
        prefix_len <= 32,
    ensures
        first_host(addr, prefix_len) <= last_host(addr, prefix_len),
        prefix_len < 31 ==> network(addr, prefix_len) + 1 == first_host(addr, prefix_len),
        prefix_len < 31 ==> broadcast(addr, prefix_len) - 1 == last_host(addr, prefix_len),
{
    let p = prefix_len as u32;
    if prefix_len == 0 {
        assert((addr & 0u32) == 0u32) by (bit_vector);
        assert((addr | (0xffff_ffffu32 >> 0u32)) == 0xffff_ffffu32) by (bit_vector);
    } else if prefix_len < 31 {
        assert((addr & (0xffff_ffffu32 << ((32 - p) as u32))) <= 0xffff_fffcu32) by (bit_vector)
            requires
                1 <= p < 31,
        ;
        assert((addr & (0xffff_ffffu32 << ((32 - p) as u32))) + 3 <= (addr | (0xffff_ffffu32
            >> p))) by (bit_vector)
            requires
                1 <= p < 31,
        ;
    } else if prefix_len == 31 {
        assert((addr & (0xffff_ffffu32 << 1u32)) <= (addr | (0xffff_ffffu32 >> 31u32)))
            by (bit_vector);
    } else {
        assert((addr & (0xffff_ffffu32 << 0u32)) <= (addr | 0u32)) by (bit_vector);
    }
}

/// The text of an optional token.
pub open spec fn token_text(token: Option<String>) -> Option<Seq<char>> {
    match token {
        Some(t) => Some(t@),
        None => None,
    }
}

/// The target that the two tokens of the input denote, given the network that
/// the first one denotes in prefix notation, if any.
///
/// A network gives the range of its usable hosts, and the second token is not
/// looked at. Else the first token must be an address: alone it is the target;
/// with a second address above it, the two are the ends of a range. A second
/// address that is not above the first is an invalid range. A token that
/// cannot be read is an invalid address, and the fault names that token.
pub open spec fn target_of(net: Option<(u32, u8)>, ip_from: Seq<char>, ip_to: Option<Seq<char>>)
    -> Result<ScanTarget, InputFault> {
    match net {
        Some((addr, prefix_len)) => if prefix_len <= 32 {
            Ok(
                ScanTarget::Range {
                    start: first_host(addr, prefix_len),
                    end: last_host(addr, prefix_len),
                },
            )
        } else {
            Err(InputFault::Address(ip_from))
        },
        None => match address_of(ip_from) {
            Some(start) => match ip_to {
                None => Ok(ScanTarget::Single(start)),
                Some(to) => match address_of(to) {
                    Some(end) => if start < end {
                        Ok(ScanTarget::Range { start, end })
                    } else {
                        Err(InputFault::Range { start, end })
                    },
                    None => Err(InputFault::Address(to)),
                },
            },
            None => Err(InputFault::Address(ip_from)),
        },
    }
}

/// What a result says, with the token of a fault as a sequence of characters.
pub open spec fn outcome(r: Result<ScanTarget, InputError>) -> Result<ScanTarget, InputFault> {
    match r {
        Ok(target) => Ok(target),
        Err(e) => Err(e@),
    }
}

/// Whether a target is well formed: a range does not end before it starts.
pub open spec fn target_wf(target: ScanTarget) -> bool {
    match target {
        ScanTarget::Single(_) => true,
        ScanTarget::Range { start, end } => start <= end,
    }
}

/// Decides the target from the two tokens of the input and from what the
/// first token denotes in prefix notation.
pub fn resolve_target(net: Option<(u32, u8)>, ip_from: &str, ip_to: Option<String>) -> (r: Result<
    ScanTarget,
    InputError,
>)
    ensures
        outcome(r) == target_of(net, ip_from@, token_text(ip_to)),
        r matches Ok(target) ==> target_wf(target),
{
    match net {
        Some((addr, prefix_len)) => {
            if prefix_len <= 32 {
                let (start, end) = ipv4_net_hosts(addr, prefix_len);
                proof {
                    lemma_hosts_ordered(addr, prefix_len);
                }
                Ok(ScanTarget::Range { start, end })
            } else {
                Err(InputError::InvalidAddress(ip_from.to_owned()))
            }
        },
        None => match parse_address(ip_from) {
            Some(start) => match ip_to {
                None => Ok(ScanTarget::Single(start)),
                Some(to) => match parse_address(to.as_str()) {
                    Some(end) => if start < end {
                        Ok(ScanTarget::Range { start, end })
                    } else {
                        Err(InputError::InvalidRange { start, end })
                    },
                    None => Err(InputError::InvalidAddress(to)),
                },
            },
            None => Err(InputError::InvalidAddress(ip_from.to_owned())),
        },
    }
}

/// Reads the target of a sweep from the one or two tokens of the input.
///
/// A first token in prefix notation gives the range of that network's usable
/// hosts. Else the first token is an address, scanned alone where there is no
/// second token, or the start of a range that ends at the second.
pub fn parse_ip_input(ip_from: &str, ip_to: Option<String>) -> (r: Result<ScanTarget, InputError>)
    ensures
        outcome(r) == target_of(cidr_parse(ip_from@), ip_from@, token_text(ip_to)),
        r matches Ok(target) ==> target_wf(target),
{
    let net = parse_ipv4_net(ip_from);
    resolve_target(net, ip_from, ip_to)
}

} // verus!
