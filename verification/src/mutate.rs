//! The packet mutator: dispatch on the IPv6 next-header value, rewrite the
//! option chain, keep the length fields consistent, and recompute the
//! checksum.

use vstd::prelude::*;

use crate::addr::Ipv6Address;
use crate::checksum::{icmpv6_udp_checksum, packet_checksum, MAX_PACKET_LEN};
use crate::options::{
    append_dns_option, append_mtu_option, append_rdnss_option, dhcp_scan, dhcp_scan_options,
    dns_option_bytes, extend_from_range, mtu_option_bytes, ra_scan, ra_scan_options,
    rdnss_option_bytes, DHCP_OPTIONS_START, RA_OPTIONS_START,
};

verus! {

/// IPv6 next-header value of ICMPv6.
pub const NEXT_HEADER_ICMPV6: u8 = 58;

/// IPv6 next-header value of UDP.
pub const NEXT_HEADER_UDP: u8 = 17;

/// ICMPv6 message type of a Router Advertisement.
pub const ICMPV6_TYPE_RA: u8 = 134;

/// DHCPv6 message type of a Reply.
pub const DHCP_MSG_REPLY: u8 = 7;

/// The abstract outcome of one mutation.
pub enum SpecOutcome {
    /// The packet needs no rewriting; the original bytes pass through.
    Unchanged,
    /// The packet was rewritten to these bytes.
    Rewritten(Seq<u8>),
    /// The packet is not one this mutator handles, or is malformed; the
    /// caller must drop it.
    NotApplicable,
}

/// The outcome of one mutation.
pub enum RewriteOutcome {
    /// The packet needs no rewriting; re-inject the original bytes.
    Unchanged,
    /// The packet was rewritten; re-inject these bytes instead.
    Rewritten(Vec<u8>),
    /// The packet is not one this mutator handles, or is malformed; drop it.
    NotApplicable,
}

impl View for RewriteOutcome {
    type V = SpecOutcome;

    open spec fn view(&self) -> SpecOutcome {
        match self {
            RewriteOutcome::Unchanged => SpecOutcome::Unchanged,
            RewriteOutcome::Rewritten(v) => SpecOutcome::Rewritten(v@),
            RewriteOutcome::NotApplicable => SpecOutcome::NotApplicable,
        }
    }
}

/// The rewritten Router Advertisement: the first 56 bytes of `s` with the
/// payload-length field set to the 16-byte RA fixed header plus the new
/// options, the "other configuration" flag set, and the checksum recomputed
/// over the new content, followed by the new options.
pub open spec fn ra_rewritten(s: Seq<u8>, opts: Seq<u8>) -> Seq<u8> {
    let paylen = 16 + opts.len();
    let zeroed = s.take(56).update(4, (paylen / 0x100) as u8).update(5, (paylen % 0x100) as u8)
        .update(42, 0u8).update(43, 0u8).update(45, s[45] | 0x40) + opts;
    let ck = packet_checksum(zeroed);
    zeroed.update(42, ck[0]).update(43, ck[1])
}

/// The rewritten DHCPv6 Reply: the first 52 bytes of `s` with the IPv6
/// payload-length field and the UDP length field both set to the UDP
/// header, DHCPv6 header and new options, and the UDP checksum recomputed
/// over the new content, followed by the new options.
pub open spec fn dhcp_rewritten(s: Seq<u8>, opts: Seq<u8>) -> Seq<u8> {
    let paylen = 12 + opts.len();
    let zeroed = s.take(52).update(4, (paylen / 0x100) as u8).update(5, (paylen % 0x100) as u8)
        .update(44, (paylen / 0x100) as u8).update(45, (paylen % 0x100) as u8).update(46, 0u8)
        .update(47, 0u8) + opts;
    let ck = packet_checksum(zeroed);
    zeroed.update(46, ck[0]).update(47, ck[1])
}

/// The outcome of mutating a Router Advertisement.  A packet too short for
/// the fields read, of another ICMPv6 type, or with a malformed option
/// chain is not applicable.  A packet with no RDNSS option, when no MTU
/// override was requested, passes through unchanged.  Otherwise the
/// retained options are followed by a fresh MTU option when an override
/// was requested and a fresh RDNSS option when one was found; a rewrite
/// whose payload length cannot be represented is not applicable.
pub open spec fn ra_mutate_spec(s: Seq<u8>, ip: Seq<u8>, mtu: Option<u32>) -> SpecOutcome {
    if s.len() < 46 || s[40] != ICMPV6_TYPE_RA {
        SpecOutcome::NotApplicable
    } else {
        match ra_scan(s, RA_OPTIONS_START as int, mtu is Some) {
            None => SpecOutcome::NotApplicable,
            Some((kept, lt)) => {
                if mtu is None && lt is None {
                    SpecOutcome::Unchanged
                } else {
                    let opts = kept + (match mtu {
                        Some(m) => mtu_option_bytes(m),
                        None => Seq::empty(),
                    }) + (match lt {
                        Some(l) => rdnss_option_bytes(l, ip),
                        None => Seq::empty(),
                    });
                    if 16 + opts.len() > 0xFFFF {
                        SpecOutcome::NotApplicable
                    } else {
                        SpecOutcome::Rewritten(ra_rewritten(s, opts))
                    }
                }
            },
        }
    }
}

/// The outcome of mutating a DHCPv6 packet.  A packet too short for the
/// fields read, whose message type is not Reply, or with a malformed
/// option chain is not applicable.  A Reply with no DNS-servers option
/// passes through unchanged.  Otherwise the retained options are followed
/// by a fresh DNS-servers option carrying `ip`; a rewrite whose length
/// cannot be represented is not applicable.
pub open spec fn dhcp_mutate_spec(s: Seq<u8>, ip: Seq<u8>) -> SpecOutcome {
    if s.len() < 49 || s[48] != DHCP_MSG_REPLY {
        SpecOutcome::NotApplicable
    } else {
        match dhcp_scan(s, DHCP_OPTIONS_START as int) {
            None => SpecOutcome::NotApplicable,
            Some((kept, found)) => {
                if !found {
                    SpecOutcome::Unchanged
                } else {
                    let opts = kept + dns_option_bytes(ip);
                    if 12 + opts.len() > 0xFFFF {
                        SpecOutcome::NotApplicable
                    } else {
                        SpecOutcome::Rewritten(dhcp_rewritten(s, opts))
                    }
                }
            },
        }
    }
}

/// The outcome of mutating any intercepted packet: dispatch on the IPv6
/// next-header value, 58 to the Router Advertisement path and 17 to the
/// DHCPv6 path; everything else is not applicable.
pub open spec fn mutate_spec(s: Seq<u8>, ip: Seq<u8>, mtu: Option<u32>) -> SpecOutcome {
    if s.len() < 7 {
        SpecOutcome::NotApplicable
    } else if s[6] == NEXT_HEADER_ICMPV6 {
        ra_mutate_spec(s, ip, mtu)
    } else if s[6] == NEXT_HEADER_UDP {
        dhcp_mutate_spec(s, ip)
    } else {
        SpecOutcome::NotApplicable
    }
}

/// Rewrite one intercepted IPv6 packet so that the DNS information it
/// advertises points at `ip`, injecting or replacing the MTU option when
/// `mtu` is set.
pub fn modify(source: &[u8], ip: &Ipv6Address, mtu: Option<u32>) -> (r: RewriteOutcome)
    ensures
        r@ == mutate_spec(source@, ip@, mtu),
{
    if source.len() < 7 {
        return RewriteOutcome::NotApplicable;
    }
    let next_header = source[6];
    if next_header == NEXT_HEADER_ICMPV6 {
        modify_ra(source, ip, mtu)
    } else if next_header == NEXT_HEADER_UDP {
        modify_dhcp(source, ip)
    } else {
        RewriteOutcome::NotApplicable
    }
}

/// The Router Advertisement path of `modify`.
fn modify_ra(source: &[u8], ip: &Ipv6Address, mtu: Option<u32>) -> (r: RewriteOutcome)
    ensures
        r@ == ra_mutate_spec(source@, ip@, mtu),
{
    if source.len() < 46 {
        return RewriteOutcome::NotApplicable;
    }
    if source[40] != ICMPV6_TYPE_RA {
        return RewriteOutcome::NotApplicable;
    }
    let scanned = ra_scan_options(source, mtu.is_some());
    let (kept, lt) = match scanned {
        None => {
            return RewriteOutcome::NotApplicable;
        },
        Some(kl) => kl,
    };
    if mtu.is_none() && lt.is_none() {
        return RewriteOutcome::Unchanged;
    }
    let mut opts = kept;
    if let Some(m) = mtu {
        append_mtu_option(&mut opts, m);
    }
    if let Some(l) = lt {
        append_rdnss_option(&mut opts, l, &ip.octets);
    }
    let ghost opts_spec = opts@;
    if opts.len() > 0xFFFF - 16 {
        return RewriteOutcome::NotApplicable;
    }
    // the scan succeeded, so the packet reaches the option region
    proof {
        assert(source@.len() >= RA_OPTIONS_START);
    }
    let paylen: usize = 16 + opts.len();
    let mut out: Vec<u8> = Vec::new();
    extend_from_range(&mut out, source, 0, RA_OPTIONS_START);
    out[4] = (paylen / 0x100) as u8;
    out[5] = (paylen % 0x100) as u8;
    out[42] = 0u8;
    out[43] = 0u8;
    let flags = out[45];
    out[45] = flags | 0x40;
    let mut whole = out;
    let mut tail = opts;
    whole.append(&mut tail);
    proof {
        assert(whole@ =~= source@.take(56).update(4, (paylen / 0x100) as u8).update(
            5,
            (paylen % 0x100) as u8,
        ).update(42, 0u8).update(43, 0u8).update(45, source@[45] | 0x40) + opts_spec);
    }
    let ck = icmpv6_udp_checksum(whole.as_slice());
    let ck = match ck {
        Some(c) => c,
        None => {
            // unreachable: the packet holds at least its headers
            proof {
                assert(false);
            }
            return RewriteOutcome::NotApplicable;
        },
    };
    whole[42] = ck[0];
    whole[43] = ck[1];
    proof {
        assert(whole@ =~= ra_rewritten(source@, opts_spec));
    }
    RewriteOutcome::Rewritten(whole)
}

/// The DHCPv6 path of `modify`.
fn modify_dhcp(source: &[u8], ip: &Ipv6Address) -> (r: RewriteOutcome)
    ensures
        r@ == dhcp_mutate_spec(source@, ip@),
{
    if source.len() < 49 {
        return RewriteOutcome::NotApplicable;
    }
    if source[48] != DHCP_MSG_REPLY {
        return RewriteOutcome::NotApplicable;
    }
    let scanned = dhcp_scan_options(source);
    let (kept, found) = match scanned {
        None => {
            return RewriteOutcome::NotApplicable;
        },
        Some(kf) => kf,
    };
    if !found {
        return RewriteOutcome::Unchanged;
    }
    let mut opts = kept;
    append_dns_option(&mut opts, &ip.octets);
    let ghost opts_spec = opts@;
    if opts.len() > 0xFFFF - 12 {
        return RewriteOutcome::NotApplicable;
    }
    proof {
        assert(source@.len() >= DHCP_OPTIONS_START);
    }
    let paylen: usize = 12 + opts.len();
    let mut out: Vec<u8> = Vec::new();
    extend_from_range(&mut out, source, 0, DHCP_OPTIONS_START);
    out[4] = (paylen / 0x100) as u8;
    out[5] = (paylen % 0x100) as u8;
    out[44] = (paylen / 0x100) as u8;
    out[45] = (paylen % 0x100) as u8;
    out[46] = 0u8;
    out[47] = 0u8;
    let mut whole = out;
    let mut tail = opts;
    whole.append(&mut tail);
    proof {
        assert(whole@ =~= source@.take(52).update(4, (paylen / 0x100) as u8).update(
            5,
            (paylen % 0x100) as u8,
        ).update(44, (paylen / 0x100) as u8).update(45, (paylen % 0x100) as u8).update(46, 0u8)
            .update(47, 0u8) + opts_spec);
    }
    let ck = icmpv6_udp_checksum(whole.as_slice());
    let ck = match ck {
        Some(c) => c,
        None => {
            // unreachable: the packet holds at least its headers
            proof {
                assert(false);
            }
            return RewriteOutcome::NotApplicable;
        },
    };
    whole[46] = ck[0];
    whole[47] = ck[1];
    proof {
        assert(whole@ =~= dhcp_rewritten(source@, opts_spec));
    }
    RewriteOutcome::Rewritten(whole)
}

} // verus!
