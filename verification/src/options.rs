//! Option-chain codec for Router Advertisement and DHCPv6 Reply messages:
//! walking the chain, filtering out the options that are regenerated, and
//! building the replacement options.

use vstd::prelude::*;

verus! {

/// Neighbor Discovery option kind of the MTU option.
pub const OPT_MTU: u8 = 5;

/// Neighbor Discovery option kind of the recursive-DNS-server option.
pub const OPT_RDNSS: u8 = 25;

/// DHCPv6 option code (low byte) of the DNS-servers option.
pub const DHCP_OPT_DNS: u8 = 23;

/// Offset of the first Router Advertisement option: the 40-byte IPv6 fixed
/// header followed by the 16-byte ICMPv6 RA fixed header.
pub const RA_OPTIONS_START: usize = 56;

/// Offset of the first DHCPv6 option: the IPv6 fixed header, the 8-byte UDP
/// header, and the 4-byte DHCPv6 header of message type and transaction id.
pub const DHCP_OPTIONS_START: usize = 52;

/// The 16-bit value of two big-endian bytes.
pub open spec fn be16_val(hi: u8, lo: u8) -> u16 {
    (hi * 0x100 + lo) as u16
}

/// Scan of the RA option chain of `s` from byte `i` to the end of the
/// packet.  Each option carries a one-byte kind and a one-byte length in
/// 8-octet units; a zero length or a chain that runs past the end of the
/// packet is a parse failure, `None`.  On success the result holds the
/// retained options — every option except the RDNSS options, which are
/// regenerated, and, when an MTU override was requested (`drop_mtu`), the
/// MTU options — and the advertised lifetime of the first RDNSS option.
pub open spec fn ra_scan(s: Seq<u8>, i: int, drop_mtu: bool) -> Option<(Seq<u8>, Option<u16>)>
    decreases s.len() - i,
{
    if i == s.len() {
        Some((Seq::empty(), None))
    } else if i < 0 || i + 2 > s.len() {
        None
    } else {
        let len = 8 * (s[i + 1] as int);
        if len == 0 || i + len > s.len() {
            None
        } else {
            match ra_scan(s, i + len, drop_mtu) {
                None => None,
                Some((kept, lt)) => {
                    if s[i] == OPT_RDNSS {
                        Some((kept, Some(be16_val(s[i + 4], s[i + 5]))))
                    } else if drop_mtu && s[i] == OPT_MTU {
                        Some((kept, lt))
                    } else {
                        Some((s.subrange(i, i + len) + kept, lt))
                    }
                },
            }
        }
    }
}

/// Scan of the DHCPv6 option chain of `s` from byte `i` to the end of the
/// packet.  Each option carries a two-byte code and a two-byte length in
/// octets; a chain that runs past the end of the packet is a parse failure,
/// `None`.  On success the result holds the retained options — every option
/// except the DNS-servers options, which are regenerated — and whether a
/// DNS-servers option was found.
pub open spec fn dhcp_scan(s: Seq<u8>, i: int) -> Option<(Seq<u8>, bool)>
    decreases s.len() - i,
{
    if i == s.len() {
        Some((Seq::empty(), false))
    } else if i < 0 || i + 4 > s.len() {
        None
    } else {
        let len = 4 + (s[i + 2] as int) * 0x100 + (s[i + 3] as int);
        if i + len > s.len() {
            None
        } else {
            match dhcp_scan(s, i + len) {
                None => None,
                Some((kept, found)) => {
                    if s[i] == 0 && s[i + 1] == DHCP_OPT_DNS {
                        Some((kept, true))
                    } else {
                        Some((s.subrange(i, i + len) + kept, found))
                    }
                },
            }
        }
    }
}

/// How a partly finished scan combines with the scan of the rest of an RA
/// chain: retained bytes concatenate, and the first recorded lifetime wins.
pub open spec fn ra_combine(
    done_kept: Seq<u8>,
    done_lt: Option<u16>,
    rest: Option<(Seq<u8>, Option<u16>)>,
) -> Option<(Seq<u8>, Option<u16>)> {
    match rest {
        None => None,
        Some((k, l)) => Some(
            (
                done_kept + k,
                if done_lt is Some {
                    done_lt
                } else {
                    l
                },
            ),
        ),
    }
}

/// How a partly finished scan combines with the scan of the rest of a
/// DHCPv6 chain.
pub open spec fn dhcp_combine(
    done_kept: Seq<u8>,
    done_found: bool,
    rest: Option<(Seq<u8>, bool)>,
) -> Option<(Seq<u8>, bool)> {
    match rest {
        None => None,
        Some((k, f)) => Some((done_kept + k, done_found || f)),
    }
}

/// Walk the RA option chain of `packet` starting at `RA_OPTIONS_START`,
/// returning the retained option bytes and the lifetime of the first RDNSS
/// option, or `None` on a malformed chain.
pub fn ra_scan_options(packet: &[u8], drop_mtu: bool) -> (r: Option<(Vec<u8>, Option<u16>)>)
    ensures
        match r {
            Some(kl) => ra_scan(packet@, RA_OPTIONS_START as int, drop_mtu) == Some(
                (kl.0@, kl.1),
            ),
            None => ra_scan(packet@, RA_OPTIONS_START as int, drop_mtu) is None,
        },
{
    let n = packet.len();
    let mut kept: Vec<u8> = Vec::new();
    let mut lifetime: Option<u16> = None;
    let mut i: usize = RA_OPTIONS_START;
    proof {
        if let Some((k, l)) = ra_scan(packet@, i as int, drop_mtu) {
            assert(Seq::<u8>::empty() + k =~= k);
        }
    }
    loop
        invariant
            RA_OPTIONS_START <= i,
            n == packet@.len(),
            ra_scan(packet@, RA_OPTIONS_START as int, drop_mtu) == ra_combine(
                kept@,
                lifetime,
                ra_scan(packet@, i as int, drop_mtu),
            ),
        ensures
            i == n,
            ra_scan(packet@, RA_OPTIONS_START as int, drop_mtu) == ra_combine(
                kept@,
                lifetime,
                ra_scan(packet@, i as int, drop_mtu),
            ),
        decreases n - i,
    {
        if i == n {
            break;
        }
        if i > n || n - i < 2 {
            return None;
        }
        let opt_type = packet[i];
        let opt_len = (packet[i + 1] as usize) * 8;
        if opt_len == 0 {
            return None;
        }
        if opt_len > n - i {
            return None;
        }
        let ghost rest = ra_scan(packet@, i + opt_len, drop_mtu);
        proof {
            assert(ra_scan(packet@, i as int, drop_mtu) == match rest {
                None => None::<(Seq<u8>, Option<u16>)>,
                Some((k, l)) => {
                    if packet@[i as int] == OPT_RDNSS {
                        Some(
                            (
                                k,
                                Some(be16_val(packet@[i + 4], packet@[i + 5])),
                            ),
                        )
                    } else if drop_mtu && packet@[i as int] == OPT_MTU {
                        Some((k, l))
                    } else {
                        Some((packet@.subrange(i as int, i + opt_len) + k, l))
                    }
                },
            });
        }
        if opt_type == OPT_RDNSS {
            if lifetime.is_none() {
                lifetime = Some((packet[i + 4] as u16) * 0x100 + (packet[i + 5] as u16));
            }
        } else if drop_mtu && opt_type == OPT_MTU {
            // dropped: regenerated from the override value
        } else {
            let ghost kept_before = kept@;
            extend_from_range(&mut kept, packet, i, i + opt_len);
            proof {
                if let Some((k, l)) = rest {
                    assert((kept_before + packet@.subrange(i as int, i + opt_len)) + k =~= kept_before
                        + (packet@.subrange(i as int, i + opt_len) + k));
                }
            }
        }
        i = i + opt_len;
    }
    proof {
        assert(ra_scan(packet@, i as int, drop_mtu) == Some((Seq::<u8>::empty(), None::<u16>)));
        assert(kept@ + Seq::<u8>::empty() =~= kept@);
    }
    Some((kept, lifetime))
}

/// Walk the DHCPv6 option chain of `packet` starting at
/// `DHCP_OPTIONS_START`, returning the retained option bytes and whether a
/// DNS-servers option was found, or `None` on a malformed chain.
pub fn dhcp_scan_options(packet: &[u8]) -> (r: Option<(Vec<u8>, bool)>)
    ensures
        match r {
            Some(kf) => dhcp_scan(packet@, DHCP_OPTIONS_START as int) == Some((kf.0@, kf.1)),
            None => dhcp_scan(packet@, DHCP_OPTIONS_START as int) is None,
        },
{
    let n = packet.len();
    let mut kept: Vec<u8> = Vec::new();
    let mut found: bool = false;
    let mut i: usize = DHCP_OPTIONS_START;
    proof {
        if let Some((k, f)) = dhcp_scan(packet@, i as int) {
            assert(Seq::<u8>::empty() + k =~= k);
        }
    }
    loop
        invariant
            DHCP_OPTIONS_START <= i,
            n == packet@.len(),
            dhcp_scan(packet@, DHCP_OPTIONS_START as int) == dhcp_combine(
                kept@,
                found,
                dhcp_scan(packet@, i as int),
            ),
        ensures
            i == n,
            dhcp_scan(packet@, DHCP_OPTIONS_START as int) == dhcp_combine(
                kept@,
                found,
                dhcp_scan(packet@, i as int),
            ),
        decreases n - i,
    {
        if i == n {
            break;
        }
        if i > n || n - i < 4 {
            return None;
        }
        let opt_len = ((packet[i + 2] as usize) * 0x100 + (packet[i + 3] as usize)) + 4;
        if opt_len > n - i {
            return None;
        }
        let ghost rest = dhcp_scan(packet@, i + opt_len);
        proof {
            assert(dhcp_scan(packet@, i as int) == match rest {
                None => None::<(Seq<u8>, bool)>,
                Some((k, f)) => {
                    if packet@[i as int] == 0 && packet@[i + 1] == DHCP_OPT_DNS {
                        Some((k, true))
                    } else {
                        Some((packet@.subrange(i as int, i + opt_len) + k, f))
                    }
                },
            });
        }
        if packet[i] == 0 && packet[i + 1] == DHCP_OPT_DNS {
            found = true;
        } else {
            let ghost kept_before = kept@;
            extend_from_range(&mut kept, packet, i, i + opt_len);
            proof {
                if let Some((k, f)) = rest {
                    assert((kept_before + packet@.subrange(i as int, i + opt_len)) + k =~= kept_before
                        + (packet@.subrange(i as int, i + opt_len) + k));
                }
            }
        }
        i = i + opt_len;
    }
    proof {
        assert(dhcp_scan(packet@, i as int) == Some((Seq::<u8>::empty(), false)));
        assert(kept@ + Seq::<u8>::empty() =~= kept@);
    }
    Some((kept, found))
}

/// The bytes of a freshly built MTU option: kind, length one 8-octet unit,
/// two reserved zero bytes, and the override value big-endian.
pub open spec fn mtu_option_bytes(m: u32) -> Seq<u8> {
    seq![
        OPT_MTU,
        1u8,
        0u8,
        0u8,
        (m / 0x1000000) as u8,
        ((m / 0x10000) % 0x100) as u8,
        ((m / 0x100) % 0x100) as u8,
        (m % 0x100) as u8,
    ]
}

/// The bytes of a freshly built RDNSS option: kind, length three 8-octet
/// units, two reserved zero bytes, the four-byte lifetime field holding the
/// preserved lifetime where it was read, and one 16-byte resolver address.
pub open spec fn rdnss_option_bytes(lifetime: u16, ip: Seq<u8>) -> Seq<u8> {
    seq![
        OPT_RDNSS,
        3u8,
        0u8,
        0u8,
        (lifetime / 0x100) as u8,
        (lifetime % 0x100) as u8,
        0u8,
        0u8,
    ] + ip
}

/// The bytes of a freshly built DHCPv6 DNS-servers option: code 23, length
/// 16 octets, one 16-byte resolver address.
pub open spec fn dns_option_bytes(ip: Seq<u8>) -> Seq<u8> {
    seq![0u8, DHCP_OPT_DNS, 0u8, 16u8] + ip
}

/// Append a freshly built MTU option carrying `m` to `opts`.
pub fn append_mtu_option(opts: &mut Vec<u8>, m: u32)
    ensures
        final(opts)@ == old(opts)@ + mtu_option_bytes(m),
{
    let ghost before = opts@;
    opts.push(OPT_MTU);
    opts.push(1u8);
    opts.push(0u8);
    opts.push(0u8);
    opts.push((m / 0x1000000) as u8);
    opts.push(((m / 0x10000) % 0x100) as u8);
    opts.push(((m / 0x100) % 0x100) as u8);
    opts.push((m % 0x100) as u8);
    proof {
        assert(opts@ =~= before + mtu_option_bytes(m));
    }
}

/// Append a freshly built RDNSS option carrying `lifetime` and the 16
/// octets of `ip` to `opts`.
pub fn append_rdnss_option(opts: &mut Vec<u8>, lifetime: u16, ip: &[u8; 16])
    ensures
        final(opts)@ == old(opts)@ + rdnss_option_bytes(lifetime, ip@),
{
    let ghost before = opts@;
    opts.push(OPT_RDNSS);
    opts.push(3u8);
    opts.push(0u8);
    opts.push(0u8);
    opts.push((lifetime / 0x100) as u8);
    opts.push((lifetime % 0x100) as u8);
    opts.push(0u8);
    opts.push(0u8);
    let mut k: usize = 0;
    while k < 16
        invariant
            0 <= k <= 16,
            opts@ =~= before + seq![
                OPT_RDNSS,
                3u8,
                0u8,
                0u8,
                (lifetime / 0x100) as u8,
                (lifetime % 0x100) as u8,
                0u8,
                0u8,
            ] + ip@.subrange(0, k as int),
        decreases 16 - k,
    {
        opts.push(ip[k]);
        proof {
            assert(ip@.subrange(0, k + 1) =~= ip@.subrange(0, k as int).push(ip@[k as int]));
        }
        k = k + 1;
    }
    proof {
        assert(ip@.subrange(0, 16) =~= ip@);
        assert(opts@ =~= before + rdnss_option_bytes(lifetime, ip@));
    }
}

/// Append a freshly built DHCPv6 DNS-servers option carrying the 16 octets
/// of `ip` to `opts`.
pub fn append_dns_option(opts: &mut Vec<u8>, ip: &[u8; 16])
    ensures
        final(opts)@ == old(opts)@ + dns_option_bytes(ip@),
{
    let ghost before = opts@;
    opts.push(0u8);
    opts.push(DHCP_OPT_DNS);
    opts.push(0u8);
    opts.push(16u8);
    let mut k: usize = 0;
    while k < 16
        invariant
            0 <= k <= 16,
            opts@ =~= before + seq![0u8, DHCP_OPT_DNS, 0u8, 16u8] + ip@.subrange(0, k as int),
        decreases 16 - k,
    {
        opts.push(ip[k]);
        proof {
            assert(ip@.subrange(0, k + 1) =~= ip@.subrange(0, k as int).push(ip@[k as int]));
        }
        k = k + 1;
    }
    proof {
        assert(ip@.subrange(0, 16) =~= ip@);
        assert(opts@ =~= before + dns_option_bytes(ip@));
    }
}

/// Append `src[from..to]` to `dst`.
pub fn extend_from_range(dst: &mut Vec<u8>, src: &[u8], from: usize, to: usize)
    requires
        from <= to <= src@.len(),
    ensures
        final(dst)@ == old(dst)@ + src@.subrange(from as int, to as int),
{
    proof {
        assert(old(dst)@ + src@.subrange(from as int, from as int) =~= old(dst)@);
    }
    let mut j: usize = from;
    while j < to
        invariant
            from <= j <= to <= src@.len(),
            dst@ == old(dst)@ + src@.subrange(from as int, j as int),
        decreases to - j,
    {
        dst.push(src[j]);
        proof {
            assert(old(dst)@ + src@.subrange(from as int, j + 1) =~= (old(dst)@ + src@.subrange(
                from as int,
                j as int,
            )).push(src@[j as int]));
        }
        j = j + 1;
    }
}

} // verus!
