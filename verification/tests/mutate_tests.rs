use portalino::addr::Ipv6Address;
use portalino::mutate::{modify, RewriteOutcome};

// An RA carrying a source link-layer address option and one RDNSS option
// with lifetime 0x2710, checksum valid.
const SAMPLE_RA: &[u8] = &[
    0x6b, 0x80, 0x00, 0x00, 0x00, 0x30, 0x3a, 0xff, 0xfe, 0x80, 0x00, 0x00, 0x00, 0x00, 0x00,
    0x00, 0x4a, 0x2e, 0x72, 0xff, 0xfe, 0x63, 0x7d, 0x10, 0xff, 0x02, 0x00, 0x00, 0x00, 0x00,
    0x00, 0x00, 0x00, 0x00, 0x00, 0x00, 0x00, 0x00, 0x00, 0x01, 0x86, 0x00, 0xca, 0xe8, 0x40,
    0xc0, 0x07, 0x08, 0x00, 0x04, 0x93, 0xe0, 0x00, 0x00, 0x27, 0x10, 0x01, 0x01, 0x48, 0x2e,
    0x72, 0x63, 0x7d, 0x10, 0x19, 0x03, 0x00, 0x00, 0x27, 0x10, 0x00, 0x00, 0xfd, 0x00, 0x00,
    0x00, 0x00, 0x00, 0x00, 0x00, 0x00, 0x00, 0x00, 0x00, 0x00, 0x00, 0x00, 0x11,
];

// The same RA without the RDNSS option: a source link-layer address option
// and an MTU option only.
const SAMPLE_RA_NO_RDNSS: &[u8] = &[
    0x6b, 0x80, 0x00, 0x00, 0x00, 0x20, 0x3a, 0xff, 0xfe, 0x80, 0x00, 0x00, 0x00, 0x00, 0x00,
    0x00, 0x4a, 0x2e, 0x72, 0xff, 0xfe, 0x63, 0x7d, 0x10, 0xff, 0x02, 0x00, 0x00, 0x00, 0x00,
    0x00, 0x00, 0x00, 0x00, 0x00, 0x00, 0x00, 0x00, 0x00, 0x01, 0x86, 0x00, 0x00, 0x00, 0x40,
    0xc0, 0x07, 0x08, 0x00, 0x04, 0x93, 0xe0, 0x00, 0x00, 0x27, 0x10, 0x01, 0x01, 0x48, 0x2e,
    0x72, 0x63, 0x7d, 0x10, 0x05, 0x01, 0x00, 0x00, 0x00, 0x00, 0x05, 0xdc,
];

// A DHCPv6 Reply carrying a client-id option, a DNS-servers option and a
// domain-list option, checksum valid.
const SAMPLE_DHCP: &[u8] = &[
    0x60, 0x00, 0x00, 0x00, 0x00, 0x2e, 0x11, 0x40, 0xfe, 0x80, 0x00, 0x00, 0x00, 0x00, 0x00,
    0x00, 0x00, 0x00, 0x00, 0x00, 0x00, 0x00, 0x00, 0x02, 0xfe, 0x80, 0x00, 0x00, 0x00, 0x00,
    0x00, 0x00, 0x00, 0x00, 0x00, 0x00, 0x00, 0x00, 0x00, 0x01, 0x02, 0x22, 0x02, 0x23, 0x00,
    0x2e, 0x98, 0xd4, 0x07, 0xaa, 0xbb, 0xcc, 0x00, 0x01, 0x00, 0x04, 0xde, 0xad, 0xbe, 0xef,
    0x00, 0x17, 0x00, 0x10, 0xfd, 0x00, 0x00, 0x00, 0x00, 0x00, 0x00, 0x00, 0x00, 0x00, 0x00,
    0x00, 0x00, 0x00, 0x00, 0x11, 0x00, 0x18, 0x00, 0x02, 0x07, 0x08,
];

fn replacement() -> Ipv6Address {
    Ipv6Address::new(1, 2, 3, 4, 5, 6, 7, 8)
}

// Fixed-vector regression: the sample RA rewritten with address
// 1:2:3:4:5:6:7:8 gives this exact byte sequence, checksum recomputed.
#[test]
fn ra_rewrite_fixed_vector() {
    let expected: &[u8] = &[
        0x6b, 0x80, 0x00, 0x00, 0x00, 0x30, 0x3a, 0xff, 0xfe, 0x80, 0x00, 0x00, 0x00, 0x00,
        0x00, 0x00, 0x4a, 0x2e, 0x72, 0xff, 0xfe, 0x63, 0x7d, 0x10, 0xff, 0x02, 0x00, 0x00,
        0x00, 0x00, 0x00, 0x00, 0x00, 0x00, 0x00, 0x00, 0x00, 0x00, 0x00, 0x01, 0x86, 0x00,
        0xc7, 0xd6, 0x40, 0xc0, 0x07, 0x08, 0x00, 0x04, 0x93, 0xe0, 0x00, 0x00, 0x27, 0x10,
        0x01, 0x01, 0x48, 0x2e, 0x72, 0x63, 0x7d, 0x10, 0x19, 0x03, 0x00, 0x00, 0x27, 0x10,
        0x00, 0x00, 0x00, 0x01, 0x00, 0x02, 0x00, 0x03, 0x00, 0x04, 0x00, 0x05, 0x00, 0x06,
        0x00, 0x07, 0x00, 0x08,
    ];
    match modify(SAMPLE_RA, &replacement(), None) {
        RewriteOutcome::Rewritten(out) => assert_eq!(out.as_slice(), expected),
        _ => panic!("expected a rewrite"),
    }
}

// An RA with no RDNSS option and no MTU override passes through unchanged.
#[test]
fn ra_no_rdnss_unchanged() {
    match modify(SAMPLE_RA_NO_RDNSS, &replacement(), None) {
        RewriteOutcome::Unchanged => {},
        _ => panic!("expected pass-through"),
    }
}

// The rewritten RA keeps the lifetime, carries the replacement address,
// sets the "other configuration" flag, and its checksum validates.
#[test]
fn ra_rewrite_properties() {
    let out = match modify(SAMPLE_RA, &replacement(), None) {
        RewriteOutcome::Rewritten(out) => out,
        _ => panic!("expected a rewrite"),
    };
    // other configuration flag
    assert_eq!(out[45] & 0x40, 0x40);
    // exactly one RDNSS option: the retained link-layer option, then the
    // fresh RDNSS option, nothing else
    assert_eq!(out.len(), 56 + 8 + 24);
    assert_eq!(&out[56..58], &[0x01, 0x01]);
    assert_eq!(&out[64..66], &[25, 3]);
    // lifetime preserved where it was read
    assert_eq!(&out[68..70], &[0x27, 0x10]);
    // replacement address
    let addr: Vec<u8> = vec![0, 1, 0, 2, 0, 3, 0, 4, 0, 5, 0, 6, 0, 7, 0, 8];
    assert_eq!(&out[72..88], addr.as_slice());
    // checksum validates: re-summing the packet as it stands folds to 0xFFFF
    let mut sum32 = 0u32;
    portalino::checksum::checksum_roll(&mut sum32, &out[4..6]);
    sum32 += out[6] as u32;
    portalino::checksum::checksum_roll(&mut sum32, &out[8..]);
    let folded = (sum32 >> 16) + (sum32 & 0xFFFF);
    assert_eq!(portalino::checksum::checksum_finish(folded), [0, 0]);
}

// An override MTU is injected into an RA that has no MTU option, after the
// retained options, and the other options keep their order.
#[test]
fn ra_mtu_injection() {
    let out = match modify(SAMPLE_RA, &replacement(), Some(1492)) {
        RewriteOutcome::Rewritten(out) => out,
        _ => panic!("expected a rewrite"),
    };
    // retained link-layer option first, then the fresh MTU option, then
    // the fresh RDNSS option
    assert_eq!(out.len(), 56 + 8 + 8 + 24);
    assert_eq!(&out[56..58], &[0x01, 0x01]);
    assert_eq!(&out[64..72], &[5, 1, 0, 0, 0x00, 0x00, 0x05, 0xd4]);
    assert_eq!(&out[72..74], &[25, 3]);
    // payload length field consistent with the new size
    assert_eq!(((out[4] as usize) << 8) | out[5] as usize, out.len() - 40);
}

// An existing MTU option is replaced, not duplicated, when an override is
// requested.
#[test]
fn ra_mtu_override_replaces() {
    let out = match modify(SAMPLE_RA_NO_RDNSS, &replacement(), Some(1492)) {
        RewriteOutcome::Rewritten(out) => out,
        _ => panic!("expected a rewrite"),
    };
    // the original MTU option (value 1500) is dropped; the fresh one
    // carries the override; no RDNSS is added since none was found
    assert_eq!(out.len(), 56 + 8 + 8);
    assert_eq!(&out[56..58], &[0x01, 0x01]);
    assert_eq!(&out[64..72], &[5, 1, 0, 0, 0x00, 0x00, 0x05, 0xd4]);
}

// The rewritten DHCPv6 Reply carries exactly one DNS-servers option of
// length 16 with the replacement address, and both length fields match the
// new size.
#[test]
fn dhcp_rewrite_fixed_vector() {
    let expected: &[u8] = &[
        0x60, 0x00, 0x00, 0x00, 0x00, 0x2e, 0x11, 0x40, 0xfe, 0x80, 0x00, 0x00, 0x00, 0x00,
        0x00, 0x00, 0x00, 0x00, 0x00, 0x00, 0x00, 0x00, 0x00, 0x02, 0xfe, 0x80, 0x00, 0x00,
        0x00, 0x00, 0x00, 0x00, 0x00, 0x00, 0x00, 0x00, 0x00, 0x00, 0x00, 0x01, 0x02, 0x22,
        0x02, 0x23, 0x00, 0x2e, 0x95, 0xc2, 0x07, 0xaa, 0xbb, 0xcc, 0x00, 0x01, 0x00, 0x04,
        0xde, 0xad, 0xbe, 0xef, 0x00, 0x18, 0x00, 0x02, 0x07, 0x08, 0x00, 0x17, 0x00, 0x10,
        0x00, 0x01, 0x00, 0x02, 0x00, 0x03, 0x00, 0x04, 0x00, 0x05, 0x00, 0x06, 0x00, 0x07,
        0x00, 0x08,
    ];
    match modify(SAMPLE_DHCP, &replacement(), None) {
        RewriteOutcome::Rewritten(out) => {
            assert_eq!(out.as_slice(), expected);
            // UDP length equals IPv6 payload length equals new total size
            assert_eq!(&out[4..6], &out[44..46]);
            assert_eq!(((out[4] as usize) << 8) | out[5] as usize, out.len() - 40);
        },
        _ => panic!("expected a rewrite"),
    }
}

// A DHCPv6 Reply without a DNS-servers option passes through unchanged.
#[test]
fn dhcp_no_dns_unchanged() {
    let mut src = SAMPLE_DHCP.to_vec();
    // turn the DNS option (code 23 at offset 60) into a vendor option
    src[61] = 0x11;
    match modify(&src, &replacement(), None) {
        RewriteOutcome::Unchanged => {},
        _ => panic!("expected pass-through"),
    }
}

// Truncating an option's declared length beyond the buffer yields
// NotApplicable on the RA path.
#[test]
fn ra_truncated_option_dropped() {
    let mut src = SAMPLE_RA.to_vec();
    // declare the RDNSS option far longer than the buffer
    src[65] = 0xff;
    match modify(&src, &replacement(), None) {
        RewriteOutcome::NotApplicable => {},
        _ => panic!("expected a refusal"),
    }
}

// A zero option length is a parse failure on the RA path.
#[test]
fn ra_zero_length_option_dropped() {
    let mut src = SAMPLE_RA.to_vec();
    src[57] = 0;
    match modify(&src, &replacement(), None) {
        RewriteOutcome::NotApplicable => {},
        _ => panic!("expected a refusal"),
    }
}

// Truncating an option's declared length beyond the buffer yields
// NotApplicable on the DHCPv6 path.
#[test]
fn dhcp_truncated_option_dropped() {
    let mut src = SAMPLE_DHCP.to_vec();
    // declare the client-id option far longer than the buffer
    src[54] = 0xff;
    match modify(&src, &replacement(), None) {
        RewriteOutcome::NotApplicable => {},
        _ => panic!("expected a refusal"),
    }
}

// A next-header value that is neither ICMPv6 nor UDP is not applicable.
#[test]
fn other_protocol_dropped() {
    let mut src = SAMPLE_RA.to_vec();
    src[6] = 6;
    match modify(&src, &replacement(), None) {
        RewriteOutcome::NotApplicable => {},
        _ => panic!("expected a refusal"),
    }
}

// An ICMPv6 message that is not a Router Advertisement is not applicable.
#[test]
fn other_icmpv6_type_dropped() {
    let mut src = SAMPLE_RA.to_vec();
    src[40] = 135;
    match modify(&src, &replacement(), None) {
        RewriteOutcome::NotApplicable => {},
        _ => panic!("expected a refusal"),
    }
}

// A DHCPv6 message that is not a Reply is not applicable.
#[test]
fn other_dhcp_type_dropped() {
    let mut src = SAMPLE_DHCP.to_vec();
    src[48] = 2;
    match modify(&src, &replacement(), None) {
        RewriteOutcome::NotApplicable => {},
        _ => panic!("expected a refusal"),
    }
}

// An RA with an empty option region still gets the override MTU injected.
#[test]
fn ra_empty_options_mtu_injected() {
    let mut src = SAMPLE_RA[..56].to_vec();
    src[4] = 0;
    src[5] = 16;  // payload is the RA fixed header alone
    let out = match modify(&src, &replacement(), Some(1500)) {
        RewriteOutcome::Rewritten(out) => out,
        _ => panic!("expected a rewrite"),
    };
    assert_eq!(out.len(), 64);
    assert_eq!(&out[56..64], &[5, 1, 0, 0, 0x00, 0x00, 0x05, 0xdc]);
    // and without an override it passes through
    match modify(&src, &replacement(), None) {
        RewriteOutcome::Unchanged => {},
        _ => panic!("expected pass-through"),
    }
}

// With two RDNSS options, both are dropped and the first one's lifetime is
// the one preserved.
#[test]
fn ra_two_rdnss_first_lifetime_wins() {
    let mut src = SAMPLE_RA.to_vec();
    // append a second RDNSS option with another lifetime
    let mut second = vec![25u8, 3, 0, 0, 0x11, 0x22, 0, 0];
    second.extend(std::iter::repeat(0u8).take(16));
    src.extend(second);
    let paylen = src.len() - 40;
    src[4] = (paylen >> 8) as u8;
    src[5] = (paylen & 0xFF) as u8;
    let out = match modify(&src, &replacement(), None) {
        RewriteOutcome::Rewritten(out) => out,
        _ => panic!("expected a rewrite"),
    };
    // link-layer option retained, exactly one fresh RDNSS option
    assert_eq!(out.len(), 56 + 8 + 24);
    assert_eq!(out[64], 25);
    // the first option's lifetime, not the second's
    assert_eq!(&out[68..70], &[0x27, 0x10]);
}

// A rewrite whose payload length would no longer fit the 16-bit length
// field is refused rather than emitted with an inconsistent header.
#[test]
fn ra_oversized_rewrite_refused() {
    let mut src = SAMPLE_RA[..56].to_vec();
    // fill the option region with pad options up to the field's limit
    let pad_options = 8190;  // 8190 * 8 = 65520 bytes of retained options
    for _ in 0..pad_options {
        src.extend([1u8, 1, 0, 0, 0, 0, 0, 0]);
    }
    match modify(&src, &replacement(), Some(1500)) {
        RewriteOutcome::NotApplicable => {},
        _ => panic!("expected a refusal"),
    }
}

// A packet cut anywhere inside an option, or inside the headers, is
// refused; a cut exactly on an option boundary leaves a valid shorter
// chain.
#[test]
fn truncated_packets_dropped() {
    for cut in 0..SAMPLE_RA.len() - 1 {
        let outcome = modify(&SAMPLE_RA[..cut], &replacement(), None);
        if cut == 56 || cut == 64 {
            // headers only, or headers plus the whole link-layer option:
            // a valid chain without an RDNSS option
            assert!(matches!(outcome, RewriteOutcome::Unchanged));
        } else {
            assert!(matches!(outcome, RewriteOutcome::NotApplicable));
        }
    }
    for cut in 0..SAMPLE_DHCP.len() - 1 {
        let outcome = modify(&SAMPLE_DHCP[..cut], &replacement(), None);
        if cut == 52 || cut == 60 {
            // a valid chain without a DNS-servers option
            assert!(matches!(outcome, RewriteOutcome::Unchanged));
        } else if cut == 80 {
            // a valid chain that still ends with the whole DNS option
            assert!(matches!(outcome, RewriteOutcome::Rewritten(_)));
        } else {
            assert!(matches!(outcome, RewriteOutcome::NotApplicable));
        }
    }
}
