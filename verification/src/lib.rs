//! In-path rewriter for IPv6 Router Advertisement and DHCPv6 Reply packets.
//!
//! The crate parses the option chains of intercepted packets, replaces the
//! advertised recursive-DNS-server address (and optionally the MTU) with a
//! locally determined value, recomputes the Internet checksum over the IPv6
//! pseudo-header, and decides packet by packet whether to rewrite or drop,
//! driven by a watcher that tracks the current global address of a named
//! interface.

pub mod addr;
pub mod checksum;
pub mod devices;
pub mod laws;
pub mod mutate;
pub mod options;
pub mod userdata;
pub mod verdict;

pub use checksum::{checksum_finish, checksum_roll, icmpv6_checksum, icmpv6_udp_checksum};
pub use devices::candidates;
pub use mutate::{modify, RewriteOutcome};
