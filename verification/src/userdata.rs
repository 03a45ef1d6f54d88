//! The persisted user configuration: how IPv4 connectivity is provided and
//! an optional wireless network, as read from the userdata volume.

use vstd::prelude::*;

verus! {

/// Credentials for a PPP uplink.
pub struct PppConfig {
    pub username: String,
    pub password: String,
}

/// How IPv4 connectivity is provided: the ISP's NAT64, a local DHCP lease
/// with NAT64 on this gateway, or a PPP uplink.
pub enum Ipv4Mode {
    IspNat64,
    Dhcp,
    Ppp(PppConfig),
}

/// A wireless network to run.
pub struct WifiConfig {
    pub ssid: String,
    pub password: String,
}

/// The whole persisted user configuration.
pub struct Userdata {
    pub ipv4_mode: Ipv4Mode,
    pub wifi: Option<WifiConfig>,
}

} // verus!
