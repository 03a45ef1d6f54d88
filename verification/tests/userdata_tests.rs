use portalino::userdata::{Ipv4Mode, PppConfig, Userdata, WifiConfig};

#[test]
fn userdata_holds_configuration() {
    let u = Userdata {
        ipv4_mode: Ipv4Mode::Ppp(PppConfig {
            username: String::from("user"),
            password: String::from("pass-one"),
        }),
        wifi: Some(WifiConfig {
            ssid: String::from("home"),
            password: String::from("pass-two"),
        }),
    };
    match u.ipv4_mode {
        Ipv4Mode::Ppp(ppp) => assert_eq!(ppp.username, "user"),
        _ => panic!("expected the PPP mode"),
    }
    assert_eq!(u.wifi.expect("wifi").ssid, "home");

    let v = Userdata { ipv4_mode: Ipv4Mode::IspNat64, wifi: None };
    assert!(matches!(v.ipv4_mode, Ipv4Mode::IspNat64));
    assert!(v.wifi.is_none());
    let w = Userdata { ipv4_mode: Ipv4Mode::Dhcp, wifi: None };
    assert!(matches!(w.ipv4_mode, Ipv4Mode::Dhcp));
}
