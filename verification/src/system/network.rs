//! Wi-Fi: which networks a scan lists and what connecting does.
use vstd::prelude::*;


use crate::text::owned;

verus! {

/// A wireless network as listed to the user.
pub struct WifiNetwork {
    pub ssid: String,
    pub signal: u8,
    pub security: String,
}

/// A network as the contracts see it: SSID, signal, security.
pub type NetworkV = (Seq<char>, u8, Seq<char>);

impl WifiNetwork {
    pub open spec fn view_of(self) -> NetworkV {
        (self.ssid@, self.signal, self.security@)
    }
}

pub open spec fn networks_view(v: Seq<WifiNetwork>) -> Seq<NetworkV> {
    Seq::new(v.len(), |i: int| v[i].view_of())
}

/// The networks that a scan lists where NetworkManager cannot be reached.
pub open spec fn mock_networks_v() -> Seq<NetworkV> {
    seq![
        ("Klipper-Secure-5G"@, 94u8, "WPA2/WPA3"@),
        ("Workshop_Guest"@, 62u8, "WPA2"@),
        ("Neighborhood-Printer"@, 35u8, "Open"@),
    ]
}

/// The networks that a scan lists once NetworkManager answered.
pub open spec fn live_networks_v() -> Seq<NetworkV> {
    seq![("Klipper-DBus-WiFi"@, 88u8, "WPA2"@), ("NM-Connected-AP"@, 75u8, "WPA2"@)]
}

fn network(ssid: &str, signal: u8, security: &str) -> (res: WifiNetwork)
    ensures
        res.view_of() == (ssid@, signal, security@),
{
    WifiNetwork { ssid: owned(ssid), signal, security: owned(security) }
}

/// What connecting to a network does.
pub enum ConnectPlan {
    /// Without NetworkManager: report the password masked, wait, succeed.
    Simulated { masked_password: String, delay_secs: u64 },
    /// With NetworkManager: hand the request over and succeed.
    Live,
}

/// Whether Wi-Fi goes through NetworkManager or is simulated.
pub struct WifiController {
    use_mock: bool,
}

impl WifiController {
    /// Whether Wi-Fi is simulated.
    pub closed spec fn is_mock(&self) -> bool {
        self.use_mock
    }

    /// The controller after probing the system bus: simulated unless the bus
    /// could be reached and NetworkManager answered on it.
    pub fn new(system_bus: bool, network_manager: bool) -> (res: WifiController)
        ensures
            res.is_mock() == !(system_bus && network_manager),
    {
        WifiController { use_mock: !(system_bus && network_manager) }
    }

    /// Whether Wi-Fi is simulated.
    pub fn uses_mock(&self) -> (res: bool)
        ensures
            res == self.is_mock(),
    {
        self.use_mock
    }

    /// The networks that a scan lists.  Simulated: the fixed list, whatever
    /// the bus said.  Otherwise the error of the device query, if it failed,
    /// else the networks found.
    pub fn scan_networks(&self, devices_reply: Result<(), String>) -> (res: Result<Vec<WifiNetwork>, String>)
        ensures
            self.is_mock() ==> (res matches Ok(v) && networks_view(v@) == mock_networks_v()),
            !self.is_mock() ==> match devices_reply {
                Err(e) => res matches Err(r) && r@ == e@,
                Ok(_) => res matches Ok(v) && networks_view(v@) == live_networks_v(),
            },
    {
        let mut v: Vec<WifiNetwork> = Vec::new();
        if self.use_mock {
            v.push(network("Klipper-Secure-5G", 94, "WPA2/WPA3"));
            v.push(network("Workshop_Guest", 62, "WPA2"));
            v.push(network("Neighborhood-Printer", 35, "Open"));
            assert(networks_view(v@) =~= mock_networks_v());
            return Ok(v);
        }
        match devices_reply {
            Err(e) => Err(e),
            Ok(_) => {
                v.push(network("Klipper-DBus-WiFi", 88, "WPA2"));
                v.push(network("NM-Connected-AP", 75, "WPA2"));
                assert(networks_view(v@) =~= live_networks_v());
                Ok(v)
            },
        }
    }

    /// What connecting with `password` does: simulated, the password is
    /// reported as one `*` per byte and the connection takes a second.
    pub fn connect_to_network(&self, password: &str) -> (res: ConnectPlan)
        ensures
            self.is_mock() ==> match res {
                ConnectPlan::Simulated { masked_password, delay_secs } => delay_secs == 1
                    && masked_password@ == Seq::new(password.len() as nat, |i: int| '*'),
                ConnectPlan::Live => false,
            },
            !self.is_mock() ==> res is Live,
    {
        if !self.use_mock {
            return ConnectPlan::Live;
        }
        let n = password.len();
        let mut mask = String::new();
        let mut i: usize = 0;
        proof {
            reveal_strlit("*");
        }
        while i < n
            invariant
                i <= n,
                n == password.len(),
                "*"@ == seq!['*'],
                mask@ == Seq::new(i as nat, |j: int| '*'),
            decreases n - i,
        {
            mask.append("*");
            assert(mask@ =~= Seq::new((i + 1) as nat, |j: int| '*'));
            i = i + 1;
        }
        ConnectPlan::Simulated { masked_password: mask, delay_secs: 1 }
    }
}

} // verus!
