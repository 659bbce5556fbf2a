//! The VPN guard: the state of a tunnel and when its loss stops the engine.
use vstd::prelude::*;
use crate::Error;
use crate::text::str_to_string;

verus! {

/// The state of a VPN connection.
#[derive(Debug, Clone, PartialEq, Eq)]
pub enum VpnStatus {
    Connected,
    Disconnected,
    Connecting,
    Error(String),
}

/// A VPN the engine watches: its name and the interface it runs on. Bringing
/// it up and down and asking its state are done by the program around the
/// library, which owns the network.
pub trait VpnProvider {
    /// The name of the provider.
    fn name(&self) -> (r: String);

    /// The network interface of the tunnel, if known.
    fn interface(&self) -> (r: Option<String>);
}

/// A provider that only watches whether a network interface is up.
#[derive(Debug)]
pub struct InterfaceMonitor {
    interface_name: String,
}

impl InterfaceMonitor {
    /// Watches the interface `interface_name`.
    pub fn new(interface_name: String) -> (m: Self)
        ensures
            m.watched() == interface_name@,
    {
        InterfaceMonitor { interface_name }
    }

    /// The name of the interface watched.
    pub closed spec fn watched(&self) -> Seq<char> {
        self.interface_name@
    }

    /// The state of the tunnel given the names of the interfaces that are up:
    /// connected when the watched one is among them.
    pub fn status_among(&self, up: &Vec<String>) -> (r: VpnStatus)
        ensures
            r == if exists|k: int| 0 <= k < up@.len() && up@[k]@ == self.watched() {
                VpnStatus::Connected
            } else {
                VpnStatus::Disconnected
            },
    {
        let mut i: usize = 0;
        while i < up.len()
            invariant
                i <= up@.len(),
                forall|k: int| 0 <= k < i ==> up@[k]@ != self.watched(),
            decreases up@.len() - i,
        {
            if up[i] == self.interface_name {
                return VpnStatus::Connected;
            }
            i = i + 1;
        }
        VpnStatus::Disconnected
    }
}

impl VpnProvider for InterfaceMonitor {
    fn name(&self) -> (r: String)
        ensures
            r@ == "interface-monitor"@,
    {
        str_to_string("interface-monitor")
    }

    fn interface(&self) -> (r: Option<String>)
        ensures
            r matches Some(s) && s@ == self.watched(),
    {
        Some(self.interface_name.clone())
    }
}

/// Whether a status report calls for the kill switch: the tunnel is down or
/// in error. A failure to learn the state does not.
pub fn kill_switch_triggered(status: &Result<VpnStatus, Error>) -> (r: bool)
    ensures
        r == (status matches Ok(VpnStatus::Disconnected) || status matches Ok(VpnStatus::Error(_))),
{
    match status {
        Ok(VpnStatus::Disconnected) => true,
        Ok(VpnStatus::Error(_)) => true,
        _ => false,
    }
}

} // verus!
