//! Ports, links and the configuration artifacts of the OSI layers.

use vstd::prelude::*;

use crate::model::status::DeviceStatus;

verus! {

/// Mathematical content of a [`Port`].
pub struct PortView {
    pub serial_number: Seq<char>,
    pub name: Seq<char>,
    pub model: Seq<char>,
    pub number: i64,
    pub mac: Seq<char>,
    pub status: DeviceStatus,
    pub speed_gb: i64,
}

impl PortView {
    /// A port is up exactly when its status is `Up`.
    pub open spec fn is_up(self) -> bool {
        self.status.spec_is_up()
    }
}

/// A physical port of a device. Its serial number identifies it; the status
/// is the only part that changes after creation.
#[derive(Debug, PartialEq, Eq)]
pub struct Port {
    serial_number: String,
    name: String,
    model: String,
    number: i64,
    mac: String,
    status: DeviceStatus,
    speed_gb: i64,
}

impl View for Port {
    type V = PortView;

    closed spec fn view(&self) -> PortView {
        PortView {
            serial_number: self.serial_number@,
            name: self.name@,
            model: self.model@,
            number: self.number,
            mac: self.mac@,
            status: self.status,
            speed_gb: self.speed_gb,
        }
    }
}

impl Clone for Port {
    fn clone(&self) -> (copy: Port)
        ensures
            copy@ == self@,
    {
        Port {
            serial_number: self.serial_number.clone(),
            name: self.name.clone(),
            model: self.model.clone(),
            number: self.number,
            mac: self.mac.clone(),
            status: self.status,
            speed_gb: self.speed_gb,
        }
    }
}

impl Port {
    pub fn new(
        serial_number: String,
        name: String,
        model: String,
        number: i64,
        mac: String,
        status: DeviceStatus,
        speed_gb: i64,
    ) -> (port: Port)
        ensures
            port@ == (PortView {
                serial_number: serial_number@,
                name: name@,
                model: model@,
                number,
                mac: mac@,
                status,
                speed_gb,
            }),
    {
        Port { serial_number, name, model, number, mac, status, speed_gb }
    }

    pub open spec fn spec_is_up(&self) -> bool {
        self@.is_up()
    }

    /// A port is up exactly when its status is `Up`.
    #[verifier::when_used_as_spec(spec_is_up)]
    pub fn is_up(&self) -> (up: bool)
        ensures
            up == self.spec_is_up(),
    {
        self.status.is_up()
    }

    pub fn serial_number(&self) -> (s: &String)
        ensures
            s@ == self@.serial_number,
    {
        &self.serial_number
    }

    pub fn name(&self) -> (s: &String)
        ensures
            s@ == self@.name,
    {
        &self.name
    }

    pub fn model(&self) -> (s: &String)
        ensures
            s@ == self@.model,
    {
        &self.model
    }

    pub fn number(&self) -> (n: i64)
        ensures
            n == self@.number,
    {
        self.number
    }

    pub fn mac(&self) -> (s: &String)
        ensures
            s@ == self@.mac,
    {
        &self.mac
    }

    pub fn status(&self) -> (status: DeviceStatus)
        ensures
            status == self@.status,
    {
        self.status
    }

    pub fn speed_gb(&self) -> (n: i64)
        ensures
            n == self@.speed_gb,
    {
        self.speed_gb
    }

    /// Records a new health state; the identity of the port stays as it is.
    pub fn set_status(&mut self, status: DeviceStatus)
        ensures
            final(self)@ == (PortView { status, ..old(self)@ }),
    {
        self.status = status;
    }
}

/// The views of a sequence of ports, in order.
pub open spec fn port_views(ports: Seq<Port>) -> Seq<PortView> {
    Seq::new(ports.len(), |i: int| ports[i]@)
}

/// Copies a list of ports, port by port.
pub fn clone_ports(ports: &Vec<Port>) -> (copy: Vec<Port>)
    ensures
        port_views(copy@) == port_views(ports@),
{
    let mut copy: Vec<Port> = Vec::new();
    let mut i: usize = 0;
    while i < ports.len()
        invariant
            i <= ports.len(),
            copy.len() == i,
            forall|j: int| 0 <= j < i ==> (#[trigger] copy[j])@ == ports[j]@,
        decreases ports.len() - i,
    {
        copy.push(ports[i].clone());
        i += 1;
    }
    assert(port_views(copy@) =~= port_views(ports@));
    copy
}

/// Copies a list of links, link by link.
pub fn clone_links(links: &Vec<Link>) -> (copy: Vec<Link>)
    ensures
        link_views(copy@) == link_views(links@),
{
    let mut copy: Vec<Link> = Vec::new();
    let mut i: usize = 0;
    while i < links.len()
        invariant
            i <= links.len(),
            copy.len() == i,
            forall|j: int| 0 <= j < i ==> (#[trigger] copy[j])@ == links[j]@,
        decreases links.len() - i,
    {
        copy.push(links[i].clone());
        i += 1;
    }
    assert(link_views(copy@) =~= link_views(links@));
    copy
}

/// The views of a sequence of links, in order.
pub open spec fn link_views(links: Seq<Link>) -> Seq<LinkView> {
    Seq::new(links.len(), |i: int| links[i]@)
}

/// Mathematical content of a [`Link`].
pub struct LinkView {
    pub left: PortView,
    pub right: PortView,
}

impl LinkView {
    /// A link is up exactly when both of its endpoints are up.
    pub open spec fn is_up(self) -> bool {
        self.left.is_up() && self.right.is_up()
    }
}

/// A cable between two ports. A link has no identity beyond its endpoints.
#[derive(Debug, PartialEq, Eq)]
pub struct Link {
    left: Port,
    right: Port,
}

impl View for Link {
    type V = LinkView;

    closed spec fn view(&self) -> LinkView {
        LinkView { left: self.left@, right: self.right@ }
    }
}

impl Clone for Link {
    fn clone(&self) -> (copy: Link)
        ensures
            copy@ == self@,
    {
        Link { left: self.left.clone(), right: self.right.clone() }
    }
}

impl Link {
    pub fn new(left: Port, right: Port) -> (link: Link)
        ensures
            link@ == (LinkView { left: left@, right: right@ }),
    {
        Link { left, right }
    }

    pub open spec fn spec_is_up(&self) -> bool {
        self@.is_up()
    }

    /// A link is up exactly when both of its endpoints are up; a degraded or
    /// down endpoint takes the link down.
    #[verifier::when_used_as_spec(spec_is_up)]
    pub fn is_up(&self) -> (up: bool)
        ensures
            up == self.spec_is_up(),
    {
        self.left.is_up() && self.right.is_up()
    }

    pub fn left(&self) -> (port: &Port)
        ensures
            port@ == self@.left,
    {
        &self.left
    }

    pub fn right(&self) -> (port: &Port)
        ensures
            port@ == self@.right,
    {
        &self.right
    }
}

/// The layer at which a switch forwards.
#[derive(Debug, Clone, Copy, PartialEq, Eq, Structural)]
pub enum LinkLayer {
    Layer2,
    Layer3,
}

#[derive(Debug, Clone, Copy, PartialEq, Eq, Structural)]
pub enum Protocol {
    TCP,
    UDP,
    ICMP,
}

#[derive(Debug, Clone, PartialEq, Eq)]
pub struct IpAddress {
    pub address: String,
    pub netmask: String,
    pub gateway: String,
}

#[derive(Debug, Clone, PartialEq, Eq)]
pub struct Route {
    pub destination: IpAddress,
    pub gateway: IpAddress,
    pub metric: i64,
}

#[derive(Debug, Clone, PartialEq, Eq)]
pub struct FirewallRule {
    pub name: String,
    pub action: String,
    pub source: IpAddress,
    pub destination: IpAddress,
    pub protocol: Protocol,
    pub port: i64,
}

} // verus!
