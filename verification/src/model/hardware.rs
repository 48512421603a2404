//! Compute and storage hardware of the datacenter.
//!
//! A catalog of equipment and its properties. It changes rarely, since a
//! change means that somebody moved hardware by hand.

use vstd::prelude::*;

use crate::model::status::DeviceStatus;

verus! {

/// A datacenter: rows of cabinets.
#[derive(Debug, Clone, PartialEq, Eq)]
pub struct DataCenter {
    pub name: String,
    pub number: i64,
    pub rows: Vec<Row>,
}

/// A row of cabinets.
#[derive(Debug, Clone, PartialEq, Eq)]
pub struct Row {
    pub name: String,
    pub number: i64,
    pub cabinets: Vec<Cabinet>,
}

/// A cabinet with the servers and chassis mounted in it.
#[derive(Debug, Clone, PartialEq, Eq)]
pub struct Cabinet {
    pub serial_number: String,
    pub name: String,
    pub model: String,
    pub number: i64,
    pub servers: Vec<Server>,
    pub chassis: Vec<Chassis>,
}

/// A chassis that holds servers.
#[derive(Debug, Clone, PartialEq, Eq)]
pub struct Chassis {
    pub serial_number: String,
    pub name: String,
    pub model: String,
    pub number: i64,
    pub servers: Vec<Server>,
}

/// A server with its components.
#[derive(Debug, Clone, PartialEq, Eq)]
pub struct Server {
    pub serial_number: String,
    pub name: String,
    pub model: String,
    pub number: i64,
    pub cpu: Vec<CPU>,
    pub ram: Vec<RAM>,
    pub disk: Vec<Disk>,
    pub nic: Vec<NIC>,
    pub accelerator: Vec<Accelorator>,
    pub status: DeviceStatus,
}

/// A memory module.
#[derive(Debug, Clone, PartialEq, Eq)]
pub struct RAM {
    pub serial_number: String,
    pub name: String,
    pub model: String,
    pub number: i64,
    pub size_gb: i64,
    pub speed_mhz: i64,
    pub usage_gb: i64,
}

/// A network interface card.
#[derive(Debug, Clone, PartialEq, Eq)]
pub struct NIC {
    pub serial_number: String,
    pub name: String,
    pub model: String,
    pub number: i64,
    pub mac: String,
    pub link_status: DeviceStatus,
    pub port_speed_gbps: i64,
    pub number_of_ports: i64,
}

/// A processor.
#[derive(Debug, Clone, PartialEq, Eq)]
pub struct CPU {
    pub serial_number: String,
    pub name: String,
    pub model: String,
    pub number: i64,
    pub clock_speed: i64,
    pub cores: i64,
    pub features: String,
}

/// An accelerator card.
#[derive(Debug, Clone, PartialEq, Eq)]
pub struct Accelorator {
    pub serial_number: String,
    pub name: String,
    pub model: String,
    pub number: i64,
    pub memory_gb: i64,
    pub chip: String,
    pub clock_speed: i64,
}

/// A disk.
#[derive(Debug, Clone, PartialEq, Eq)]
pub struct Disk {
    pub serial_number: String,
    pub name: String,
    pub model: String,
    pub number: i64,
    pub size_gb: i64,
    pub usage_gb: i64,
}

} // verus!
