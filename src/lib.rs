//! Observation and measurement engine for Time-Sensitive Networking fabrics.
//!
//! Frames are decoded (`packet`), annotated with TSN metadata, kept in a
//! bounded store (`capture`) that also drives inter-arrival and TCP
//! round-trip analysis (`interval`), and fed to the topology model
//! (`topology`, `lldp`) and the protocol analyzers (`protocols`, `ptp`,
//! `cbs`, `tas`, `frer`). `pipeline` orders one frame through topology and
//! store; `iograph` and `pcap` present and persist what was captured. The
//! probe modules (`hwts`, `latency`, `throughput`, `icmp`) hold the packet
//! formats and decisions of the active measurements; sockets stay with the
//! caller.
pub mod text;
pub mod textops;
pub mod packet;
pub mod interval;
pub mod capture;
pub mod iograph;
pub mod pcap;
pub mod topology;
pub mod graph;
pub mod lldp;
pub mod scanner;
pub mod pipeline;
pub mod protocols;
pub mod ptp;
pub mod cbs;
pub mod tas;
pub mod frer;
pub mod hwts;
pub mod latency;
pub mod throughput;
pub mod icmp;
pub mod api;
