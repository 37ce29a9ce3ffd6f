//! Verified core of an XDP-based IPv4 firewall: the packet record that the
//! kernel program hands to user space, the firewall decision on raw frames,
//! the block list it consults, the IPv4 text forms, and the validation rules
//! of the block-list HTTP API.

pub mod address;
pub mod block_ip;
pub mod blocklist;
pub mod firewall;
pub mod package;
pub mod package_info;
