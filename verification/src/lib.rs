//! Host-side tools of a system that runs each application in a VM of its
//! own, as far as they compute: the inter-VM network router with the wire
//! formats it inspects, the packet head it rewrites, its forwarding table
//! and the election of the active upstream VLAN; the key files of
//! application metadata; the configuration of a VM; the listing of VMs.

pub mod buffer;
pub mod ch;
pub mod keyfile;
pub mod lsvm;
pub mod metadata;
pub mod net;
pub mod packet;
pub mod protocol;
pub mod router;
pub mod start_vmm;
pub mod upstream;
