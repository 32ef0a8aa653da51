//! Ports and addresses of the local browser drivers that the scraping
//! worker launches and connects to.

use vstd::prelude::*;
use vstd::string::*;
use crate::decimal::{decimal, push_decimal};

verus! {

/// The ports of `max_size` drivers numbered from `base_port` up, one each.
pub fn driver_ports(base_port: i16, max_size: usize) -> (r: Vec<usize>)
    requires
        max_size == 0 || (base_port as usize) + (max_size - 1) <= usize::MAX,
    ensures
        r@.len() == max_size,
        forall|k: int| 0 <= k < max_size ==> r@[k] == (base_port as usize) + k,
{
    let base = base_port as usize;
    let mut r: Vec<usize> = Vec::new();
    let mut i: usize = 0;
    while i < max_size
        invariant
            base == base_port as usize,
            max_size == 0 || base + (max_size - 1) <= usize::MAX,
            i <= max_size,
            r@.len() == i,
            forall|k: int| 0 <= k < i ==> r@[k] == base + k,
        decreases max_size - i,
    {
        r.push(base + i);
        i = i + 1;
    }
    r
}

/// The command-line argument that tells a driver which port to serve on.
pub fn port_arg(port: usize) -> (s: String)
    ensures
        s@ == "--port="@ + decimal(port as nat),
{
    let mut s = String::from_str("--port=");
    push_decimal(&mut s, port as u64);
    s
}

/// The address of the driver serving on a local port.
pub fn browser_url(port: usize) -> (s: String)
    ensures
        s@ == "http://localhost:"@ + decimal(port as nat),
{
    let mut s = String::from_str("http://localhost:");
    push_decimal(&mut s, port as u64);
    s
}


/// Work left to do once the drivers are closed: there is none.
pub fn cleanup() {
}

} // verus!
