//! IPv4 addresses held as host-order `u32` values, and the virtual network
//! `10.10.0.0/24` whose addresses the relay hands out.

use vstd::prelude::*;

verus! {

/// The address `a.b.c.d` as a host-order integer (what `u32::from_be_bytes`
/// gives for `[a, b, c, d]`).
pub open spec fn spec_ipv4(a: u8, b: u8, c: u8, d: u8) -> u32 {
    (a as int * 0x100_0000 + b as int * 0x1_0000 + c as int * 0x100 + d as int) as u32
}

/// The four octets of `ip`, most significant first.
pub open spec fn spec_octets(ip: u32) -> (u8, u8, u8, u8) {
    (
        (ip as int / 0x100_0000) as u8,
        ((ip as int / 0x1_0000) % 0x100) as u8,
        ((ip as int / 0x100) % 0x100) as u8,
        (ip as int % 0x100) as u8,
    )
}

/// The virtual address `10.10.0.host`.
pub open spec fn spec_virtual_ip(host: u8) -> u32 {
    spec_ipv4(10, 10, 0, host)
}

/// Splitting `a.b.c.d` into octets gives back `a`, `b`, `c` and `d`.
pub proof fn lemma_octets_of_ipv4(a: u8, b: u8, c: u8, d: u8)
    ensures
        spec_octets(spec_ipv4(a, b, c, d)) == (a, b, c, d),
{
    let x: int = a as int * 0x100_0000 + b as int * 0x1_0000 + c as int * 0x100 + d as int;
    assert(0 <= x < 0x1_0000_0000) by (nonlinear_arith)
        requires
            x == a as int * 0x100_0000 + b as int * 0x1_0000 + c as int * 0x100 + d as int,
            0 <= a < 256,
            0 <= b < 256,
            0 <= c < 256,
            0 <= d < 256,
    ;
    assert(spec_ipv4(a, b, c, d) as int == x);
    assert(x / 0x100_0000 == a) by (nonlinear_arith)
        requires
            x == a as int * 0x100_0000 + b as int * 0x1_0000 + c as int * 0x100 + d as int,
            0 <= b < 256,
            0 <= c < 256,
            0 <= d < 256,
    ;
    assert((x / 0x1_0000) % 0x100 == b) by (nonlinear_arith)
        requires
            x == a as int * 0x100_0000 + b as int * 0x1_0000 + c as int * 0x100 + d as int,
            0 <= a < 256,
            0 <= b < 256,
            0 <= c < 256,
            0 <= d < 256,
    ;
    assert((x / 0x100) % 0x100 == c) by (nonlinear_arith)
        requires
            x == a as int * 0x100_0000 + b as int * 0x1_0000 + c as int * 0x100 + d as int,
            0 <= a < 256,
            0 <= b < 256,
            0 <= c < 256,
            0 <= d < 256,
    ;
    assert(x % 0x100 == d) by (nonlinear_arith)
        requires
            x == a as int * 0x100_0000 + b as int * 0x1_0000 + c as int * 0x100 + d as int,
            0 <= a < 256,
            0 <= b < 256,
            0 <= c < 256,
            0 <= d < 256,
    ;
}

/// Putting the octets of `ip` back together gives `ip`.
pub proof fn lemma_ipv4_of_octets(ip: u32)
    ensures
        spec_ipv4(spec_octets(ip).0, spec_octets(ip).1, spec_octets(ip).2, spec_octets(ip).3) == ip,
{
    let x = ip as int;
    assert(x == (x / 0x100_0000) * 0x100_0000 + ((x / 0x1_0000) % 0x100) * 0x1_0000 + ((x / 0x100)
        % 0x100) * 0x100 + x % 0x100) by (nonlinear_arith)
        requires
            0 <= x < 0x1_0000_0000,
    ;
    assert(0 <= x / 0x100_0000 < 0x100) by (nonlinear_arith)
        requires
            0 <= x < 0x1_0000_0000,
    ;
}

/// Builds the address `a.b.c.d`.
pub fn ipv4_from_octets(a: u8, b: u8, c: u8, d: u8) -> (ip: u32)
    ensures
        ip == spec_ipv4(a, b, c, d),
        ip as int == a as int * 0x100_0000 + b as int * 0x1_0000 + c as int * 0x100 + d as int,
{
    (a as u32) * 0x100_0000 + (b as u32) * 0x1_0000 + (c as u32) * 0x100 + (d as u32)
}

/// Splits an address into its octets, most significant first.
pub fn ipv4_octets(ip: u32) -> (octets: (u8, u8, u8, u8))
    ensures
        octets == spec_octets(ip),
        spec_ipv4(octets.0, octets.1, octets.2, octets.3) == ip,
{
    let a = (ip / 0x100_0000) as u8;
    let b = ((ip / 0x1_0000) % 0x100) as u8;
    let c = ((ip / 0x100) % 0x100) as u8;
    let d = (ip % 0x100) as u8;
    (a, b, c, d)
}

/// The virtual address `10.10.0.host`.
pub fn virtual_ip(host: u8) -> (ip: u32)
    ensures
        ip == spec_virtual_ip(host),
{
    ipv4_from_octets(10, 10, 0, host)
}

} // verus!
