//! A 64-bit hash over canonical byte encodings.
//!
//! Backends are hashed for consistent routing. The library computes the
//! Fowler–Noll–Vo (FNV-1a) hash of a fixed big-endian encoding of the
//! backend's fields, so the hash of a value is a function of the value alone
//! and every property of the routing can be stated over it.

use vstd::prelude::*;

use crate::addr::{IpAddress, SocketAddress};
use crate::backend::Backend;

verus! {

pub const FNV_OFFSET_BASIS: u64 = 0xcbf2_9ce4_8422_2325;

pub const FNV_PRIME: u64 = 0x100_0000_01b3;

/// One FNV-1a round: fold a byte in, then multiply modulo 2^64.
pub open spec fn fnv1a_step(h: u64, b: u8) -> u64 {
    (((h ^ (b as u64)) as nat * FNV_PRIME as nat) % 0x1_0000_0000_0000_0000nat) as u64
}

/// The FNV-1a hash of a byte sequence.
pub open spec fn fnv1a(data: Seq<u8>) -> u64
    decreases data.len(),
{
    if data.len() == 0 {
        FNV_OFFSET_BASIS
    } else {
        fnv1a_step(fnv1a(data.drop_last()), data.last())
    }
}

/// Computes `fnv1a` of the slice.
pub fn fnv1a_hash(data: &[u8]) -> (r: u64)
    ensures
        r == fnv1a(data@),
{
    let mut h: u64 = FNV_OFFSET_BASIS;
    let mut i: usize = 0;
    while i < data.len()
        invariant
            i <= data@.len(),
            h == fnv1a(data@.subrange(0, i as int)),
        decreases data@.len() - i,
    {
        proof {
            let prefix = data@.subrange(0, i + 1);
            assert(prefix.drop_last() =~= data@.subrange(0, i as int));
            assert(prefix.last() == data@[i as int]);
        }
        h = (h ^ (data[i] as u64)).wrapping_mul(FNV_PRIME);
        i += 1;
    }
    proof {
        assert(data@.subrange(0, data@.len() as int) =~= data@);
    }
    h
}

/// The two big-endian bytes of a 16-bit value.
pub open spec fn u16_be_bytes(x: u16) -> Seq<u8> {
    seq![(x >> 8) as u8, x as u8]
}

/// The four big-endian bytes of a 32-bit value.
pub open spec fn u32_be_bytes(x: u32) -> Seq<u8> {
    seq![(x >> 24) as u8, (x >> 16) as u8, (x >> 8) as u8, x as u8]
}

/// The eight big-endian bytes of a 64-bit value.
pub open spec fn u64_be_bytes(x: u64) -> Seq<u8> {
    u32_be_bytes((x >> 32) as u32) + u32_be_bytes(x as u32)
}

/// The sixteen big-endian bytes of a 128-bit value.
pub open spec fn u128_be_bytes(x: u128) -> Seq<u8> {
    u64_be_bytes((x >> 64) as u64) + u64_be_bytes(x as u64)
}

/// An IP address as a tagged byte string: the family tag, then the value.
pub open spec fn ip_bytes(ip: IpAddress) -> Seq<u8> {
    match ip {
        IpAddress::V4(v) => seq![4u8] + u32_be_bytes(v),
        IpAddress::V6(v) => seq![6u8] + u128_be_bytes(v),
    }
}

/// A socket address as bytes: the address, then the port.
pub open spec fn addr_bytes(a: SocketAddress) -> Seq<u8> {
    ip_bytes(a.ip) + u16_be_bytes(a.port)
}

/// What a backend's stable hash is computed over: address, then weight.
pub open spec fn backend_hash_input(b: Backend) -> Seq<u8> {
    addr_bytes(b.addr) + u64_be_bytes(b.weight as u64)
}

/// What a virtual ring node's hash is computed over: address, then the
/// virtual-node index.
pub open spec fn node_hash_input(b: Backend, v: u64) -> Seq<u8> {
    addr_bytes(b.addr) + u64_be_bytes(v)
}

/// The ring position of one virtual node of a backend.
pub open spec fn node_hash(b: Backend, v: u64) -> u64 {
    fnv1a(node_hash_input(b, v))
}

fn push_u16_be(out: &mut Vec<u8>, x: u16)
    ensures
        final(out)@ == old(out)@ + u16_be_bytes(x),
{
    out.push((x >> 8) as u8);
    out.push(#[verifier::truncate] (x as u8));
    proof {
        assert(out@ =~= old(out)@ + u16_be_bytes(x));
    }
}

fn push_u32_be(out: &mut Vec<u8>, x: u32)
    ensures
        final(out)@ == old(out)@ + u32_be_bytes(x),
{
    out.push(#[verifier::truncate] ((x >> 24) as u8));
    out.push(#[verifier::truncate] ((x >> 16) as u8));
    out.push(#[verifier::truncate] ((x >> 8) as u8));
    out.push(#[verifier::truncate] (x as u8));
    proof {
        assert(out@ =~= old(out)@ + u32_be_bytes(x));
    }
}

fn push_u64_be(out: &mut Vec<u8>, x: u64)
    ensures
        final(out)@ == old(out)@ + u64_be_bytes(x),
{
    push_u32_be(out, #[verifier::truncate] ((x >> 32) as u32));
    push_u32_be(out, #[verifier::truncate] (x as u32));
    proof {
        assert(out@ =~= old(out)@ + u64_be_bytes(x));
    }
}

fn push_u128_be(out: &mut Vec<u8>, x: u128)
    ensures
        final(out)@ == old(out)@ + u128_be_bytes(x),
{
    push_u64_be(out, #[verifier::truncate] ((x >> 64) as u64));
    push_u64_be(out, #[verifier::truncate] (x as u64));
    proof {
        assert(out@ =~= old(out)@ + u128_be_bytes(x));
    }
}

fn push_addr_bytes(out: &mut Vec<u8>, a: &SocketAddress)
    ensures
        final(out)@ == old(out)@ + addr_bytes(*a),
{
    match a.ip {
        IpAddress::V4(v) => {
            out.push(4u8);
            push_u32_be(out, v);
        }
        IpAddress::V6(v) => {
            out.push(6u8);
            push_u128_be(out, v);
        }
    }
    push_u16_be(out, a.port);
    proof {
        assert(out@ =~= old(out)@ + addr_bytes(*a));
    }
}

impl Backend {
    /// The backend's stable hash: FNV-1a of its canonical encoding.
    pub fn hash_key(&self) -> (r: u64)
        ensures
            r == fnv1a(backend_hash_input(*self)),
    {
        let mut bytes: Vec<u8> = Vec::new();
        push_addr_bytes(&mut bytes, &self.addr);
        push_u64_be(&mut bytes, self.weight as u64);
        proof {
            assert(bytes@ =~= backend_hash_input(*self));
        }
        fnv1a_hash(bytes.as_slice())
    }
}

/// Computes the ring position `node_hash(b, v)`.
pub fn node_hash_exec(b: &Backend, v: u64) -> (r: u64)
    ensures
        r == node_hash(*b, v),
{
    let mut bytes: Vec<u8> = Vec::new();
    push_addr_bytes(&mut bytes, &b.addr);
    push_u64_be(&mut bytes, v);
    proof {
        assert(bytes@ =~= node_hash_input(*b, v));
    }
    fnv1a_hash(bytes.as_slice())
}

} // verus!
