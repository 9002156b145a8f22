//! TLS session outcomes.
//!
//! The handshake itself runs at the network edge; once it is done, the
//! session's plain facts — the server name the client asked for, the peer's
//! certificates, the negotiated ALPN bytes — come here to be classified
//! into the outcome the proxy acts on.

use vstd::prelude::*;

verus! {

/// The client's identity: the DER bytes of its first certificate.
#[derive(Clone, Debug)]
pub struct ClientId(pub Vec<u8>);

/// The application protocol the handshake settled on, as opaque bytes.
#[derive(Clone, Debug)]
pub struct NegotiatedProtocol(pub Vec<u8>);

/// What one successful handshake yields: either a terminated session, or a
/// passthrough to be routed onward by its server name.
pub enum ServerTls {
    Established {
        client_id: Option<ClientId>,
        negotiated_protocol: Option<NegotiatedProtocol>,
    },
    Passthru { sni: String },
}

fn copy_bytes(v: &Vec<u8>) -> (r: Vec<u8>)
    ensures
        r@ == v@,
{
    let mut r: Vec<u8> = Vec::new();
    let mut i: usize = 0;
    while i < v.len()
        invariant
            i <= v@.len(),
            r@ == v@.subrange(0, i as int),
        decreases v@.len() - i,
    {
        r.push(v[i]);
        proof {
            assert(r@ =~= v@.subrange(0, i + 1));
        }
        i += 1;
    }
    proof {
        assert(v@.subrange(0, v@.len() as int) =~= v@);
    }
    r
}

/// The client's identity, when client authentication happened: the first
/// peer certificate; none, when the peer sent no certificate.
pub fn client_identity(peer_certs: Option<&Vec<Vec<u8>>>) -> (r: Option<ClientId>)
    ensures
        match peer_certs {
            Some(certs) => if certs@.len() > 0 {
                r matches Some(id) && id.0@ == certs@[0]@
            } else {
                r is None
            },
            None => r is None,
        },
{
    match peer_certs {
        Some(certs) => {
            if certs.len() > 0 {
                Some(ClientId(copy_bytes(&certs[0])))
            } else {
                None
            }
        }
        None => None,
    }
}

/// Classifies one finished handshake. The policy is the surfaced one: any
/// presented server name defers the connection as a passthrough, to be
/// routed by that name without reading application bytes; only a session
/// without a server name is treated as terminated here, with the client's
/// identity and the negotiated protocol extracted.
pub fn classify_session(
    sni: Option<String>,
    peer_certs: Option<&Vec<Vec<u8>>>,
    alpn: Option<&Vec<u8>>,
) -> (r: ServerTls)
    ensures
        match sni {
            Some(name) => (r matches ServerTls::Passthru { sni: out } && out@ == name@),
            None => (r matches ServerTls::Established { client_id, negotiated_protocol } && {
                &&& match peer_certs {
                    Some(certs) => if certs@.len() > 0 {
                        client_id matches Some(id) && id.0@ == certs@[0]@
                    } else {
                        client_id is None
                    },
                    None => client_id is None,
                }
                &&& match alpn {
                    Some(bytes) => (negotiated_protocol matches Some(p) && p.0@ == bytes@),
                    None => negotiated_protocol is None,
                }
            }),
        },
{
    match sni {
        Some(name) => ServerTls::Passthru { sni: name },
        None => {
            let client_id = client_identity(peer_certs);
            let negotiated_protocol = match alpn {
                Some(bytes) => Some(NegotiatedProtocol(copy_bytes(bytes))),
                None => None,
            };
            ServerTls::Established { client_id, negotiated_protocol }
        }
    }
}

} // verus!
