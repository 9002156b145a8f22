use umay::relay::Relay;

#[test]
fn a_whole_payload_crosses_unchanged() {
    let payload = b"Hello, Proxy!";
    let mut relay = Relay::new();
    relay.push_chunk(payload, payload.len());
    let out = relay.take(1024);
    assert_eq!(out, payload.to_vec());
    assert_eq!(relay.pending_len(), 0);
}

#[test]
fn chunked_writes_and_partial_reads_keep_order() {
    let mut relay = Relay::new();
    relay.push_chunk(b"Hello, ", 7);
    relay.push_chunk(b"world!!!", 6);
    let first = relay.take(4);
    assert_eq!(first, b"Hell".to_vec());
    relay.push_chunk(b"?", 1);
    let mut rest = relay.take(1024);
    let mut got = first;
    got.append(&mut rest);
    assert_eq!(got, b"Hello, world!?".to_vec());
}

#[test]
fn a_read_of_a_short_prefix_respects_the_limit() {
    let mut relay = Relay::new();
    relay.push_chunk(b"abcdef", 6);
    assert_eq!(relay.take(0), Vec::<u8>::new());
    assert_eq!(relay.take(2), b"ab".to_vec());
    assert_eq!(relay.pending_len(), 4);
    assert_eq!(relay.take(100), b"cdef".to_vec());
}

#[test]
fn the_two_directions_are_independent() {
    // The client sends a message; the upstream echoes it back over the
    // opposite relay. Each direction carries its own bytes, byte-exact.
    let msg = b"Hello, world!";
    let mut client_to_upstream = Relay::new();
    let mut upstream_to_client = Relay::new();

    client_to_upstream.push_chunk(msg, msg.len());
    let received = client_to_upstream.take(1024);
    assert_eq!(received, msg.to_vec());

    upstream_to_client.push_chunk(&received, received.len());
    let echoed = upstream_to_client.take(1024);
    assert_eq!(echoed, msg.to_vec());
    assert_eq!(client_to_upstream.pending_len(), 0);
    assert_eq!(upstream_to_client.pending_len(), 0);
}
