use agent_bridge::relay::{Relay, Side, Verdict, CHUNK_SIZE};

fn echo_through(input: &[u8], client_chunk: usize, backend_chunk: usize) -> Vec<u8> {
    let mut relay = Relay::new();
    let mut backend: Vec<u8> = Vec::new();
    for chunk in input.chunks(client_chunk) {
        match relay.on_read(Side::Client, chunk) {
            Verdict::Forward(bytes) => backend.extend_from_slice(&bytes),
            Verdict::Stop => panic!("relay stopped on data"),
        }
    }
    let mut output: Vec<u8> = Vec::new();
    for chunk in backend.chunks(backend_chunk) {
        match relay.on_read(Side::Backend, chunk) {
            Verdict::Forward(bytes) => output.extend_from_slice(&bytes),
            Verdict::Stop => panic!("relay stopped on data"),
        }
    }
    assert!(!relay.is_terminated());
    output
}

#[test]
fn echo_reproduces_input_for_any_chunking() {
    let input: Vec<u8> = (0..1000u32).map(|i| (i % 256) as u8).collect();
    for (c, b) in [(1, 1), (17, 17), (500, 500), (1, 500), (500, 17), (CHUNK_SIZE, 3)] {
        assert_eq!(echo_through(&input, c, b), input);
    }
}

#[test]
fn backend_close_stops_both_directions() {
    let mut relay = Relay::new();
    assert!(matches!(relay.on_read(Side::Client, &[1, 2]), Verdict::Forward(b) if b == vec![1, 2]));
    assert!(matches!(relay.on_read(Side::Backend, &[]), Verdict::Stop));
    assert!(relay.is_terminated());
    assert!(matches!(relay.on_read(Side::Client, &[3]), Verdict::Stop));
    assert!(matches!(relay.on_read(Side::Backend, &[4]), Verdict::Stop));
}

#[test]
fn client_close_stops_both_directions() {
    let mut relay = Relay::new();
    assert!(!relay.is_terminated());
    assert!(matches!(relay.on_read(Side::Client, &[]), Verdict::Stop));
    assert!(relay.is_terminated());
    assert!(matches!(relay.on_read(Side::Backend, &[9]), Verdict::Stop));
    assert!(matches!(relay.on_read(Side::Client, &[9]), Verdict::Stop));
}
