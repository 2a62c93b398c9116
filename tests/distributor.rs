use futures::channel::mpsc::{unbounded, UnboundedReceiver};
use relay_server::distributor::{Peer, Server, ServerEvent};
use relay_server::listener::PeerCounter;

fn join(server: &mut Server, id: u32) -> UnboundedReceiver<Vec<u8>> {
    let (tx, rx) = unbounded();
    let targets = server.handle(ServerEvent::Peer(Peer { tx, port_id: id }));
    assert!(targets.is_empty());
    rx
}

fn send(server: &mut Server, source: u32, msg: &[u8]) -> Vec<u32> {
    server.handle(ServerEvent::Message { source_port: source, msg: msg.to_vec() })
}

fn next(rx: &mut UnboundedReceiver<Vec<u8>>) -> Option<Vec<u8>> {
    rx.try_next().ok().flatten()
}

#[test]
fn three_peers_hello_then_ping_after_disconnect() {
    let mut server = Server::new();
    let mut a = join(&mut server, 0);
    let b = join(&mut server, 1);
    let mut c = join(&mut server, 2);
    let mut b = b;
    assert_eq!(send(&mut server, 0, b"hello"), vec![1, 2]);
    assert_eq!(next(&mut b), Some(b"hello".to_vec()));
    assert_eq!(next(&mut c), Some(b"hello".to_vec()));
    assert_eq!(next(&mut a), None);
    drop(b);
    assert_eq!(send(&mut server, 0, b"ping"), vec![1, 2]);
    assert_eq!(next(&mut c), Some(b"ping".to_vec()));
    assert_eq!(next(&mut c), None);
    assert_eq!(next(&mut a), None);
}

#[test]
fn sender_never_receives_its_own_message() {
    let mut server = Server::new();
    let mut rxs: Vec<_> = (0..4).map(|id| join(&mut server, id)).collect();
    assert_eq!(send(&mut server, 2, b"m"), vec![0, 1, 3]);
    for (id, rx) in rxs.iter_mut().enumerate() {
        if id == 2 {
            assert_eq!(next(rx), None);
        } else {
            assert_eq!(next(rx), Some(b"m".to_vec()));
        }
    }
}

#[test]
fn peer_joining_later_misses_earlier_message() {
    let mut server = Server::new();
    let _a = join(&mut server, 0);
    let mut b = join(&mut server, 1);
    assert_eq!(send(&mut server, 0, b"early"), vec![1]);
    let mut c = join(&mut server, 2);
    assert_eq!(send(&mut server, 0, b"late"), vec![1, 2]);
    assert_eq!(next(&mut b), Some(b"early".to_vec()));
    assert_eq!(next(&mut b), Some(b"late".to_vec()));
    assert_eq!(next(&mut c), Some(b"late".to_vec()));
    assert_eq!(next(&mut c), None);
}

#[test]
fn messages_arrive_in_processing_order() {
    let mut server = Server::new();
    let mut a = join(&mut server, 0);
    let mut b = join(&mut server, 1);
    send(&mut server, 0, b"one");
    send(&mut server, 1, b"two");
    send(&mut server, 0, b"three");
    assert_eq!(next(&mut b), Some(b"one".to_vec()));
    assert_eq!(next(&mut b), Some(b"three".to_vec()));
    assert_eq!(next(&mut a), Some(b"two".to_vec()));
    assert_eq!(next(&mut a), None);
}

#[test]
fn broadcast_with_no_peers_goes_nowhere() {
    let mut server = Server::new();
    assert!(server.broadcast(0, b"x".to_vec()).is_empty());
}

#[test]
fn send_out_skips_source() {
    let (tx, mut rx) = unbounded();
    let peer = Peer { tx, port_id: 5 };
    assert!(!peer.send_out(5, &b"own".to_vec()));
    assert!(peer.send_out(4, &b"other".to_vec()));
    assert_eq!(next(&mut rx), Some(b"other".to_vec()));
    assert_eq!(next(&mut rx), None);
}

#[test]
fn add_peer_then_broadcast() {
    let mut server = Server::new();
    let (tx, mut rx) = unbounded();
    server.add_peer(Peer { tx, port_id: 9 });
    assert_eq!(server.broadcast(3, b"z".to_vec()), vec![9]);
    assert_eq!(next(&mut rx), Some(b"z".to_vec()));
}

#[test]
fn peer_ids_count_up_from_zero() {
    let mut counter = PeerCounter::new();
    assert_eq!(counter.next_id(), Some(0));
    assert_eq!(counter.next_id(), Some(1));
    assert_eq!(counter.next_id(), Some(2));
}
