//! Pool, session, worker and snapshot-buffer behaviour, including the
//! end-to-end join/relay/kick and inactivity scenarios.

use relay_core::codec::Bitwise;
use relay_core::pool::PoolStore;
use relay_core::protocol::JoinRequestData;
use relay_core::protocol::Packet;
use relay_core::protocol::Player;
use relay_core::protocol::ServerPacket;
use relay_core::protocol::Session;
use relay_core::protocol::JOIN_REQUEST_OC;
use relay_core::protocol::KICK_REQUEST_OC;
use relay_core::session::KickOutcome;
use relay_core::session::PlayerConn;
use relay_core::session::SessionEnt;
use relay_core::session::INACTIVE_NANOS;
use relay_core::store::Invalid;
use relay_core::sync::DoubleState;
use relay_core::worker::admit_packet;
use relay_core::worker::parse_join_request;
use relay_core::worker::pick_thread;
use relay_core::worker::FrameLimiter;
use relay_core::worker::JoinOutcome;
use relay_core::worker::ThreadState;
use relay_core::worker::UdpOutcome;

fn conn(token: u64) -> PlayerConn {
    PlayerConn::new(token, 10_000 + token as u128, 0)
}

fn relay_packet(op: u32, session: Session, source: Player, targets: Vec<Player>) -> Packet {
    Packet { op_code: op, session, source, tcp: true, targets, data: vec![0xAB] }
}

#[test]
fn pool_remove_returns_pushed_value() {
    let mut pool: PoolStore<Player, u64> = PoolStore::new();
    let h = pool.push(77);
    assert_eq!(pool.remove(h), 77);
    assert_eq!(pool.count(), 0);
}

#[test]
fn pool_reuses_freed_slot_before_growing() {
    let mut pool: PoolStore<Player, u64> = PoolStore::new();
    let a = pool.push(1);
    let b = pool.push(2);
    let c = pool.push(3);
    assert_eq!((a.0, b.0, c.0), (0, 1, 2));
    pool.remove(b);
    // the most recently freed slot comes back first
    let d = pool.push(4);
    assert_eq!(d.0, 1);
    // no free slot is left, so the pool grows past the old size
    let e = pool.push(5);
    assert_eq!(e.0, 3);
}

#[test]
fn pool_count_tracks_interleaved_push_remove() {
    let mut pool: PoolStore<Player, u64> = PoolStore::new();
    assert_eq!(pool.count(), 0);
    let a = pool.push(1);
    let b = pool.push(2);
    assert_eq!(pool.count(), 2);
    pool.remove(a);
    assert_eq!(pool.count(), 1);
    let c = pool.push(3);
    let d = pool.push(4);
    assert_eq!(pool.count(), 3);
    pool.remove(b);
    pool.remove(c);
    pool.remove(d);
    assert_eq!(pool.count(), 0);
}

#[test]
fn wrong_password_never_admits() {
    let mut session = SessionEnt::new(42, conn(0));
    let before = session.players.count();
    assert!(session.accept(41, conn(1)).is_none());
    assert_eq!(session.players.count(), before);
    assert!(session.accept(42, conn(1)).is_some());
    assert_eq!(session.players.count(), before + 1);
}

#[test]
fn broadcast_reaches_everyone_but_source() {
    let mut session = SessionEnt::new(0, conn(0));
    let owner = session.owner();
    let second = session.accept(0, conn(1)).unwrap();
    let third = session.accept(0, conn(2)).unwrap();
    let plan = session.send_package(&relay_packet(9, Session(0), owner, vec![]));
    assert_eq!(plan.recipients, vec![second, third]);
    assert!(plan.kicked.is_none());
    assert!(!plan.kick_denied);
    assert!(plan.via_tcp);
}

#[test]
fn explicit_targets_reach_only_valid_listed_members() {
    let mut session = SessionEnt::new(0, conn(0));
    let owner = session.owner();
    let second = session.accept(0, conn(1)).unwrap();
    let third = session.accept(0, conn(2)).unwrap();
    session.kick(owner, third);
    let stale = third;
    let plan = session.send_package(&relay_packet(9, Session(0), owner, vec![second, stale]));
    // the vacated handle is silently skipped
    assert_eq!(plan.recipients, vec![second]);
}

#[test]
fn only_the_owner_can_kick() {
    let mut session = SessionEnt::new(0, conn(0));
    let owner = session.owner();
    let second = session.accept(0, conn(1)).unwrap();
    let before = session.players.count();
    assert!(matches!(session.kick(second, owner), KickOutcome::NotOwner));
    assert_eq!(session.players.count(), before);
    assert!(matches!(session.kick(owner, second), KickOutcome::Removed(_)));
    assert_eq!(session.players.count(), before - 1);
}

#[test]
fn kick_request_from_non_owner_is_refused() {
    let mut session = SessionEnt::new(0, conn(0));
    let owner = session.owner();
    let second = session.accept(0, conn(1)).unwrap();
    let plan = session.send_package(&relay_packet(
        KICK_REQUEST_OC,
        Session(0),
        second,
        vec![owner],
    ));
    assert!(plan.kicked.is_none());
    assert!(plan.kick_denied);
    assert_eq!(session.players.count(), 2);
}

#[test]
fn spoofed_or_self_addressed_packets_are_dropped() {
    let me = Player(3);
    let my_session = Session(1);
    let fine = relay_packet(9, my_session, Player(2), vec![]);
    assert!(admit_packet(&fine, my_session, me));
    let wrong_session = relay_packet(9, Session(2), Player(2), vec![]);
    assert!(!admit_packet(&wrong_session, my_session, me));
    let self_send = relay_packet(9, my_session, me, vec![]);
    assert!(!admit_packet(&self_send, my_session, me));
}

#[test]
fn pick_thread_honours_request_and_scans_load() {
    let loads: Vec<i64> = vec![5, 9, 9, 2];
    assert_eq!(pick_thread(&loads, 3), 3);
    // the sentinel scans for the greatest slack, first index winning ties
    assert_eq!(pick_thread(&loads, u32::MAX), 1);
    // an out-of-range request falls back to the scan
    assert_eq!(pick_thread(&loads, 17), 1);
}

#[test]
fn frame_limiter_reports_signed_slack() {
    let mut limiter = FrameLimiter::new();
    limiter.set_fps(100);
    // the deadline advances by 10ms per tick
    assert_eq!(limiter.update(4_000_000), 6_000_000);
    assert_eq!(limiter.update(23_000_000), -3_000_000);
}

#[test]
fn end_to_end_join_relay_kick() {
    let mut worker = ThreadState::new(0, 8080);

    // client A asks for a fresh session with password P
    let request_a = JoinRequestData::create(77);
    let (session, a, info_a) = match worker.handle_join(&request_a, conn(0)) {
        JoinOutcome::SessionCreated(session, joined, info) => (session, joined, info),
        _ => panic!("expected a fresh session"),
    };
    assert_eq!(a, Player(0));
    assert_eq!(info_a.session, session);
    assert_eq!(info_a.joined, a);
    assert_eq!(info_a.thread_id, 0);
    assert_eq!(info_a.udp_port, 8080);

    // client B joins that session with the same password
    let request_b = JoinRequestData { password: 77, session, thread: 0 };
    let (b, info_b) = match worker.handle_join(&request_b, conn(1)) {
        JoinOutcome::Joined(joined, info) => (joined, info),
        _ => panic!("expected admission"),
    };
    assert_eq!(b, Player(1));
    assert_eq!(info_b.session, session);

    // the roster now holds both members, so A's join notification run
    // reaches A and B
    let roster = worker.sessions.get(session).players.handles();
    assert_eq!(roster, vec![a, b]);

    // A broadcasts; only B receives, with the stripped header
    let packet = relay_packet(9, session, a, vec![]);
    let plan = worker.sessions.get_mut(session).send_package(&packet);
    assert_eq!(plan.recipients, vec![b]);
    let relayed = relay_core::protocol::strip_for_relay(&packet);
    let mut bytes: Vec<u8> = Vec::new();
    relayed.encode(&mut bytes);
    let mut seen = ServerPacket::default();
    let mut cursor = 0usize;
    seen.decode(&mut cursor, &bytes).unwrap();
    assert_eq!(cursor, bytes.len());
    assert_eq!(seen.op_code, 9);
    assert_eq!(seen.source, a);
    assert_eq!(seen.data, vec![0xAB]);

    // B asks to kick A; B is not the owner, so membership is unchanged
    let kick = relay_packet(KICK_REQUEST_OC, session, b, vec![a]);
    let plan = worker.sessions.get_mut(session).send_package(&kick);
    assert!(plan.kick_denied);
    assert!(plan.kicked.is_none());
    assert_eq!(worker.sessions.get(session).players.count(), 2);
}

#[test]
fn udp_packets_are_validated_before_relay() {
    let mut worker = ThreadState::new(0, 9000);
    let (session, a, _) = match worker.handle_join(&JoinRequestData::create(1), conn(0)) {
        JoinOutcome::SessionCreated(session, joined, info) => (session, joined, info),
        _ => panic!("expected a fresh session"),
    };
    worker.handle_join(&JoinRequestData { password: 1, session, thread: 0 }, conn(1));

    let bogus_session = relay_packet(9, Session(9), a, vec![]);
    assert!(matches!(
        worker.handle_udp_packet(&bogus_session, 10_000, 5),
        UdpOutcome::UnknownSession
    ));
    let bogus_player = relay_packet(9, session, Player(7), vec![]);
    assert!(matches!(
        worker.handle_udp_packet(&bogus_player, 10_000, 5),
        UdpOutcome::UnknownPlayer
    ));
    // the datagram's source IP must match A's TCP peer IP
    let spoofed = relay_packet(9, session, a, vec![]);
    assert!(matches!(
        worker.handle_udp_packet(&spoofed, 4_444, 5),
        UdpOutcome::AddressMismatch
    ));
    let genuine = relay_packet(9, session, a, vec![]);
    match worker.handle_udp_packet(&genuine, 10_000, 5) {
        UdpOutcome::Relayed(plan) => assert_eq!(plan.recipients, vec![Player(1)]),
        _ => panic!("expected a relay"),
    }
}

#[test]
fn idle_connection_is_removed_and_session_reaped() {
    let mut worker = ThreadState::new(0, 9000);
    let (session, a, _) = match worker.handle_join(&JoinRequestData::create(1), conn(0)) {
        JoinOutcome::SessionCreated(session, joined, info) => (session, joined, info),
        _ => panic!("expected a fresh session"),
    };

    // exactly at the threshold the connection still counts as live
    let joined_at = worker.sessions.get(session).players.get(a).last_packet;
    assert!(!worker.sessions.get(session).players.get(a).is_inactive(joined_at + INACTIVE_NANOS));
    let now = joined_at + INACTIVE_NANOS + 1;
    assert!(worker.sessions.get(session).players.get(a).is_inactive(now));

    // the tick's kick queue removes it, duplicates tolerated
    worker.apply_kick_queue(session, &vec![a, a]);
    assert_eq!(worker.sessions.get(session).players.count(), 0);

    // the empty session is reaped at the end of the tick
    let reaped = worker.reap_empty_sessions();
    assert_eq!(reaped, vec![session]);
    assert!(!worker.sessions.is_valid(session));
}

#[test]
fn join_handshake_parses_only_join_frames() {
    let mut encoder = relay_core::codec::Encoder::new();
    encoder.encode(&JOIN_REQUEST_OC);
    let request = JoinRequestData { password: 5, session: Session::invalid(), thread: 3 };
    encoder.encode(&request);
    let frame = encoder.data().to_vec();
    let mut decoder = relay_core::codec::Decoder::new();
    decoder.load(frame[4..].to_vec());
    assert_eq!(parse_join_request(&mut decoder), Some(request));

    // a frame led by any other opcode is a fatal join failure
    let mut encoder = relay_core::codec::Encoder::new();
    encoder.encode(&9u32);
    encoder.encode(&request);
    let frame = encoder.data().to_vec();
    let mut decoder = relay_core::codec::Decoder::new();
    decoder.load(frame[4..].to_vec());
    assert_eq!(parse_join_request(&mut decoder), None);
}

#[test]
fn snapshot_commit_publishes_and_synchronizes() {
    let mut state: DoubleState<i64> = DoubleState::new(0, 0);

    // a reader holds the published copy while the writer stages
    let reader = state.borrow();
    let writer = state.borrow_mut();
    state.write(&writer, 42);
    assert_eq!(*state.read(&reader), 0);

    // the reader releases only just before the commit; the synchronize
    // step still observes exactly the committed value
    state.release(reader);
    state.commit(writer);

    let reader = state.borrow();
    assert_eq!(*state.read(&reader), 42);
    state.release(reader);
    let writer = state.borrow_mut();
    assert_eq!(*state.staging_ref(&writer), 42);
    state.commit(writer);
}
