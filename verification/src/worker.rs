//! Per-thread server state and the dispatcher's decisions: session
//! creation and joining, UDP packet validation, kick application, reaping
//! of empty sessions, tick pacing and load-based thread selection.
//!
//! Each worker thread owns its sessions exclusively; the surrounding I/O
//! layer runs the tick loop, feeds these functions plain values and
//! carries out the sends they plan.

use crate::pool::PoolStore;
use crate::protocol::JoinInfo;
use crate::protocol::JoinRequestData;
use crate::protocol::JOIN_REQUEST_OC;
use crate::protocol::Packet;
use crate::protocol::Player;
use crate::protocol::Session;
use crate::codec::Bitwise;
use crate::codec::Decoder;
use crate::session::relay_post;
use crate::session::PlayerConn;
use crate::session::RelayPlan;
use crate::session::SessionEnt;
use crate::store::Access;
use crate::store::Invalid;
use vstd::prelude::*;

verus! {

/// The nanosecond budget of one tick at `fps` ticks per second.
pub open spec fn tick_nanos(fps: u32) -> int {
    1_000_000_000int / fps as int
}

/// Paces the fixed-rate tick loop.  Time is measured in nanoseconds since
/// the limiter was created; `update` advances the deadline by one tick
/// budget and reports the signed slack against `now` — positive slack is
/// spare time the caller should sleep away, negative means the tick
/// overran.  The slack doubles as the thread's load signal.
pub struct FrameLimiter {
    pub fps: u32,
    pub time: u64,
}

impl FrameLimiter {
    pub fn new() -> (r: Self)
        ensures
            r.fps == 60,
            r.time == 0,
    {
        FrameLimiter { fps: 60, time: 0 }
    }

    pub fn set_fps(&mut self, fps: usize)
        requires
            1 <= fps <= u32::MAX,
        ensures
            final(self).fps == fps,
            final(self).time == old(self).time,
    {
        self.fps = fps as u32;
    }

    /// Moves the deadline one tick budget forward and returns the signed
    /// slack: deadline minus `now`.
    pub fn update(&mut self, now: u64) -> (r: i64)
        requires
            old(self).fps >= 1,
            old(self).time + tick_nanos(old(self).fps) <= i64::MAX,
            now <= i64::MAX,
        ensures
            final(self).fps == old(self).fps,
            final(self).time == old(self).time + tick_nanos(old(self).fps),
            r == final(self).time - now,
    {
        let frame: u64 = 1_000_000_000 / self.fps as u64;
        self.time = self.time + frame;
        if now < self.time {
            (self.time - now) as i64
        } else {
            -((now - self.time) as i64)
        }
    }
}

/// The dispatcher's thread choice: an explicit in-range request wins;
/// otherwise the thread with the greatest published slack (ties to the
/// lowest index) takes the connection.  A session-create request carries
/// the all-ones thread value and so always goes through the load scan.
pub fn pick_thread(loads: &Vec<i64>, requested: u32) -> (r: usize)
    requires
        loads@.len() >= 1,
    ensures
        r < loads@.len(),
        requested != 0xffff_ffffu32 && requested < loads@.len() ==> r == requested,
        requested == 0xffff_ffffu32 || requested >= loads@.len() ==> {
            &&& forall|i: int| 0 <= i < loads@.len() ==> loads@[i] <= loads@[r as int]
            &&& forall|i: int| 0 <= i < r ==> loads@[i] < loads@[r as int]
        },
{
    if requested != 0xffff_ffff && (requested as usize) < loads.len() {
        return requested as usize;
    }
    let mut best: usize = 0;
    let mut best_load: i64 = loads[0];
    let n = loads.len();
    let mut i: usize = 1;
    while i < n
        invariant
            1 <= i <= n,
            n == loads@.len(),
            best < i,
            best_load == loads@[best as int],
            forall|k: int| 0 <= k < i ==> loads@[k] <= best_load,
            forall|k: int| 0 <= k < best ==> loads@[k] < best_load,
        decreases n - i,
    {
        if loads[i] > best_load {
            best = i;
            best_load = loads[i];
        }
        i = i + 1;
    }
    best
}

/// The largest frame a join handshake may carry: the encoded opcode plus
/// the request record.
pub const MAX_JOIN_FRAME: u32 = 28;

/// Reads the join handshake from a received frame: the leading opcode must
/// be `JOIN_REQUEST_OC` and a well-formed request record must follow; any
/// framing or opcode mismatch is a fatal join failure.
pub fn parse_join_request(decoder: &mut Decoder) -> (r: Option<JoinRequestData>)
    requires
        old(decoder).wf(),
    ensures
        final(decoder).wf(),
        r is Some <==> {
            &&& u32::dec_ok(old(decoder).remaining())
            &&& u32::decodes_to(old(decoder).remaining(), JOIN_REQUEST_OC)
            &&& JoinRequestData::dec_ok(
                old(decoder).remaining().skip(u32::dec_len(old(decoder).remaining())),
            )
        },
        r is Some ==> JoinRequestData::decodes_to(
            old(decoder).remaining().skip(u32::dec_len(old(decoder).remaining())),
            r->Some_0,
        ),
{
    match decoder.decode::<u32>() {
        Some(op) => {
            if op != JOIN_REQUEST_OC {
                return None;
            }
            decoder.decode::<JoinRequestData>()
        },
        None => None,
    }
}

/// Whether a packet drained from a member's TCP stream may be relayed: a
/// declared session that does not match the connection's session, or a
/// declared source equal to the connection's own handle, marks a spoofed
/// or self-addressed packet, which is silently dropped.
pub fn admit_packet(packet: &Packet, session: Session, this: Player) -> (r: bool)
    ensures
        r == (packet.session == session && packet.source != this),
{
    packet.session == session && packet.source != this
}

/// What became of a routed join request.
pub enum JoinOutcome {
    /// A fresh session was created; the candidate is its owner.
    SessionCreated(Session, Player, JoinInfo),
    /// The candidate was admitted to the named existing session.
    Joined(Player, JoinInfo),
    /// The request named a session this thread does not hold.
    UnknownSession,
    /// The password did not match; the candidate was not admitted.
    WrongPassword,
    /// A pool reached its capacity; the candidate was not admitted.
    Full,
}

/// What became of a drained UDP datagram.
pub enum UdpOutcome {
    /// The declared session is not live on this thread.
    UnknownSession,
    /// The declared source is not a member of that session.
    UnknownPlayer,
    /// The datagram's source IP does not match the member's TCP peer IP.
    AddressMismatch,
    /// The packet was accepted and fanned out as planned.
    Relayed(RelayPlan),
}

/// One worker thread's state: its index, the UDP port it serves (base
/// port plus index), and the sessions it exclusively owns.
pub struct ThreadState {
    pub id: u32,
    pub port: u16,
    pub sessions: PoolStore<Session, SessionEnt>,
}

impl ThreadState {
    pub open spec fn wf(&self) -> bool {
        &&& self.sessions.wf()
        &&& forall|i: int|
            0 <= i < self.sessions.entries().len() && (
            #[trigger] self.sessions.entries()[i]) is Some
                ==> self.sessions.entries()[i]->Some_0.wf()
    }

    /// Worker `id` serving UDP on `base_port + id`.
    pub fn new(id: u32, base_port: u16) -> (r: Self)
        requires
            base_port + id <= u16::MAX,
        ensures
            r.wf(),
            r.id == id,
            r.port == base_port + id,
            r.sessions.entries().len() == 0,
    {
        ThreadState { id, port: base_port + (id as u16), sessions: PoolStore::new() }
    }

    /// Opens a new session owned by the candidate and returns its handle
    /// together with the join answer for the new owner.
    pub fn create_session(&mut self, password: u128, owner_conn: PlayerConn) -> (r: (
        Session,
        JoinInfo,
    ))
        requires
            old(self).wf(),
            old(self).sessions.entries().len() < 0xffff_fffe,
        ensures
            final(self).wf(),
            final(self).id == old(self).id,
            final(self).port == old(self).port,
            final(self).sessions.valid(r.0),
            final(self).sessions.value_of(r.0).password == password,
            final(self).sessions.value_of(r.0).owner.idx() == 0,
            final(self).sessions.value_of(r.0).players.live_count() == 1,
            final(self).sessions.value_of(r.0).players.valid(
                final(self).sessions.value_of(r.0).owner,
            ),
            final(self).sessions.value_of(r.0).players.value_of(
                final(self).sessions.value_of(r.0).owner,
            ) == owner_conn,
            final(self).sessions.live_count() == old(self).sessions.live_count() + 1,
            forall|h: Session|
                old(self).sessions.valid(h) ==> final(self).sessions.valid(h) && final(self).sessions.value_of(h) == old(self).sessions.value_of(h),
            r.1 == (JoinInfo {
                thread_id: old(self).id,
                session: r.0,
                joined: final(self).sessions.value_of(r.0).owner,
                udp_port: old(self).port,
            }),
    {
        let session = SessionEnt::new(password, owner_conn);
        let joined = session.owner();
        let handle = self.sessions.push(session);
        let info = JoinInfo { thread_id: self.id, session: handle, joined, udp_port: self.port };
        proof {
            assert forall|h: Session| old(self).sessions.valid(h) implies final(self).sessions.valid(h) && final(self).sessions.value_of(h) == old(self).sessions.value_of(
                h,
            ) by {
                Session::lemma_idx_bounds(h);
            }
        }
        (handle, info)
    }

    /// Routes one join request: the invalid session handle asks for a
    /// fresh session; anything else must name a live session whose
    /// password matches.  Admission notifies nobody — the caller sends the
    /// join answers and roster notifications.
    pub fn handle_join(&mut self, data: &JoinRequestData, candidate: PlayerConn) -> (r:
        JoinOutcome)
        requires
            old(self).wf(),
        ensures
            final(self).wf(),
            final(self).id == old(self).id,
            final(self).port == old(self).port,
            data.session == Session::invalid_spec() && old(self).sessions.entries().len()
                < 0xffff_fffe ==> r is SessionCreated,
            data.session != Session::invalid_spec() && !old(self).sessions.valid(data.session)
                ==> r is UnknownSession && *final(self) == *old(self),
            data.session != Session::invalid_spec() && old(self).sessions.valid(data.session)
                && old(self).sessions.value_of(data.session).password != data.password ==> r
                is WrongPassword && *final(self) == *old(self),
            data.session != Session::invalid_spec() && old(self).sessions.valid(data.session)
                && old(self).sessions.value_of(data.session).password == data.password && old(self).sessions.value_of(data.session).players.entries().len() < 0xffff_fffe ==> r
                is Joined,
            r is WrongPassword ==> *final(self) == *old(self),
            r is UnknownSession ==> *final(self) == *old(self),
            r is Full ==> *final(self) == *old(self),
            r matches JoinOutcome::Joined(joined, info) ==> {
                &&& old(self).sessions.valid(data.session)
                &&& old(self).sessions.value_of(data.session).password == data.password
                &&& final(self).sessions.valid(data.session)
                &&& final(self).sessions.value_of(data.session).players.valid(joined)
                &&& final(self).sessions.value_of(data.session).players.value_of(joined)
                    == candidate
                &&& final(self).sessions.value_of(data.session).players.live_count() == old(self).sessions.value_of(data.session).players.live_count() + 1
                &&& info == (JoinInfo {
                    thread_id: old(self).id,
                    session: data.session,
                    joined,
                    udp_port: old(self).port,
                })
            },
            r matches JoinOutcome::SessionCreated(session, joined, info) ==> {
                &&& final(self).sessions.valid(session)
                &&& final(self).sessions.value_of(session).password == data.password
                &&& final(self).sessions.value_of(session).owner == joined
                &&& final(self).sessions.value_of(session).players.valid(joined)
                &&& final(self).sessions.value_of(session).players.value_of(joined) == candidate
                &&& final(self).sessions.value_of(session).players.live_count() == 1
                &&& info == (JoinInfo {
                    thread_id: old(self).id,
                    session,
                    joined,
                    udp_port: old(self).port,
                })
            },
    {
        if data.session.is_invalid() {
            if self.sessions.slot_count() >= 0xffff_fffe {
                return JoinOutcome::Full;
            }
            let (session, info) = self.create_session(data.password, candidate);
            let joined = info.joined;
            return JoinOutcome::SessionCreated(session, joined, info);
        }
        if !self.sessions.is_valid(data.session) {
            return JoinOutcome::UnknownSession;
        }
        if self.sessions.get(data.session).password != data.password {
            return JoinOutcome::WrongPassword;
        }
        if self.sessions.get(data.session).players.slot_count() >= 0xffff_fffe {
            return JoinOutcome::Full;
        }
        let session = self.sessions.get_mut(data.session);
        match session.accept(data.password, candidate) {
            Some(joined) => {
                let info = JoinInfo {
                    thread_id: self.id,
                    session: data.session,
                    joined,
                    udp_port: self.port,
                };
                JoinOutcome::Joined(joined, info)
            },
            None => {
                proof {
                    assert(false);
                }
                JoinOutcome::WrongPassword
            },
        }
    }

    /// Validates and relays one UDP datagram: the declared session and
    /// source must be live on this thread, and the datagram's source IP
    /// must match the member's TCP peer IP (the port may differ).  The
    /// member's UDP return address is learned from the datagram either
    /// way; a mismatched datagram is dropped.
    pub fn handle_udp_packet(&mut self, data: &Packet, src_ip: u128, src_port: u16) -> (r:
        UdpOutcome)
        requires
            old(self).wf(),
        ensures
            final(self).wf(),
            final(self).id == old(self).id,
            final(self).port == old(self).port,
            !old(self).sessions.valid(data.session) ==> r is UnknownSession && *final(self)
                == *old(self),
            old(self).sessions.valid(data.session) && !old(self).sessions.value_of(
                data.session,
            ).players.valid(data.source) ==> r is UnknownPlayer && *final(self) == *old(self),
            old(self).sessions.valid(data.session) && old(self).sessions.value_of(
                data.session,
            ).players.valid(data.source) && old(self).sessions.value_of(
                data.session,
            ).players.value_of(data.source).tcp_ip != src_ip ==> {
                let pre = old(self).sessions.value_of(data.session);
                let post = final(self).sessions.value_of(data.session);
                &&& r is AddressMismatch
                &&& final(self).sessions.valid(data.session)
                &&& post.owner == pre.owner
                &&& post.password == pre.password
                &&& post.players.entries() == pre.players.entries().update(
                    data.source.idx(),
                    Some(
                        PlayerConn {
                            udp_addr: Some((src_ip, src_port)),
                            ..pre.players.value_of(data.source)
                        },
                    ),
                )
                &&& forall|h: Session|
                    old(self).sessions.valid(h) && h.idx() != data.session.idx() ==> final(self).sessions.valid(h) && final(self).sessions.value_of(h) == old(self).sessions.value_of(h)
            },
            old(self).sessions.valid(data.session) && old(self).sessions.value_of(
                data.session,
            ).players.valid(data.source) && old(self).sessions.value_of(
                data.session,
            ).players.value_of(data.source).tcp_ip == src_ip ==> r is Relayed,
            r matches UdpOutcome::Relayed(plan) ==> {
                &&& old(self).sessions.valid(data.session)
                &&& final(self).sessions.valid(data.session)
                &&& old(self).sessions.value_of(data.session).players.valid(data.source)
                &&& old(self).sessions.value_of(data.session).players.value_of(
                    data.source,
                ).tcp_ip == src_ip
                &&& exists|mid: SessionEnt|
                    {
                        &&& #[trigger] relay_post(
                            mid,
                            final(self).sessions.value_of(data.session),
                            *data,
                            plan,
                        )
                        &&& mid.owner == old(self).sessions.value_of(data.session).owner
                        &&& mid.password == old(self).sessions.value_of(data.session).password
                        &&& mid.players.entries() == old(self).sessions.value_of(
                            data.session,
                        ).players.entries().update(
                            data.source.idx(),
                            Some(
                                PlayerConn {
                                    udp_addr: Some((src_ip, src_port)),
                                    ..old(self).sessions.value_of(data.session).players.value_of(
                                        data.source,
                                    )
                                },
                            ),
                        )
                    }
            },
    {
        if !self.sessions.is_valid(data.session) {
            return UdpOutcome::UnknownSession;
        }
        if !self.sessions.get(data.session).players.is_valid(data.source) {
            return UdpOutcome::UnknownPlayer;
        }
        let session = self.sessions.get_mut(data.session);
        let source_conn = session.players.get_mut(data.source);
        let matches_ip = source_conn.set_udp_addr(src_ip, src_port);
        if !matches_ip {
            return UdpOutcome::AddressMismatch;
        }
        let ghost mid = *session;
        let plan = session.send_package(data);
        proof {
            assert(self.sessions.valid(data.session));
            assert(self.sessions.value_of(data.session) == *session);
            assert(relay_post(mid, self.sessions.value_of(data.session), *data, plan));
            assert(mid.players.entries() == old(self).sessions.value_of(
                data.session,
            ).players.entries().update(
                data.source.idx(),
                Some(
                    PlayerConn {
                        udp_addr: Some((src_ip, src_port)),
                        ..old(self).sessions.value_of(data.session).players.value_of(data.source)
                    },
                ),
            ));
        }
        UdpOutcome::Relayed(plan)
    }

    /// Removes each queued member that is still live in the session;
    /// duplicates in the queue are tolerated, a vacated handle is skipped.
    pub fn apply_kick_queue(&mut self, session: Session, queue: &Vec<Player>)
        requires
            old(self).wf(),
            old(self).sessions.valid(session),
        ensures
            final(self).wf(),
            final(self).id == old(self).id,
            final(self).port == old(self).port,
            final(self).sessions.valid(session),
            forall|h: Session|
                old(self).sessions.valid(h) ==> final(self).sessions.valid(h),
            forall|i: int|
                #![trigger final(self).sessions.value_of(session).players.entries()[i]]
                0 <= i < final(self).sessions.value_of(session).players.entries().len() ==> {
                    let pre = old(self).sessions.value_of(session).players.entries();
                    let post = final(self).sessions.value_of(session).players.entries();
                    if exists|k: int|
                        0 <= k < queue@.len() && (#[trigger] queue@[k]).idx() == i {
                        post[i] is None
                    } else {
                        post[i] == pre[i]
                    }
                },
            final(self).sessions.value_of(session).players.entries().len() == old(self).sessions.value_of(session).players.entries().len(),
    {
        let session_ent = self.sessions.get_mut(session);
        let n = queue.len();
        let mut i: usize = 0;
        while i < n
            invariant
                i <= n,
                n == queue@.len(),
                session_ent.wf(),
                session_ent.players.entries().len() == old(self).sessions.value_of(session).players.entries().len(),
                forall|j: int|
                    #![trigger session_ent.players.entries()[j]]
                    0 <= j < session_ent.players.entries().len() ==> {
                        let pre = old(self).sessions.value_of(session).players.entries();
                        let post = session_ent.players.entries();
                        if exists|k: int|
                            0 <= k < i && (#[trigger] queue@[k]).idx() == j {
                            post[j] is None
                        } else {
                            post[j] == pre[j]
                        }
                    },
            decreases n - i,
        {
            let target = queue[i];
            if session_ent.players.is_valid(target) {
                session_ent.players.remove(target);
            }
            proof {
                assert forall|j: int|
                    #![trigger session_ent.players.entries()[j]]
                    0 <= j < session_ent.players.entries().len() implies {
                    let pre = old(self).sessions.value_of(session).players.entries();
                    let post = session_ent.players.entries();
                    if exists|k: int| 0 <= k < i + 1 && (#[trigger] queue@[k]).idx() == j {
                        post[j] is None
                    } else {
                        post[j] == pre[j]
                    }
                } by {
                    if exists|k: int| 0 <= k < i + 1 && (#[trigger] queue@[k]).idx() == j {
                        let k = choose|k: int|
                            0 <= k < i + 1 && (#[trigger] queue@[k]).idx() == j;
                        if k < i {
                            assert(exists|k2: int|
                                0 <= k2 < i && (#[trigger] queue@[k2]).idx() == j);
                        }
                    }
                }
            }
            i = i + 1;
        }
    }

    /// Removes every session whose player pool is empty and returns the
    /// reaped handles; occupied sessions are untouched.
    pub fn reap_empty_sessions(&mut self) -> (r: Vec<Session>)
        requires
            old(self).wf(),
        ensures
            final(self).wf(),
            final(self).id == old(self).id,
            final(self).port == old(self).port,
            final(self).sessions.entries().len() == old(self).sessions.entries().len(),
            forall|h: Session|
                #[trigger] old(self).sessions.valid(h) ==> if old(self).sessions.value_of(
                    h,
                ).players.live_count() == 0 {
                    !final(self).sessions.valid(h)
                } else {
                    final(self).sessions.valid(h) && final(self).sessions.value_of(h) == old(self).sessions.value_of(h)
                },
            forall|h: Session| !old(self).sessions.valid(h) ==> !final(self).sessions.valid(h),
    {
        let mut r: Vec<Session> = Vec::new();
        let all = self.sessions.handles();
        let n = all.len();
        let mut i: usize = 0;
        while i < n
            invariant
                i <= n,
                n == all@.len(),
                self.wf(),
                self.id == old(self).id,
                self.port == old(self).port,
                self.sessions.entries().len() == old(self).sessions.entries().len(),
                forall|j: int|
                    0 <= j < all@.len() ==> old(self).sessions.valid(#[trigger] all@[j]),
                forall|k: int|
                    0 <= k < old(self).sessions.entries().len() && (
                    #[trigger] old(self).sessions.entries()[k]) is Some ==> exists|j: int|
                        0 <= j < all@.len() && all@[j].idx() == k,
                forall|j1: int, j2: int|
                    0 <= j1 < j2 < all@.len() ==> (#[trigger] all@[j1]).idx() < (
                    #[trigger] all@[j2]).idx(),
                forall|k: int|
                    #![trigger old(self).sessions.entries()[k]]
                    0 <= k < old(self).sessions.entries().len() ==> {
                        let pre = old(self).sessions.entries();
                        let post = self.sessions.entries();
                        if pre[k] is Some && (exists|j: int|
                            0 <= j < i && (#[trigger] all@[j]).idx() == k)
                            && pre[k]->Some_0.players.live_count() == 0 {
                            post[k] is None
                        } else {
                            post[k] == pre[k]
                        }
                    },
            decreases n - i,
        {
            let h = all[i];
            let ghost pre_entries = self.sessions.entries();
            proof {
                Session::lemma_idx_bounds(h);
                assert(old(self).sessions.entries()[h.idx()] is Some);
                assert(self.sessions.entries()[h.idx()] == old(self).sessions.entries()[h.idx()]
                    || self.sessions.entries()[h.idx()] is None) by {
                    if exists|j: int| 0 <= j < i && (#[trigger] all@[j]).idx() == h.idx() {
                    }
                }
            }
            if self.sessions.is_valid(h) {
                let count = self.sessions.get(h).players.count();
                if count == 0 {
                    self.sessions.remove(h);
                    r.push(h);
                }
            }
            proof {
                assert forall|k: int|
                    #![trigger old(self).sessions.entries()[k]]
                    0 <= k < old(self).sessions.entries().len() implies {
                    let pre = old(self).sessions.entries();
                    let post = self.sessions.entries();
                    if pre[k] is Some && (exists|j: int|
                        0 <= j < i + 1 && (#[trigger] all@[j]).idx() == k)
                        && pre[k]->Some_0.players.live_count() == 0 {
                        post[k] is None
                    } else {
                        post[k] == pre[k]
                    }
                } by {
                    if old(self).sessions.entries()[k] is Some && (exists|j: int|
                        0 <= j < i + 1 && (#[trigger] all@[j]).idx() == k) {
                        let j = choose|j: int| 0 <= j < i + 1 && (#[trigger] all@[j]).idx() == k;
                        if j < i {
                            assert(exists|j2: int|
                                0 <= j2 < i && (#[trigger] all@[j2]).idx() == k);
                        }
                    }
                }
            }
            i = i + 1;
        }
        proof {
            assert forall|h: Session| #[trigger]
                old(self).sessions.valid(h) implies if old(self).sessions.value_of(
                h,
            ).players.live_count() == 0 {
                !final(self).sessions.valid(h)
            } else {
                final(self).sessions.valid(h) && final(self).sessions.value_of(h) == old(self).sessions.value_of(h)
            } by {
                Session::lemma_idx_bounds(h);
                let k = h.idx();
                assert(exists|j: int| 0 <= j < all@.len() && all@[j].idx() == k);
            }
        }
        r
    }
}

} // verus!
