//! Sessions: password-gated groups of connected players, owning packet
//! fan-out and kick authority.
//!
//! The socket work stays outside the crate: these functions decide who is
//! admitted, who is removed and who receives a packet, and hand the caller
//! a plan of sends to perform.

use crate::pool::PoolStore;
use crate::protocol::KICK_REQUEST_OC;
use crate::protocol::Packet;
use crate::protocol::Player;
use crate::store::Access;
use vstd::prelude::*;

verus! {

/// A connection is torn down after this long without a TCP read:
/// ten minutes, in nanoseconds.
pub const INACTIVE_NANOS: u64 = 600_000_000_000;

/// The server-side state of one player's connection: an opaque token by
/// which the I/O layer finds the socket, the TCP peer address, the moment
/// of the last TCP read, and the learned UDP return address.
#[derive(Clone, Copy, Debug)]
pub struct PlayerConn {
    pub conn: u64,
    pub tcp_ip: u128,
    pub last_packet: u64,
    pub udp_addr: Option<(u128, u16)>,
}

impl PlayerConn {
    pub fn new(conn: u64, tcp_ip: u128, now: u64) -> (r: Self)
        ensures
            r.conn == conn,
            r.tcp_ip == tcp_ip,
            r.last_packet == now,
            r.udp_addr is None,
    {
        PlayerConn { conn, tcp_ip, last_packet: now, udp_addr: None }
    }

    /// Learns the UDP return address and reports whether its IP matches
    /// the TCP peer's IP; the port need not match.  A mismatch means the
    /// datagram must be dropped, though the address stays recorded.
    pub fn set_udp_addr(&mut self, ip: u128, port: u16) -> (r: bool)
        ensures
            final(self).udp_addr == Some((ip, port)),
            final(self).conn == old(self).conn,
            final(self).tcp_ip == old(self).tcp_ip,
            final(self).last_packet == old(self).last_packet,
            r == (ip == old(self).tcp_ip),
    {
        self.udp_addr = Some((ip, port));
        ip == self.tcp_ip
    }

    /// Records a TCP read at `now`.
    pub fn touch(&mut self, now: u64)
        ensures
            final(self).last_packet == now,
            final(self).conn == old(self).conn,
            final(self).tcp_ip == old(self).tcp_ip,
            final(self).udp_addr == old(self).udp_addr,
    {
        self.last_packet = now;
    }

    /// Whether the connection has been silent past the ten-minute
    /// threshold at time `now`.
    pub fn is_inactive(&self, now: u64) -> (r: bool)
        requires
            now >= self.last_packet,
        ensures
            r == (now - self.last_packet > INACTIVE_NANOS),
    {
        now - self.last_packet > INACTIVE_NANOS
    }
}

/// What became of a kick request.
pub enum KickOutcome {
    /// The requester is not the session owner; membership is unchanged.
    NotOwner,
    /// The named target is not a live member; membership is unchanged.
    InvalidTarget,
    /// The target was removed; its connection state is handed back so the
    /// caller can notify and close it.
    Removed(PlayerConn),
}

/// The sends a relayed packet asks of the I/O layer.
pub struct RelayPlan {
    /// A member removed by a kick request carried in this packet.
    pub kicked: Option<(Player, PlayerConn)>,
    /// A kick request was present but refused (no target, wrong requester,
    /// or a vacant target).
    pub kick_denied: bool,
    /// Who receives the relayed bytes, in pool order for a broadcast, in
    /// request order for an explicit target list.
    pub recipients: Vec<Player>,
    /// Whether to send over TCP (else UDP).
    pub via_tcp: bool,
}

/// A password-gated group of players.  The owner is fixed at creation and
/// never transfers; a session that loses its last member is reaped by the
/// worker at the end of the tick.
pub struct SessionEnt {
    pub players: PoolStore<Player, PlayerConn>,
    pub password: u128,
    pub owner: Player,
}

/// `r` is the fan-out of a packet from `source` with target list `targets`
/// in session `s`: for an empty list, exactly the live members other than
/// the source, in pool order; for an explicit list, exactly its live
/// entries, in list order.
pub open spec fn routed_recipients(
    s: SessionEnt,
    source: Player,
    targets: Seq<Player>,
    r: Seq<Player>,
) -> bool {
    &&& targets.len() == 0 ==> {
        &&& forall|j: int|
            0 <= j < r.len() ==> s.players.valid(#[trigger] r[j]) && r[j].idx() != source.idx()
        &&& forall|i: int|
            0 <= i < s.players.entries().len() && (#[trigger] s.players.entries()[i]) is Some && i
                != source.idx() ==> exists|j: int| 0 <= j < r.len() && r[j].idx() == i
        &&& forall|j1: int, j2: int|
            0 <= j1 < j2 < r.len() ==> (#[trigger] r[j1]).idx() < (#[trigger] r[j2]).idx()
    }
    &&& targets.len() > 0 ==> r == targets.filter(|t: Player| s.players.valid(t))
}

/// How `send_package` transforms a session and what it asks of the I/O
/// layer: a kick request is honoured only from the owner against a live
/// target, everything else leaves the session unchanged, and the
/// recipients are computed over the resulting membership.
pub open spec fn relay_post(pre: SessionEnt, post: SessionEnt, data: Packet, r: RelayPlan) -> bool {
    &&& post.password == pre.password
    &&& post.owner == pre.owner
    &&& r.via_tcp == data.tcp
    &&& data.op_code != KICK_REQUEST_OC ==> post == pre && r.kicked is None && !r.kick_denied
    &&& data.op_code == KICK_REQUEST_OC && data.targets@.len() == 0 ==> post == pre
        && r.kicked is None && r.kick_denied
    &&& data.op_code == KICK_REQUEST_OC && data.targets@.len() > 0 && data.source != pre.owner
        ==> post == pre && r.kicked is None && r.kick_denied
    &&& data.op_code == KICK_REQUEST_OC && data.targets@.len() > 0 && data.source == pre.owner
        && !pre.players.valid(data.targets@[0]) ==> post == pre && r.kicked is None
        && r.kick_denied
    &&& data.op_code == KICK_REQUEST_OC && data.targets@.len() > 0 && data.source == pre.owner
        && pre.players.valid(data.targets@[0]) ==> {
        &&& r.kicked == Some((data.targets@[0], pre.players.value_of(data.targets@[0])))
        &&& !r.kick_denied
        &&& post.players.entries() == pre.players.entries().update(
            data.targets@[0].idx(),
            None::<PlayerConn>,
        )
    }
    &&& routed_recipients(post, data.source, data.targets@, r.recipients@)
}

impl SessionEnt {
    pub open spec fn wf(&self) -> bool {
        self.players.wf()
    }

    /// A new session whose first member, in slot zero, is the owner.
    pub fn new(password: u128, owner: PlayerConn) -> (r: Self)
        ensures
            r.wf(),
            r.password == password,
            r.owner.idx() == 0,
            r.players.valid(r.owner),
            r.players.value_of(r.owner) == owner,
            r.players.live_count() == 1,
            r.players.entries().len() == 1,
    {
        let mut players = PoolStore::<Player, PlayerConn>::new();
        let handle = players.push(owner);
        SessionEnt { players, password, owner: handle }
    }

    pub fn owner(&self) -> (r: Player)
        ensures
            r == self.owner,
    {
        self.owner
    }

    /// Gates membership on the password: a mismatch never admits the
    /// candidate and leaves the player pool untouched; a match stores the
    /// candidate and returns its new handle.  Notifying the members is the
    /// caller's task; if the new member cannot be reached the caller
    /// removes it again.
    pub fn accept(&mut self, password: u128, candidate: PlayerConn) -> (r: Option<Player>)
        requires
            old(self).wf(),
            old(self).players.entries().len() < 0xffff_fffe,
        ensures
            final(self).wf(),
            final(self).password == old(self).password,
            final(self).owner == old(self).owner,
            password != old(self).password ==> r is None && *final(self) == *old(self),
            password == old(self).password ==> {
                &&& r is Some
                &&& final(self).players.valid(r->Some_0)
                &&& final(self).players.value_of(r->Some_0) == candidate
                &&& final(self).players.live_count() == old(self).players.live_count() + 1
                &&& old(self).players.free_list().len() > 0 ==> {
                    &&& r->Some_0.idx() == old(self).players.free_list().last()
                    &&& final(self).players.entries() == old(self).players.entries().update(
                        r->Some_0.idx(),
                        Some(candidate),
                    )
                    &&& final(self).players.free_list() == old(self).players.free_list().drop_last()
                }
                &&& old(self).players.free_list().len() == 0 ==> {
                    &&& r->Some_0.idx() == old(self).players.entries().len()
                    &&& final(self).players.entries() == old(self).players.entries().push(
                        Some(candidate),
                    )
                    &&& final(self).players.free_list() == old(self).players.free_list()
                }
            },
    {
        if self.password != password {
            return None;
        }
        let handle = self.players.push(candidate);
        Some(handle)
    }

    /// Removes `target` if and only if `by` is the stored owner handle and
    /// `target` is a live member; any other request leaves membership
    /// unchanged.
    pub fn kick(&mut self, by: Player, target: Player) -> (r: KickOutcome)
        requires
            old(self).wf(),
        ensures
            final(self).wf(),
            final(self).password == old(self).password,
            final(self).owner == old(self).owner,
            by != old(self).owner ==> r is NotOwner && *final(self) == *old(self),
            by == old(self).owner && !old(self).players.valid(target) ==> r is InvalidTarget
                && *final(self) == *old(self),
            by == old(self).owner && old(self).players.valid(target) ==> {
                &&& r == KickOutcome::Removed(old(self).players.value_of(target))
                &&& final(self).players.entries() == old(self).players.entries().update(
                    target.idx(),
                    None::<PlayerConn>,
                )
                &&& final(self).players.live_count() == old(self).players.live_count() - 1
            },
    {
        if by != self.owner {
            return KickOutcome::NotOwner;
        }
        if !self.players.is_valid(target) {
            return KickOutcome::InvalidTarget;
        }
        let removed = self.players.remove(target);
        KickOutcome::Removed(removed)
    }

    /// The members a relayed packet reaches.  An empty target list is a
    /// broadcast: every live member except the source, in pool order.  An
    /// explicit list reaches exactly its live entries, in list order;
    /// vacant targets are silently skipped.
    pub fn route_recipients(&self, source: Player, targets: &Vec<Player>) -> (r: Vec<Player>)
        requires
            self.wf(),
        ensures
            targets@.len() == 0 ==> {
                &&& forall|j: int|
                    0 <= j < r@.len() ==> self.players.valid(#[trigger] r@[j]) && r@[j].idx()
                        != source.idx()
                &&& forall|i: int|
                    0 <= i < self.players.entries().len() && (
                    #[trigger] self.players.entries()[i]) is Some && i != source.idx()
                        ==> exists|j: int| 0 <= j < r@.len() && r@[j].idx() == i
                &&& forall|j1: int, j2: int|
                    0 <= j1 < j2 < r@.len() ==> (#[trigger] r@[j1]).idx() < (
                    #[trigger] r@[j2]).idx()
            },
            targets@.len() > 0 ==> r@ == targets@.filter(|t: Player| self.players.valid(t)),
    {
        let mut r: Vec<Player> = Vec::new();
        if targets.len() == 0 {
            r = self.players.handles_excluding(source);
        } else {
            let n = targets.len();
            let mut i: usize = 0;
            proof {
                reveal(Seq::filter);
                assert(targets@.take(0) =~= Seq::<Player>::empty());
            }
            while i < n
                invariant
                    i <= n,
                    n == targets@.len(),
                    self.wf(),
                    r@ == targets@.take(i as int).filter(|t: Player| self.players.valid(t)),
                decreases n - i,
            {
                let t = targets[i];
                let valid = self.players.is_valid(t);
                proof {
                    reveal(Seq::filter);
                    assert(targets@.take(i + 1).drop_last() =~= targets@.take(i as int));
                    assert(targets@.take(i + 1).last() == targets@[i as int]);
                }
                if valid {
                    r.push(t);
                }
                i = i + 1;
            }
            proof {
                assert(targets@.take(n as int) =~= targets@);
            }
        }
        r
    }

    /// Applies a relayed packet to the session: a kick request is executed
    /// first (only the owner may kick, and only a live target is removed),
    /// then the recipients of the relay are computed over the resulting
    /// membership.  The caller performs the sends and removes every
    /// recipient whose send fails.
    pub fn send_package(&mut self, data: &Packet) -> (r: RelayPlan)
        requires
            old(self).wf(),
        ensures
            final(self).wf(),
            relay_post(*old(self), *final(self), *data, r),
    {
        let mut kicked: Option<(Player, PlayerConn)> = None;
        let mut kick_denied = false;
        if data.op_code == KICK_REQUEST_OC {
            if data.targets.len() == 0 {
                kick_denied = true;
            } else {
                let target = data.targets[0];
                match self.kick(data.source, target) {
                    KickOutcome::NotOwner => {
                        kick_denied = true;
                    },
                    KickOutcome::InvalidTarget => {
                        kick_denied = true;
                    },
                    KickOutcome::Removed(conn) => {
                        kicked = Some((target, conn));
                    },
                }
            }
        }
        let recipients = self.route_recipients(data.source, &data.targets);
        proof {
            if data.targets@.len() == 0 {
                assert forall|i: int|
                    0 <= i < self.players.entries().len() && (
                #[trigger] self.players.entries()[i]) is Some && i
                    != data.source.idx() implies exists|j: int|
                    0 <= j < recipients@.len() && recipients@[j].idx() == i by {
                    let j = choose|j: int|
                        0 <= j < recipients@.len() && recipients@[j].idx() == i;
                    assert(0 <= j < recipients@.len() && recipients@[j].idx() == i);
                }
            }
        }
        let plan = RelayPlan { kicked, kick_denied, recipients, via_tcp: data.tcp };
        proof {
            if data.targets@.len() == 0 {
                assert(forall|j: int|
                    0 <= j < plan.recipients@.len() ==> self.players.valid(
                        #[trigger] plan.recipients@[j],
                    ) && plan.recipients@[j].idx() != data.source.idx());
                assert forall|i: int|
                    0 <= i < self.players.entries().len() && (
                #[trigger] self.players.entries()[i]) is Some && i
                    != data.source.idx() implies exists|j: int|
                    0 <= j < plan.recipients@.len() && plan.recipients@[j].idx() == i by {
                    let j = choose|j: int|
                        0 <= j < plan.recipients@.len() && plan.recipients@[j].idx() == i;
                    assert(0 <= j < plan.recipients@.len() && plan.recipients@[j].idx() == i);
                }
            }
        }
        plan
    }
}

} // verus!
