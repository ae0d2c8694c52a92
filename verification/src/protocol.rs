//! The wire protocol: pool handles, reserved opcodes, and the records that
//! cross the network, each with its verified codec.

use crate::codec::Bitwise;
use crate::store::Access;
use crate::store::Invalid;
use vstd::prelude::*;

verus! {

/// Opcode of an error report sent to a client.
pub const ERROR_OC: u32 = 0;

/// Opcode of the join/roster notification sent to session members.
pub const PLAYER_JOIN_OC: u32 = 1;

/// Opcode of the join handshake request.
pub const JOIN_REQUEST_OC: u32 = 2;

/// Opcode of a relay packet asking for a member's removal.
pub const KICK_REQUEST_OC: u32 = 3;

/// The client-side message kinds of the game layer, carried in relay
/// payloads; a one-byte discriminant on the wire.
#[derive(Clone, Copy, Debug, PartialEq, Eq, Structural)]
pub enum OPCode {
    Idle,
    JoinGame,
    Main,
}

impl Default for OPCode {
    fn default() -> (r: Self)
        ensures
            r == OPCode::Idle,
    {
        OPCode::Idle
    }
}

impl Bitwise for OPCode {
    open spec fn enc(&self) -> Seq<u8> {
        match *self {
            OPCode::Idle => seq![0u8],
            OPCode::JoinGame => seq![1u8],
            OPCode::Main => seq![2u8],
        }
    }

    open spec fn wf(&self) -> bool {
        true
    }

    open spec fn eqv(&self, other: &Self) -> bool {
        self == other
    }

    open spec fn dec_ok(s: Seq<u8>) -> bool {
        s.len() >= 1 && s[0] < 3
    }

    open spec fn dec_len(s: Seq<u8>) -> int {
        1
    }

    open spec fn decodes_to(s: Seq<u8>, v: Self) -> bool {
        &&& s.len() >= 1
        &&& s[0] == 0 ==> v is Idle
        &&& s[0] == 1 ==> v is JoinGame
        &&& s[0] == 2 ==> v is Main
        &&& s[0] < 3
    }

    proof fn lemma_enc_decodes(v: Self, rest: Seq<u8>) {
        assert((v.enc() + rest)[0] == v.enc()[0]);
    }

    proof fn lemma_decode_deterministic(s: Seq<u8>, a: Self, b: Self) {
    }

    proof fn lemma_dec_len_bounds(s: Seq<u8>) {
    }

    fn encode(&self, buffer: &mut Vec<u8>) {
        let tag: u8 = match self {
            OPCode::Idle => 0,
            OPCode::JoinGame => 1,
            OPCode::Main => 2,
        };
        buffer.push(tag);
        proof {
            assert(final(buffer)@ =~= old(buffer)@ + self.enc());
        }
    }

    fn decode(&mut self, cursor: &mut usize, buffer: &[u8]) -> (r: Option<()>) {
        let ghost c0 = *cursor as int;
        let ghost s = buffer@.skip(c0);
        let blen = buffer.len();
        if blen - *cursor < 1 {
            return None;
        }
        let tag = buffer[*cursor];
        proof {
            assert(s[0] == tag);
        }
        if tag == 0 {
            *self = OPCode::Idle;
        } else if tag == 1 {
            *self = OPCode::JoinGame;
        } else if tag == 2 {
            *self = OPCode::Main;
        } else {
            return None;
        }
        *cursor = *cursor + 1;
        Some(())
    }
}

/// What the relay forwards of a packet: the declared session, transport
/// flag and target list are validation input and are stripped; recipients
/// see only the opcode, the sending member and the payload.
pub fn strip_for_relay(packet: &Packet) -> (r: ServerPacket)
    ensures
        r.op_code == packet.op_code,
        r.source == packet.source,
        r.data@ == packet.data@,
{
    ServerPacket { op_code: packet.op_code, source: packet.source, data: packet.data.clone() }
}

/// A stable handle into a player pool.  The all-ones value denotes
/// "invalid/none"; equality is index equality.
#[derive(Clone, Copy, Debug, PartialEq, Eq, Structural)]
pub struct Player(pub u32);

/// A stable handle into a session pool, with the same conventions.
#[derive(Clone, Copy, Debug, PartialEq, Eq, Structural)]
pub struct Session(pub u32);

impl Access for Player {
    open spec fn idx(&self) -> int {
        self.0 as int
    }

    proof fn lemma_idx_bounds(a: Self) {
    }

    proof fn lemma_idx_injective(a: Self, b: Self) {
    }

    fn new(index: usize) -> (r: Self) {
        Player(index as u32)
    }

    fn index(&self) -> (r: usize) {
        self.0 as usize
    }
}

impl Access for Session {
    open spec fn idx(&self) -> int {
        self.0 as int
    }

    proof fn lemma_idx_bounds(a: Self) {
    }

    proof fn lemma_idx_injective(a: Self, b: Self) {
    }

    fn new(index: usize) -> (r: Self) {
        Session(index as u32)
    }

    fn index(&self) -> (r: usize) {
        self.0 as usize
    }
}

impl Invalid for Player {
    /// The reserved "no player" handle.
    open spec fn invalid_spec() -> Player {
        Player(0xffff_ffff)
    }

    fn invalid() -> (r: Player) {
        Player(0xffff_ffff)
    }

    fn is_invalid(&self) -> (r: bool) {
        self.0 == 0xffff_ffff
    }
}

impl Invalid for Session {
    /// The reserved "no session" handle; on the wire it asks for a new
    /// session.
    open spec fn invalid_spec() -> Session {
        Session(0xffff_ffff)
    }

    fn invalid() -> (r: Session) {
        Session(0xffff_ffff)
    }

    fn is_invalid(&self) -> (r: bool) {
        self.0 == 0xffff_ffff
    }
}

impl Default for Player {
    fn default() -> (r: Self)
        ensures
            r == Player::invalid_spec(),
    {
        Player(0xffff_ffff)
    }
}

impl Default for Session {
    fn default() -> (r: Self)
        ensures
            r == Session::invalid_spec(),
    {
        Session(0xffff_ffff)
    }
}

impl Bitwise for Player {
    open spec fn enc(&self) -> Seq<u8> {
        self.0.enc()
    }

    open spec fn wf(&self) -> bool {
        true
    }

    open spec fn eqv(&self, other: &Self) -> bool {
        self == other
    }

    open spec fn dec_ok(s: Seq<u8>) -> bool {
        u32::dec_ok(s)
    }

    open spec fn dec_len(s: Seq<u8>) -> int {
        u32::dec_len(s)
    }

    open spec fn decodes_to(s: Seq<u8>, v: Self) -> bool {
        u32::decodes_to(s, v.0)
    }

    proof fn lemma_enc_decodes(v: Self, rest: Seq<u8>) {
        u32::lemma_enc_decodes(v.0, rest);
    }

    proof fn lemma_decode_deterministic(s: Seq<u8>, a: Self, b: Self) {
        u32::lemma_decode_deterministic(s, a.0, b.0);
    }

    proof fn lemma_dec_len_bounds(s: Seq<u8>) {
        u32::lemma_dec_len_bounds(s);
    }

    fn encode(&self, buffer: &mut Vec<u8>) {
        self.0.encode(buffer);
    }

    fn decode(&mut self, cursor: &mut usize, buffer: &[u8]) -> (r: Option<()>) {
        self.0.decode(cursor, buffer)
    }
}

impl Bitwise for Session {
    open spec fn enc(&self) -> Seq<u8> {
        self.0.enc()
    }

    open spec fn wf(&self) -> bool {
        true
    }

    open spec fn eqv(&self, other: &Self) -> bool {
        self == other
    }

    open spec fn dec_ok(s: Seq<u8>) -> bool {
        u32::dec_ok(s)
    }

    open spec fn dec_len(s: Seq<u8>) -> int {
        u32::dec_len(s)
    }

    open spec fn decodes_to(s: Seq<u8>, v: Self) -> bool {
        u32::decodes_to(s, v.0)
    }

    proof fn lemma_enc_decodes(v: Self, rest: Seq<u8>) {
        u32::lemma_enc_decodes(v.0, rest);
    }

    proof fn lemma_decode_deterministic(s: Seq<u8>, a: Self, b: Self) {
        u32::lemma_decode_deterministic(s, a.0, b.0);
    }

    proof fn lemma_dec_len_bounds(s: Seq<u8>) {
        u32::lemma_dec_len_bounds(s);
    }

    fn encode(&self, buffer: &mut Vec<u8>) {
        self.0.encode(buffer);
    }

    fn decode(&mut self, cursor: &mut usize, buffer: &[u8]) -> (r: Option<()>) {
        self.0.decode(cursor, buffer)
    }
}

/// The answer sent to a newly admitted client: where it landed and which
/// UDP port its worker thread listens on.
#[derive(Clone, Copy, Debug, PartialEq, Eq, Structural)]
pub struct JoinInfo {
    pub thread_id: u32,
    pub session: Session,
    pub joined: Player,
    pub udp_port: u16,
}

impl Default for JoinInfo {
    fn default() -> (r: Self)
        ensures
            r.thread_id == 0,
            r.session == Session::invalid_spec(),
            r.joined == Player::invalid_spec(),
            r.udp_port == 0,
    {
        JoinInfo {
            thread_id: 0,
            session: Session(0xffff_ffff),
            joined: Player(0xffff_ffff),
            udp_port: 0,
        }
    }
}

impl Bitwise for JoinInfo {
    open spec fn enc(&self) -> Seq<u8> {
        self.thread_id.enc() + (self.session.enc() + (self.joined.enc() + self.udp_port.enc()))
    }

    open spec fn wf(&self) -> bool {
        true
    }

    open spec fn eqv(&self, other: &Self) -> bool {
        self == other
    }

    open spec fn dec_ok(s: Seq<u8>) -> bool {
        let s1 = s.skip(u32::dec_len(s));
        let s2 = s1.skip(Session::dec_len(s1));
        let s3 = s2.skip(Player::dec_len(s2));
        &&& u32::dec_ok(s)
        &&& Session::dec_ok(s1)
        &&& Player::dec_ok(s2)
        &&& u16::dec_ok(s3)
    }

    open spec fn dec_len(s: Seq<u8>) -> int {
        let s1 = s.skip(u32::dec_len(s));
        let s2 = s1.skip(Session::dec_len(s1));
        let s3 = s2.skip(Player::dec_len(s2));
        u32::dec_len(s) + Session::dec_len(s1) + Player::dec_len(s2) + u16::dec_len(s3)
    }

    open spec fn decodes_to(s: Seq<u8>, v: Self) -> bool {
        let s1 = s.skip(u32::dec_len(s));
        let s2 = s1.skip(Session::dec_len(s1));
        let s3 = s2.skip(Player::dec_len(s2));
        &&& u32::decodes_to(s, v.thread_id)
        &&& Session::decodes_to(s1, v.session)
        &&& Player::decodes_to(s2, v.joined)
        &&& u16::decodes_to(s3, v.udp_port)
    }

    proof fn lemma_enc_decodes(v: Self, rest: Seq<u8>) {
        let e0 = v.thread_id.enc();
        let e1 = v.session.enc();
        let e2 = v.joined.enc();
        let e3 = v.udp_port.enc();
        let s = v.enc() + rest;
        let r0 = e1 + (e2 + (e3 + rest));
        let r1 = e2 + (e3 + rest);
        let r2 = e3 + rest;
        assert(s =~= e0 + r0);
        u32::lemma_enc_decodes(v.thread_id, r0);
        assert(s.skip(u32::dec_len(s)) =~= r0);
        Session::lemma_enc_decodes(v.session, r1);
        assert(r0.skip(Session::dec_len(r0)) =~= r1);
        Player::lemma_enc_decodes(v.joined, r2);
        assert(r1.skip(Player::dec_len(r1)) =~= r2);
        u16::lemma_enc_decodes(v.udp_port, rest);
    }

    proof fn lemma_decode_deterministic(s: Seq<u8>, a: Self, b: Self) {
        let s1 = s.skip(u32::dec_len(s));
        let s2 = s1.skip(Session::dec_len(s1));
        let s3 = s2.skip(Player::dec_len(s2));
        u32::lemma_decode_deterministic(s, a.thread_id, b.thread_id);
        Session::lemma_decode_deterministic(s1, a.session, b.session);
        Player::lemma_decode_deterministic(s2, a.joined, b.joined);
        u16::lemma_decode_deterministic(s3, a.udp_port, b.udp_port);
    }

    proof fn lemma_dec_len_bounds(s: Seq<u8>) {
        let s1 = s.skip(u32::dec_len(s));
        let s2 = s1.skip(Session::dec_len(s1));
        let s3 = s2.skip(Player::dec_len(s2));
        u32::lemma_dec_len_bounds(s);
        Session::lemma_dec_len_bounds(s1);
        Player::lemma_dec_len_bounds(s2);
        u16::lemma_dec_len_bounds(s3);
    }

    fn encode(&self, buffer: &mut Vec<u8>) {
        self.thread_id.encode(buffer);
        self.session.encode(buffer);
        self.joined.encode(buffer);
        self.udp_port.encode(buffer);
        proof {
            assert(final(buffer)@ =~= old(buffer)@ + self.enc());
        }
    }

    fn decode(&mut self, cursor: &mut usize, buffer: &[u8]) -> (r: Option<()>) {
        let ghost c0 = *cursor as int;
        let ghost s = buffer@.skip(c0);
        let saved: usize = *cursor;
        if self.thread_id.decode(cursor, buffer).is_none() {
            *cursor = saved;
            return None;
        }
        let ghost s1 = s.skip(u32::dec_len(s));
        proof {
            u32::lemma_dec_len_bounds(s);
            assert(buffer@.skip(*cursor as int) =~= s1);
        }
        if self.session.decode(cursor, buffer).is_none() {
            *cursor = saved;
            return None;
        }
        let ghost s2 = s1.skip(Session::dec_len(s1));
        proof {
            Session::lemma_dec_len_bounds(s1);
            assert(buffer@.skip(*cursor as int) =~= s2);
        }
        if self.joined.decode(cursor, buffer).is_none() {
            *cursor = saved;
            return None;
        }
        let ghost s3 = s2.skip(Player::dec_len(s2));
        proof {
            Player::lemma_dec_len_bounds(s2);
            assert(buffer@.skip(*cursor as int) =~= s3);
        }
        if self.udp_port.decode(cursor, buffer).is_none() {
            *cursor = saved;
            return None;
        }
        Some(())
    }
}

/// A client's join handshake: the session password, the session to join
/// (the invalid handle asks for a new session) and the worker thread to
/// join on (the all-ones value asks for the least-loaded one).
#[derive(Clone, Copy, Debug, PartialEq, Eq, Structural)]
pub struct JoinRequestData {
    pub password: u128,
    pub session: Session,
    pub thread: u32,
}

impl JoinRequestData {
    /// A request for a fresh session on the least-loaded thread.
    pub fn create(password: u128) -> (r: Self)
        ensures
            r.password == password,
            r.session == Session::invalid_spec(),
            r.thread == 0xffff_ffffu32,
    {
        JoinRequestData { password, session: Session(0xffff_ffff), thread: 0xffff_ffff }
    }
}

impl Default for JoinRequestData {
    fn default() -> (r: Self)
        ensures
            r.password == 0,
            r.session == Session::invalid_spec(),
            r.thread == 0,
    {
        JoinRequestData { password: 0, session: Session(0xffff_ffff), thread: 0 }
    }
}

impl Bitwise for JoinRequestData {
    open spec fn enc(&self) -> Seq<u8> {
        self.password.enc() + (self.session.enc() + self.thread.enc())
    }

    open spec fn wf(&self) -> bool {
        true
    }

    open spec fn eqv(&self, other: &Self) -> bool {
        self == other
    }

    open spec fn dec_ok(s: Seq<u8>) -> bool {
        let s1 = s.skip(u128::dec_len(s));
        let s2 = s1.skip(Session::dec_len(s1));
        &&& u128::dec_ok(s)
        &&& Session::dec_ok(s1)
        &&& u32::dec_ok(s2)
    }

    open spec fn dec_len(s: Seq<u8>) -> int {
        let s1 = s.skip(u128::dec_len(s));
        let s2 = s1.skip(Session::dec_len(s1));
        u128::dec_len(s) + Session::dec_len(s1) + u32::dec_len(s2)
    }

    open spec fn decodes_to(s: Seq<u8>, v: Self) -> bool {
        let s1 = s.skip(u128::dec_len(s));
        let s2 = s1.skip(Session::dec_len(s1));
        &&& u128::decodes_to(s, v.password)
        &&& Session::decodes_to(s1, v.session)
        &&& u32::decodes_to(s2, v.thread)
    }

    proof fn lemma_enc_decodes(v: Self, rest: Seq<u8>) {
        let e0 = v.password.enc();
        let e1 = v.session.enc();
        let e2 = v.thread.enc();
        let s = v.enc() + rest;
        let r0 = e1 + (e2 + rest);
        let r1 = e2 + rest;
        assert(s =~= e0 + r0);
        u128::lemma_enc_decodes(v.password, r0);
        assert(s.skip(u128::dec_len(s)) =~= r0);
        Session::lemma_enc_decodes(v.session, r1);
        assert(r0.skip(Session::dec_len(r0)) =~= r1);
        u32::lemma_enc_decodes(v.thread, rest);
    }

    proof fn lemma_decode_deterministic(s: Seq<u8>, a: Self, b: Self) {
        let s1 = s.skip(u128::dec_len(s));
        let s2 = s1.skip(Session::dec_len(s1));
        u128::lemma_decode_deterministic(s, a.password, b.password);
        Session::lemma_decode_deterministic(s1, a.session, b.session);
        u32::lemma_decode_deterministic(s2, a.thread, b.thread);
    }

    proof fn lemma_dec_len_bounds(s: Seq<u8>) {
        let s1 = s.skip(u128::dec_len(s));
        let s2 = s1.skip(Session::dec_len(s1));
        u128::lemma_dec_len_bounds(s);
        Session::lemma_dec_len_bounds(s1);
        u32::lemma_dec_len_bounds(s2);
    }

    fn encode(&self, buffer: &mut Vec<u8>) {
        self.password.encode(buffer);
        self.session.encode(buffer);
        self.thread.encode(buffer);
        proof {
            assert(final(buffer)@ =~= old(buffer)@ + self.enc());
        }
    }

    fn decode(&mut self, cursor: &mut usize, buffer: &[u8]) -> (r: Option<()>) {
        let ghost c0 = *cursor as int;
        let ghost s = buffer@.skip(c0);
        let saved: usize = *cursor;
        if self.password.decode(cursor, buffer).is_none() {
            *cursor = saved;
            return None;
        }
        let ghost s1 = s.skip(u128::dec_len(s));
        proof {
            u128::lemma_dec_len_bounds(s);
            assert(buffer@.skip(*cursor as int) =~= s1);
        }
        if self.session.decode(cursor, buffer).is_none() {
            *cursor = saved;
            return None;
        }
        let ghost s2 = s1.skip(Session::dec_len(s1));
        proof {
            Session::lemma_dec_len_bounds(s1);
            assert(buffer@.skip(*cursor as int) =~= s2);
        }
        if self.thread.decode(cursor, buffer).is_none() {
            *cursor = saved;
            return None;
        }
        Some(())
    }
}

/// What a relayed packet looks like to its recipients: the opcode, the
/// sending member, and the payload — session, transport flag and target
/// list are stripped before fan-out.
#[derive(Clone, Debug)]
pub struct ServerPacket {
    pub op_code: u32,
    pub source: Player,
    pub data: Vec<u8>,
}

impl Default for ServerPacket {
    fn default() -> (r: Self)
        ensures
            r.op_code == 0,
            r.source == Player::invalid_spec(),
            r.data@ == Seq::<u8>::empty(),
    {
        ServerPacket { op_code: 0, source: Player(0xffff_ffff), data: Vec::new() }
    }
}

impl Bitwise for ServerPacket {
    open spec fn enc(&self) -> Seq<u8> {
        self.op_code.enc() + (self.source.enc() + self.data.enc())
    }

    open spec fn wf(&self) -> bool {
        true
    }

    open spec fn eqv(&self, other: &Self) -> bool {
        &&& self.op_code == other.op_code
        &&& self.source == other.source
        &&& self.data@ == other.data@
    }

    open spec fn dec_ok(s: Seq<u8>) -> bool {
        let s1 = s.skip(u32::dec_len(s));
        let s2 = s1.skip(Player::dec_len(s1));
        &&& u32::dec_ok(s)
        &&& Player::dec_ok(s1)
        &&& Vec::<u8>::dec_ok(s2)
    }

    open spec fn dec_len(s: Seq<u8>) -> int {
        let s1 = s.skip(u32::dec_len(s));
        let s2 = s1.skip(Player::dec_len(s1));
        u32::dec_len(s) + Player::dec_len(s1) + Vec::<u8>::dec_len(s2)
    }

    open spec fn decodes_to(s: Seq<u8>, v: Self) -> bool {
        let s1 = s.skip(u32::dec_len(s));
        let s2 = s1.skip(Player::dec_len(s1));
        &&& u32::decodes_to(s, v.op_code)
        &&& Player::decodes_to(s1, v.source)
        &&& Vec::<u8>::decodes_to(s2, v.data)
    }

    proof fn lemma_enc_decodes(v: Self, rest: Seq<u8>) {
        let e0 = v.op_code.enc();
        let e1 = v.source.enc();
        let e2 = v.data.enc();
        let s = v.enc() + rest;
        let r0 = e1 + (e2 + rest);
        let r1 = e2 + rest;
        assert(s =~= e0 + r0);
        u32::lemma_enc_decodes(v.op_code, r0);
        assert(s.skip(u32::dec_len(s)) =~= r0);
        Player::lemma_enc_decodes(v.source, r1);
        assert(r0.skip(Player::dec_len(r0)) =~= r1);
        Vec::<u8>::lemma_enc_decodes(v.data, rest);
    }

    proof fn lemma_decode_deterministic(s: Seq<u8>, a: Self, b: Self) {
        let s1 = s.skip(u32::dec_len(s));
        let s2 = s1.skip(Player::dec_len(s1));
        u32::lemma_decode_deterministic(s, a.op_code, b.op_code);
        Player::lemma_decode_deterministic(s1, a.source, b.source);
        Vec::<u8>::lemma_decode_deterministic(s2, a.data, b.data);
        assert(a.data@ =~= b.data@);
    }

    proof fn lemma_dec_len_bounds(s: Seq<u8>) {
        let s1 = s.skip(u32::dec_len(s));
        let s2 = s1.skip(Player::dec_len(s1));
        u32::lemma_dec_len_bounds(s);
        Player::lemma_dec_len_bounds(s1);
        Vec::<u8>::lemma_dec_len_bounds(s2);
    }

    fn encode(&self, buffer: &mut Vec<u8>) {
        self.op_code.encode(buffer);
        self.source.encode(buffer);
        self.data.encode(buffer);
        proof {
            assert(final(buffer)@ =~= old(buffer)@ + self.enc());
        }
    }

    fn decode(&mut self, cursor: &mut usize, buffer: &[u8]) -> (r: Option<()>) {
        let ghost c0 = *cursor as int;
        let ghost s = buffer@.skip(c0);
        let saved: usize = *cursor;
        if self.op_code.decode(cursor, buffer).is_none() {
            *cursor = saved;
            return None;
        }
        let ghost s1 = s.skip(u32::dec_len(s));
        proof {
            u32::lemma_dec_len_bounds(s);
            assert(buffer@.skip(*cursor as int) =~= s1);
        }
        if self.source.decode(cursor, buffer).is_none() {
            *cursor = saved;
            return None;
        }
        let ghost s2 = s1.skip(Player::dec_len(s1));
        proof {
            Player::lemma_dec_len_bounds(s1);
            assert(buffer@.skip(*cursor as int) =~= s2);
        }
        if self.data.decode(cursor, buffer).is_none() {
            *cursor = saved;
            return None;
        }
        Some(())
    }
}

/// One relay packet as a client sends it: the session and transport flag
/// are present for validation and stripped before fan-out; an empty target
/// list means broadcast.
#[derive(Clone, Debug)]
pub struct Packet {
    pub op_code: u32,
    pub session: Session,
    pub source: Player,
    pub tcp: bool,
    pub targets: Vec<Player>,
    pub data: Vec<u8>,
}

impl Default for Packet {
    fn default() -> (r: Self)
        ensures
            r.op_code == 0,
            r.session == Session::invalid_spec(),
            r.source == Player::invalid_spec(),
            r.tcp == false,
            r.targets@ == Seq::<Player>::empty(),
            r.data@ == Seq::<u8>::empty(),
    {
        Packet {
            op_code: 0,
            session: Session(0xffff_ffff),
            source: Player(0xffff_ffff),
            tcp: false,
            targets: Vec::new(),
            data: Vec::new(),
        }
    }
}

impl Bitwise for Packet {
    open spec fn enc(&self) -> Seq<u8> {
        self.op_code.enc() + (self.session.enc() + (self.source.enc() + (self.tcp.enc() + (
        self.targets.enc() + self.data.enc()))))
    }

    open spec fn wf(&self) -> bool {
        true
    }

    open spec fn eqv(&self, other: &Self) -> bool {
        &&& self.op_code == other.op_code
        &&& self.session == other.session
        &&& self.source == other.source
        &&& self.tcp == other.tcp
        &&& self.targets@ == other.targets@
        &&& self.data@ == other.data@
    }

    open spec fn dec_ok(s: Seq<u8>) -> bool {
        let s1 = s.skip(u32::dec_len(s));
        let s2 = s1.skip(Session::dec_len(s1));
        let s3 = s2.skip(Player::dec_len(s2));
        let s4 = s3.skip(bool::dec_len(s3));
        let s5 = s4.skip(Vec::<Player>::dec_len(s4));
        &&& u32::dec_ok(s)
        &&& Session::dec_ok(s1)
        &&& Player::dec_ok(s2)
        &&& bool::dec_ok(s3)
        &&& Vec::<Player>::dec_ok(s4)
        &&& Vec::<u8>::dec_ok(s5)
    }

    open spec fn dec_len(s: Seq<u8>) -> int {
        let s1 = s.skip(u32::dec_len(s));
        let s2 = s1.skip(Session::dec_len(s1));
        let s3 = s2.skip(Player::dec_len(s2));
        let s4 = s3.skip(bool::dec_len(s3));
        let s5 = s4.skip(Vec::<Player>::dec_len(s4));
        u32::dec_len(s) + Session::dec_len(s1) + Player::dec_len(s2) + bool::dec_len(s3)
            + Vec::<Player>::dec_len(s4) + Vec::<u8>::dec_len(s5)
    }

    open spec fn decodes_to(s: Seq<u8>, v: Self) -> bool {
        let s1 = s.skip(u32::dec_len(s));
        let s2 = s1.skip(Session::dec_len(s1));
        let s3 = s2.skip(Player::dec_len(s2));
        let s4 = s3.skip(bool::dec_len(s3));
        let s5 = s4.skip(Vec::<Player>::dec_len(s4));
        &&& u32::decodes_to(s, v.op_code)
        &&& Session::decodes_to(s1, v.session)
        &&& Player::decodes_to(s2, v.source)
        &&& bool::decodes_to(s3, v.tcp)
        &&& Vec::<Player>::decodes_to(s4, v.targets)
        &&& Vec::<u8>::decodes_to(s5, v.data)
    }

    proof fn lemma_enc_decodes(v: Self, rest: Seq<u8>) {
        let e0 = v.op_code.enc();
        let e1 = v.session.enc();
        let e2 = v.source.enc();
        let e3 = v.tcp.enc();
        let e4 = v.targets.enc();
        let e5 = v.data.enc();
        let s = v.enc() + rest;
        let r0 = e1 + (e2 + (e3 + (e4 + (e5 + rest))));
        let r1 = e2 + (e3 + (e4 + (e5 + rest)));
        let r2 = e3 + (e4 + (e5 + rest));
        let r3 = e4 + (e5 + rest);
        let r4 = e5 + rest;
        assert(s =~= e0 + r0);
        u32::lemma_enc_decodes(v.op_code, r0);
        assert(s.skip(u32::dec_len(s)) =~= r0);
        Session::lemma_enc_decodes(v.session, r1);
        assert(r0.skip(Session::dec_len(r0)) =~= r1);
        Player::lemma_enc_decodes(v.source, r2);
        assert(r1.skip(Player::dec_len(r1)) =~= r2);
        bool::lemma_enc_decodes(v.tcp, r3);
        assert(r2.skip(bool::dec_len(r2)) =~= r3);
        Vec::<Player>::lemma_enc_decodes(v.targets, r4);
        assert(r3.skip(Vec::<Player>::dec_len(r3)) =~= r4);
        Vec::<u8>::lemma_enc_decodes(v.data, rest);
    }

    proof fn lemma_decode_deterministic(s: Seq<u8>, a: Self, b: Self) {
        let s1 = s.skip(u32::dec_len(s));
        let s2 = s1.skip(Session::dec_len(s1));
        let s3 = s2.skip(Player::dec_len(s2));
        let s4 = s3.skip(bool::dec_len(s3));
        let s5 = s4.skip(Vec::<Player>::dec_len(s4));
        u32::lemma_decode_deterministic(s, a.op_code, b.op_code);
        Session::lemma_decode_deterministic(s1, a.session, b.session);
        Player::lemma_decode_deterministic(s2, a.source, b.source);
        bool::lemma_decode_deterministic(s3, a.tcp, b.tcp);
        Vec::<Player>::lemma_decode_deterministic(s4, a.targets, b.targets);
        assert(a.targets@ =~= b.targets@);
        Vec::<u8>::lemma_decode_deterministic(s5, a.data, b.data);
        assert(a.data@ =~= b.data@);
    }

    proof fn lemma_dec_len_bounds(s: Seq<u8>) {
        let s1 = s.skip(u32::dec_len(s));
        let s2 = s1.skip(Session::dec_len(s1));
        let s3 = s2.skip(Player::dec_len(s2));
        let s4 = s3.skip(bool::dec_len(s3));
        let s5 = s4.skip(Vec::<Player>::dec_len(s4));
        u32::lemma_dec_len_bounds(s);
        Session::lemma_dec_len_bounds(s1);
        Player::lemma_dec_len_bounds(s2);
        bool::lemma_dec_len_bounds(s3);
        Vec::<Player>::lemma_dec_len_bounds(s4);
        Vec::<u8>::lemma_dec_len_bounds(s5);
    }

    fn encode(&self, buffer: &mut Vec<u8>) {
        self.op_code.encode(buffer);
        self.session.encode(buffer);
        self.source.encode(buffer);
        self.tcp.encode(buffer);
        self.targets.encode(buffer);
        self.data.encode(buffer);
        proof {
            assert(final(buffer)@ =~= old(buffer)@ + self.enc());
        }
    }

    fn decode(&mut self, cursor: &mut usize, buffer: &[u8]) -> (r: Option<()>) {
        let ghost c0 = *cursor as int;
        let ghost s = buffer@.skip(c0);
        let saved: usize = *cursor;
        if self.op_code.decode(cursor, buffer).is_none() {
            *cursor = saved;
            return None;
        }
        let ghost s1 = s.skip(u32::dec_len(s));
        proof {
            u32::lemma_dec_len_bounds(s);
            assert(buffer@.skip(*cursor as int) =~= s1);
        }
        if self.session.decode(cursor, buffer).is_none() {
            *cursor = saved;
            return None;
        }
        let ghost s2 = s1.skip(Session::dec_len(s1));
        proof {
            Session::lemma_dec_len_bounds(s1);
            assert(buffer@.skip(*cursor as int) =~= s2);
        }
        if self.source.decode(cursor, buffer).is_none() {
            *cursor = saved;
            return None;
        }
        let ghost s3 = s2.skip(Player::dec_len(s2));
        proof {
            Player::lemma_dec_len_bounds(s2);
            assert(buffer@.skip(*cursor as int) =~= s3);
        }
        if self.tcp.decode(cursor, buffer).is_none() {
            *cursor = saved;
            return None;
        }
        let ghost s4 = s3.skip(bool::dec_len(s3));
        proof {
            bool::lemma_dec_len_bounds(s3);
            assert(buffer@.skip(*cursor as int) =~= s4);
        }
        if self.targets.decode(cursor, buffer).is_none() {
            *cursor = saved;
            return None;
        }
        let ghost s5 = s4.skip(Vec::<Player>::dec_len(s4));
        proof {
            Vec::<Player>::lemma_dec_len_bounds(s4);
            assert(buffer@.skip(*cursor as int) =~= s5);
        }
        if self.data.decode(cursor, buffer).is_none() {
            *cursor = saved;
            return None;
        }
        Some(())
    }
}

} // verus!
