//! Symmetric little-endian binary codec.
//!
//! Every encodable type implements [`Bitwise`]: `encode` appends the value's
//! byte encoding to a buffer, `decode` reads one value back from a buffer at
//! a cursor.  The trait carries the codec's laws as proof obligations, so
//! that for every implementation Verus checks the round-trip property
//! (decoding an encoding yields the original value) and that decoding fails
//! exactly on buffers that do not start with a well-formed encoding.

use vstd::prelude::*;

verus! {

/// 256 raised to `w`: the number of values a `w`-byte field can hold.
pub open spec fn pow256(w: nat) -> nat
    decreases w,
{
    if w == 0 {
        1
    } else {
        256 * pow256((w - 1) as nat)
    }
}

/// The little-endian encoding of `x` in exactly `w` bytes.
pub open spec fn le_bytes(x: nat, w: nat) -> Seq<u8>
    decreases w,
{
    if w == 0 {
        Seq::empty()
    } else {
        seq![(x % 256) as u8] + le_bytes(x / 256, (w - 1) as nat)
    }
}

/// The value read little-endian from all bytes of `s`.
pub open spec fn le_val(s: Seq<u8>) -> nat
    decreases s.len(),
{
    if s.len() == 0 {
        0
    } else {
        (s[0] + 256 * le_val(s.skip(1))) as nat
    }
}

pub proof fn lemma_pow256_positive(w: nat)
    ensures
        pow256(w) >= 1,
    decreases w,
{
    if w > 0 {
        lemma_pow256_positive((w - 1) as nat);
    }
}

pub proof fn lemma_le_bytes_len(x: nat, w: nat)
    ensures
        le_bytes(x, w).len() == w,
    decreases w,
{
    if w > 0 {
        lemma_le_bytes_len(x / 256, (w - 1) as nat);
    }
}

/// Encoding then reading back is the identity on values below `pow256(w)`.
pub proof fn lemma_le_bytes_val(x: nat, w: nat)
    requires
        x < pow256(w),
    ensures
        le_val(le_bytes(x, w)) == x,
    decreases w,
{
    if w > 0 {
        let rest = le_bytes(x / 256, (w - 1) as nat);
        assert(le_bytes(x, w) == seq![(x % 256) as u8] + rest);
        assert((seq![(x % 256) as u8] + rest).skip(1) =~= rest);
        assert(x / 256 < pow256((w - 1) as nat)) by {
            assert(pow256(w) == 256 * pow256((w - 1) as nat));
        }
        lemma_le_bytes_val(x / 256, (w - 1) as nat);
        assert(le_val(le_bytes(x, w)) == (x % 256) + 256 * (x / 256));
    }
}

/// Every value read from `s` is below `pow256(s.len())`.
pub proof fn lemma_le_val_bound(s: Seq<u8>)
    ensures
        le_val(s) < pow256(s.len()),
    decreases s.len(),
{
    if s.len() > 0 {
        lemma_le_val_bound(s.skip(1));
        assert(pow256(s.len()) == 256 * pow256((s.len() - 1) as nat));
    }
}

/// Appends the `w`-byte little-endian encoding of `x` to `buffer`.
pub fn le_encode(x: u128, w: usize, buffer: &mut Vec<u8>)
    requires
        w <= 16,
        (x as nat) < pow256(w as nat),
    ensures
        final(buffer)@ == old(buffer)@ + le_bytes(x as nat, w as nat),
{
    let ghost orig = buffer@;
    let ghost mut done: Seq<u8> = Seq::empty();
    let mut cur: u128 = x;
    let mut i: usize = 0;
    proof {
        assert(orig + done =~= orig);
    }
    while i < w
        invariant
            i <= w,
            buffer@ == orig + done,
            le_bytes(x as nat, w as nat) == done + le_bytes(cur as nat, (w - i) as nat),
        decreases w - i,
    {
        let b: u8 = (cur % 256) as u8;
        proof {
            assert(le_bytes(cur as nat, (w - i) as nat) == seq![b] + le_bytes(
                cur as nat / 256,
                (w - i - 1) as nat,
            ));
            assert(done + le_bytes(cur as nat, (w - i) as nat) =~= done.push(b) + le_bytes(
                cur as nat / 256,
                (w - i - 1) as nat,
            ));
            assert(orig + done.push(b) =~= (orig + done).push(b));
        }
        buffer.push(b);
        cur = cur / 256;
        i = i + 1;
        proof {
            done = done.push(b);
        }
    }
    proof {
        assert(le_bytes(x as nat, w as nat) =~= done);
    }
}

/// Reads a `w`-byte little-endian value at `cursor`, advancing the cursor;
/// fails, leaving the cursor in place, when fewer than `w` bytes remain.
pub fn le_decode(w: usize, cursor: &mut usize, buffer: &[u8]) -> (r: Option<u128>)
    requires
        w <= 16,
        *old(cursor) <= buffer@.len(),
    ensures
        r is Some <==> *old(cursor) + w <= buffer@.len(),
        r is Some ==> *final(cursor) == *old(cursor) + w,
        r is Some ==> r->Some_0 as nat == le_val(
            buffer@.subrange(*old(cursor) as int, *old(cursor) + w),
        ),
        r is None ==> *final(cursor) == *old(cursor),
{
    let c0: usize = *cursor;
    let blen: usize = buffer.len();
    if blen - c0 < w {
        return None;
    }
    proof {
        lemma_pow256_16();
    }
    let mut val: u128 = 0;
    let mut i: usize = w;
    while i > 0
        invariant
            i <= w,
            w <= 16,
            c0 + w <= blen,
            blen == buffer@.len(),
            val as nat == le_val(buffer@.subrange(c0 + i, c0 + w)),
            pow256(16) == 0x1_0000_0000_0000_0000_0000_0000_0000_0000,
        decreases i,
    {
        i = i - 1;
        let ghost tail = buffer@.subrange(c0 + i + 1, c0 + w);
        let ghost whole = buffer@.subrange(c0 + i, c0 + w);
        proof {
            assert(whole.skip(1) =~= tail);
            lemma_le_val_bound(whole);
            lemma_pow256_mono(whole.len(), 16);
        }
        let b: u8 = buffer[c0 + i];
        assert(whole[0] == b);
        val = val * 256 + b as u128;
    }
    proof {
        assert(buffer@.subrange(c0 as int, c0 + w) =~= buffer@.subrange(c0 + 0, c0 + w));
    }
    *cursor = c0 + w;
    Some(val)
}

pub proof fn lemma_pow256_16()
    ensures
        pow256(16) == 0x1_0000_0000_0000_0000_0000_0000_0000_0000,
{
    reveal_with_fuel(pow256, 17);
}

pub proof fn lemma_pow256_small()
    ensures
        pow256(1) == 0x100,
        pow256(2) == 0x1_0000,
        pow256(4) == 0x1_0000_0000,
        pow256(8) == 0x1_0000_0000_0000_0000,
        pow256(16) == 0x1_0000_0000_0000_0000_0000_0000_0000_0000,
{
    reveal_with_fuel(pow256, 17);
}

/// A fixed-width field at the front of `le_bytes(x, w) + rest` reads back as `x`.
pub proof fn lemma_le_enc_decodes(x: nat, w: nat, rest: Seq<u8>)
    requires
        x < pow256(w),
    ensures
        (le_bytes(x, w) + rest).len() == w + rest.len(),
        (le_bytes(x, w) + rest).subrange(0, w as int) == le_bytes(x, w),
        le_val((le_bytes(x, w) + rest).subrange(0, w as int)) == x,
        le_bytes(x, w).len() == w,
{
    lemma_le_bytes_len(x, w);
    assert((le_bytes(x, w) + rest).subrange(0, w as int) =~= le_bytes(x, w));
    lemma_le_bytes_val(x, w);
}

/// Concatenation associates; stated once so long field chains need no
/// elementwise reasoning.
pub proof fn lemma_concat_assoc(a: Seq<u8>, b: Seq<u8>, c: Seq<u8>)
    ensures
        (a + b) + c == a + (b + c),
{
    assert((a + b) + c =~= a + (b + c));
}

/// Skipping a leading block of a concatenation leaves the tail.
pub proof fn lemma_concat_skip(a: Seq<u8>, b: Seq<u8>)
    ensures
        (a + b).skip(a.len() as int) == b,
{
    assert((a + b).skip(a.len() as int) =~= b);
}

/// Two skips fuse into one.
pub proof fn lemma_skip_skip(s: Seq<u8>, a: int, b: int)
    requires
        0 <= a,
        0 <= b,
        a + b <= s.len(),
    ensures
        s.skip(a).skip(b) == s.skip(a + b),
{
    assert(s.skip(a).skip(b) =~= s.skip(a + b));
}

/// One value on the wire.
///
/// `enc` is the value's byte encoding; `dec_ok` says whether a buffer starts
/// with a well-formed encoding, `dec_len` how many bytes that encoding
/// occupies, and `decodes_to` which values decoding may yield.  `eqv` is the
/// logical equality that decoding preserves (plain equality for every type
/// except those holding a `String`, whose identity is its character
/// sequence).  The three proof obligations are the codec's laws: encodings
/// decode back to the encoded value wherever they sit in a larger buffer,
/// decoding is deterministic up to `eqv`, and a well-formed encoding never
/// runs past the end of the buffer.
pub trait Bitwise: Sized {
    spec fn enc(&self) -> Seq<u8>;

    /// Values the codec handles: every value an executable program can hold.
    /// It rules out only the spec-level phantoms whose encoding would
    /// overflow a length prefix, such as a string of more than `usize::MAX`
    /// bytes; for fixed-width types it is simply `true`.
    spec fn wf(&self) -> bool;

    spec fn eqv(&self, other: &Self) -> bool;

    spec fn dec_ok(s: Seq<u8>) -> bool;

    spec fn dec_len(s: Seq<u8>) -> int;

    spec fn decodes_to(s: Seq<u8>, v: Self) -> bool;

    /// Round-trip law: a buffer that starts with `v.enc()` decodes to `v`,
    /// consuming exactly the encoding.
    proof fn lemma_enc_decodes(v: Self, rest: Seq<u8>)
        requires
            v.wf(),
        ensures
            Self::dec_ok(v.enc() + rest),
            Self::dec_len(v.enc() + rest) == v.enc().len(),
            Self::decodes_to(v.enc() + rest, v),
    ;

    /// Decoding one buffer cannot yield two logically different values.
    proof fn lemma_decode_deterministic(s: Seq<u8>, a: Self, b: Self)
        requires
            Self::decodes_to(s, a),
            Self::decodes_to(s, b),
        ensures
            a.eqv(&b),
    ;

    /// A well-formed encoding takes at least one byte and lies inside the
    /// buffer.
    proof fn lemma_dec_len_bounds(s: Seq<u8>)
        requires
            Self::dec_ok(s),
        ensures
            1 <= Self::dec_len(s) <= s.len(),
    ;

    /// Appends this value's encoding to `buffer`.
    fn encode(&self, buffer: &mut Vec<u8>)
        requires
            self.wf(),
        ensures
            final(buffer)@ == old(buffer)@ + self.enc(),
    ;

    /// Reads one value at `cursor`, advancing the cursor past its encoding.
    /// Returns `None`, restoring the cursor, exactly when the bytes at the
    /// cursor do not start with a well-formed encoding.
    fn decode(&mut self, cursor: &mut usize, buffer: &[u8]) -> (r: Option<()>)
        requires
            *old(cursor) <= buffer@.len(),
        ensures
            r is Some <==> Self::dec_ok(buffer@.skip(*old(cursor) as int)),
            r is Some ==> *final(cursor) == *old(cursor) + Self::dec_len(
                buffer@.skip(*old(cursor) as int),
            ),
            r is Some ==> Self::decodes_to(buffer@.skip(*old(cursor) as int), *final(self)),
            r is Some ==> final(self).wf(),
            r is None ==> *final(cursor) == *old(cursor),
    ;
}

/// The round-trip law at the level of whole buffers: whatever decoding
/// yields for `v.enc() + rest` is logically equal to `v`.  Together with the
/// contract of [`Bitwise::decode`] this pins down `decode(encode(v)) == v`
/// for every implementation at once.
pub proof fn lemma_round_trip<T: Bitwise>(v: T, rest: Seq<u8>, w: T)
    requires
        v.wf(),
        T::decodes_to(v.enc() + rest, w),
    ensures
        w.eqv(&v),
        T::dec_ok(v.enc() + rest),
        T::dec_len(v.enc() + rest) == v.enc().len(),
{
    T::lemma_enc_decodes(v, rest);
    T::lemma_decode_deterministic(v.enc() + rest, w, v);
}

/// The two's-complement field value of the integer `x` in a `w`-byte field.
pub open spec fn to_unsigned(x: int, w: nat) -> nat {
    if x >= 0 {
        x as nat
    } else {
        (x + pow256(w)) as nat
    }
}

/// The integer a `w`-byte two's-complement field value `u` stands for.
pub open spec fn from_unsigned(u: nat, w: nat) -> int {
    if 2 * u < pow256(w) {
        u as int
    } else {
        u - pow256(w)
    }
}

pub proof fn lemma_unsigned_signed(x: int, w: nat)
    requires
        w >= 1,
        2 * x < pow256(w),
        2 * x >= -(pow256(w) as int),
    ensures
        to_unsigned(x, w) < pow256(w),
        from_unsigned(to_unsigned(x, w), w) == x,
{
}

fn byte_mask(w: usize) -> (m: u128)
    requires
        1 <= w <= 16,
    ensures
        m as nat == pow256(w as nat) - 1,
{
    proof {
        lemma_pow256_16();
    }
    let mut m: u128 = 0;
    let mut i: usize = 0;
    while i < w
        invariant
            i <= w,
            w <= 16,
            m as nat == pow256(i as nat) - 1,
            pow256(16) == 0x1_0000_0000_0000_0000_0000_0000_0000_0000,
        decreases w - i,
    {
        proof {
            lemma_pow256_mono((i + 1) as nat, 16);
            assert(pow256((i + 1) as nat) == 256 * pow256(i as nat));
        }
        m = m * 256 + 255;
        i = i + 1;
    }
    m
}

/// Maps a signed value into its two's-complement field value for a
/// `w`-byte field.
fn signed_to_field(x: i128, w: usize) -> (u: u128)
    requires
        1 <= w <= 16,
        2 * x < pow256(w as nat),
        2 * x >= -(pow256(w as nat) as int),
    ensures
        u as nat == to_unsigned(x as int, w as nat),
        (u as nat) < pow256(w as nat),
{
    proof {
        lemma_pow256_positive(w as nat);
    }
    if x >= 0 {
        x as u128
    } else {
        let m: i128 = -(x + 1);
        let mask = byte_mask(w);
        mask - (m as u128)
    }
}

/// Maps a `w`-byte two's-complement field value back to the signed value it
/// stands for.
fn field_to_signed(u: u128, w: usize) -> (x: i128)
    requires
        1 <= w <= 16,
        (u as nat) < pow256(w as nat),
    ensures
        x as int == from_unsigned(u as nat, w as nat),
        to_unsigned(x as int, w as nat) == u as nat,
{
    let mask = byte_mask(w);
    let half: u128 = mask / 2 + 1;
    proof {
        lemma_pow256_16();
        lemma_pow256_mono(w as nat, 16);
    }
    if u < half {
        u as i128
    } else {
        let m: u128 = mask - u;
        -(m as i128) - 1
    }
}

impl Bitwise for u32 {
    open spec fn enc(&self) -> Seq<u8> {
        le_bytes(*self as nat, 4)
    }

    open spec fn wf(&self) -> bool {
        true
    }

    open spec fn eqv(&self, other: &Self) -> bool {
        self == other
    }

    open spec fn dec_ok(s: Seq<u8>) -> bool {
        s.len() >= 4
    }

    open spec fn dec_len(s: Seq<u8>) -> int {
        4
    }

    open spec fn decodes_to(s: Seq<u8>, v: Self) -> bool {
        s.len() >= 4 && v as nat == le_val(s.subrange(0, 4))
    }

    proof fn lemma_enc_decodes(v: Self, rest: Seq<u8>) {
        lemma_pow256_small();
        lemma_le_enc_decodes(v as nat, 4, rest);
    }

    proof fn lemma_decode_deterministic(s: Seq<u8>, a: Self, b: Self) {
    }

    proof fn lemma_dec_len_bounds(s: Seq<u8>) {
    }

    fn encode(&self, buffer: &mut Vec<u8>) {
        proof {
            lemma_pow256_small();
        }
        le_encode(*self as u128, 4, buffer);
    }

    fn decode(&mut self, cursor: &mut usize, buffer: &[u8]) -> (r: Option<()>) {
        let ghost c0 = *cursor as int;
        let ghost s = buffer@.skip(c0);
        match le_decode(4, cursor, buffer) {
            Some(x) => {
                proof {
                    lemma_pow256_small();
                    assert(s.subrange(0, 4) =~= buffer@.subrange(c0, c0 + 4));
                    lemma_le_val_bound(s.subrange(0, 4));
                }
                *self = x as u32;
                Some(())
            },
            None => None,
        }
    }
}

pub proof fn lemma_pow256_mono(a: nat, b: nat)
    requires
        a <= b,
    ensures
        pow256(a) <= pow256(b),
    decreases b,
{
    if a < b {
        lemma_pow256_mono(a, (b - 1) as nat);
        lemma_pow256_positive((b - 1) as nat);
    }
}

impl Bitwise for u8 {
    open spec fn enc(&self) -> Seq<u8> {
        le_bytes(*self as nat, 1)
    }

    open spec fn wf(&self) -> bool {
        true
    }

    open spec fn eqv(&self, other: &Self) -> bool {
        self == other
    }

    open spec fn dec_ok(s: Seq<u8>) -> bool {
        s.len() >= 1
    }

    open spec fn dec_len(s: Seq<u8>) -> int {
        1
    }

    open spec fn decodes_to(s: Seq<u8>, v: Self) -> bool {
        s.len() >= 1 && v as nat == le_val(s.subrange(0, 1))
    }

    proof fn lemma_enc_decodes(v: Self, rest: Seq<u8>) {
        lemma_pow256_small();
        lemma_le_enc_decodes(v as nat, 1, rest);
    }

    proof fn lemma_decode_deterministic(s: Seq<u8>, a: Self, b: Self) {
    }

    proof fn lemma_dec_len_bounds(s: Seq<u8>) {
    }

    fn encode(&self, buffer: &mut Vec<u8>) {
        proof {
            lemma_pow256_small();
        }
        le_encode(*self as u128, 1, buffer);
    }

    fn decode(&mut self, cursor: &mut usize, buffer: &[u8]) -> (r: Option<()>) {
        let ghost c0 = *cursor as int;
        let ghost s = buffer@.skip(c0);
        match le_decode(1, cursor, buffer) {
            Some(x) => {
                proof {
                    lemma_pow256_small();
                    assert(s.subrange(0, 1) =~= buffer@.subrange(c0, c0 + 1));
                    lemma_le_val_bound(s.subrange(0, 1));
                }
                *self = x as u8;
                Some(())
            },
            None => None,
        }
    }
}

impl Bitwise for u16 {
    open spec fn enc(&self) -> Seq<u8> {
        le_bytes(*self as nat, 2)
    }

    open spec fn wf(&self) -> bool {
        true
    }

    open spec fn eqv(&self, other: &Self) -> bool {
        self == other
    }

    open spec fn dec_ok(s: Seq<u8>) -> bool {
        s.len() >= 2
    }

    open spec fn dec_len(s: Seq<u8>) -> int {
        2
    }

    open spec fn decodes_to(s: Seq<u8>, v: Self) -> bool {
        s.len() >= 2 && v as nat == le_val(s.subrange(0, 2))
    }

    proof fn lemma_enc_decodes(v: Self, rest: Seq<u8>) {
        lemma_pow256_small();
        lemma_le_enc_decodes(v as nat, 2, rest);
    }

    proof fn lemma_decode_deterministic(s: Seq<u8>, a: Self, b: Self) {
    }

    proof fn lemma_dec_len_bounds(s: Seq<u8>) {
    }

    fn encode(&self, buffer: &mut Vec<u8>) {
        proof {
            lemma_pow256_small();
        }
        le_encode(*self as u128, 2, buffer);
    }

    fn decode(&mut self, cursor: &mut usize, buffer: &[u8]) -> (r: Option<()>) {
        let ghost c0 = *cursor as int;
        let ghost s = buffer@.skip(c0);
        match le_decode(2, cursor, buffer) {
            Some(x) => {
                proof {
                    lemma_pow256_small();
                    assert(s.subrange(0, 2) =~= buffer@.subrange(c0, c0 + 2));
                    lemma_le_val_bound(s.subrange(0, 2));
                }
                *self = x as u16;
                Some(())
            },
            None => None,
        }
    }
}

impl Bitwise for u64 {
    open spec fn enc(&self) -> Seq<u8> {
        le_bytes(*self as nat, 8)
    }

    open spec fn wf(&self) -> bool {
        true
    }

    open spec fn eqv(&self, other: &Self) -> bool {
        self == other
    }

    open spec fn dec_ok(s: Seq<u8>) -> bool {
        s.len() >= 8
    }

    open spec fn dec_len(s: Seq<u8>) -> int {
        8
    }

    open spec fn decodes_to(s: Seq<u8>, v: Self) -> bool {
        s.len() >= 8 && v as nat == le_val(s.subrange(0, 8))
    }

    proof fn lemma_enc_decodes(v: Self, rest: Seq<u8>) {
        lemma_pow256_small();
        lemma_le_enc_decodes(v as nat, 8, rest);
    }

    proof fn lemma_decode_deterministic(s: Seq<u8>, a: Self, b: Self) {
    }

    proof fn lemma_dec_len_bounds(s: Seq<u8>) {
    }

    fn encode(&self, buffer: &mut Vec<u8>) {
        proof {
            lemma_pow256_small();
        }
        le_encode(*self as u128, 8, buffer);
    }

    fn decode(&mut self, cursor: &mut usize, buffer: &[u8]) -> (r: Option<()>) {
        let ghost c0 = *cursor as int;
        let ghost s = buffer@.skip(c0);
        match le_decode(8, cursor, buffer) {
            Some(x) => {
                proof {
                    lemma_pow256_small();
                    assert(s.subrange(0, 8) =~= buffer@.subrange(c0, c0 + 8));
                    lemma_le_val_bound(s.subrange(0, 8));
                }
                *self = x as u64;
                Some(())
            },
            None => None,
        }
    }
}

impl Bitwise for u128 {
    open spec fn enc(&self) -> Seq<u8> {
        le_bytes(*self as nat, 16)
    }

    open spec fn wf(&self) -> bool {
        true
    }

    open spec fn eqv(&self, other: &Self) -> bool {
        self == other
    }

    open spec fn dec_ok(s: Seq<u8>) -> bool {
        s.len() >= 16
    }

    open spec fn dec_len(s: Seq<u8>) -> int {
        16
    }

    open spec fn decodes_to(s: Seq<u8>, v: Self) -> bool {
        s.len() >= 16 && v as nat == le_val(s.subrange(0, 16))
    }

    proof fn lemma_enc_decodes(v: Self, rest: Seq<u8>) {
        lemma_pow256_small();
        lemma_le_enc_decodes(v as nat, 16, rest);
    }

    proof fn lemma_decode_deterministic(s: Seq<u8>, a: Self, b: Self) {
    }

    proof fn lemma_dec_len_bounds(s: Seq<u8>) {
    }

    fn encode(&self, buffer: &mut Vec<u8>) {
        proof {
            lemma_pow256_small();
        }
        le_encode(*self, 16, buffer);
    }

    fn decode(&mut self, cursor: &mut usize, buffer: &[u8]) -> (r: Option<()>) {
        let ghost c0 = *cursor as int;
        let ghost s = buffer@.skip(c0);
        match le_decode(16, cursor, buffer) {
            Some(x) => {
                proof {
                    assert(s.subrange(0, 16) =~= buffer@.subrange(c0, c0 + 16));
                }
                *self = x;
                Some(())
            },
            None => None,
        }
    }
}

impl Bitwise for usize {
    open spec fn enc(&self) -> Seq<u8> {
        le_bytes(*self as nat, 8)
    }

    open spec fn wf(&self) -> bool {
        true
    }

    open spec fn eqv(&self, other: &Self) -> bool {
        self == other
    }

    open spec fn dec_ok(s: Seq<u8>) -> bool {
        s.len() >= 8 && le_val(s.subrange(0, 8)) <= usize::MAX as nat
    }

    open spec fn dec_len(s: Seq<u8>) -> int {
        8
    }

    open spec fn decodes_to(s: Seq<u8>, v: Self) -> bool {
        s.len() >= 8 && v as nat == le_val(s.subrange(0, 8))
    }

    proof fn lemma_enc_decodes(v: Self, rest: Seq<u8>) {
        lemma_pow256_small();
        lemma_le_enc_decodes(v as nat, 8, rest);
    }

    proof fn lemma_decode_deterministic(s: Seq<u8>, a: Self, b: Self) {
    }

    proof fn lemma_dec_len_bounds(s: Seq<u8>) {
    }

    fn encode(&self, buffer: &mut Vec<u8>) {
        proof {
            lemma_pow256_small();
        }
        le_encode(*self as u128, 8, buffer);
    }

    fn decode(&mut self, cursor: &mut usize, buffer: &[u8]) -> (r: Option<()>) {
        let ghost c0 = *cursor as int;
        let ghost s = buffer@.skip(c0);
        let saved: usize = *cursor;
        match le_decode(8, cursor, buffer) {
            Some(x) => {
                proof {
                    lemma_pow256_small();
                    assert(s.subrange(0, 8) =~= buffer@.subrange(c0, c0 + 8));
                    lemma_le_val_bound(s.subrange(0, 8));
                }
                if x > usize::MAX as u128 {
                    *cursor = saved;
                    None
                } else {
                    *self = x as usize;
                    Some(())
                }
            },
            None => None,
        }
    }
}

impl Bitwise for i8 {
    open spec fn enc(&self) -> Seq<u8> {
        le_bytes(to_unsigned(*self as int, 1), 1)
    }

    open spec fn wf(&self) -> bool {
        true
    }

    open spec fn eqv(&self, other: &Self) -> bool {
        self == other
    }

    open spec fn dec_ok(s: Seq<u8>) -> bool {
        s.len() >= 1
    }

    open spec fn dec_len(s: Seq<u8>) -> int {
        1
    }

    open spec fn decodes_to(s: Seq<u8>, v: Self) -> bool {
        s.len() >= 1 && to_unsigned(v as int, 1) == le_val(s.subrange(0, 1))
    }

    proof fn lemma_enc_decodes(v: Self, rest: Seq<u8>) {
        lemma_pow256_small();
        lemma_le_enc_decodes(to_unsigned(v as int, 1), 1, rest);
    }

    proof fn lemma_decode_deterministic(s: Seq<u8>, a: Self, b: Self) {
        lemma_pow256_small();
    }

    proof fn lemma_dec_len_bounds(s: Seq<u8>) {
    }

    fn encode(&self, buffer: &mut Vec<u8>) {
        proof {
            lemma_pow256_small();
        }
        let u = signed_to_field(*self as i128, 1);
        le_encode(u, 1, buffer);
    }

    fn decode(&mut self, cursor: &mut usize, buffer: &[u8]) -> (r: Option<()>) {
        let ghost c0 = *cursor as int;
        let ghost s = buffer@.skip(c0);
        match le_decode(1, cursor, buffer) {
            Some(x) => {
                proof {
                    lemma_pow256_small();
                    assert(s.subrange(0, 1) =~= buffer@.subrange(c0, c0 + 1));
                    lemma_le_val_bound(s.subrange(0, 1));
                }
                let v = field_to_signed(x, 1);
                *self = v as i8;
                Some(())
            },
            None => None,
        }
    }
}

impl Bitwise for i16 {
    open spec fn enc(&self) -> Seq<u8> {
        le_bytes(to_unsigned(*self as int, 2), 2)
    }

    open spec fn wf(&self) -> bool {
        true
    }

    open spec fn eqv(&self, other: &Self) -> bool {
        self == other
    }

    open spec fn dec_ok(s: Seq<u8>) -> bool {
        s.len() >= 2
    }

    open spec fn dec_len(s: Seq<u8>) -> int {
        2
    }

    open spec fn decodes_to(s: Seq<u8>, v: Self) -> bool {
        s.len() >= 2 && to_unsigned(v as int, 2) == le_val(s.subrange(0, 2))
    }

    proof fn lemma_enc_decodes(v: Self, rest: Seq<u8>) {
        lemma_pow256_small();
        lemma_le_enc_decodes(to_unsigned(v as int, 2), 2, rest);
    }

    proof fn lemma_decode_deterministic(s: Seq<u8>, a: Self, b: Self) {
        lemma_pow256_small();
    }

    proof fn lemma_dec_len_bounds(s: Seq<u8>) {
    }

    fn encode(&self, buffer: &mut Vec<u8>) {
        proof {
            lemma_pow256_small();
        }
        let u = signed_to_field(*self as i128, 2);
        le_encode(u, 2, buffer);
    }

    fn decode(&mut self, cursor: &mut usize, buffer: &[u8]) -> (r: Option<()>) {
        let ghost c0 = *cursor as int;
        let ghost s = buffer@.skip(c0);
        match le_decode(2, cursor, buffer) {
            Some(x) => {
                proof {
                    lemma_pow256_small();
                    assert(s.subrange(0, 2) =~= buffer@.subrange(c0, c0 + 2));
                    lemma_le_val_bound(s.subrange(0, 2));
                }
                let v = field_to_signed(x, 2);
                *self = v as i16;
                Some(())
            },
            None => None,
        }
    }
}

impl Bitwise for i32 {
    open spec fn enc(&self) -> Seq<u8> {
        le_bytes(to_unsigned(*self as int, 4), 4)
    }

    open spec fn wf(&self) -> bool {
        true
    }

    open spec fn eqv(&self, other: &Self) -> bool {
        self == other
    }

    open spec fn dec_ok(s: Seq<u8>) -> bool {
        s.len() >= 4
    }

    open spec fn dec_len(s: Seq<u8>) -> int {
        4
    }

    open spec fn decodes_to(s: Seq<u8>, v: Self) -> bool {
        s.len() >= 4 && to_unsigned(v as int, 4) == le_val(s.subrange(0, 4))
    }

    proof fn lemma_enc_decodes(v: Self, rest: Seq<u8>) {
        lemma_pow256_small();
        lemma_le_enc_decodes(to_unsigned(v as int, 4), 4, rest);
    }

    proof fn lemma_decode_deterministic(s: Seq<u8>, a: Self, b: Self) {
        lemma_pow256_small();
    }

    proof fn lemma_dec_len_bounds(s: Seq<u8>) {
    }

    fn encode(&self, buffer: &mut Vec<u8>) {
        proof {
            lemma_pow256_small();
        }
        let u = signed_to_field(*self as i128, 4);
        le_encode(u, 4, buffer);
    }

    fn decode(&mut self, cursor: &mut usize, buffer: &[u8]) -> (r: Option<()>) {
        let ghost c0 = *cursor as int;
        let ghost s = buffer@.skip(c0);
        match le_decode(4, cursor, buffer) {
            Some(x) => {
                proof {
                    lemma_pow256_small();
                    assert(s.subrange(0, 4) =~= buffer@.subrange(c0, c0 + 4));
                    lemma_le_val_bound(s.subrange(0, 4));
                }
                let v = field_to_signed(x, 4);
                *self = v as i32;
                Some(())
            },
            None => None,
        }
    }
}

impl Bitwise for i64 {
    open spec fn enc(&self) -> Seq<u8> {
        le_bytes(to_unsigned(*self as int, 8), 8)
    }

    open spec fn wf(&self) -> bool {
        true
    }

    open spec fn eqv(&self, other: &Self) -> bool {
        self == other
    }

    open spec fn dec_ok(s: Seq<u8>) -> bool {
        s.len() >= 8
    }

    open spec fn dec_len(s: Seq<u8>) -> int {
        8
    }

    open spec fn decodes_to(s: Seq<u8>, v: Self) -> bool {
        s.len() >= 8 && to_unsigned(v as int, 8) == le_val(s.subrange(0, 8))
    }

    proof fn lemma_enc_decodes(v: Self, rest: Seq<u8>) {
        lemma_pow256_small();
        lemma_le_enc_decodes(to_unsigned(v as int, 8), 8, rest);
    }

    proof fn lemma_decode_deterministic(s: Seq<u8>, a: Self, b: Self) {
        lemma_pow256_small();
    }

    proof fn lemma_dec_len_bounds(s: Seq<u8>) {
    }

    fn encode(&self, buffer: &mut Vec<u8>) {
        proof {
            lemma_pow256_small();
        }
        let u = signed_to_field(*self as i128, 8);
        le_encode(u, 8, buffer);
    }

    fn decode(&mut self, cursor: &mut usize, buffer: &[u8]) -> (r: Option<()>) {
        let ghost c0 = *cursor as int;
        let ghost s = buffer@.skip(c0);
        match le_decode(8, cursor, buffer) {
            Some(x) => {
                proof {
                    lemma_pow256_small();
                    assert(s.subrange(0, 8) =~= buffer@.subrange(c0, c0 + 8));
                    lemma_le_val_bound(s.subrange(0, 8));
                }
                let v = field_to_signed(x, 8);
                *self = v as i64;
                Some(())
            },
            None => None,
        }
    }
}

impl Bitwise for i128 {
    open spec fn enc(&self) -> Seq<u8> {
        le_bytes(to_unsigned(*self as int, 16), 16)
    }

    open spec fn wf(&self) -> bool {
        true
    }

    open spec fn eqv(&self, other: &Self) -> bool {
        self == other
    }

    open spec fn dec_ok(s: Seq<u8>) -> bool {
        s.len() >= 16
    }

    open spec fn dec_len(s: Seq<u8>) -> int {
        16
    }

    open spec fn decodes_to(s: Seq<u8>, v: Self) -> bool {
        s.len() >= 16 && to_unsigned(v as int, 16) == le_val(s.subrange(0, 16))
    }

    proof fn lemma_enc_decodes(v: Self, rest: Seq<u8>) {
        lemma_pow256_small();
        lemma_le_enc_decodes(to_unsigned(v as int, 16), 16, rest);
    }

    proof fn lemma_decode_deterministic(s: Seq<u8>, a: Self, b: Self) {
        lemma_pow256_small();
    }

    proof fn lemma_dec_len_bounds(s: Seq<u8>) {
    }

    fn encode(&self, buffer: &mut Vec<u8>) {
        proof {
            lemma_pow256_small();
        }
        let u = signed_to_field(*self, 16);
        le_encode(u, 16, buffer);
    }

    fn decode(&mut self, cursor: &mut usize, buffer: &[u8]) -> (r: Option<()>) {
        let ghost c0 = *cursor as int;
        let ghost s = buffer@.skip(c0);
        match le_decode(16, cursor, buffer) {
            Some(x) => {
                proof {
                    lemma_pow256_small();
                    assert(s.subrange(0, 16) =~= buffer@.subrange(c0, c0 + 16));
                    lemma_le_val_bound(s.subrange(0, 16));
                }
                let v = field_to_signed(x, 16);
                *self = v;
                Some(())
            },
            None => None,
        }
    }
}

impl Bitwise for isize {
    open spec fn enc(&self) -> Seq<u8> {
        le_bytes(to_unsigned(*self as int, 8), 8)
    }

    open spec fn wf(&self) -> bool {
        true
    }

    open spec fn eqv(&self, other: &Self) -> bool {
        self == other
    }

    open spec fn dec_ok(s: Seq<u8>) -> bool {
        &&& s.len() >= 8
        &&& isize::MIN <= from_unsigned(le_val(s.subrange(0, 8)), 8) <= isize::MAX
    }

    open spec fn dec_len(s: Seq<u8>) -> int {
        8
    }

    open spec fn decodes_to(s: Seq<u8>, v: Self) -> bool {
        s.len() >= 8 && to_unsigned(v as int, 8) == le_val(s.subrange(0, 8))
    }

    proof fn lemma_enc_decodes(v: Self, rest: Seq<u8>) {
        lemma_pow256_small();
        lemma_le_enc_decodes(to_unsigned(v as int, 8), 8, rest);
        lemma_unsigned_signed(v as int, 8);
    }

    proof fn lemma_decode_deterministic(s: Seq<u8>, a: Self, b: Self) {
        lemma_pow256_small();
    }

    proof fn lemma_dec_len_bounds(s: Seq<u8>) {
    }

    fn encode(&self, buffer: &mut Vec<u8>) {
        proof {
            lemma_pow256_small();
        }
        let u = signed_to_field(*self as i128, 8);
        le_encode(u, 8, buffer);
    }

    fn decode(&mut self, cursor: &mut usize, buffer: &[u8]) -> (r: Option<()>) {
        let ghost c0 = *cursor as int;
        let ghost s = buffer@.skip(c0);
        let saved: usize = *cursor;
        match le_decode(8, cursor, buffer) {
            Some(x) => {
                proof {
                    lemma_pow256_small();
                    assert(s.subrange(0, 8) =~= buffer@.subrange(c0, c0 + 8));
                    lemma_le_val_bound(s.subrange(0, 8));
                }
                let v = field_to_signed(x, 8);
                if v < isize::MIN as i128 || v > isize::MAX as i128 {
                    *cursor = saved;
                    None
                } else {
                    *self = v as isize;
                    Some(())
                }
            },
            None => None,
        }
    }
}

impl Bitwise for bool {
    open spec fn enc(&self) -> Seq<u8> {
        seq![if *self { 1u8 } else { 0u8 }]
    }

    open spec fn wf(&self) -> bool {
        true
    }

    open spec fn eqv(&self, other: &Self) -> bool {
        self == other
    }

    open spec fn dec_ok(s: Seq<u8>) -> bool {
        s.len() >= 1
    }

    open spec fn dec_len(s: Seq<u8>) -> int {
        1
    }

    open spec fn decodes_to(s: Seq<u8>, v: Self) -> bool {
        s.len() >= 1 && v == (s[0] != 0)
    }

    proof fn lemma_enc_decodes(v: Self, rest: Seq<u8>) {
        assert((v.enc() + rest)[0] == v.enc()[0]);
    }

    proof fn lemma_decode_deterministic(s: Seq<u8>, a: Self, b: Self) {
    }

    proof fn lemma_dec_len_bounds(s: Seq<u8>) {
    }

    fn encode(&self, buffer: &mut Vec<u8>) {
        let b: u8 = if *self {
            1
        } else {
            0
        };
        buffer.push(b);
        proof {
            assert(buffer@ =~= old(buffer)@ + self.enc());
        }
    }

    fn decode(&mut self, cursor: &mut usize, buffer: &[u8]) -> (r: Option<()>) {
        let ghost c0 = *cursor as int;
        let ghost s = buffer@.skip(c0);
        let blen = buffer.len();
        if blen - *cursor < 1 {
            return None;
        }
        let b: u8 = buffer[*cursor];
        proof {
            assert(s[0] == buffer@[c0]);
        }
        *self = b != 0;
        *cursor = *cursor + 1;
        Some(())
    }
}

/// Appends all bytes of `bytes` to `buffer`.
fn append_bytes(buffer: &mut Vec<u8>, bytes: &[u8])
    ensures
        final(buffer)@ == old(buffer)@ + bytes@,
{
    let n = bytes.len();
    let mut i: usize = 0;
    while i < n
        invariant
            i <= n,
            n == bytes@.len(),
            buffer@ == old(buffer)@ + bytes@.take(i as int),
        decreases n - i,
    {
        let b = bytes[i];
        proof {
            assert((old(buffer)@ + bytes@.take(i as int)).push(b) =~= old(buffer)@ + bytes@.take(
                i + 1,
            ));
        }
        buffer.push(b);
        i = i + 1;
    }
    proof {
        assert(bytes@.take(n as int) =~= bytes@);
    }
}

/// Relies on std's `str::from_utf8`: it succeeds exactly on byte sequences
/// that are valid UTF-8, and the returned string consists of the characters
/// those bytes encode.
#[verifier::external_body]
fn bytes_to_string(bytes: &[u8]) -> (r: Option<String>)
    ensures
        r is Some <==> vstd::utf8::valid_utf8(bytes@),
        r is Some ==> vstd::utf8::encode_utf8(r->Some_0@) == bytes@,
{
    match core::str::from_utf8(bytes) {
        Ok(s) => Some(s.to_string()),
        Err(_) => None,
    }
}

/// The UTF-8 bytes a string value stands for on the wire.
pub open spec fn str_bytes(chars: Seq<char>) -> Seq<u8> {
    vstd::utf8::encode_utf8(chars)
}

impl Bitwise for String {
    open spec fn enc(&self) -> Seq<u8> {
        le_bytes(str_bytes(self@).len(), 8) + str_bytes(self@)
    }

    open spec fn wf(&self) -> bool {
        8 + str_bytes(self@).len() <= usize::MAX
    }

    open spec fn eqv(&self, other: &Self) -> bool {
        self@ == other@
    }

    open spec fn dec_ok(s: Seq<u8>) -> bool {
        let n = le_val(s.subrange(0, 8));
        &&& s.len() >= 8
        &&& 8 + n <= s.len()
        &&& vstd::utf8::valid_utf8(s.subrange(8, 8 + n as int))
    }

    open spec fn dec_len(s: Seq<u8>) -> int {
        8 + le_val(s.subrange(0, 8)) as int
    }

    open spec fn decodes_to(s: Seq<u8>, v: Self) -> bool {
        let n = le_val(s.subrange(0, 8));
        &&& s.len() >= 8
        &&& 8 + n <= s.len()
        &&& vstd::utf8::valid_utf8(s.subrange(8, 8 + n as int))
        &&& str_bytes(v@) == s.subrange(8, 8 + n as int)
    }

    proof fn lemma_enc_decodes(v: Self, rest: Seq<u8>) {
        let bytes = str_bytes(v@);
        let n = bytes.len();
        let s = v.enc() + rest;
        lemma_pow256_small();
        lemma_le_bytes_len(n, 8);
        assert(s.subrange(0, 8) =~= le_bytes(n, 8));
        lemma_le_bytes_val(n, 8);
        assert(s.subrange(8, 8 + n as int) =~= bytes);
        vstd::utf8::encode_utf8_valid_utf8(v@);
    }

    proof fn lemma_decode_deterministic(s: Seq<u8>, a: Self, b: Self) {
        let n = le_val(s.subrange(0, 8));
        assert(vstd::utf8::decode_utf8(str_bytes(a@)) == vstd::utf8::decode_utf8(
            str_bytes(b@),
        ));
        vstd::utf8::encode_utf8_decode_utf8(a@);
        vstd::utf8::encode_utf8_decode_utf8(b@);
    }

    proof fn lemma_dec_len_bounds(s: Seq<u8>) {
    }

    fn encode(&self, buffer: &mut Vec<u8>) {
        let bytes: &[u8] = self.as_str().as_bytes();
        let n: usize = bytes.len();
        proof {
            lemma_pow256_small();
        }
        le_encode(n as u128, 8, buffer);
        append_bytes(buffer, bytes);
        proof {
            assert(final(buffer)@ =~= old(buffer)@ + self.enc());
        }
    }

    fn decode(&mut self, cursor: &mut usize, buffer: &[u8]) -> (r: Option<()>)
        ensures
            r is None ==> *final(self) == *old(self),
    {
        let ghost c0 = *cursor as int;
        let ghost s = buffer@.skip(c0);
        let saved: usize = *cursor;
        let blen: usize = buffer.len();
        match le_decode(8, cursor, buffer) {
            Some(x) => {
                proof {
                    lemma_pow256_small();
                    assert(s.subrange(0, 8) =~= buffer@.subrange(c0, c0 + 8));
                }
                if x > (blen - *cursor) as u128 {
                    *cursor = saved;
                    return None;
                }
                let n: usize = x as usize;
                let raw = vstd::slice::slice_subrange(buffer, *cursor, *cursor + n);
                proof {
                    assert(raw@ =~= s.subrange(8, 8 + n as int));
                }
                match bytes_to_string(raw) {
                    Some(text) => {
                        *self = text;
                        *cursor = *cursor + n;
                        Some(())
                    },
                    None => {
                        *cursor = saved;
                        None
                    },
                }
            },
            None => None,
        }
    }
}

/// The concatenated encodings of a sequence of values.
pub open spec fn seq_enc<T: Bitwise>(vs: Seq<T>) -> Seq<u8>
    decreases vs.len(),
{
    if vs.len() == 0 {
        Seq::empty()
    } else {
        vs[0].enc() + seq_enc(vs.skip(1))
    }
}

/// `n` consecutive well-formed encodings start at `s`.
pub open spec fn seq_dec_ok<T: Bitwise>(s: Seq<u8>, n: nat) -> bool
    decreases n,
{
    if n == 0 {
        true
    } else {
        T::dec_ok(s) && seq_dec_ok::<T>(s.skip(T::dec_len(s)), (n - 1) as nat)
    }
}

/// The bytes `n` consecutive encodings at `s` occupy.
pub open spec fn seq_dec_len<T: Bitwise>(s: Seq<u8>, n: nat) -> int
    decreases n,
{
    if n == 0 {
        0
    } else {
        T::dec_len(s) + seq_dec_len::<T>(s.skip(T::dec_len(s)), (n - 1) as nat)
    }
}

/// The values `vs` are what decoding `vs.len()` consecutive encodings at
/// `s` yields.
pub open spec fn seq_decodes_to<T: Bitwise>(s: Seq<u8>, vs: Seq<T>) -> bool
    decreases vs.len(),
{
    if vs.len() == 0 {
        true
    } else {
        T::decodes_to(s, vs[0]) && seq_decodes_to::<T>(s.skip(T::dec_len(s)), vs.skip(1))
    }
}

pub open spec fn seq_wf<T: Bitwise>(vs: Seq<T>) -> bool {
    forall|i: int| 0 <= i < vs.len() ==> (#[trigger] vs[i]).wf()
}

/// The element-sequence round trip: the concatenation of the encodings of
/// `vs`, followed by anything, parses back as exactly `vs`.
pub proof fn lemma_seq_enc_decodes<T: Bitwise>(vs: Seq<T>, rest: Seq<u8>)
    requires
        seq_wf(vs),
    ensures
        seq_dec_ok::<T>(seq_enc(vs) + rest, vs.len()),
        seq_dec_len::<T>(seq_enc(vs) + rest, vs.len()) == seq_enc(vs).len(),
        seq_decodes_to::<T>(seq_enc(vs) + rest, vs),
    decreases vs.len(),
{
    if vs.len() > 0 {
        let head = vs[0];
        let tail = vs.skip(1);
        let tail_bytes = seq_enc(tail) + rest;
        assert(seq_enc(vs) + rest =~= head.enc() + tail_bytes);
        T::lemma_enc_decodes(head, tail_bytes);
        assert((head.enc() + tail_bytes).skip(head.enc().len() as int) =~= tail_bytes);
        assert(seq_wf(tail)) by {
            assert(forall|i: int| 0 <= i < tail.len() ==> tail[i] == vs[i + 1]);
        }
        lemma_seq_enc_decodes::<T>(tail, rest);
    }
}

/// `n` encodings take at least `n` bytes and fit inside `s`.
pub proof fn lemma_seq_dec_bounds<T: Bitwise>(s: Seq<u8>, n: nat)
    requires
        seq_dec_ok::<T>(s, n),
    ensures
        n <= seq_dec_len::<T>(s, n) <= s.len(),
    decreases n,
{
    if n > 0 {
        T::lemma_dec_len_bounds(s);
        lemma_seq_dec_bounds::<T>(s.skip(T::dec_len(s)), (n - 1) as nat);
    }
}

/// Two decoded element sequences of the same length agree pairwise.
pub proof fn lemma_seq_dec_deterministic<T: Bitwise>(s: Seq<u8>, a: Seq<T>, b: Seq<T>)
    requires
        seq_decodes_to::<T>(s, a),
        seq_decodes_to::<T>(s, b),
        a.len() == b.len(),
    ensures
        forall|i: int| 0 <= i < a.len() ==> (#[trigger] a[i]).eqv(&b[i]),
    decreases a.len(),
{
    if a.len() > 0 {
        T::lemma_decode_deterministic(s, a[0], b[0]);
        lemma_seq_dec_deterministic::<T>(s.skip(T::dec_len(s)), a.skip(1), b.skip(1));
        assert(forall|i: int|
            1 <= i < a.len() ==> a[i] == a.skip(1)[i - 1] && b[i] == b.skip(1)[i - 1]);
    }
}

/// Extends a partial element parse by one more element.
pub proof fn lemma_seq_dec_snoc<T: Bitwise>(s: Seq<u8>, vs: Seq<T>, t: T)
    requires
        seq_dec_ok::<T>(s, vs.len()),
        seq_decodes_to::<T>(s, vs),
        T::dec_ok(s.skip(seq_dec_len::<T>(s, vs.len()))),
        T::decodes_to(s.skip(seq_dec_len::<T>(s, vs.len())), t),
    ensures
        seq_dec_ok::<T>(s, vs.len() + 1),
        seq_decodes_to::<T>(s, vs.push(t)),
        seq_dec_len::<T>(s, vs.len() + 1) == seq_dec_len::<T>(s, vs.len()) + T::dec_len(
            s.skip(seq_dec_len::<T>(s, vs.len())),
        ),
    decreases vs.len(),
{
    if vs.len() == 0 {
        assert(seq_dec_len::<T>(s, 0) == 0);
        assert(s.skip(0) =~= s);
        assert(T::dec_ok(s));
        assert(T::decodes_to(s, t));
        assert(vs.push(t)[0] == t);
        assert(vs.push(t).skip(1) =~= Seq::<T>::empty());
        assert(seq_dec_ok::<T>(s, 1) == (T::dec_ok(s) && seq_dec_ok::<T>(
            s.skip(T::dec_len(s)),
            0,
        )));
        assert(seq_dec_len::<T>(s, 1) == T::dec_len(s) + seq_dec_len::<T>(
            s.skip(T::dec_len(s)),
            0,
        ));
        assert(seq_decodes_to::<T>(s, vs.push(t)) == (T::decodes_to(s, vs.push(t)[0])
            && seq_decodes_to::<T>(s.skip(T::dec_len(s)), vs.push(t).skip(1))));
    } else {
        let s1 = s.skip(T::dec_len(s));
        let vs1 = vs.skip(1);
        T::lemma_dec_len_bounds(s);
        lemma_seq_dec_bounds::<T>(s1, vs1.len());
        assert(s1.skip(seq_dec_len::<T>(s1, vs1.len())) =~= s.skip(
            seq_dec_len::<T>(s, vs.len()),
        ));
        lemma_seq_dec_snoc::<T>(s1, vs1, t);
        assert(vs.push(t)[0] == vs[0]);
        assert(vs.push(t).skip(1) =~= vs1.push(t));
    }
}

/// Within a longer well-formed run, the element after a shorter prefix is
/// itself well-formed.
pub proof fn lemma_seq_dec_more<T: Bitwise>(s: Seq<u8>, i: nat, n: nat)
    requires
        seq_dec_ok::<T>(s, i),
        seq_dec_ok::<T>(s, n),
        i < n,
    ensures
        T::dec_ok(s.skip(seq_dec_len::<T>(s, i))),
    decreases i,
{
    if i == 0 {
        assert(s.skip(0) =~= s);
    } else {
        let s1 = s.skip(T::dec_len(s));
        T::lemma_dec_len_bounds(s);
        lemma_seq_dec_bounds::<T>(s1, (i - 1) as nat);
        lemma_seq_dec_more::<T>(s1, (i - 1) as nat, (n - 1) as nat);
        assert(s1.skip(seq_dec_len::<T>(s1, (i - 1) as nat)) =~= s.skip(
            seq_dec_len::<T>(s, i),
        ));
    }
}

/// One more element extends the concatenated encoding by that element's
/// bytes.
pub proof fn lemma_seq_enc_take<T: Bitwise>(vs: Seq<T>, i: int)
    requires
        0 <= i < vs.len(),
    ensures
        seq_enc(vs.take(i + 1)) == seq_enc(vs.take(i)) + vs[i].enc(),
    decreases i,
{
    if i == 0 {
        assert(vs.take(1)[0] == vs[0]);
        assert(vs.take(1).skip(1) =~= Seq::<T>::empty());
        assert(seq_enc(vs.take(1)) == vs[0].enc() + seq_enc(Seq::<T>::empty()));
        assert(vs[0].enc() + Seq::<u8>::empty() =~= vs[0].enc());
        assert(seq_enc(vs.take(0)) + vs[0].enc() =~= vs[0].enc());
    } else {
        let tail = vs.skip(1);
        lemma_seq_enc_take::<T>(tail, i - 1);
        assert(vs.take(i + 1)[0] == vs[0]);
        assert(vs.take(i)[0] == vs[0]);
        assert(vs.take(i + 1).skip(1) =~= tail.take(i));
        assert(vs.take(i).skip(1) =~= tail.take(i - 1));
        assert(tail[i - 1] == vs[i]);
        assert(vs[0].enc() + (seq_enc(tail.take(i - 1)) + vs[i].enc()) =~= (vs[0].enc()
            + seq_enc(tail.take(i - 1))) + vs[i].enc());
        assert(seq_enc(vs.take(i + 1)) == vs[0].enc() + seq_enc(tail.take(i)));
        assert(seq_enc(vs.take(i)) == vs[0].enc() + seq_enc(tail.take(i - 1)));
    }
}

impl<T: Bitwise + Default> Bitwise for Vec<T> {
    open spec fn enc(&self) -> Seq<u8> {
        le_bytes(self@.len(), 8) + seq_enc(self@)
    }

    open spec fn wf(&self) -> bool {
        seq_wf(self@)
    }

    open spec fn eqv(&self, other: &Self) -> bool {
        &&& self@.len() == other@.len()
        &&& forall|i: int| 0 <= i < self@.len() ==> (#[trigger] self@[i]).eqv(&other@[i])
    }

    open spec fn dec_ok(s: Seq<u8>) -> bool {
        let n = le_val(s.subrange(0, 8));
        &&& s.len() >= 8
        &&& 8 + n <= s.len()
        &&& seq_dec_ok::<T>(s.skip(8), n)
    }

    open spec fn dec_len(s: Seq<u8>) -> int {
        8 + seq_dec_len::<T>(s.skip(8), le_val(s.subrange(0, 8)))
    }

    open spec fn decodes_to(s: Seq<u8>, v: Self) -> bool {
        let n = le_val(s.subrange(0, 8));
        &&& s.len() >= 8
        &&& 8 + n <= s.len()
        &&& v@.len() == n
        &&& seq_decodes_to::<T>(s.skip(8), v@)
    }

    proof fn lemma_enc_decodes(v: Self, rest: Seq<u8>) {
        let n = v@.len();
        let body = seq_enc(v@);
        let s = v.enc() + rest;
        lemma_pow256_small();
        assert(n <= usize::MAX) by {
            broadcast use vstd::std_specs::vec::axiom_spec_len;

            assert(vstd::std_specs::vec::spec_vec_len(&v) <= usize::MAX);
        }
        lemma_le_bytes_len(n, 8);
        assert(s.subrange(0, 8) =~= le_bytes(n, 8));
        lemma_le_bytes_val(n, 8);
        assert(s.skip(8) =~= body + rest);
        lemma_seq_enc_decodes::<T>(v@, rest);
        lemma_seq_dec_bounds::<T>(body + rest, n);
    }

    proof fn lemma_decode_deterministic(s: Seq<u8>, a: Self, b: Self) {
        lemma_seq_dec_deterministic::<T>(s.skip(8), a@, b@);
    }

    proof fn lemma_dec_len_bounds(s: Seq<u8>) {
        let n = le_val(s.subrange(0, 8));
        lemma_seq_dec_bounds::<T>(s.skip(8), n);
    }

    fn encode(&self, buffer: &mut Vec<u8>) {
        let n = self.len();
        proof {
            lemma_pow256_small();
        }
        le_encode(n as u128, 8, buffer);
        let ghost base = buffer@;
        proof {
            assert(seq_enc(self@.take(0)) =~= Seq::<u8>::empty());
            assert(base + seq_enc(self@.take(0)) =~= base);
        }
        let mut i: usize = 0;
        while i < n
            invariant
                i <= n,
                n == self@.len(),
                seq_wf(self@),
                buffer@ == base + seq_enc(self@.take(i as int)),
            decreases n - i,
        {
            proof {
                lemma_seq_enc_take::<T>(self@, i as int);
            }
            let elem = &self[i];
            let ghost before = buffer@;
            elem.encode(buffer);
            proof {
                assert((base + seq_enc(self@.take(i as int))) + self@[i as int].enc() =~= base
                    + seq_enc(self@.take(i + 1)));
            }
            i = i + 1;
        }
        proof {
            assert(self@.take(n as int) =~= self@);
            assert(base + seq_enc(self@) =~= old(buffer)@ + self.enc());
        }
    }

    #[verifier::loop_isolation(false)]
    fn decode(&mut self, cursor: &mut usize, buffer: &[u8]) -> (r: Option<()>)
        ensures
            r is None ==> *final(self) == *old(self),
    {
        let ghost c0 = *cursor as int;
        let ghost s = buffer@.skip(c0);
        let saved: usize = *cursor;
        let blen: usize = buffer.len();
        match le_decode(8, cursor, buffer) {
            Some(x) => {
                proof {
                    lemma_pow256_small();
                    assert(s.subrange(0, 8) =~= buffer@.subrange(c0, c0 + 8));
                }
                if x > (blen - *cursor) as u128 {
                    *cursor = saved;
                    return None;
                }
                let n: usize = x as usize;
                let ghost s8 = buffer@.skip(c0 + 8);
                proof {
                    assert(s8 =~= s.skip(8));
                    assert(seq_decodes_to::<T>(s8, Seq::<T>::empty()));
                }
                let mut acc: Vec<T> = Vec::new();
                let mut i: usize = 0;
                while i < n
                    invariant
                        i <= n,
                        n <= blen,
                        blen == buffer@.len(),
                        c0 + 8 <= *cursor <= blen,
                        saved == c0,
                        acc@.len() == i,
                        seq_wf(acc@),
                        seq_dec_ok::<T>(s8, i as nat),
                        seq_decodes_to::<T>(s8, acc@),
                        s8 == buffer@.skip(c0 + 8),
                        s == buffer@.skip(c0),
                        *cursor - c0 - 8 == seq_dec_len::<T>(s8, i as nat),
                        Vec::<T>::dec_ok(s) ==> seq_dec_ok::<T>(s8, n as nat),
                        8 + n <= s.len(),
                    decreases n - i,
                {
                    let ghost cur_s = buffer@.skip(*cursor as int);
                    proof {
                        assert(cur_s =~= s8.skip(seq_dec_len::<T>(s8, i as nat)));
                    }
                    let mut t = T::default();
                    match t.decode(cursor, buffer) {
                        Some(()) => {
                            proof {
                                T::lemma_dec_len_bounds(cur_s);
                                lemma_seq_dec_snoc::<T>(s8, acc@, t);
                            }
                            acc.push(t);
                            i = i + 1;
                        },
                        None => {
                            proof {
                                if seq_dec_ok::<T>(s8, n as nat) {
                                    lemma_seq_dec_more::<T>(s8, i as nat, n as nat);
                                }
                            }
                            *cursor = saved;
                            return None;
                        },
                    }
                }
                proof {
                    lemma_seq_dec_bounds::<T>(s8, n as nat);
                }
                *self = acc;
                Some(())
            },
            None => None,
        }
    }
}

/// A codec type whose logical equality is plain equality, with a runnable
/// equality test.  Map keys need this: replacing an entry compares keys at
/// run time, and decoding's determinism rests on keys being pinned
/// exactly.
pub trait BitwiseExact: Bitwise {
    proof fn lemma_eqv_exact(a: Self, b: Self)
        requires
            a.eqv(&b),
        ensures
            a == b,
    ;

    fn same(&self, other: &Self) -> (r: bool)
        ensures
            r == (*self == *other),
    ;
}

impl BitwiseExact for u8 {
    proof fn lemma_eqv_exact(a: Self, b: Self) {
    }

    fn same(&self, other: &Self) -> (r: bool) {
        *self == *other
    }
}

impl BitwiseExact for u16 {
    proof fn lemma_eqv_exact(a: Self, b: Self) {
    }

    fn same(&self, other: &Self) -> (r: bool) {
        *self == *other
    }
}

impl BitwiseExact for u32 {
    proof fn lemma_eqv_exact(a: Self, b: Self) {
    }

    fn same(&self, other: &Self) -> (r: bool) {
        *self == *other
    }
}

impl BitwiseExact for u64 {
    proof fn lemma_eqv_exact(a: Self, b: Self) {
    }

    fn same(&self, other: &Self) -> (r: bool) {
        *self == *other
    }
}

impl BitwiseExact for u128 {
    proof fn lemma_eqv_exact(a: Self, b: Self) {
    }

    fn same(&self, other: &Self) -> (r: bool) {
        *self == *other
    }
}

impl BitwiseExact for bool {
    proof fn lemma_eqv_exact(a: Self, b: Self) {
    }

    fn same(&self, other: &Self) -> (r: bool) {
        *self == *other
    }
}

impl<A: Bitwise, B: Bitwise> Bitwise for (A, B) {
    open spec fn enc(&self) -> Seq<u8> {
        self.0.enc() + self.1.enc()
    }

    open spec fn wf(&self) -> bool {
        self.0.wf() && self.1.wf()
    }

    open spec fn eqv(&self, other: &Self) -> bool {
        self.0.eqv(&other.0) && self.1.eqv(&other.1)
    }

    open spec fn dec_ok(s: Seq<u8>) -> bool {
        let s1 = s.skip(A::dec_len(s));
        &&& A::dec_ok(s)
        &&& B::dec_ok(s1)
    }

    open spec fn dec_len(s: Seq<u8>) -> int {
        let s1 = s.skip(A::dec_len(s));
        A::dec_len(s) + B::dec_len(s1)
    }

    open spec fn decodes_to(s: Seq<u8>, v: Self) -> bool {
        let s1 = s.skip(A::dec_len(s));
        &&& A::decodes_to(s, v.0)
        &&& B::decodes_to(s1, v.1)
    }

    proof fn lemma_enc_decodes(v: Self, rest: Seq<u8>) {
        let e0 = v.0.enc();
        let e1 = v.1.enc();
        let s = v.enc() + rest;
        let r0 = e1 + rest;
        assert(s =~= e0 + r0);
        A::lemma_enc_decodes(v.0, r0);
        assert(s.skip(A::dec_len(s)) =~= r0);
        B::lemma_enc_decodes(v.1, rest);
    }

    proof fn lemma_decode_deterministic(s: Seq<u8>, a: Self, b: Self) {
        let s1 = s.skip(A::dec_len(s));
        A::lemma_decode_deterministic(s, a.0, b.0);
        B::lemma_decode_deterministic(s1, a.1, b.1);
    }

    proof fn lemma_dec_len_bounds(s: Seq<u8>) {
        let s1 = s.skip(A::dec_len(s));
        A::lemma_dec_len_bounds(s);
        B::lemma_dec_len_bounds(s1);
    }

    fn encode(&self, buffer: &mut Vec<u8>) {
        self.0.encode(buffer);
        self.1.encode(buffer);
        proof {
            assert(final(buffer)@ =~= old(buffer)@ + self.enc());
        }
    }

    fn decode(&mut self, cursor: &mut usize, buffer: &[u8]) -> (r: Option<()>) {
        let ghost c0 = *cursor as int;
        let ghost s = buffer@.skip(c0);
        let saved: usize = *cursor;
        if self.0.decode(cursor, buffer).is_none() {
            *cursor = saved;
            return None;
        }
        let ghost s1 = s.skip(A::dec_len(s));
        proof {
            A::lemma_dec_len_bounds(s);
            assert(buffer@.skip(*cursor as int) =~= s1);
        }
        if self.1.decode(cursor, buffer).is_none() {
            *cursor = saved;
            return None;
        }
        Some(())
    }
}

impl<A: BitwiseExact, B: BitwiseExact> BitwiseExact for (A, B) {
    proof fn lemma_eqv_exact(a: Self, b: Self) {
        A::lemma_eqv_exact(a.0, b.0);
        B::lemma_eqv_exact(a.1, b.1);
    }

    fn same(&self, other: &Self) -> (r: bool) {
        self.0.same(&other.0) && self.1.same(&other.1)
    }
}

/// A marker asserting at the type level that a field's type is
/// encodable; aggregate types can hold one per field to state their wire
/// obligations.
pub struct BitwiseBoundCheck<T: Bitwise>(pub core::marker::PhantomData<T>);

/// A reusable encode buffer with room for a 4-byte frame-length prefix.
///
/// Values are appended after the prefix; [`Encoder::data`] fills the prefix
/// with the payload length and hands out the finished frame, and
/// [`Encoder::clear`] drops the payload while keeping the prefix room, so
/// one allocation serves a connection's whole lifetime.
pub struct Encoder {
    pub data: Vec<u8>,
}

impl Encoder {
    /// The bytes reserved at the front for the frame-length prefix.
    pub open spec fn prefix_len() -> int {
        4
    }

    pub open spec fn wf(&self) -> bool {
        self.data@.len() >= 4
    }

    /// The encoded payload gathered so far, without the prefix room.
    pub open spec fn payload(&self) -> Seq<u8> {
        self.data@.skip(4)
    }

    pub fn new() -> (r: Self)
        ensures
            r.wf(),
            r.payload() == Seq::<u8>::empty(),
            r.data@ == seq![0u8, 0u8, 0u8, 0u8],
    {
        let mut data: Vec<u8> = Vec::new();
        data.push(0);
        data.push(0);
        data.push(0);
        data.push(0);
        let r = Encoder { data };
        proof {
            assert(r.payload() =~= Seq::<u8>::empty());
            assert(r.data@ =~= seq![0u8, 0u8, 0u8, 0u8]);
        }
        r
    }

    /// The buffer must hold no payload: callers use this between frames,
    /// and handing out a frame with leftover payload would be a fault, so
    /// the condition is a precondition here.
    pub fn assert_empty(&self)
        requires
            self.wf(),
            self.payload().len() == 0,
    {
    }

    /// Drops the payload, keeping the prefix room.
    pub fn clear(&mut self)
        requires
            old(self).wf(),
        ensures
            final(self).wf(),
            final(self).payload() == Seq::<u8>::empty(),
            final(self).data@ == old(self).data@.take(4),
    {
        self.data.truncate(4);
        proof {
            assert(final(self).payload() =~= Seq::<u8>::empty());
        }
    }

    /// Appends one value's encoding to the payload.
    pub fn encode<T: Bitwise>(&mut self, value: &T)
        requires
            old(self).wf(),
            value.wf(),
        ensures
            final(self).wf(),
            final(self).payload() == old(self).payload() + value.enc(),
    {
        value.encode(&mut self.data);
        proof {
            assert(final(self).payload() =~= old(self).payload() + value.enc());
        }
    }

    /// Appends a string as a 32-bit byte count followed by its UTF-8 bytes.
    pub fn encode_str(&mut self, s: &str)
        requires
            old(self).wf(),
            str_bytes(s@).len() <= u32::MAX,
        ensures
            final(self).wf(),
            final(self).payload() == old(self).payload() + le_bytes(str_bytes(s@).len(), 4)
                + str_bytes(s@),
    {
        let bytes = s.as_bytes();
        let n: u32 = bytes.len() as u32;
        proof {
            lemma_pow256_small();
        }
        le_encode(n as u128, 4, &mut self.data);
        append_bytes(&mut self.data, bytes);
        proof {
            assert(final(self).payload() =~= old(self).payload() + le_bytes(
                str_bytes(s@).len(),
                4,
            ) + str_bytes(s@));
        }
    }

    /// Fills the length prefix and hands out the finished frame: the
    /// payload's length in 4 little-endian bytes, then the payload.
    pub fn data(&mut self) -> (r: &[u8])
        requires
            old(self).wf(),
            old(self).payload().len() <= u32::MAX,
        ensures
            final(self).wf(),
            final(self).payload() == old(self).payload(),
            r@ == le_bytes(old(self).payload().len(), 4) + old(self).payload(),
    {
        let n: u32 = (self.data.len() - 4) as u32;
        let mut prefix: Vec<u8> = Vec::new();
        proof {
            lemma_pow256_small();
        }
        le_encode(n as u128, 4, &mut prefix);
        proof {
            lemma_le_bytes_len(n as nat, 4);
        }
        self.data[0] = prefix[0];
        self.data[1] = prefix[1];
        self.data[2] = prefix[2];
        self.data[3] = prefix[3];
        proof {
            assert(self.data@ =~= le_bytes(n as nat, 4) + old(self).payload());
            assert(final(self).payload() =~= old(self).payload());
        }
        self.data.as_slice()
    }
}

/// A reusable decode buffer: a frame's bytes plus a read cursor.
pub struct Decoder {
    buffer: Vec<u8>,
    cursor: usize,
}

impl Decoder {
    pub closed spec fn wf(&self) -> bool {
        self.cursor <= self.buffer@.len()
    }

    /// The bytes not yet consumed.
    pub closed spec fn remaining(&self) -> Seq<u8> {
        self.buffer@.skip(self.cursor as int)
    }

    /// The whole loaded frame.
    pub closed spec fn loaded(&self) -> Seq<u8> {
        self.buffer@
    }

    pub fn new() -> (r: Self)
        ensures
            r.wf(),
            r.remaining() == Seq::<u8>::empty(),
    {
        let r = Decoder { buffer: Vec::new(), cursor: 0 };
        proof {
            assert(r.remaining() =~= Seq::<u8>::empty());
        }
        r
    }

    pub fn len(&self) -> (r: usize)
        ensures
            r == self.loaded().len(),
    {
        self.buffer.len()
    }

    /// Replaces the buffer with one received frame and rewinds the cursor.
    pub fn load(&mut self, bytes: Vec<u8>)
        ensures
            final(self).wf(),
            final(self).loaded() == bytes@,
            final(self).remaining() == bytes@,
    {
        self.buffer = bytes;
        self.cursor = 0;
        proof {
            assert(final(self).remaining() =~= final(self).buffer@);
        }
    }

    /// Reads one value at the cursor; `None`, with the cursor unmoved,
    /// exactly when no well-formed encoding starts there.
    pub fn decode<T: Bitwise + Default>(&mut self) -> (r: Option<T>)
        requires
            old(self).wf(),
        ensures
            final(self).wf(),
            final(self).loaded() == old(self).loaded(),
            r is Some <==> T::dec_ok(old(self).remaining()),
            r is Some ==> T::decodes_to(old(self).remaining(), r->Some_0) && r->Some_0.wf()
                && final(self).remaining() == old(self).remaining().skip(
                T::dec_len(old(self).remaining()),
            ),
            r is None ==> final(self).remaining() == old(self).remaining(),
    {
        let mut t = T::default();
        match self.decode_into(&mut t) {
            Some(()) => Some(t),
            None => None,
        }
    }

    /// Reads one value at the cursor into `target`; `None`, with the cursor
    /// unmoved, exactly when no well-formed encoding starts there.
    pub fn decode_into<T: Bitwise>(&mut self, target: &mut T) -> (r: Option<()>)
        requires
            old(self).wf(),
        ensures
            final(self).wf(),
            final(self).loaded() == old(self).loaded(),
            r is Some <==> T::dec_ok(old(self).remaining()),
            r is Some ==> T::decodes_to(old(self).remaining(), *final(target))
                && final(target).wf() && final(self).remaining() == old(self).remaining().skip(
                T::dec_len(old(self).remaining()),
            ),
            r is None ==> final(self).remaining() == old(self).remaining(),
    {
        let mut c: usize = self.cursor;
        let r = target.decode(&mut c, self.buffer.as_slice());
        proof {
            if r is Some {
                T::lemma_dec_len_bounds(old(self).remaining());
            }
        }
        match r {
            Some(()) => {
                self.cursor = c;
                proof {
                    assert(final(self).remaining() =~= old(self).remaining().skip(
                        T::dec_len(old(self).remaining()),
                    ));
                }
                Some(())
            },
            None => None,
        }
    }
}

/// `m` with the first entry for key `k` replaced by `(k, v)`, or `(k, v)`
/// appended when no entry carries `k`.
pub open spec fn assoc_set<K, V>(m: Seq<(K, V)>, k: K, v: V) -> Seq<(K, V)>
    decreases m.len(),
{
    if m.len() == 0 {
        seq![(k, v)]
    } else if m[0].0 == k {
        seq![(k, v)] + m.skip(1)
    } else {
        seq![m[0]] + assoc_set(m.skip(1), k, v)
    }
}

/// The value of the first entry for key `k`.
pub open spec fn assoc_get<K, V>(m: Seq<(K, V)>, k: K) -> Option<V>
    decreases m.len(),
{
    if m.len() == 0 {
        None
    } else if m[0].0 == k {
        Some(m[0].1)
    } else {
        assoc_get(m.skip(1), k)
    }
}

/// No two entries carry one key.
pub open spec fn keys_unique<K, V>(m: Seq<(K, V)>) -> bool {
    forall|i: int, j: int| 0 <= i < j < m.len() ==> (#[trigger] m[i]).0 != (#[trigger] m[j]).0
}

/// A raw pair sequence folded into a map, later entries overwriting
/// earlier ones.
pub open spec fn fold_pairs<K, V>(raw: Seq<(K, V)>) -> Seq<(K, V)>
    decreases raw.len(),
{
    if raw.len() == 0 {
        Seq::empty()
    } else {
        assoc_set(fold_pairs(raw.drop_last()), raw.last().0, raw.last().1)
    }
}

proof fn lemma_assoc_set_found<K, V>(m: Seq<(K, V)>, k: K, v: V, i: int)
    requires
        0 <= i < m.len(),
        m[i].0 == k,
        forall|j: int| 0 <= j < i ==> (#[trigger] m[j]).0 != k,
    ensures
        assoc_set(m, k, v) == m.update(i, (k, v)),
    decreases i,
{
    if i == 0 {
        assert(seq![(k, v)] + m.skip(1) =~= m.update(0, (k, v)));
    } else {
        assert(m.skip(1)[i - 1].0 == k);
        assert(forall|j: int| 0 <= j < i - 1 ==> (#[trigger] m.skip(1)[j]).0 != k);
        lemma_assoc_set_found(m.skip(1), k, v, i - 1);
        assert(seq![m[0]] + m.skip(1).update(i - 1, (k, v)) =~= m.update(i, (k, v)));
    }
}

proof fn lemma_assoc_set_missing<K, V>(m: Seq<(K, V)>, k: K, v: V)
    requires
        forall|j: int| 0 <= j < m.len() ==> (#[trigger] m[j]).0 != k,
    ensures
        assoc_set(m, k, v) == m.push((k, v)),
    decreases m.len(),
{
    if m.len() == 0 {
        assert(seq![(k, v)] =~= m.push((k, v)));
    } else {
        assert(forall|j: int| 0 <= j < m.skip(1).len() ==> (#[trigger] m.skip(1)[j]).0 != k);
        lemma_assoc_set_missing(m.skip(1), k, v);
        assert(seq![m[0]] + m.skip(1).push((k, v)) =~= m.push((k, v)));
    }
}

proof fn lemma_assoc_set_wf<K: Bitwise, V: Bitwise>(m: Seq<(K, V)>, k: K, v: V)
    requires
        seq_wf(m),
        k.wf(),
        v.wf(),
    ensures
        seq_wf(assoc_set(m, k, v)),
    decreases m.len(),
{
    if m.len() == 0 {
    } else if m[0].0 == k {
        assert(forall|j: int|
            0 <= j < m.skip(1).len() ==> (#[trigger] m.skip(1)[j]) == m[j + 1]);
    } else {
        assert(forall|j: int|
            0 <= j < m.skip(1).len() ==> (#[trigger] m.skip(1)[j]) == m[j + 1]);
        lemma_assoc_set_wf(m.skip(1), k, v);
    }
}

/// Folding a duplicate-free pair sequence is the identity.
pub proof fn lemma_fold_unique<K, V>(m: Seq<(K, V)>)
    requires
        keys_unique(m),
    ensures
        fold_pairs(m) == m,
    decreases m.len(),
{
    if m.len() > 0 {
        let front = m.drop_last();
        assert(keys_unique(front)) by {
            assert(forall|i: int| 0 <= i < front.len() ==> front[i] == m[i]);
        }
        lemma_fold_unique(front);
        assert(forall|j: int| 0 <= j < front.len() ==> (#[trigger] front[j]).0 != m.last().0);
        lemma_assoc_set_missing(front, m.last().0, m.last().1);
        assert(front.push(m.last()) =~= m);
    }
}

/// The wire form of an ordered key-to-value map: a pair count followed by
/// the entries, each a key then a value.  Entries keep insertion order;
/// inserting an existing key overwrites in place; decoding tolerates
/// duplicate keys on the wire, later entries overwriting earlier ones.
#[derive(Debug)]
pub struct PairMap<K, V> {
    entries: Vec<(K, V)>,
}

impl<K: BitwiseExact, V: BitwiseExact> PairMap<K, V> {
    /// The entries in order.
    pub closed spec fn pairs(&self) -> Seq<(K, V)> {
        self.entries@
    }

    pub open spec fn map_wf(&self) -> bool {
        keys_unique(self.pairs())
    }

    pub fn new() -> (r: Self)
        ensures
            r.pairs() == Seq::<(K, V)>::empty(),
            r.map_wf(),
    {
        PairMap { entries: Vec::new() }
    }

    pub fn len(&self) -> (r: usize)
        ensures
            r == self.pairs().len(),
    {
        self.entries.len()
    }

    /// Stores `v` under `k`, overwriting the entry already carrying `k`
    /// or appending a fresh one.
    pub fn insert(&mut self, k: K, v: V)
        requires
            old(self).map_wf(),
        ensures
            final(self).map_wf(),
            final(self).pairs() == assoc_set(old(self).pairs(), k, v),
    {
        let n = self.entries.len();
        let mut i: usize = 0;
        while i < n
            invariant
                i <= n,
                n == self.entries@.len(),
                self.map_wf(),
                *self == *old(self),
                forall|j: int| 0 <= j < i ==> (#[trigger] self.entries@[j]).0 != k,
            decreases n - i,
        {
            if self.entries[i].0.same(&k) {
                self.entries[i] = (k, v);
                proof {
                    lemma_assoc_set_found(old(self).pairs(), k, v, i as int);
                }
                return ;
            }
            i = i + 1;
        }
        self.entries.push((k, v));
        proof {
            lemma_assoc_set_missing(old(self).pairs(), k, v);
        }
    }

    /// The value stored under `k`.
    pub fn get(&self, k: &K) -> (r: Option<&V>)
        ensures
            match r {
                Some(v) => assoc_get(self.pairs(), *k) == Some(*v),
                None => assoc_get(self.pairs(), *k) is None,
            },
    {
        let n = self.entries.len();
        let mut i: usize = 0;
        proof {
            assert(self.pairs().skip(0) =~= self.pairs());
        }
        while i < n
            invariant
                i <= n,
                n == self.entries@.len(),
                assoc_get(self.pairs(), *k) == assoc_get(self.pairs().skip(i as int), *k),
            decreases n - i,
        {
            proof {
                assert(self.pairs().skip(i as int)[0] == self.pairs()[i as int]);
                assert(self.pairs().skip(i as int).skip(1) =~= self.pairs().skip(i + 1));
            }
            if self.entries[i].0.same(k) {
                return Some(&self.entries[i].1);
            }
            i = i + 1;
        }
        proof {
            assert(self.pairs().skip(n as int) =~= Seq::<(K, V)>::empty());
        }
        None
    }

    /// Entrywise equality, runnable; with exact keys and values this is
    /// equality of the maps.
    pub fn same(&self, other: &Self) -> (r: bool)
        ensures
            r == (self.pairs() == other.pairs()),
    {
        let n = self.entries.len();
        if n != other.entries.len() {
            proof {
                assert(self.pairs() != other.pairs());
            }
            return false;
        }
        let mut i: usize = 0;
        while i < n
            invariant
                i <= n,
                n == self.entries@.len(),
                n == other.entries@.len(),
                forall|j: int| 0 <= j < i ==> self.entries@[j] == other.entries@[j],
            decreases n - i,
        {
            let ours = &self.entries[i];
            let theirs = &other.entries[i];
            if !(ours.0.same(&theirs.0) && ours.1.same(&theirs.1)) {
                return false;
            }
            i = i + 1;
        }
        proof {
            assert(self.pairs() =~= other.pairs());
        }
        true
    }
}

impl<K: BitwiseExact, V: BitwiseExact> Default for PairMap<K, V> {
    fn default() -> (r: Self)
        ensures
            r.pairs() == Seq::<(K, V)>::empty(),
            r.map_wf(),
    {
        PairMap { entries: Vec::new() }
    }
}

impl<K: BitwiseExact + Default, V: BitwiseExact + Default> Bitwise for PairMap<K, V> {
    open spec fn enc(&self) -> Seq<u8> {
        le_bytes(self.pairs().len(), 8) + seq_enc(self.pairs())
    }

    open spec fn wf(&self) -> bool {
        seq_wf(self.pairs()) && keys_unique(self.pairs())
    }

    open spec fn eqv(&self, other: &Self) -> bool {
        self.pairs() == other.pairs()
    }

    open spec fn dec_ok(s: Seq<u8>) -> bool {
        Vec::<(K, V)>::dec_ok(s)
    }

    open spec fn dec_len(s: Seq<u8>) -> int {
        Vec::<(K, V)>::dec_len(s)
    }

    open spec fn decodes_to(s: Seq<u8>, v: Self) -> bool {
        let n = le_val(s.subrange(0, 8));
        &&& s.len() >= 8
        &&& 8 + n <= s.len()
        &&& exists|raw: Seq<(K, V)>|
            {
                &&& raw.len() == n
                &&& #[trigger] seq_decodes_to::<(K, V)>(s.skip(8), raw)
                &&& v.pairs() == fold_pairs(raw)
            }
    }

    proof fn lemma_enc_decodes(v: Self, rest: Seq<u8>) {
        let n = v.pairs().len();
        let body = seq_enc(v.pairs());
        let s = v.enc() + rest;
        lemma_pow256_small();
        assert(n <= usize::MAX) by {
            broadcast use vstd::std_specs::vec::axiom_spec_len;

            assert(vstd::std_specs::vec::spec_vec_len(&v.entries) <= usize::MAX);
        }
        lemma_le_bytes_len(n, 8);
        assert(s.subrange(0, 8) =~= le_bytes(n, 8));
        lemma_le_bytes_val(n, 8);
        assert(s.skip(8) =~= body + rest);
        lemma_seq_enc_decodes::<(K, V)>(v.pairs(), rest);
        lemma_seq_dec_bounds::<(K, V)>(body + rest, n);
        lemma_fold_unique(v.pairs());
        assert(seq_decodes_to::<(K, V)>(s.skip(8), v.pairs()));
    }

    proof fn lemma_decode_deterministic(s: Seq<u8>, a: Self, b: Self) {
        let n = le_val(s.subrange(0, 8));
        let raw_a = choose|raw: Seq<(K, V)>|
            {
                &&& raw.len() == n
                &&& #[trigger] seq_decodes_to::<(K, V)>(s.skip(8), raw)
                &&& a.pairs() == fold_pairs(raw)
            };
        let raw_b = choose|raw: Seq<(K, V)>|
            {
                &&& raw.len() == n
                &&& #[trigger] seq_decodes_to::<(K, V)>(s.skip(8), raw)
                &&& b.pairs() == fold_pairs(raw)
            };
        lemma_seq_dec_deterministic::<(K, V)>(s.skip(8), raw_a, raw_b);
        assert forall|i: int| 0 <= i < raw_a.len() implies raw_a[i] == raw_b[i] by {
            <(K, V) as BitwiseExact>::lemma_eqv_exact(raw_a[i], raw_b[i]);
        }
        assert(raw_a =~= raw_b);
    }

    proof fn lemma_dec_len_bounds(s: Seq<u8>) {
        Vec::<(K, V)>::lemma_dec_len_bounds(s);
    }

    fn encode(&self, buffer: &mut Vec<u8>) {
        self.entries.encode(buffer);
    }

    fn decode(&mut self, cursor: &mut usize, buffer: &[u8]) -> (r: Option<()>)
        ensures
            r is None ==> *final(self) == *old(self),
    {
        let ghost c0 = *cursor as int;
        let ghost s = buffer@.skip(c0);
        let mut raw: Vec<(K, V)> = Vec::new();
        match raw.decode(cursor, buffer) {
            Some(()) => {
                let ghost raw0 = raw@;
                let mut rebuilt = PairMap::<K, V>::new();
                let n = raw.len();
                let mut i: usize = 0;
                proof {
                    assert(raw0.take(0) =~= Seq::<(K, V)>::empty());
                }
                while i < n
                    invariant
                        i <= n,
                        n == raw@.len(),
                        raw@.len() == raw0.len(),
                        forall|j: int| i <= j < raw@.len() ==> raw@[j] == raw0[j],
                        rebuilt.map_wf(),
                        seq_wf(raw0),
                        seq_wf(rebuilt.pairs()),
                        rebuilt.pairs() == fold_pairs(raw0.take(i as int)),
                    decreases n - i,
                {
                    let mut pair: (K, V) = Default::default();
                    let slot = &mut raw[i];
                    core::mem::swap(&mut pair, slot);
                    proof {
                        assert(pair == raw0[i as int]);
                        assert(raw0.take(i + 1).drop_last() =~= raw0.take(i as int));
                        assert(raw0.take(i + 1).last() == raw0[i as int]);
                        lemma_assoc_set_wf(rebuilt.pairs(), pair.0, pair.1);
                    }
                    let (k, v) = pair;
                    rebuilt.insert(k, v);
                    i = i + 1;
                }
                proof {
                    assert(raw0.take(n as int) =~= raw0);
                }
                *self = rebuilt;
                Some(())
            },
            None => None,
        }
    }
}

} // verus!

