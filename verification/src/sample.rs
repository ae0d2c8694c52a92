//! Aggregate types exercising every encodable shape the codec offers —
//! each fixed-width number, strings, byte and handle sequences, ordered
//! maps, booleans and a tagged sum in each of its forms (unit variant,
//! positional fields, named fields).  The crate's tests drive the codec
//! through these.

use crate::codec::assoc_get;
use crate::codec::assoc_set;
use crate::codec::le_bytes;
use crate::codec::lemma_concat_assoc;
use crate::codec::lemma_concat_skip;
use crate::codec::lemma_skip_skip;
use crate::codec::le_val;
use crate::codec::seq_enc;
use crate::codec::str_bytes;
use crate::codec::Bitwise;
use crate::codec::PairMap;
use vstd::prelude::*;

verus! {

/// A tagged sum with a named-field, a positional and a unit variant; on
/// the wire a one-byte discriminant is followed by the variant's fields
/// in order.
#[derive(Clone, Copy, Debug, PartialEq, Eq, Structural)]
pub enum Goo {
    A { a: u8, b: u16 },
    B(i32, i32),
    C,
}

impl Default for Goo {
    fn default() -> (r: Self)
        ensures
            r == Goo::C,
    {
        Goo::C
    }
}

impl Bitwise for Goo {
    open spec fn enc(&self) -> Seq<u8> {
        match *self {
            Goo::A { a, b } => seq![0u8] + (a.enc() + b.enc()),
            Goo::B(x, y) => seq![1u8] + (x.enc() + y.enc()),
            Goo::C => seq![2u8],
        }
    }

    open spec fn wf(&self) -> bool {
        true
    }

    open spec fn eqv(&self, other: &Self) -> bool {
        self == other
    }

    open spec fn dec_ok(s: Seq<u8>) -> bool {
        let s1 = s.skip(1);
        &&& s.len() >= 1
        &&& s[0] == 0 ==> u8::dec_ok(s1) && u16::dec_ok(s1.skip(u8::dec_len(s1)))
        &&& s[0] == 1 ==> i32::dec_ok(s1) && i32::dec_ok(s1.skip(i32::dec_len(s1)))
        &&& s[0] < 3
    }

    open spec fn dec_len(s: Seq<u8>) -> int {
        let s1 = s.skip(1);
        if s.len() >= 1 && s[0] == 0 {
            1 + u8::dec_len(s1) + u16::dec_len(s1.skip(u8::dec_len(s1)))
        } else if s.len() >= 1 && s[0] == 1 {
            1 + i32::dec_len(s1) + i32::dec_len(s1.skip(i32::dec_len(s1)))
        } else {
            1
        }
    }

    open spec fn decodes_to(s: Seq<u8>, v: Self) -> bool {
        let s1 = s.skip(1);
        &&& s.len() >= 1
        &&& s[0] == 0 ==> (v matches Goo::A { a, b } && u8::decodes_to(s1, a)
            && u16::decodes_to(s1.skip(u8::dec_len(s1)), b))
        &&& s[0] == 1 ==> (v matches Goo::B(x, y) && i32::decodes_to(s1, x) && i32::decodes_to(
            s1.skip(i32::dec_len(s1)),
            y,
        ))
        &&& s[0] == 2 ==> v is C
        &&& s[0] < 3
    }

    proof fn lemma_enc_decodes(v: Self, rest: Seq<u8>) {
        let s = v.enc() + rest;
        match v {
            Goo::A { a, b } => {
                let ea = a.enc();
                let eb = b.enc();
                assert(s[0] == 0);
                assert(s.skip(1) =~= ea + (eb + rest));
                u8::lemma_enc_decodes(a, eb + rest);
                assert(s.skip(1).skip(u8::dec_len(s.skip(1))) =~= eb + rest);
                u16::lemma_enc_decodes(b, rest);
            },
            Goo::B(x, y) => {
                let ex = x.enc();
                let ey = y.enc();
                assert(s[0] == 1);
                assert(s.skip(1) =~= ex + (ey + rest));
                i32::lemma_enc_decodes(x, ey + rest);
                assert(s.skip(1).skip(i32::dec_len(s.skip(1))) =~= ey + rest);
                i32::lemma_enc_decodes(y, rest);
            },
            Goo::C => {
                assert(s[0] == 2);
            },
        }
    }

    proof fn lemma_decode_deterministic(s: Seq<u8>, a: Self, b: Self) {
        let s1 = s.skip(1);
        if s[0] == 0 {
            u8::lemma_decode_deterministic(s1, a->A_a, b->A_a);
            u16::lemma_decode_deterministic(s1.skip(u8::dec_len(s1)), a->A_b, b->A_b);
        } else if s[0] == 1 {
            i32::lemma_decode_deterministic(s1, a->B_0, b->B_0);
            i32::lemma_decode_deterministic(s1.skip(i32::dec_len(s1)), a->B_1, b->B_1);
        }
    }

    proof fn lemma_dec_len_bounds(s: Seq<u8>) {
        let s1 = s.skip(1);
        if s[0] == 0 {
            u8::lemma_dec_len_bounds(s1);
            u16::lemma_dec_len_bounds(s1.skip(u8::dec_len(s1)));
        } else if s[0] == 1 {
            i32::lemma_dec_len_bounds(s1);
            i32::lemma_dec_len_bounds(s1.skip(i32::dec_len(s1)));
        }
    }

    fn encode(&self, buffer: &mut Vec<u8>) {
        match self {
            Goo::A { a, b } => {
                buffer.push(0);
                a.encode(buffer);
                b.encode(buffer);
            },
            Goo::B(x, y) => {
                buffer.push(1);
                x.encode(buffer);
                y.encode(buffer);
            },
            Goo::C => {
                buffer.push(2);
            },
        }
        proof {
            assert(final(buffer)@ =~= old(buffer)@ + self.enc());
        }
    }

    fn decode(&mut self, cursor: &mut usize, buffer: &[u8]) -> (r: Option<()>) {
        let ghost c0 = *cursor as int;
        let ghost s = buffer@.skip(c0);
        let saved: usize = *cursor;
        let blen = buffer.len();
        if blen - *cursor < 1 {
            return None;
        }
        let tag = buffer[*cursor];
        *cursor = *cursor + 1;
        let ghost s1 = s.skip(1);
        proof {
            assert(s[0] == tag);
            assert(buffer@.skip(*cursor as int) =~= s1);
        }
        if tag == 0 {
            let mut a: u8 = 0;
            let mut b: u16 = 0;
            if a.decode(cursor, buffer).is_none() {
                *cursor = saved;
                return None;
            }
            proof {
                u8::lemma_dec_len_bounds(s1);
                assert(buffer@.skip(*cursor as int) =~= s1.skip(u8::dec_len(s1)));
            }
            if b.decode(cursor, buffer).is_none() {
                *cursor = saved;
                return None;
            }
            *self = Goo::A { a, b };
            Some(())
        } else if tag == 1 {
            let mut x: i32 = 0;
            let mut y: i32 = 0;
            if x.decode(cursor, buffer).is_none() {
                *cursor = saved;
                return None;
            }
            proof {
                i32::lemma_dec_len_bounds(s1);
                assert(buffer@.skip(*cursor as int) =~= s1.skip(i32::dec_len(s1)));
            }
            if y.decode(cursor, buffer).is_none() {
                *cursor = saved;
                return None;
            }
            *self = Goo::B(x, y);
            Some(())
        } else if tag == 2 {
            *self = Goo::C;
            Some(())
        } else {
            *cursor = saved;
            None
        }
    }
}

/// One field of every encodable shape.
#[derive(Debug)]
pub struct Foo {
    pub a: u8,
    pub b: u16,
    pub c: u32,
    pub d: u64,
    pub e: u128,
    pub f: usize,
    pub g: i8,
    pub h: i16,
    pub i: i32,
    pub j: i64,
    pub k: i128,
    pub l: isize,
    pub o: String,
    pub p: Vec<u8>,
    pub q: PairMap<u8, u16>,
    pub r: bool,
    pub s: Goo,
    pub t: Goo,
    pub u: Goo,
}

impl Default for Foo {
    fn default() -> (r: Self)
        ensures
            r.a == 0 && r.b == 0 && r.c == 0 && r.d == 0 && r.e == 0 && r.f == 0,
            r.g == 0 && r.h == 0 && r.i == 0 && r.j == 0 && r.k == 0 && r.l == 0,
            r.o@ == Seq::<char>::empty(),
            r.p@ == Seq::<u8>::empty(),
            r.q.pairs() == Seq::<(u8, u16)>::empty(),
            r.r == false,
            r.s == Goo::C && r.t == Goo::C && r.u == Goo::C,
    {
        Foo {
            a: 0,
            b: 0,
            c: 0,
            d: 0,
            e: 0,
            f: 0,
            g: 0,
            h: 0,
            i: 0,
            j: 0,
            k: 0,
            l: 0,
            o: String::new(),
            p: Vec::new(),
            q: PairMap::new(),
            r: false,
            s: Goo::C,
            t: Goo::C,
            u: Goo::C,
        }
    }
}

fn bytes_same(a: &Vec<u8>, b: &Vec<u8>) -> (r: bool)
    ensures
        r == (a@ == b@),
{
    let n = a.len();
    if n != b.len() {
        proof {
            assert(a@ != b@);
        }
        return false;
    }
    let mut i: usize = 0;
    while i < n
        invariant
            i <= n,
            n == a@.len(),
            n == b@.len(),
            forall|j: int| 0 <= j < i ==> a@[j] == b@[j],
        decreases n - i,
    {
        if a[i] != b[i] {
            return false;
        }
        i = i + 1;
    }
    proof {
        assert(a@ =~= b@);
    }
    true
}

impl PartialEq for Foo {
    fn eq(&self, other: &Self) -> (r: bool) {
        self.a == other.a && self.b == other.b && self.c == other.c && self.d == other.d
            && self.e == other.e && self.f == other.f && self.g == other.g && self.h == other.h
            && self.i == other.i && self.j == other.j && self.k == other.k && self.l == other.l
            && self.o == other.o && bytes_same(&self.p, &other.p) && self.q.same(&other.q)
            && self.r == other.r && self.s == other.s && self.t == other.t && self.u == other.u
    }
}

impl vstd::std_specs::cmp::PartialEqSpecImpl for Foo {
    open spec fn obeys_eq_spec() -> bool {
        true
    }

    open spec fn eq_spec(&self, other: &Self) -> bool {
        &&& self.a == other.a && self.b == other.b && self.c == other.c && self.d == other.d
        &&& self.e == other.e && self.f == other.f && self.g == other.g && self.h == other.h
        &&& self.i == other.i && self.j == other.j && self.k == other.k && self.l == other.l
        &&& self.o@ == other.o@
        &&& self.p@ == other.p@
        &&& self.q.pairs() == other.q.pairs()
        &&& self.r == other.r && self.s == other.s && self.t == other.t && self.u == other.u
    }
}

impl Bitwise for Foo {
    open spec fn enc(&self) -> Seq<u8> {
        self.a.enc() + (self.b.enc() + (self.c.enc() + (self.d.enc() + (self.e.enc() + (self.f.enc() + (self.g.enc() + (self.h.enc() + (self.i.enc() + (self.j.enc() + (self.k.enc() + (self.l.enc() + (self.o.enc() + (self.p.enc() + (self.q.enc() + (self.r.enc() + (self.s.enc() + (self.t.enc() + (self.u.enc()))))))))))))))))))
    }

    open spec fn wf(&self) -> bool {
        &&& self.a.wf()
        &&& self.b.wf()
        &&& self.c.wf()
        &&& self.d.wf()
        &&& self.e.wf()
        &&& self.f.wf()
        &&& self.g.wf()
        &&& self.h.wf()
        &&& self.i.wf()
        &&& self.j.wf()
        &&& self.k.wf()
        &&& self.l.wf()
        &&& self.o.wf()
        &&& self.p.wf()
        &&& self.q.wf()
        &&& self.r.wf()
        &&& self.s.wf()
        &&& self.t.wf()
        &&& self.u.wf()
    }

    open spec fn eqv(&self, other: &Self) -> bool {
        &&& self.a.eqv(&other.a)
        &&& self.b.eqv(&other.b)
        &&& self.c.eqv(&other.c)
        &&& self.d.eqv(&other.d)
        &&& self.e.eqv(&other.e)
        &&& self.f.eqv(&other.f)
        &&& self.g.eqv(&other.g)
        &&& self.h.eqv(&other.h)
        &&& self.i.eqv(&other.i)
        &&& self.j.eqv(&other.j)
        &&& self.k.eqv(&other.k)
        &&& self.l.eqv(&other.l)
        &&& self.o.eqv(&other.o)
        &&& self.p.eqv(&other.p)
        &&& self.q.eqv(&other.q)
        &&& self.r.eqv(&other.r)
        &&& self.s.eqv(&other.s)
        &&& self.t.eqv(&other.t)
        &&& self.u.eqv(&other.u)
    }

    open spec fn dec_ok(s: Seq<u8>) -> bool {
        let s0 = s;
        let s1 = s0.skip(u8::dec_len(s0));
        let s2 = s1.skip(u16::dec_len(s1));
        let s3 = s2.skip(u32::dec_len(s2));
        let s4 = s3.skip(u64::dec_len(s3));
        let s5 = s4.skip(u128::dec_len(s4));
        let s6 = s5.skip(usize::dec_len(s5));
        let s7 = s6.skip(i8::dec_len(s6));
        let s8 = s7.skip(i16::dec_len(s7));
        let s9 = s8.skip(i32::dec_len(s8));
        let s10 = s9.skip(i64::dec_len(s9));
        let s11 = s10.skip(i128::dec_len(s10));
        let s12 = s11.skip(isize::dec_len(s11));
        let s13 = s12.skip(String::dec_len(s12));
        let s14 = s13.skip(Vec::<u8>::dec_len(s13));
        let s15 = s14.skip(PairMap::<u8, u16>::dec_len(s14));
        let s16 = s15.skip(bool::dec_len(s15));
        let s17 = s16.skip(Goo::dec_len(s16));
        let s18 = s17.skip(Goo::dec_len(s17));
        &&& u8::dec_ok(s0)
        &&& u16::dec_ok(s1)
        &&& u32::dec_ok(s2)
        &&& u64::dec_ok(s3)
        &&& u128::dec_ok(s4)
        &&& usize::dec_ok(s5)
        &&& i8::dec_ok(s6)
        &&& i16::dec_ok(s7)
        &&& i32::dec_ok(s8)
        &&& i64::dec_ok(s9)
        &&& i128::dec_ok(s10)
        &&& isize::dec_ok(s11)
        &&& String::dec_ok(s12)
        &&& Vec::<u8>::dec_ok(s13)
        &&& PairMap::<u8, u16>::dec_ok(s14)
        &&& bool::dec_ok(s15)
        &&& Goo::dec_ok(s16)
        &&& Goo::dec_ok(s17)
        &&& Goo::dec_ok(s18)
    }

    open spec fn dec_len(s: Seq<u8>) -> int {
        let s0 = s;
        let s1 = s0.skip(u8::dec_len(s0));
        let s2 = s1.skip(u16::dec_len(s1));
        let s3 = s2.skip(u32::dec_len(s2));
        let s4 = s3.skip(u64::dec_len(s3));
        let s5 = s4.skip(u128::dec_len(s4));
        let s6 = s5.skip(usize::dec_len(s5));
        let s7 = s6.skip(i8::dec_len(s6));
        let s8 = s7.skip(i16::dec_len(s7));
        let s9 = s8.skip(i32::dec_len(s8));
        let s10 = s9.skip(i64::dec_len(s9));
        let s11 = s10.skip(i128::dec_len(s10));
        let s12 = s11.skip(isize::dec_len(s11));
        let s13 = s12.skip(String::dec_len(s12));
        let s14 = s13.skip(Vec::<u8>::dec_len(s13));
        let s15 = s14.skip(PairMap::<u8, u16>::dec_len(s14));
        let s16 = s15.skip(bool::dec_len(s15));
        let s17 = s16.skip(Goo::dec_len(s16));
        let s18 = s17.skip(Goo::dec_len(s17));
        u8::dec_len(s0) + u16::dec_len(s1) + u32::dec_len(s2) + u64::dec_len(s3) + u128::dec_len(s4) + usize::dec_len(s5) + i8::dec_len(s6) + i16::dec_len(s7) + i32::dec_len(s8) + i64::dec_len(s9) + i128::dec_len(s10) + isize::dec_len(s11) + String::dec_len(s12) + Vec::<u8>::dec_len(s13) + PairMap::<u8, u16>::dec_len(s14) + bool::dec_len(s15) + Goo::dec_len(s16) + Goo::dec_len(s17) + Goo::dec_len(s18)
    }

    open spec fn decodes_to(s: Seq<u8>, v: Self) -> bool {
        let s0 = s;
        let s1 = s0.skip(u8::dec_len(s0));
        let s2 = s1.skip(u16::dec_len(s1));
        let s3 = s2.skip(u32::dec_len(s2));
        let s4 = s3.skip(u64::dec_len(s3));
        let s5 = s4.skip(u128::dec_len(s4));
        let s6 = s5.skip(usize::dec_len(s5));
        let s7 = s6.skip(i8::dec_len(s6));
        let s8 = s7.skip(i16::dec_len(s7));
        let s9 = s8.skip(i32::dec_len(s8));
        let s10 = s9.skip(i64::dec_len(s9));
        let s11 = s10.skip(i128::dec_len(s10));
        let s12 = s11.skip(isize::dec_len(s11));
        let s13 = s12.skip(String::dec_len(s12));
        let s14 = s13.skip(Vec::<u8>::dec_len(s13));
        let s15 = s14.skip(PairMap::<u8, u16>::dec_len(s14));
        let s16 = s15.skip(bool::dec_len(s15));
        let s17 = s16.skip(Goo::dec_len(s16));
        let s18 = s17.skip(Goo::dec_len(s17));
        &&& u8::decodes_to(s0, v.a)
        &&& u16::decodes_to(s1, v.b)
        &&& u32::decodes_to(s2, v.c)
        &&& u64::decodes_to(s3, v.d)
        &&& u128::decodes_to(s4, v.e)
        &&& usize::decodes_to(s5, v.f)
        &&& i8::decodes_to(s6, v.g)
        &&& i16::decodes_to(s7, v.h)
        &&& i32::decodes_to(s8, v.i)
        &&& i64::decodes_to(s9, v.j)
        &&& i128::decodes_to(s10, v.k)
        &&& isize::decodes_to(s11, v.l)
        &&& String::decodes_to(s12, v.o)
        &&& Vec::<u8>::decodes_to(s13, v.p)
        &&& PairMap::<u8, u16>::decodes_to(s14, v.q)
        &&& bool::decodes_to(s15, v.r)
        &&& Goo::decodes_to(s16, v.s)
        &&& Goo::decodes_to(s17, v.t)
        &&& Goo::decodes_to(s18, v.u)
    }

    #[verifier::rlimit(100)]
    proof fn lemma_enc_decodes(v: Self, rest: Seq<u8>) {
        let e0 = v.a.enc();
        let e1 = v.b.enc();
        let e2 = v.c.enc();
        let e3 = v.d.enc();
        let e4 = v.e.enc();
        let e5 = v.f.enc();
        let e6 = v.g.enc();
        let e7 = v.h.enc();
        let e8 = v.i.enc();
        let e9 = v.j.enc();
        let e10 = v.k.enc();
        let e11 = v.l.enc();
        let e12 = v.o.enc();
        let e13 = v.p.enc();
        let e14 = v.q.enc();
        let e15 = v.r.enc();
        let e16 = v.s.enc();
        let e17 = v.t.enc();
        let e18 = v.u.enc();
        let t18 = e18;
        let t17 = e17 + t18;
        let t16 = e16 + t17;
        let t15 = e15 + t16;
        let t14 = e14 + t15;
        let t13 = e13 + t14;
        let t12 = e12 + t13;
        let t11 = e11 + t12;
        let t10 = e10 + t11;
        let t9 = e9 + t10;
        let t8 = e8 + t9;
        let t7 = e7 + t8;
        let t6 = e6 + t7;
        let t5 = e5 + t6;
        let t4 = e4 + t5;
        let t3 = e3 + t4;
        let t2 = e2 + t3;
        let t1 = e1 + t2;
        let t0 = e0 + t1;
        assert(v.enc() == t0);
        let s0 = v.enc() + rest;
        let r0 = t1 + rest;
        let r1 = t2 + rest;
        let r2 = t3 + rest;
        let r3 = t4 + rest;
        let r4 = t5 + rest;
        let r5 = t6 + rest;
        let r6 = t7 + rest;
        let r7 = t8 + rest;
        let r8 = t9 + rest;
        let r9 = t10 + rest;
        let r10 = t11 + rest;
        let r11 = t12 + rest;
        let r12 = t13 + rest;
        let r13 = t14 + rest;
        let r14 = t15 + rest;
        let r15 = t16 + rest;
        let r16 = t17 + rest;
        let r17 = t18 + rest;
        let r18 = rest;
        lemma_concat_assoc(e0, t1, rest);
        assert(s0 == e0 + r0);
        u8::lemma_enc_decodes(v.a, r0);
        lemma_concat_skip(e0, r0);
        assert(s0.skip(u8::dec_len(s0)) == r0);
        let s1 = s0.skip(u8::dec_len(s0));
        lemma_concat_assoc(e1, t2, rest);
        assert(s1 == e1 + r1);
        u16::lemma_enc_decodes(v.b, r1);
        lemma_concat_skip(e1, r1);
        assert(s1.skip(u16::dec_len(s1)) == r1);
        let s2 = s1.skip(u16::dec_len(s1));
        lemma_concat_assoc(e2, t3, rest);
        assert(s2 == e2 + r2);
        u32::lemma_enc_decodes(v.c, r2);
        lemma_concat_skip(e2, r2);
        assert(s2.skip(u32::dec_len(s2)) == r2);
        let s3 = s2.skip(u32::dec_len(s2));
        lemma_concat_assoc(e3, t4, rest);
        assert(s3 == e3 + r3);
        u64::lemma_enc_decodes(v.d, r3);
        lemma_concat_skip(e3, r3);
        assert(s3.skip(u64::dec_len(s3)) == r3);
        let s4 = s3.skip(u64::dec_len(s3));
        lemma_concat_assoc(e4, t5, rest);
        assert(s4 == e4 + r4);
        u128::lemma_enc_decodes(v.e, r4);
        lemma_concat_skip(e4, r4);
        assert(s4.skip(u128::dec_len(s4)) == r4);
        let s5 = s4.skip(u128::dec_len(s4));
        lemma_concat_assoc(e5, t6, rest);
        assert(s5 == e5 + r5);
        usize::lemma_enc_decodes(v.f, r5);
        lemma_concat_skip(e5, r5);
        assert(s5.skip(usize::dec_len(s5)) == r5);
        let s6 = s5.skip(usize::dec_len(s5));
        lemma_concat_assoc(e6, t7, rest);
        assert(s6 == e6 + r6);
        i8::lemma_enc_decodes(v.g, r6);
        lemma_concat_skip(e6, r6);
        assert(s6.skip(i8::dec_len(s6)) == r6);
        let s7 = s6.skip(i8::dec_len(s6));
        lemma_concat_assoc(e7, t8, rest);
        assert(s7 == e7 + r7);
        i16::lemma_enc_decodes(v.h, r7);
        lemma_concat_skip(e7, r7);
        assert(s7.skip(i16::dec_len(s7)) == r7);
        let s8 = s7.skip(i16::dec_len(s7));
        lemma_concat_assoc(e8, t9, rest);
        assert(s8 == e8 + r8);
        i32::lemma_enc_decodes(v.i, r8);
        lemma_concat_skip(e8, r8);
        assert(s8.skip(i32::dec_len(s8)) == r8);
        let s9 = s8.skip(i32::dec_len(s8));
        lemma_concat_assoc(e9, t10, rest);
        assert(s9 == e9 + r9);
        i64::lemma_enc_decodes(v.j, r9);
        lemma_concat_skip(e9, r9);
        assert(s9.skip(i64::dec_len(s9)) == r9);
        let s10 = s9.skip(i64::dec_len(s9));
        lemma_concat_assoc(e10, t11, rest);
        assert(s10 == e10 + r10);
        i128::lemma_enc_decodes(v.k, r10);
        lemma_concat_skip(e10, r10);
        assert(s10.skip(i128::dec_len(s10)) == r10);
        let s11 = s10.skip(i128::dec_len(s10));
        lemma_concat_assoc(e11, t12, rest);
        assert(s11 == e11 + r11);
        isize::lemma_enc_decodes(v.l, r11);
        lemma_concat_skip(e11, r11);
        assert(s11.skip(isize::dec_len(s11)) == r11);
        let s12 = s11.skip(isize::dec_len(s11));
        lemma_concat_assoc(e12, t13, rest);
        assert(s12 == e12 + r12);
        String::lemma_enc_decodes(v.o, r12);
        lemma_concat_skip(e12, r12);
        assert(s12.skip(String::dec_len(s12)) == r12);
        let s13 = s12.skip(String::dec_len(s12));
        lemma_concat_assoc(e13, t14, rest);
        assert(s13 == e13 + r13);
        Vec::<u8>::lemma_enc_decodes(v.p, r13);
        lemma_concat_skip(e13, r13);
        assert(s13.skip(Vec::<u8>::dec_len(s13)) == r13);
        let s14 = s13.skip(Vec::<u8>::dec_len(s13));
        lemma_concat_assoc(e14, t15, rest);
        assert(s14 == e14 + r14);
        PairMap::<u8, u16>::lemma_enc_decodes(v.q, r14);
        lemma_concat_skip(e14, r14);
        assert(s14.skip(PairMap::<u8, u16>::dec_len(s14)) == r14);
        let s15 = s14.skip(PairMap::<u8, u16>::dec_len(s14));
        lemma_concat_assoc(e15, t16, rest);
        assert(s15 == e15 + r15);
        bool::lemma_enc_decodes(v.r, r15);
        lemma_concat_skip(e15, r15);
        assert(s15.skip(bool::dec_len(s15)) == r15);
        let s16 = s15.skip(bool::dec_len(s15));
        lemma_concat_assoc(e16, t17, rest);
        assert(s16 == e16 + r16);
        Goo::lemma_enc_decodes(v.s, r16);
        lemma_concat_skip(e16, r16);
        assert(s16.skip(Goo::dec_len(s16)) == r16);
        let s17 = s16.skip(Goo::dec_len(s16));
        lemma_concat_assoc(e17, t18, rest);
        assert(s17 == e17 + r17);
        Goo::lemma_enc_decodes(v.t, r17);
        lemma_concat_skip(e17, r17);
        assert(s17.skip(Goo::dec_len(s17)) == r17);
        let s18 = s17.skip(Goo::dec_len(s17));
        assert(s18 == e18 + r18);
        Goo::lemma_enc_decodes(v.u, r18);
    }

    proof fn lemma_decode_deterministic(s: Seq<u8>, a: Self, b: Self) {
        let s0 = s;
        let s1 = s0.skip(u8::dec_len(s0));
        let s2 = s1.skip(u16::dec_len(s1));
        let s3 = s2.skip(u32::dec_len(s2));
        let s4 = s3.skip(u64::dec_len(s3));
        let s5 = s4.skip(u128::dec_len(s4));
        let s6 = s5.skip(usize::dec_len(s5));
        let s7 = s6.skip(i8::dec_len(s6));
        let s8 = s7.skip(i16::dec_len(s7));
        let s9 = s8.skip(i32::dec_len(s8));
        let s10 = s9.skip(i64::dec_len(s9));
        let s11 = s10.skip(i128::dec_len(s10));
        let s12 = s11.skip(isize::dec_len(s11));
        let s13 = s12.skip(String::dec_len(s12));
        let s14 = s13.skip(Vec::<u8>::dec_len(s13));
        let s15 = s14.skip(PairMap::<u8, u16>::dec_len(s14));
        let s16 = s15.skip(bool::dec_len(s15));
        let s17 = s16.skip(Goo::dec_len(s16));
        let s18 = s17.skip(Goo::dec_len(s17));
        u8::lemma_decode_deterministic(s0, a.a, b.a);
        u16::lemma_decode_deterministic(s1, a.b, b.b);
        u32::lemma_decode_deterministic(s2, a.c, b.c);
        u64::lemma_decode_deterministic(s3, a.d, b.d);
        u128::lemma_decode_deterministic(s4, a.e, b.e);
        usize::lemma_decode_deterministic(s5, a.f, b.f);
        i8::lemma_decode_deterministic(s6, a.g, b.g);
        i16::lemma_decode_deterministic(s7, a.h, b.h);
        i32::lemma_decode_deterministic(s8, a.i, b.i);
        i64::lemma_decode_deterministic(s9, a.j, b.j);
        i128::lemma_decode_deterministic(s10, a.k, b.k);
        isize::lemma_decode_deterministic(s11, a.l, b.l);
        String::lemma_decode_deterministic(s12, a.o, b.o);
        Vec::<u8>::lemma_decode_deterministic(s13, a.p, b.p);
        PairMap::<u8, u16>::lemma_decode_deterministic(s14, a.q, b.q);
        bool::lemma_decode_deterministic(s15, a.r, b.r);
        Goo::lemma_decode_deterministic(s16, a.s, b.s);
        Goo::lemma_decode_deterministic(s17, a.t, b.t);
        Goo::lemma_decode_deterministic(s18, a.u, b.u);
    }

    proof fn lemma_dec_len_bounds(s: Seq<u8>) {
        let s0 = s;
        let s1 = s0.skip(u8::dec_len(s0));
        let s2 = s1.skip(u16::dec_len(s1));
        let s3 = s2.skip(u32::dec_len(s2));
        let s4 = s3.skip(u64::dec_len(s3));
        let s5 = s4.skip(u128::dec_len(s4));
        let s6 = s5.skip(usize::dec_len(s5));
        let s7 = s6.skip(i8::dec_len(s6));
        let s8 = s7.skip(i16::dec_len(s7));
        let s9 = s8.skip(i32::dec_len(s8));
        let s10 = s9.skip(i64::dec_len(s9));
        let s11 = s10.skip(i128::dec_len(s10));
        let s12 = s11.skip(isize::dec_len(s11));
        let s13 = s12.skip(String::dec_len(s12));
        let s14 = s13.skip(Vec::<u8>::dec_len(s13));
        let s15 = s14.skip(PairMap::<u8, u16>::dec_len(s14));
        let s16 = s15.skip(bool::dec_len(s15));
        let s17 = s16.skip(Goo::dec_len(s16));
        let s18 = s17.skip(Goo::dec_len(s17));
        u8::lemma_dec_len_bounds(s0);
        u16::lemma_dec_len_bounds(s1);
        u32::lemma_dec_len_bounds(s2);
        u64::lemma_dec_len_bounds(s3);
        u128::lemma_dec_len_bounds(s4);
        usize::lemma_dec_len_bounds(s5);
        i8::lemma_dec_len_bounds(s6);
        i16::lemma_dec_len_bounds(s7);
        i32::lemma_dec_len_bounds(s8);
        i64::lemma_dec_len_bounds(s9);
        i128::lemma_dec_len_bounds(s10);
        isize::lemma_dec_len_bounds(s11);
        String::lemma_dec_len_bounds(s12);
        Vec::<u8>::lemma_dec_len_bounds(s13);
        PairMap::<u8, u16>::lemma_dec_len_bounds(s14);
        bool::lemma_dec_len_bounds(s15);
        Goo::lemma_dec_len_bounds(s16);
        Goo::lemma_dec_len_bounds(s17);
        Goo::lemma_dec_len_bounds(s18);
    }

    #[verifier::rlimit(100)]
    fn encode(&self, buffer: &mut Vec<u8>) {
        self.a.encode(buffer);
        self.b.encode(buffer);
        self.c.encode(buffer);
        self.d.encode(buffer);
        self.e.encode(buffer);
        self.f.encode(buffer);
        self.g.encode(buffer);
        self.h.encode(buffer);
        self.i.encode(buffer);
        self.j.encode(buffer);
        self.k.encode(buffer);
        self.l.encode(buffer);
        self.o.encode(buffer);
        self.p.encode(buffer);
        self.q.encode(buffer);
        self.r.encode(buffer);
        self.s.encode(buffer);
        self.t.encode(buffer);
        self.u.encode(buffer);
        proof {
            let e0 = self.a.enc();
            let e1 = self.b.enc();
            let e2 = self.c.enc();
            let e3 = self.d.enc();
            let e4 = self.e.enc();
            let e5 = self.f.enc();
            let e6 = self.g.enc();
            let e7 = self.h.enc();
            let e8 = self.i.enc();
            let e9 = self.j.enc();
            let e10 = self.k.enc();
            let e11 = self.l.enc();
            let e12 = self.o.enc();
            let e13 = self.p.enc();
            let e14 = self.q.enc();
            let e15 = self.r.enc();
            let e16 = self.s.enc();
            let e17 = self.t.enc();
            let e18 = self.u.enc();
            let t18 = e18;
            let t17 = e17 + t18;
            let t16 = e16 + t17;
            let t15 = e15 + t16;
            let t14 = e14 + t15;
            let t13 = e13 + t14;
            let t12 = e12 + t13;
            let t11 = e11 + t12;
            let t10 = e10 + t11;
            let t9 = e9 + t10;
            let t8 = e8 + t9;
            let t7 = e7 + t8;
            let t6 = e6 + t7;
            let t5 = e5 + t6;
            let t4 = e4 + t5;
            let t3 = e3 + t4;
            let t2 = e2 + t3;
            let t1 = e1 + t2;
            let t0 = e0 + t1;
            assert(self.enc() == t0);
            let x0 = old(buffer)@;
            let x1 = x0 + e0;
            let x2 = x1 + e1;
            let x3 = x2 + e2;
            let x4 = x3 + e3;
            let x5 = x4 + e4;
            let x6 = x5 + e5;
            let x7 = x6 + e6;
            let x8 = x7 + e7;
            let x9 = x8 + e8;
            let x10 = x9 + e9;
            let x11 = x10 + e10;
            let x12 = x11 + e11;
            let x13 = x12 + e12;
            let x14 = x13 + e13;
            let x15 = x14 + e14;
            let x16 = x15 + e15;
            let x17 = x16 + e16;
            let x18 = x17 + e17;
            let x19 = x18 + e18;
            assert(buffer@ == x19);
            lemma_concat_assoc(x0, e0, t1);
            assert(x0 + t0 == x1 + t1);
            lemma_concat_assoc(x1, e1, t2);
            assert(x1 + t1 == x2 + t2);
            lemma_concat_assoc(x2, e2, t3);
            assert(x2 + t2 == x3 + t3);
            lemma_concat_assoc(x3, e3, t4);
            assert(x3 + t3 == x4 + t4);
            lemma_concat_assoc(x4, e4, t5);
            assert(x4 + t4 == x5 + t5);
            lemma_concat_assoc(x5, e5, t6);
            assert(x5 + t5 == x6 + t6);
            lemma_concat_assoc(x6, e6, t7);
            assert(x6 + t6 == x7 + t7);
            lemma_concat_assoc(x7, e7, t8);
            assert(x7 + t7 == x8 + t8);
            lemma_concat_assoc(x8, e8, t9);
            assert(x8 + t8 == x9 + t9);
            lemma_concat_assoc(x9, e9, t10);
            assert(x9 + t9 == x10 + t10);
            lemma_concat_assoc(x10, e10, t11);
            assert(x10 + t10 == x11 + t11);
            lemma_concat_assoc(x11, e11, t12);
            assert(x11 + t11 == x12 + t12);
            lemma_concat_assoc(x12, e12, t13);
            assert(x12 + t12 == x13 + t13);
            lemma_concat_assoc(x13, e13, t14);
            assert(x13 + t13 == x14 + t14);
            lemma_concat_assoc(x14, e14, t15);
            assert(x14 + t14 == x15 + t15);
            lemma_concat_assoc(x15, e15, t16);
            assert(x15 + t15 == x16 + t16);
            lemma_concat_assoc(x16, e16, t17);
            assert(x16 + t16 == x17 + t17);
            lemma_concat_assoc(x17, e17, t18);
            assert(x17 + t17 == x18 + t18);
            assert(x18 + t18 == x19);
            assert(old(buffer)@ + self.enc() == buffer@);
        }
    }

    #[verifier::rlimit(100)]
    fn decode(&mut self, cursor: &mut usize, buffer: &[u8]) -> (r: Option<()>) {
        let ghost c0 = *cursor as int;
        let ghost s0 = buffer@.skip(c0);
        let saved: usize = *cursor;
        if self.a.decode(cursor, buffer).is_none() {
            *cursor = saved;
            return None;
        }
        let ghost s1 = s0.skip(u8::dec_len(s0));
        proof {
            u8::lemma_dec_len_bounds(s0);
            lemma_skip_skip(buffer@, c0, u8::dec_len(s0));
            assert(buffer@.skip(*cursor as int) == s1);
        }
        let ghost c1 = *cursor as int;
        if self.b.decode(cursor, buffer).is_none() {
            *cursor = saved;
            return None;
        }
        let ghost s2 = s1.skip(u16::dec_len(s1));
        proof {
            u16::lemma_dec_len_bounds(s1);
            lemma_skip_skip(buffer@, c1, u16::dec_len(s1));
            assert(buffer@.skip(*cursor as int) == s2);
        }
        let ghost c2 = *cursor as int;
        if self.c.decode(cursor, buffer).is_none() {
            *cursor = saved;
            return None;
        }
        let ghost s3 = s2.skip(u32::dec_len(s2));
        proof {
            u32::lemma_dec_len_bounds(s2);
            lemma_skip_skip(buffer@, c2, u32::dec_len(s2));
            assert(buffer@.skip(*cursor as int) == s3);
        }
        let ghost c3 = *cursor as int;
        if self.d.decode(cursor, buffer).is_none() {
            *cursor = saved;
            return None;
        }
        let ghost s4 = s3.skip(u64::dec_len(s3));
        proof {
            u64::lemma_dec_len_bounds(s3);
            lemma_skip_skip(buffer@, c3, u64::dec_len(s3));
            assert(buffer@.skip(*cursor as int) == s4);
        }
        let ghost c4 = *cursor as int;
        if self.e.decode(cursor, buffer).is_none() {
            *cursor = saved;
            return None;
        }
        let ghost s5 = s4.skip(u128::dec_len(s4));
        proof {
            u128::lemma_dec_len_bounds(s4);
            lemma_skip_skip(buffer@, c4, u128::dec_len(s4));
            assert(buffer@.skip(*cursor as int) == s5);
        }
        let ghost c5 = *cursor as int;
        if self.f.decode(cursor, buffer).is_none() {
            *cursor = saved;
            return None;
        }
        let ghost s6 = s5.skip(usize::dec_len(s5));
        proof {
            usize::lemma_dec_len_bounds(s5);
            lemma_skip_skip(buffer@, c5, usize::dec_len(s5));
            assert(buffer@.skip(*cursor as int) == s6);
        }
        let ghost c6 = *cursor as int;
        if self.g.decode(cursor, buffer).is_none() {
            *cursor = saved;
            return None;
        }
        let ghost s7 = s6.skip(i8::dec_len(s6));
        proof {
            i8::lemma_dec_len_bounds(s6);
            lemma_skip_skip(buffer@, c6, i8::dec_len(s6));
            assert(buffer@.skip(*cursor as int) == s7);
        }
        let ghost c7 = *cursor as int;
        if self.h.decode(cursor, buffer).is_none() {
            *cursor = saved;
            return None;
        }
        let ghost s8 = s7.skip(i16::dec_len(s7));
        proof {
            i16::lemma_dec_len_bounds(s7);
            lemma_skip_skip(buffer@, c7, i16::dec_len(s7));
            assert(buffer@.skip(*cursor as int) == s8);
        }
        let ghost c8 = *cursor as int;
        if self.i.decode(cursor, buffer).is_none() {
            *cursor = saved;
            return None;
        }
        let ghost s9 = s8.skip(i32::dec_len(s8));
        proof {
            i32::lemma_dec_len_bounds(s8);
            lemma_skip_skip(buffer@, c8, i32::dec_len(s8));
            assert(buffer@.skip(*cursor as int) == s9);
        }
        let ghost c9 = *cursor as int;
        if self.j.decode(cursor, buffer).is_none() {
            *cursor = saved;
            return None;
        }
        let ghost s10 = s9.skip(i64::dec_len(s9));
        proof {
            i64::lemma_dec_len_bounds(s9);
            lemma_skip_skip(buffer@, c9, i64::dec_len(s9));
            assert(buffer@.skip(*cursor as int) == s10);
        }
        let ghost c10 = *cursor as int;
        if self.k.decode(cursor, buffer).is_none() {
            *cursor = saved;
            return None;
        }
        let ghost s11 = s10.skip(i128::dec_len(s10));
        proof {
            i128::lemma_dec_len_bounds(s10);
            lemma_skip_skip(buffer@, c10, i128::dec_len(s10));
            assert(buffer@.skip(*cursor as int) == s11);
        }
        let ghost c11 = *cursor as int;
        if self.l.decode(cursor, buffer).is_none() {
            *cursor = saved;
            return None;
        }
        let ghost s12 = s11.skip(isize::dec_len(s11));
        proof {
            isize::lemma_dec_len_bounds(s11);
            lemma_skip_skip(buffer@, c11, isize::dec_len(s11));
            assert(buffer@.skip(*cursor as int) == s12);
        }
        let ghost c12 = *cursor as int;
        if self.o.decode(cursor, buffer).is_none() {
            *cursor = saved;
            return None;
        }
        let ghost s13 = s12.skip(String::dec_len(s12));
        proof {
            String::lemma_dec_len_bounds(s12);
            lemma_skip_skip(buffer@, c12, String::dec_len(s12));
            assert(buffer@.skip(*cursor as int) == s13);
        }
        let ghost c13 = *cursor as int;
        if self.p.decode(cursor, buffer).is_none() {
            *cursor = saved;
            return None;
        }
        let ghost s14 = s13.skip(Vec::<u8>::dec_len(s13));
        proof {
            Vec::<u8>::lemma_dec_len_bounds(s13);
            lemma_skip_skip(buffer@, c13, Vec::<u8>::dec_len(s13));
            assert(buffer@.skip(*cursor as int) == s14);
        }
        let ghost c14 = *cursor as int;
        if self.q.decode(cursor, buffer).is_none() {
            *cursor = saved;
            return None;
        }
        let ghost s15 = s14.skip(PairMap::<u8, u16>::dec_len(s14));
        proof {
            PairMap::<u8, u16>::lemma_dec_len_bounds(s14);
            lemma_skip_skip(buffer@, c14, PairMap::<u8, u16>::dec_len(s14));
            assert(buffer@.skip(*cursor as int) == s15);
        }
        let ghost c15 = *cursor as int;
        if self.r.decode(cursor, buffer).is_none() {
            *cursor = saved;
            return None;
        }
        let ghost s16 = s15.skip(bool::dec_len(s15));
        proof {
            bool::lemma_dec_len_bounds(s15);
            lemma_skip_skip(buffer@, c15, bool::dec_len(s15));
            assert(buffer@.skip(*cursor as int) == s16);
        }
        let ghost c16 = *cursor as int;
        if self.s.decode(cursor, buffer).is_none() {
            *cursor = saved;
            return None;
        }
        let ghost s17 = s16.skip(Goo::dec_len(s16));
        proof {
            Goo::lemma_dec_len_bounds(s16);
            lemma_skip_skip(buffer@, c16, Goo::dec_len(s16));
            assert(buffer@.skip(*cursor as int) == s17);
        }
        let ghost c17 = *cursor as int;
        if self.t.decode(cursor, buffer).is_none() {
            *cursor = saved;
            return None;
        }
        let ghost s18 = s17.skip(Goo::dec_len(s17));
        proof {
            Goo::lemma_dec_len_bounds(s17);
            lemma_skip_skip(buffer@, c17, Goo::dec_len(s17));
            assert(buffer@.skip(*cursor as int) == s18);
        }
        let ghost c18 = *cursor as int;
        if self.u.decode(cursor, buffer).is_none() {
            *cursor = saved;
            return None;
        }
        Some(())
    }
}

} // verus!
