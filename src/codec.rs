use vstd::bytes::{
    lemma_auto_spec_u32_to_from_le_bytes, lemma_auto_spec_u64_to_from_le_bytes,
    spec_u32_from_le_bytes, spec_u32_to_le_bytes, spec_u64_from_le_bytes, spec_u64_to_le_bytes,
    u32_from_le_bytes, u32_to_le_bytes, u64_from_le_bytes, u64_to_le_bytes,
};
use vstd::prelude::*;

use crate::records::{Book, Loan, Member, Reservation};
use vstd::slice::slice_subrange;
use vstd::string::StrSliceExecFns;
use vstd::utf8::{char_is_scalar, char_u32_cast, is_scalar};

verus! {

/// Largest encoded size of one record, in bytes.
pub const MAX_ENCODED_SIZE: usize = 1024;

/// Encodings vary in length with the strings a record holds.
pub const IS_FIXED_SIZE: bool = false;

/// A character as four little-endian bytes of its scalar value.
pub open spec fn char_bytes(c: char) -> Seq<u8> {
    spec_u32_to_le_bytes(c as u32)
}

pub open spec fn chars_bytes(s: Seq<char>) -> Seq<u8>
    decreases s.len(),
{
    if s.len() == 0 {
        Seq::empty()
    } else {
        chars_bytes(s.drop_last()) + char_bytes(s.last())
    }
}

/// A string as its length in characters (eight bytes) followed by its characters.
pub open spec fn str_bytes(s: Seq<char>) -> Seq<u8> {
    spec_u64_to_le_bytes(s.len() as u64) + chars_bytes(s)
}

proof fn lemma_chars_bytes_len(s: Seq<char>)
    ensures
        chars_bytes(s).len() == 4 * s.len(),
    decreases s.len(),
{
    lemma_auto_spec_u32_to_from_le_bytes();
    if s.len() > 0 {
        lemma_chars_bytes_len(s.drop_last());
    }
}

proof fn lemma_chars_bytes_at(s: Seq<char>, i: int)
    requires
        0 <= i < s.len(),
    ensures
        4 * i + 4 <= chars_bytes(s).len(),
        chars_bytes(s).subrange(4 * i, 4 * i + 4) == char_bytes(s[i]),
    decreases s.len(),
{
    lemma_auto_spec_u32_to_from_le_bytes();
    lemma_chars_bytes_len(s);
    lemma_chars_bytes_len(s.drop_last());
    let a = chars_bytes(s.drop_last());
    let c = char_bytes(s.last());
    if i == s.len() - 1 {
        assert((a + c).subrange(4 * i, 4 * i + 4) =~= c);
    } else {
        lemma_chars_bytes_at(s.drop_last(), i);
        assert((a + c).subrange(4 * i, 4 * i + 4) =~= a.subrange(4 * i, 4 * i + 4));
    }
}

/// Relies on `char::from_u32`: a scalar value maps to its character, and
/// only values that no character has are refused.
#[verifier::external_body]
fn char_of(v: u32) -> (r: Option<char>)
    ensures
        match r {
            Some(c) => c as u32 == v,
            None => !is_scalar(v),
        },
{
    char::from_u32(v)
}

/// Relies on `String::push`: appends one character.
#[verifier::external_body]
fn push_char(s: &mut String, c: char)
    ensures
        final(s)@ == old(s)@.push(c),
{
    s.push(c)
}

fn push_all(out: &mut Vec<u8>, src: &Vec<u8>)
    ensures
        final(out)@ == old(out)@ + src@,
{
    let mut i: usize = 0;
    while i < src.len()
        invariant
            i <= src@.len(),
            out@ == old(out)@ + src@.subrange(0, i as int),
        decreases src@.len() - i,
    {
        out.push(src[i]);
        i = i + 1;
        assert(out@ =~= old(out)@ + src@.subrange(0, i as int));
    }
    assert(src@.subrange(0, src@.len() as int) =~= src@);
}

fn write_u64(out: &mut Vec<u8>, v: u64)
    ensures
        final(out)@ == old(out)@ + spec_u64_to_le_bytes(v),
{
    let b = u64_to_le_bytes(v);
    push_all(out, &b);
}

fn write_str(out: &mut Vec<u8>, s: &String)
    ensures
        final(out)@ == old(out)@ + str_bytes(s@),
{
    let n = s.as_str().unicode_len();
    write_u64(out, n as u64);
    let ghost start = out@;
    let mut i: usize = 0;
    while i < n
        invariant
            n == s@.len(),
            i <= n,
            out@ == start + chars_bytes(s@.subrange(0, i as int)),
        decreases n - i,
    {
        let c = s.as_str().get_char(i);
        let b = u32_to_le_bytes(c as u32);
        push_all(out, &b);
        proof {
            assert(s@.subrange(0, i + 1).drop_last() =~= s@.subrange(0, i as int));
        }
        i = i + 1;
    }
    assert(s@.subrange(0, n as int) =~= s@);
    assert(out@ =~= old(out)@ + str_bytes(s@));
}

/// Reads eight little-endian bytes at `pos`.
fn read_u64(b: &Vec<u8>, pos: usize, Ghost(v): Ghost<u64>, Ghost(rest): Ghost<Seq<u8>>) -> (r:
    Option<(u64, usize)>)
    requires
        pos <= b@.len(),
    ensures
        match r {
            Some((x, p)) => pos < p <= b@.len(),
            None => true,
        },
        b@.subrange(pos as int, b@.len() as int) == spec_u64_to_le_bytes(v) + rest ==> {
            &&& pos + 8 <= b@.len()
            &&& r == Some((v, (pos + 8) as usize))
            &&& b@.subrange(pos + 8, b@.len() as int) == rest
        },
{
    proof {
        lemma_auto_spec_u64_to_from_le_bytes();
    }
    if b.len() - pos < 8 {
        proof {
            let t = b@.subrange(pos as int, b@.len() as int);
            assert(spec_u64_to_le_bytes(v).len() == 8);
            assert(t.len() < 8);
        }
        return None;
    }
    let x = u64_from_le_bytes(slice_subrange(b.as_slice(), pos, pos + 8));
    proof {
        let t = b@.subrange(pos as int, b@.len() as int);
        if t == spec_u64_to_le_bytes(v) + rest {
            assert(b@.subrange(pos as int, pos + 8) =~= t.subrange(0, 8));
            assert(t.subrange(0, 8) =~= spec_u64_to_le_bytes(v));
            assert(x == spec_u64_from_le_bytes(spec_u64_to_le_bytes(v)));
            assert(b@.subrange(pos + 8, b@.len() as int) =~= t.subrange(8, t.len() as int));
            assert(t.subrange(8, t.len() as int) =~= rest);
        }
    }
    Some((x, pos + 8))
}

/// Reads a string written by `write_str` at `pos`.
fn read_str(b: &Vec<u8>, pos: usize, Ghost(t): Ghost<Seq<char>>, Ghost(rest): Ghost<Seq<u8>>) -> (r:
    Option<(String, usize)>)
    requires
        pos <= b@.len(),
    ensures
        match r {
            Some((x, p)) => pos < p <= b@.len(),
            None => true,
        },
        b@.subrange(pos as int, b@.len() as int) == str_bytes(t) + rest ==> match r {
            Some((x, q)) => x@ == t && b@.subrange(q as int, b@.len() as int) == rest,
            None => false,
        },
{
    let ghost h = b@.subrange(pos as int, b@.len() as int) == str_bytes(t) + rest;
    let blen = b.len();
    proof {
        lemma_auto_spec_u32_to_from_le_bytes();
        lemma_auto_spec_u64_to_from_le_bytes();
        lemma_chars_bytes_len(t);
        assert(str_bytes(t) + rest =~= spec_u64_to_le_bytes(t.len() as u64) + (chars_bytes(t)
            + rest));
        if h {
            assert(b@.subrange(pos as int, b@.len() as int) == spec_u64_to_le_bytes(
                t.len() as u64,
            ) + (chars_bytes(t) + rest));
            assert(spec_u64_to_le_bytes(t.len() as u64).len() == 8);
            assert(b@.len() - pos == 8 + 4 * t.len() + rest.len());
            assert(pos + 8 <= b@.len());
            assert(t.len() < 0x1_0000_0000_0000_0000);
        }
    }
    let head = read_u64(b, pos, Ghost(t.len() as u64), Ghost(chars_bytes(t) + rest));
    if head.is_none() {
        return None;
    }
    let n: u64 = head.unwrap().0;
    let p: usize = head.unwrap().1;
    proof {
        if h {
            let u = b@.subrange(p as int, b@.len() as int);
            assert(u == chars_bytes(t) + rest);
            assert(u.len() >= 4 * t.len());
            assert(t.len() <= (b@.len() - p) / 4) by (nonlinear_arith)
                requires
                    b@.len() - p >= 4 * t.len(),
                    p <= b@.len(),
            ;
        }
    }
    if n > ((b.len() - p) / 4) as u64 {
        return None;
    }
    let n = n as usize;
    proof {
        assert(p + 4 * n <= b@.len()) by (nonlinear_arith)
            requires
                n <= (b@.len() - p) / 4,
                p <= b@.len(),
        ;
    }
    let mut s = String::new();
    let mut i: usize = 0;
    proof {
        assert(t.subrange(0, 0) =~= Seq::<char>::empty());
    }
    while i < n
        invariant
            i <= n,
            b@.len() == blen,
            h == (b@.subrange(pos as int, b@.len() as int) == str_bytes(t) + rest),
            p + 4 * n <= b@.len(),
            h ==> n == t.len() && b@.subrange(p as int, b@.len() as int) == chars_bytes(t) + rest,
            h ==> s@ == t.subrange(0, i as int),
        decreases n - i,
    {
        proof {
            assert(4 * i + 4 <= 4 * n) by (nonlinear_arith)
                requires
                    i < n,
            ;
            assert(p + 4 * i + 4 <= b@.len());
        }
        let q = p + 4 * i;
        let w = u32_from_le_bytes(slice_subrange(b.as_slice(), q, q + 4));
        proof {
            if h {
                lemma_chars_bytes_at(t, i as int);
                let u = b@.subrange(p as int, b@.len() as int);
                assert(b@.subrange(q as int, q + 4) =~= u.subrange(4 * i, 4 * i + 4));
                assert(u.subrange(4 * i, 4 * i + 4) =~= chars_bytes(t).subrange(4 * i, 4 * i + 4));
                assert(b@.subrange(q as int, q + 4) == char_bytes(t[i as int]));
                lemma_auto_spec_u32_to_from_le_bytes();
                assert(w == spec_u32_from_le_bytes(spec_u32_to_le_bytes(t[i as int] as u32)));
                assert(w == t[i as int] as u32);
            }
        }
        assert(h ==> w == t[i as int] as u32);
        let oc = char_of(w);
        if oc.is_none() {
            proof {
                if h {
                    char_is_scalar(t[i as int]);
                    assert(is_scalar(w));
                }
            }
            return None;
        }
        let c = oc.unwrap();
        push_char(&mut s, c);
        proof {
            if h {
                char_u32_cast(c, w);
                char_u32_cast(t[i as int], w);
                assert(s@ =~= t.subrange(0, i + 1));
            }
        }
        i = i + 1;
    }
    let end = p + 4 * n;
    assert(pos < end <= b@.len());
    proof {
        if h {
            assert(s@ =~= t);
            let u = b@.subrange(p as int, b@.len() as int);
            assert(b@.subrange(end as int, b@.len() as int) =~= u.subrange(
                4 * n,
                u.len() as int,
            ));
            assert(u.subrange(4 * n, u.len() as int) =~= rest);
        }
    }
    Some((s, end))
}

/// A flag as one byte, 1 for true and 0 for false.
pub open spec fn flag_bytes(b: bool) -> Seq<u8> {
    seq![if b { 1u8 } else { 0u8 }]
}

/// A signed 32-bit integer as four little-endian bytes of its value offset by 2^31.
pub open spec fn i32_bytes(x: i32) -> Seq<u8> {
    spec_u32_to_le_bytes((x as int + 0x8000_0000) as u32)
}

/// An optional integer as a tag byte, followed by the integer when present.
pub open spec fn opt_bytes(o: Option<u64>) -> Seq<u8> {
    match o {
        Some(v) => seq![1u8] + spec_u64_to_le_bytes(v),
        None => seq![0u8],
    }
}

proof fn lemma_peel_u64(a: u64, b: u64, r1: Seq<u8>, r2: Seq<u8>)
    requires
        spec_u64_to_le_bytes(a) + r1 == spec_u64_to_le_bytes(b) + r2,
    ensures
        a == b,
        r1 == r2,
{
    lemma_auto_spec_u64_to_from_le_bytes();
    let x = spec_u64_to_le_bytes(a) + r1;
    let y = spec_u64_to_le_bytes(b) + r2;
    assert(x.subrange(0, 8) =~= spec_u64_to_le_bytes(a));
    assert(y.subrange(0, 8) =~= spec_u64_to_le_bytes(b));
    assert(x.subrange(8, x.len() as int) =~= r1);
    assert(y.subrange(8, y.len() as int) =~= r2);
}

proof fn lemma_peel_u32(a: u32, b: u32, r1: Seq<u8>, r2: Seq<u8>)
    requires
        spec_u32_to_le_bytes(a) + r1 == spec_u32_to_le_bytes(b) + r2,
    ensures
        a == b,
        r1 == r2,
{
    lemma_auto_spec_u32_to_from_le_bytes();
    let x = spec_u32_to_le_bytes(a) + r1;
    let y = spec_u32_to_le_bytes(b) + r2;
    assert(x.subrange(0, 4) =~= spec_u32_to_le_bytes(a));
    assert(y.subrange(0, 4) =~= spec_u32_to_le_bytes(b));
    assert(x.subrange(4, x.len() as int) =~= r1);
    assert(y.subrange(4, y.len() as int) =~= r2);
}

proof fn lemma_peel_flag(a: bool, b: bool, r1: Seq<u8>, r2: Seq<u8>)
    requires
        flag_bytes(a) + r1 == flag_bytes(b) + r2,
    ensures
        a == b,
        r1 == r2,
{
    let x = flag_bytes(a) + r1;
    assert(x[0] == flag_bytes(a)[0]);
    assert(x.subrange(1, x.len() as int) =~= r1);
    assert((flag_bytes(b) + r2).subrange(1, x.len() as int) =~= r2);
}

proof fn lemma_peel_i32(a: i32, b: i32, r1: Seq<u8>, r2: Seq<u8>)
    requires
        i32_bytes(a) + r1 == i32_bytes(b) + r2,
    ensures
        a == b,
        r1 == r2,
{
    lemma_peel_u32((a as int + 0x8000_0000) as u32, (b as int + 0x8000_0000) as u32, r1, r2);
}

proof fn lemma_peel_opt(a: Option<u64>, b: Option<u64>, r1: Seq<u8>, r2: Seq<u8>)
    requires
        opt_bytes(a) + r1 == opt_bytes(b) + r2,
    ensures
        a == b,
        r1 == r2,
{
    lemma_auto_spec_u64_to_from_le_bytes();
    let x = opt_bytes(a) + r1;
    let y = opt_bytes(b) + r2;
    assert(x[0] == opt_bytes(a)[0]);
    assert(y[0] == opt_bytes(b)[0]);
    match a {
        Some(u) => {
            let v = b->0;
            assert(x.subrange(1, x.len() as int) =~= spec_u64_to_le_bytes(u) + r1);
            assert(y.subrange(1, y.len() as int) =~= spec_u64_to_le_bytes(v) + r2);
            lemma_peel_u64(u, v, r1, r2);
        },
        None => {
            assert(x.subrange(1, x.len() as int) =~= r1);
            assert(y.subrange(1, y.len() as int) =~= r2);
        },
    }
}

proof fn lemma_peel_str(s: Seq<char>, t: Seq<char>, r1: Seq<u8>, r2: Seq<u8>)
    requires
        str_bytes(s) + r1 == str_bytes(t) + r2,
        (str_bytes(s) + r1).len() <= u64::MAX,
    ensures
        s == t,
        r1 == r2,
{
    lemma_auto_spec_u64_to_from_le_bytes();
    lemma_chars_bytes_len(s);
    lemma_chars_bytes_len(t);
    assert(spec_u64_to_le_bytes(s.len() as u64).len() == 8);
    assert(spec_u64_to_le_bytes(t.len() as u64).len() == 8);
    assert(str_bytes(s) + r1 =~= spec_u64_to_le_bytes(s.len() as u64) + (chars_bytes(s) + r1));
    assert(str_bytes(t) + r2 =~= spec_u64_to_le_bytes(t.len() as u64) + (chars_bytes(t) + r2));
    lemma_peel_u64(s.len() as u64, t.len() as u64, chars_bytes(s) + r1, chars_bytes(t) + r2);
    let x = chars_bytes(s) + r1;
    let n: int = 4 * (s.len() as int);
    assert(x.subrange(0, n) =~= chars_bytes(s));
    assert((chars_bytes(t) + r2).subrange(0, n) =~= chars_bytes(t));
    assert(x.subrange(n, x.len() as int) =~= r1);
    assert((chars_bytes(t) + r2).subrange(n, x.len() as int) =~= r2);
    assert forall|i: int| 0 <= i < s.len() implies s[i] == t[i] by {
        lemma_chars_bytes_at(s, i);
        lemma_chars_bytes_at(t, i);
        lemma_peel_u32(s[i] as u32, t[i] as u32, Seq::empty(), Seq::empty());
        char_u32_cast(s[i], s[i] as u32);
        char_u32_cast(t[i], t[i] as u32);
    }
    assert(s =~= t);
}

fn write_flag(out: &mut Vec<u8>, b: bool)
    ensures
        final(out)@ == old(out)@ + flag_bytes(b),
{
    out.push(if b { 1u8 } else { 0u8 });
    assert(out@ =~= old(out)@ + flag_bytes(b));
}

fn write_i32(out: &mut Vec<u8>, x: i32)
    ensures
        final(out)@ == old(out)@ + i32_bytes(x),
{
    let v = (x as i64 + 0x8000_0000) as u32;
    let b = u32_to_le_bytes(v);
    push_all(out, &b);
}

fn write_opt(out: &mut Vec<u8>, o: Option<u64>)
    ensures
        final(out)@ == old(out)@ + opt_bytes(o),
{
    match o {
        Some(v) => {
            out.push(1u8);
            write_u64(out, v);
        },
        None => {
            out.push(0u8);
        },
    }
    assert(out@ =~= old(out)@ + opt_bytes(o));
}

fn read_flag(b: &Vec<u8>, pos: usize, Ghost(x): Ghost<bool>, Ghost(rest): Ghost<Seq<u8>>) -> (r:
    Option<(bool, usize)>)
    requires
        pos <= b@.len(),
    ensures
        match r {
            Some((y, p)) => pos < p <= b@.len(),
            None => true,
        },
        b@.subrange(pos as int, b@.len() as int) == flag_bytes(x) + rest ==> {
            &&& pos + 1 <= b@.len()
            &&& r == Some((x, (pos + 1) as usize))
            &&& b@.subrange(pos + 1, b@.len() as int) == rest
        },
{
    let ghost t = b@.subrange(pos as int, b@.len() as int);
    if pos >= b.len() {
        assert(t.len() == 0);
        return None;
    }
    let v = b[pos];
    proof {
        if t == flag_bytes(x) + rest {
            assert(v == t[0]);
            assert(b@.subrange(pos + 1, b@.len() as int) =~= t.subrange(1, t.len() as int));
            assert(t.subrange(1, t.len() as int) =~= rest);
        }
    }
    if v == 1 {
        Some((true, pos + 1))
    } else if v == 0 {
        Some((false, pos + 1))
    } else {
        None
    }
}

fn read_i32(b: &Vec<u8>, pos: usize, Ghost(x): Ghost<i32>, Ghost(rest): Ghost<Seq<u8>>) -> (r:
    Option<(i32, usize)>)
    requires
        pos <= b@.len(),
    ensures
        match r {
            Some((y, p)) => pos < p <= b@.len(),
            None => true,
        },
        b@.subrange(pos as int, b@.len() as int) == i32_bytes(x) + rest ==> {
            &&& pos + 4 <= b@.len()
            &&& r == Some((x, (pos + 4) as usize))
            &&& b@.subrange(pos + 4, b@.len() as int) == rest
        },
{
    proof {
        lemma_auto_spec_u32_to_from_le_bytes();
    }
    let ghost t = b@.subrange(pos as int, b@.len() as int);
    if b.len() - pos < 4 {
        assert(i32_bytes(x).len() == 4);
        assert(t.len() < 4);
        assert(t != i32_bytes(x) + rest);
        return None;
    }
    let v = u32_from_le_bytes(slice_subrange(b.as_slice(), pos, pos + 4));
    proof {
        if t == i32_bytes(x) + rest {
            assert(b@.subrange(pos as int, pos + 4) =~= t.subrange(0, 4));
            assert(t.subrange(0, 4) =~= i32_bytes(x));
            assert(b@.subrange(pos + 4, b@.len() as int) =~= t.subrange(4, t.len() as int));
            assert(t.subrange(4, t.len() as int) =~= rest);
            assert(v == (x as int + 0x8000_0000) as u32);
            assert(v as int == x as int + 0x8000_0000);
        }
    }
    let y = (v as i64 - 0x8000_0000) as i32;
    assert(t == i32_bytes(x) + rest ==> y == x);
    Some((y, pos + 4))
}

fn read_opt(b: &Vec<u8>, pos: usize, Ghost(x): Ghost<Option<u64>>, Ghost(rest): Ghost<Seq<u8>>) -> (r:
    Option<(Option<u64>, usize)>)
    requires
        pos <= b@.len(),
    ensures
        match r {
            Some((y, p)) => pos < p <= b@.len(),
            None => true,
        },
        b@.subrange(pos as int, b@.len() as int) == opt_bytes(x) + rest ==> match r {
            Some((y, p)) => y == x && b@.subrange(p as int, b@.len() as int) == rest,
            None => false,
        },
{
    proof {
        lemma_auto_spec_u64_to_from_le_bytes();
    }
    let ghost t = b@.subrange(pos as int, b@.len() as int);
    if pos >= b.len() {
        assert(t.len() == 0);
        return None;
    }
    let tag = b[pos];
    if tag == 0 {
        proof {
            if t == opt_bytes(x) + rest {
                assert(t[0] == opt_bytes(x)[0]);
                assert(b@.subrange(pos + 1, b@.len() as int) =~= t.subrange(1, t.len() as int));
                assert(t.subrange(1, t.len() as int) =~= rest);
            }
        }
        Some((None, pos + 1))
    } else if tag == 1 {
        let ghost v = x->0;
        proof {
            if t == opt_bytes(x) + rest {
                assert(t[0] == opt_bytes(x)[0]);
                assert(b@.subrange(pos + 1, b@.len() as int) =~= t.subrange(1, t.len() as int));
                assert(t.subrange(1, t.len() as int) =~= spec_u64_to_le_bytes(v) + rest);
            }
        }
        match read_u64(b, pos + 1, Ghost(v), Ghost(rest)) {
            Some((v2, p)) => Some((Some(v2), p)),
            None => None,
        }
    } else {
        proof {
            if t == opt_bytes(x) + rest {
                assert(t[0] == opt_bytes(x)[0]);
            }
        }
        None
    }
}

/// The byte layout of a book: its fields in declaration order.
pub open spec fn book_bytes(x: Book) -> Seq<u8> {
    spec_u64_to_le_bytes(x.id) + (
    str_bytes(x.title@) + (
    str_bytes(x.author@) + (
    str_bytes(x.genre@) + (
    i32_bytes(x.publication_year) + (
    str_bytes(x.isbn@) + (
    str_bytes(x.location@) + (
    flag_bytes(x.available) + (
    spec_u64_to_le_bytes(x.created_at)))))))))
}

/// The bytes that follow field `i` in the layout of `x`.
spec fn book_tail(x: Book, i: int) -> Seq<u8>
    decreases 9 - i,
{
    if i >= 8 {
        Seq::empty()
    } else if i == 7 {
        spec_u64_to_le_bytes(x.created_at) + book_tail(x, 8)
    } else if i == 6 {
        flag_bytes(x.available) + book_tail(x, 7)
    } else if i == 5 {
        str_bytes(x.location@) + book_tail(x, 6)
    } else if i == 4 {
        str_bytes(x.isbn@) + book_tail(x, 5)
    } else if i == 3 {
        i32_bytes(x.publication_year) + book_tail(x, 4)
    } else if i == 2 {
        str_bytes(x.genre@) + book_tail(x, 3)
    } else if i == 1 {
        str_bytes(x.author@) + book_tail(x, 2)
    } else if i == 0 {
        str_bytes(x.title@) + book_tail(x, 1)
    } else {
        Seq::empty()
    }
}

/// Two books hold the same values (strings compared by their characters).
pub open spec fn same_book(a: Book, b: Book) -> bool {
    a.id == b.id
        && a.title@ == b.title@
        && a.author@ == b.author@
        && a.genre@ == b.genre@
        && a.publication_year == b.publication_year
        && a.isbn@ == b.isbn@
        && a.location@ == b.location@
        && a.available == b.available
        && a.created_at == b.created_at
}

/// No two different books share an encoding: together with `decode_book`'s
/// contract, decoding the encoding of a book gives that book back.
pub proof fn lemma_book_bytes_injective(x: Book, y: Book)
    requires
        book_bytes(x) == book_bytes(y),
        book_bytes(x).len() <= u64::MAX,
    ensures
        same_book(x, y),
{
    lemma_book_layout(x);
    lemma_book_layout(y);
    lemma_peel_u64(x.id, y.id, book_tail(x, 0), book_tail(y, 0));
    lemma_peel_str(x.title@, y.title@, book_tail(x, 1), book_tail(y, 1));
    lemma_peel_str(x.author@, y.author@, book_tail(x, 2), book_tail(y, 2));
    lemma_peel_str(x.genre@, y.genre@, book_tail(x, 3), book_tail(y, 3));
    lemma_peel_i32(x.publication_year, y.publication_year, book_tail(x, 4), book_tail(y, 4));
    lemma_peel_str(x.isbn@, y.isbn@, book_tail(x, 5), book_tail(y, 5));
    lemma_peel_str(x.location@, y.location@, book_tail(x, 6), book_tail(y, 6));
    lemma_peel_flag(x.available, y.available, book_tail(x, 7), book_tail(y, 7));
    lemma_peel_u64(x.created_at, y.created_at, book_tail(x, 8), book_tail(y, 8));
}

/// The layout is the first field followed by its tail.
proof fn lemma_book_layout(x: Book)
    ensures
        book_bytes(x) == spec_u64_to_le_bytes(x.id) + book_tail(x, 0),
        spec_u64_to_le_bytes(x.created_at) + book_tail(x, 8) == spec_u64_to_le_bytes(x.created_at),
{
    reveal_with_fuel(book_tail, 10);
    assert(spec_u64_to_le_bytes(x.created_at) + Seq::<u8>::empty() =~= spec_u64_to_le_bytes(x.created_at));
}

/// The encoding of `x`, or `None` when it would exceed `MAX_ENCODED_SIZE` bytes.
pub fn encode_book(x: &Book) -> (r: Option<Vec<u8>>)
    ensures
        match r {
            Some(v) => v@ == book_bytes(*x) && v@.len() <= MAX_ENCODED_SIZE,
            None => book_bytes(*x).len() > MAX_ENCODED_SIZE,
        },
{
    let mut out: Vec<u8> = Vec::new();
    write_u64(&mut out, x.id);
    write_str(&mut out, &x.title);
    write_str(&mut out, &x.author);
    write_str(&mut out, &x.genre);
    write_i32(&mut out, x.publication_year);
    write_str(&mut out, &x.isbn);
    write_str(&mut out, &x.location);
    write_flag(&mut out, x.available);
    write_u64(&mut out, x.created_at);
    assert(out@ =~= book_bytes(*x));
    if out.len() > MAX_ENCODED_SIZE {
        None
    } else {
        Some(out)
    }
}

/// Decodes `b`, succeeding at least when `b` is the encoding of `x`.
fn decode_book_as(b: &Vec<u8>, Ghost(x): Ghost<Book>) -> (r: Option<Book>)
    ensures
        b@ == book_bytes(x) ==> match r {
            Some(y) => same_book(y, x),
            None => false,
        },
{
    let blen = b.len();
    proof {
        lemma_book_layout(x);
    }
    assert(b@.subrange(0, b@.len() as int) =~= b@);
    let p0: usize = 0;
    let (v0, p1) = match read_u64(b, p0, Ghost(x.id), Ghost(book_tail(x, 0))) {
        Some(z) => z,
        None => return None,
    };
    let (v1, p2) = match read_str(b, p1, Ghost(x.title@), Ghost(book_tail(x, 1))) {
        Some(z) => z,
        None => return None,
    };
    let (v2, p3) = match read_str(b, p2, Ghost(x.author@), Ghost(book_tail(x, 2))) {
        Some(z) => z,
        None => return None,
    };
    let (v3, p4) = match read_str(b, p3, Ghost(x.genre@), Ghost(book_tail(x, 3))) {
        Some(z) => z,
        None => return None,
    };
    let (v4, p5) = match read_i32(b, p4, Ghost(x.publication_year), Ghost(book_tail(x, 4))) {
        Some(z) => z,
        None => return None,
    };
    let (v5, p6) = match read_str(b, p5, Ghost(x.isbn@), Ghost(book_tail(x, 5))) {
        Some(z) => z,
        None => return None,
    };
    let (v6, p7) = match read_str(b, p6, Ghost(x.location@), Ghost(book_tail(x, 6))) {
        Some(z) => z,
        None => return None,
    };
    let (v7, p8) = match read_flag(b, p7, Ghost(x.available), Ghost(book_tail(x, 7))) {
        Some(z) => z,
        None => return None,
    };
    let (v8, p9) = match read_u64(b, p8, Ghost(x.created_at), Ghost(book_tail(x, 8))) {
        Some(z) => z,
        None => return None,
    };
    if p9 != blen {
        return None;
    }
    Some(Book {
        id: v0,
        title: v1,
        author: v2,
        genre: v3,
        publication_year: v4,
        isbn: v5,
        location: v6,
        available: v7,
        created_at: v8,
    })
}

/// Decodes a book; on the encoding of any `x` it yields a book equal to `x`.
pub fn decode_book(b: &Vec<u8>) -> (r: Option<Book>)
    ensures
        forall|x: Book| b@ == #[trigger] book_bytes(x) ==> match r {
            Some(y) => same_book(y, x),
            None => false,
        },
{
    let ghost x = choose|x: Book| b@ == book_bytes(x);
    // The vector's length fits in `usize`, which bounds every encoding it can hold.
    let blen = b.len();
    assert(b@.len() <= usize::MAX);
    let r = decode_book_as(b, Ghost(x));
    assert forall|x2: Book| b@ == #[trigger] book_bytes(x2) implies match r {
        Some(y) => same_book(y, x2),
        None => false,
    } by {
        lemma_book_bytes_injective(x, x2);
    }
    r
}

/// The byte layout of a member: its fields in declaration order.
pub open spec fn member_bytes(x: Member) -> Seq<u8> {
    spec_u64_to_le_bytes(x.id) + (
    str_bytes(x.username@) + (
    str_bytes(x.phone_number@) + (
    str_bytes(x.address@) + (
    spec_u64_to_le_bytes(x.created_at)))))
}

/// The bytes that follow field `i` in the layout of `x`.
spec fn member_tail(x: Member, i: int) -> Seq<u8>
    decreases 5 - i,
{
    if i >= 4 {
        Seq::empty()
    } else if i == 3 {
        spec_u64_to_le_bytes(x.created_at) + member_tail(x, 4)
    } else if i == 2 {
        str_bytes(x.address@) + member_tail(x, 3)
    } else if i == 1 {
        str_bytes(x.phone_number@) + member_tail(x, 2)
    } else if i == 0 {
        str_bytes(x.username@) + member_tail(x, 1)
    } else {
        Seq::empty()
    }
}

/// Two members hold the same values (strings compared by their characters).
pub open spec fn same_member(a: Member, b: Member) -> bool {
    a.id == b.id
        && a.username@ == b.username@
        && a.phone_number@ == b.phone_number@
        && a.address@ == b.address@
        && a.created_at == b.created_at
}

/// No two different members share an encoding: together with `decode_member`'s
/// contract, decoding the encoding of a member gives that member back.
pub proof fn lemma_member_bytes_injective(x: Member, y: Member)
    requires
        member_bytes(x) == member_bytes(y),
        member_bytes(x).len() <= u64::MAX,
    ensures
        same_member(x, y),
{
    lemma_member_layout(x);
    lemma_member_layout(y);
    lemma_peel_u64(x.id, y.id, member_tail(x, 0), member_tail(y, 0));
    lemma_peel_str(x.username@, y.username@, member_tail(x, 1), member_tail(y, 1));
    lemma_peel_str(x.phone_number@, y.phone_number@, member_tail(x, 2), member_tail(y, 2));
    lemma_peel_str(x.address@, y.address@, member_tail(x, 3), member_tail(y, 3));
    lemma_peel_u64(x.created_at, y.created_at, member_tail(x, 4), member_tail(y, 4));
}

/// The layout is the first field followed by its tail.
proof fn lemma_member_layout(x: Member)
    ensures
        member_bytes(x) == spec_u64_to_le_bytes(x.id) + member_tail(x, 0),
        spec_u64_to_le_bytes(x.created_at) + member_tail(x, 4) == spec_u64_to_le_bytes(x.created_at),
{
    reveal_with_fuel(member_tail, 6);
    assert(spec_u64_to_le_bytes(x.created_at) + Seq::<u8>::empty() =~= spec_u64_to_le_bytes(x.created_at));
}

/// The encoding of `x`, or `None` when it would exceed `MAX_ENCODED_SIZE` bytes.
pub fn encode_member(x: &Member) -> (r: Option<Vec<u8>>)
    ensures
        match r {
            Some(v) => v@ == member_bytes(*x) && v@.len() <= MAX_ENCODED_SIZE,
            None => member_bytes(*x).len() > MAX_ENCODED_SIZE,
        },
{
    let mut out: Vec<u8> = Vec::new();
    write_u64(&mut out, x.id);
    write_str(&mut out, &x.username);
    write_str(&mut out, &x.phone_number);
    write_str(&mut out, &x.address);
    write_u64(&mut out, x.created_at);
    assert(out@ =~= member_bytes(*x));
    if out.len() > MAX_ENCODED_SIZE {
        None
    } else {
        Some(out)
    }
}

/// Decodes `b`, succeeding at least when `b` is the encoding of `x`.
fn decode_member_as(b: &Vec<u8>, Ghost(x): Ghost<Member>) -> (r: Option<Member>)
    ensures
        b@ == member_bytes(x) ==> match r {
            Some(y) => same_member(y, x),
            None => false,
        },
{
    let blen = b.len();
    proof {
        lemma_member_layout(x);
    }
    assert(b@.subrange(0, b@.len() as int) =~= b@);
    let p0: usize = 0;
    let (v0, p1) = match read_u64(b, p0, Ghost(x.id), Ghost(member_tail(x, 0))) {
        Some(z) => z,
        None => return None,
    };
    let (v1, p2) = match read_str(b, p1, Ghost(x.username@), Ghost(member_tail(x, 1))) {
        Some(z) => z,
        None => return None,
    };
    let (v2, p3) = match read_str(b, p2, Ghost(x.phone_number@), Ghost(member_tail(x, 2))) {
        Some(z) => z,
        None => return None,
    };
    let (v3, p4) = match read_str(b, p3, Ghost(x.address@), Ghost(member_tail(x, 3))) {
        Some(z) => z,
        None => return None,
    };
    let (v4, p5) = match read_u64(b, p4, Ghost(x.created_at), Ghost(member_tail(x, 4))) {
        Some(z) => z,
        None => return None,
    };
    if p5 != blen {
        return None;
    }
    Some(Member {
        id: v0,
        username: v1,
        phone_number: v2,
        address: v3,
        created_at: v4,
    })
}

/// Decodes a member; on the encoding of any `x` it yields a member equal to `x`.
pub fn decode_member(b: &Vec<u8>) -> (r: Option<Member>)
    ensures
        forall|x: Member| b@ == #[trigger] member_bytes(x) ==> match r {
            Some(y) => same_member(y, x),
            None => false,
        },
{
    let ghost x = choose|x: Member| b@ == member_bytes(x);
    // The vector's length fits in `usize`, which bounds every encoding it can hold.
    let blen = b.len();
    assert(b@.len() <= usize::MAX);
    let r = decode_member_as(b, Ghost(x));
    assert forall|x2: Member| b@ == #[trigger] member_bytes(x2) implies match r {
        Some(y) => same_member(y, x2),
        None => false,
    } by {
        lemma_member_bytes_injective(x, x2);
    }
    r
}

/// The byte layout of a loan: its fields in declaration order.
pub open spec fn loan_bytes(x: Loan) -> Seq<u8> {
    spec_u64_to_le_bytes(x.id) + (
    spec_u64_to_le_bytes(x.book_id) + (
    spec_u64_to_le_bytes(x.member_id) + (
    spec_u64_to_le_bytes(x.loan_date) + (
    spec_u64_to_le_bytes(x.due_date) + (
    opt_bytes(x.return_date) + (
    spec_u64_to_le_bytes(x.fine_bits)))))))
}

/// The bytes that follow field `i` in the layout of `x`.
spec fn loan_tail(x: Loan, i: int) -> Seq<u8>
    decreases 7 - i,
{
    if i >= 6 {
        Seq::empty()
    } else if i == 5 {
        spec_u64_to_le_bytes(x.fine_bits) + loan_tail(x, 6)
    } else if i == 4 {
        opt_bytes(x.return_date) + loan_tail(x, 5)
    } else if i == 3 {
        spec_u64_to_le_bytes(x.due_date) + loan_tail(x, 4)
    } else if i == 2 {
        spec_u64_to_le_bytes(x.loan_date) + loan_tail(x, 3)
    } else if i == 1 {
        spec_u64_to_le_bytes(x.member_id) + loan_tail(x, 2)
    } else if i == 0 {
        spec_u64_to_le_bytes(x.book_id) + loan_tail(x, 1)
    } else {
        Seq::empty()
    }
}

/// Two loans hold the same values (strings compared by their characters).
pub open spec fn same_loan(a: Loan, b: Loan) -> bool {
    a.id == b.id
        && a.book_id == b.book_id
        && a.member_id == b.member_id
        && a.loan_date == b.loan_date
        && a.due_date == b.due_date
        && a.return_date == b.return_date
        && a.fine_bits == b.fine_bits
}

/// No two different loans share an encoding: together with `decode_loan`'s
/// contract, decoding the encoding of a loan gives that loan back.
pub proof fn lemma_loan_bytes_injective(x: Loan, y: Loan)
    requires
        loan_bytes(x) == loan_bytes(y),
        loan_bytes(x).len() <= u64::MAX,
    ensures
        same_loan(x, y),
{
    lemma_loan_layout(x);
    lemma_loan_layout(y);
    lemma_peel_u64(x.id, y.id, loan_tail(x, 0), loan_tail(y, 0));
    lemma_peel_u64(x.book_id, y.book_id, loan_tail(x, 1), loan_tail(y, 1));
    lemma_peel_u64(x.member_id, y.member_id, loan_tail(x, 2), loan_tail(y, 2));
    lemma_peel_u64(x.loan_date, y.loan_date, loan_tail(x, 3), loan_tail(y, 3));
    lemma_peel_u64(x.due_date, y.due_date, loan_tail(x, 4), loan_tail(y, 4));
    lemma_peel_opt(x.return_date, y.return_date, loan_tail(x, 5), loan_tail(y, 5));
    lemma_peel_u64(x.fine_bits, y.fine_bits, loan_tail(x, 6), loan_tail(y, 6));
}

/// The layout is the first field followed by its tail.
proof fn lemma_loan_layout(x: Loan)
    ensures
        loan_bytes(x) == spec_u64_to_le_bytes(x.id) + loan_tail(x, 0),
        spec_u64_to_le_bytes(x.fine_bits) + loan_tail(x, 6) == spec_u64_to_le_bytes(x.fine_bits),
{
    reveal_with_fuel(loan_tail, 8);
    assert(spec_u64_to_le_bytes(x.fine_bits) + Seq::<u8>::empty() =~= spec_u64_to_le_bytes(x.fine_bits));
}

/// The encoding of `x`, or `None` when it would exceed `MAX_ENCODED_SIZE` bytes.
pub fn encode_loan(x: &Loan) -> (r: Option<Vec<u8>>)
    ensures
        match r {
            Some(v) => v@ == loan_bytes(*x) && v@.len() <= MAX_ENCODED_SIZE,
            None => loan_bytes(*x).len() > MAX_ENCODED_SIZE,
        },
{
    let mut out: Vec<u8> = Vec::new();
    write_u64(&mut out, x.id);
    write_u64(&mut out, x.book_id);
    write_u64(&mut out, x.member_id);
    write_u64(&mut out, x.loan_date);
    write_u64(&mut out, x.due_date);
    write_opt(&mut out, x.return_date);
    write_u64(&mut out, x.fine_bits);
    assert(out@ =~= loan_bytes(*x));
    if out.len() > MAX_ENCODED_SIZE {
        None
    } else {
        Some(out)
    }
}

/// Decodes `b`, succeeding at least when `b` is the encoding of `x`.
fn decode_loan_as(b: &Vec<u8>, Ghost(x): Ghost<Loan>) -> (r: Option<Loan>)
    ensures
        b@ == loan_bytes(x) ==> match r {
            Some(y) => same_loan(y, x),
            None => false,
        },
{
    let blen = b.len();
    proof {
        lemma_loan_layout(x);
    }
    assert(b@.subrange(0, b@.len() as int) =~= b@);
    let p0: usize = 0;
    let (v0, p1) = match read_u64(b, p0, Ghost(x.id), Ghost(loan_tail(x, 0))) {
        Some(z) => z,
        None => return None,
    };
    let (v1, p2) = match read_u64(b, p1, Ghost(x.book_id), Ghost(loan_tail(x, 1))) {
        Some(z) => z,
        None => return None,
    };
    let (v2, p3) = match read_u64(b, p2, Ghost(x.member_id), Ghost(loan_tail(x, 2))) {
        Some(z) => z,
        None => return None,
    };
    let (v3, p4) = match read_u64(b, p3, Ghost(x.loan_date), Ghost(loan_tail(x, 3))) {
        Some(z) => z,
        None => return None,
    };
    let (v4, p5) = match read_u64(b, p4, Ghost(x.due_date), Ghost(loan_tail(x, 4))) {
        Some(z) => z,
        None => return None,
    };
    let (v5, p6) = match read_opt(b, p5, Ghost(x.return_date), Ghost(loan_tail(x, 5))) {
        Some(z) => z,
        None => return None,
    };
    let (v6, p7) = match read_u64(b, p6, Ghost(x.fine_bits), Ghost(loan_tail(x, 6))) {
        Some(z) => z,
        None => return None,
    };
    if p7 != blen {
        return None;
    }
    Some(Loan {
        id: v0,
        book_id: v1,
        member_id: v2,
        loan_date: v3,
        due_date: v4,
        return_date: v5,
        fine_bits: v6,
    })
}

/// Decodes a loan; on the encoding of any `x` it yields a loan equal to `x`.
pub fn decode_loan(b: &Vec<u8>) -> (r: Option<Loan>)
    ensures
        forall|x: Loan| b@ == #[trigger] loan_bytes(x) ==> match r {
            Some(y) => same_loan(y, x),
            None => false,
        },
{
    let ghost x = choose|x: Loan| b@ == loan_bytes(x);
    // The vector's length fits in `usize`, which bounds every encoding it can hold.
    let blen = b.len();
    assert(b@.len() <= usize::MAX);
    let r = decode_loan_as(b, Ghost(x));
    assert forall|x2: Loan| b@ == #[trigger] loan_bytes(x2) implies match r {
        Some(y) => same_loan(y, x2),
        None => false,
    } by {
        lemma_loan_bytes_injective(x, x2);
    }
    r
}

/// The byte layout of a reservation: its fields in declaration order.
pub open spec fn reservation_bytes(x: Reservation) -> Seq<u8> {
    spec_u64_to_le_bytes(x.id) + (
    spec_u64_to_le_bytes(x.book_id) + (
    spec_u64_to_le_bytes(x.member_id) + (
    spec_u64_to_le_bytes(x.reservation_date))))
}

/// The bytes that follow field `i` in the layout of `x`.
spec fn reservation_tail(x: Reservation, i: int) -> Seq<u8>
    decreases 4 - i,
{
    if i >= 3 {
        Seq::empty()
    } else if i == 2 {
        spec_u64_to_le_bytes(x.reservation_date) + reservation_tail(x, 3)
    } else if i == 1 {
        spec_u64_to_le_bytes(x.member_id) + reservation_tail(x, 2)
    } else if i == 0 {
        spec_u64_to_le_bytes(x.book_id) + reservation_tail(x, 1)
    } else {
        Seq::empty()
    }
}

/// Two reservations hold the same values (strings compared by their characters).
pub open spec fn same_reservation(a: Reservation, b: Reservation) -> bool {
    a.id == b.id
        && a.book_id == b.book_id
        && a.member_id == b.member_id
        && a.reservation_date == b.reservation_date
}

/// No two different reservations share an encoding: together with `decode_reservation`'s
/// contract, decoding the encoding of a reservation gives that reservation back.
pub proof fn lemma_reservation_bytes_injective(x: Reservation, y: Reservation)
    requires
        reservation_bytes(x) == reservation_bytes(y),
        reservation_bytes(x).len() <= u64::MAX,
    ensures
        same_reservation(x, y),
{
    lemma_reservation_layout(x);
    lemma_reservation_layout(y);
    lemma_peel_u64(x.id, y.id, reservation_tail(x, 0), reservation_tail(y, 0));
    lemma_peel_u64(x.book_id, y.book_id, reservation_tail(x, 1), reservation_tail(y, 1));
    lemma_peel_u64(x.member_id, y.member_id, reservation_tail(x, 2), reservation_tail(y, 2));
    lemma_peel_u64(x.reservation_date, y.reservation_date, reservation_tail(x, 3), reservation_tail(y, 3));
}

/// The layout is the first field followed by its tail.
proof fn lemma_reservation_layout(x: Reservation)
    ensures
        reservation_bytes(x) == spec_u64_to_le_bytes(x.id) + reservation_tail(x, 0),
        spec_u64_to_le_bytes(x.reservation_date) + reservation_tail(x, 3) == spec_u64_to_le_bytes(x.reservation_date),
{
    reveal_with_fuel(reservation_tail, 5);
    assert(spec_u64_to_le_bytes(x.reservation_date) + Seq::<u8>::empty() =~= spec_u64_to_le_bytes(x.reservation_date));
}

/// The encoding of `x`, or `None` when it would exceed `MAX_ENCODED_SIZE` bytes.
pub fn encode_reservation(x: &Reservation) -> (r: Option<Vec<u8>>)
    ensures
        match r {
            Some(v) => v@ == reservation_bytes(*x) && v@.len() <= MAX_ENCODED_SIZE,
            None => reservation_bytes(*x).len() > MAX_ENCODED_SIZE,
        },
{
    let mut out: Vec<u8> = Vec::new();
    write_u64(&mut out, x.id);
    write_u64(&mut out, x.book_id);
    write_u64(&mut out, x.member_id);
    write_u64(&mut out, x.reservation_date);
    assert(out@ =~= reservation_bytes(*x));
    if out.len() > MAX_ENCODED_SIZE {
        None
    } else {
        Some(out)
    }
}

/// Decodes `b`, succeeding at least when `b` is the encoding of `x`.
fn decode_reservation_as(b: &Vec<u8>, Ghost(x): Ghost<Reservation>) -> (r: Option<Reservation>)
    ensures
        b@ == reservation_bytes(x) ==> match r {
            Some(y) => same_reservation(y, x),
            None => false,
        },
{
    let blen = b.len();
    proof {
        lemma_reservation_layout(x);
    }
    assert(b@.subrange(0, b@.len() as int) =~= b@);
    let p0: usize = 0;
    let (v0, p1) = match read_u64(b, p0, Ghost(x.id), Ghost(reservation_tail(x, 0))) {
        Some(z) => z,
        None => return None,
    };
    let (v1, p2) = match read_u64(b, p1, Ghost(x.book_id), Ghost(reservation_tail(x, 1))) {
        Some(z) => z,
        None => return None,
    };
    let (v2, p3) = match read_u64(b, p2, Ghost(x.member_id), Ghost(reservation_tail(x, 2))) {
        Some(z) => z,
        None => return None,
    };
    let (v3, p4) = match read_u64(b, p3, Ghost(x.reservation_date), Ghost(reservation_tail(x, 3))) {
        Some(z) => z,
        None => return None,
    };
    if p4 != blen {
        return None;
    }
    Some(Reservation {
        id: v0,
        book_id: v1,
        member_id: v2,
        reservation_date: v3,
    })
}

/// Decodes a reservation; on the encoding of any `x` it yields a reservation equal to `x`.
pub fn decode_reservation(b: &Vec<u8>) -> (r: Option<Reservation>)
    ensures
        forall|x: Reservation| b@ == #[trigger] reservation_bytes(x) ==> match r {
            Some(y) => same_reservation(y, x),
            None => false,
        },
{
    let ghost x = choose|x: Reservation| b@ == reservation_bytes(x);
    // The vector's length fits in `usize`, which bounds every encoding it can hold.
    let blen = b.len();
    assert(b@.len() <= usize::MAX);
    let r = decode_reservation_as(b, Ghost(x));
    assert forall|x2: Reservation| b@ == #[trigger] reservation_bytes(x2) implies match r {
        Some(y) => same_reservation(y, x2),
        None => false,
    } by {
        lemma_reservation_bytes_injective(x, x2);
    }
    r
}

} // verus!
