//! Little-endian, length-prefixed primitives shared by every codec of the
//! vault: a spec encoder and a spec parser for each primitive, the facts
//! that tie them together, and executable writers and readers proved
//! against them.

use vstd::bytes::*;
use vstd::prelude::*;
use vstd::slice::*;
use vstd::utf8::*;

verus! {

/// A parser reads a value from the front of a byte sequence and says how
/// many bytes it consumed.
pub type Parsed<T> = Option<(T, int)>;

/// `p` and `e` invert each other on values that satisfy `wf`: parsing an
/// encoding followed by anything gives the value back, and whatever parses
/// was consumed from an encoding of a well-formed value.
pub open spec fn inverse<T>(
    p: spec_fn(Seq<u8>) -> Parsed<T>,
    e: spec_fn(T) -> Seq<u8>,
    wf: spec_fn(T) -> bool,
) -> bool {
    &&& forall|v: T, rest: Seq<u8>|
        wf(v) ==> #[trigger] p(e(v) + rest) == Some((v, e(v).len() as int))
    &&& forall|s: Seq<u8>| consumed(s, #[trigger] p(s), e, wf)
}

/// Where `r` is a parse of `s`, the bytes it consumed are exactly the
/// encoding of the well-formed value it returned.
pub open spec fn consumed<T>(
    s: Seq<u8>,
    r: Parsed<T>,
    e: spec_fn(T) -> Seq<u8>,
    wf: spec_fn(T) -> bool,
) -> bool {
    match r {
        Some((v, n)) => 0 <= n <= s.len() && s.take(n) == e(v) && wf(v),
        None => true,
    }
}

// ---------------------------------------------------------------- u8

pub open spec fn enc_u8(x: u8) -> Seq<u8> {
    seq![x]
}

pub open spec fn p_u8(s: Seq<u8>) -> Parsed<u8> {
    if s.len() >= 1 {
        Some((s[0], 1))
    } else {
        None
    }
}

pub proof fn lemma_u8()
    ensures
        forall|v: u8, rest: Seq<u8>| #[trigger] p_u8(enc_u8(v) + rest) == Some((v, 1int)),
        forall|s: Seq<u8>| match #[trigger] p_u8(s) { Some((v, n)) => n == 1 <= s.len() && s.take(1) == enc_u8(v), None => true },
{
    assert forall|v: u8, rest: Seq<u8>| #[trigger] p_u8(enc_u8(v) + rest) == Some((v, 1int)) by {
        assert((enc_u8(v) + rest)[0] == v);
    }
    assert forall|s: Seq<u8>| (#[trigger] p_u8(s)) is Some implies s.take(1) == enc_u8(s[0]) by {
        if s.len() >= 1 {
            assert(s.take(1) =~= seq![s[0]]);
        }
    }
}

pub fn put_u8(out: &mut Vec<u8>, x: u8)
    ensures
        final(out)@ == old(out)@ + enc_u8(x),
{
    out.push(x);
    assert(final(out)@ =~= old(out)@ + enc_u8(x));
}


// ---------------------------------------------------------------- u16, u32, u64

pub open spec fn enc_u16(x: u16) -> Seq<u8> {
    spec_u16_to_le_bytes(x)
}

pub open spec fn p_u16(s: Seq<u8>) -> Parsed<u16> {
    if s.len() >= 2 {
        Some((spec_u16_from_le_bytes(s.take(2)), 2))
    } else {
        None
    }
}

pub open spec fn enc_u32(x: u32) -> Seq<u8> {
    spec_u32_to_le_bytes(x)
}

pub open spec fn p_u32(s: Seq<u8>) -> Parsed<u32> {
    if s.len() >= 4 {
        Some((spec_u32_from_le_bytes(s.take(4)), 4))
    } else {
        None
    }
}

pub open spec fn enc_u64(x: u64) -> Seq<u8> {
    spec_u64_to_le_bytes(x)
}

pub open spec fn p_u64(s: Seq<u8>) -> Parsed<u64> {
    if s.len() >= 8 {
        Some((spec_u64_from_le_bytes(s.take(8)), 8))
    } else {
        None
    }
}

pub proof fn lemma_u16()
    ensures
        forall|v: u16| #[trigger] enc_u16(v).len() == 2,
        forall|v: u16, rest: Seq<u8>| #[trigger] p_u16(enc_u16(v) + rest) == Some((v, 2int)),
        forall|s: Seq<u8>| match #[trigger] p_u16(s) { Some((v, n)) => n == 2 <= s.len() && s.take(2) == enc_u16(v), None => true },
{
    lemma_auto_spec_u16_to_from_le_bytes();
    assert forall|v: u16, rest: Seq<u8>| #[trigger] p_u16(enc_u16(v) + rest) == Some((v, 2int)) by {
        assert((enc_u16(v) + rest).take(2) =~= enc_u16(v));
    }
}

pub proof fn lemma_u32()
    ensures
        forall|v: u32| #[trigger] enc_u32(v).len() == 4,
        forall|v: u32, rest: Seq<u8>| #[trigger] p_u32(enc_u32(v) + rest) == Some((v, 4int)),
        forall|s: Seq<u8>| match #[trigger] p_u32(s) { Some((v, n)) => n == 4 <= s.len() && s.take(4) == enc_u32(v), None => true },
{
    lemma_auto_spec_u32_to_from_le_bytes();
    assert forall|v: u32, rest: Seq<u8>| #[trigger] p_u32(enc_u32(v) + rest) == Some((v, 4int)) by {
        assert((enc_u32(v) + rest).take(4) =~= enc_u32(v));
    }
}

pub proof fn lemma_u64()
    ensures
        forall|v: u64| #[trigger] enc_u64(v).len() == 8,
        forall|v: u64, rest: Seq<u8>| #[trigger] p_u64(enc_u64(v) + rest) == Some((v, 8int)),
        forall|s: Seq<u8>| match #[trigger] p_u64(s) { Some((v, n)) => n == 8 <= s.len() && s.take(8) == enc_u64(v), None => true },
{
    lemma_auto_spec_u64_to_from_le_bytes();
    assert forall|v: u64, rest: Seq<u8>| #[trigger] p_u64(enc_u64(v) + rest) == Some((v, 8int)) by {
        assert((enc_u64(v) + rest).take(8) =~= enc_u64(v));
    }
}

pub fn put_u16(out: &mut Vec<u8>, x: u16)
    ensures
        final(out)@ == old(out)@ + enc_u16(x),
{
    let mut b = u16_to_le_bytes(x);
    out.append(&mut b);
}

pub fn put_u32(out: &mut Vec<u8>, x: u32)
    ensures
        final(out)@ == old(out)@ + enc_u32(x),
{
    let mut b = u32_to_le_bytes(x);
    out.append(&mut b);
}

pub fn put_u64(out: &mut Vec<u8>, x: u64)
    ensures
        final(out)@ == old(out)@ + enc_u64(x),
{
    let mut b = u64_to_le_bytes(x);
    out.append(&mut b);
}

pub fn get_u8(b: &[u8], pos: usize) -> (r: Option<(u8, usize)>)
    requires
        pos <= b@.len(),
    ensures
        r matches Some((_, end)) ==> pos <= end <= b@.len(),
        match p_u8(b@.skip(pos as int)) {
            Some((v, n)) => r matches Some((x, end)) && x == v && end == pos + n,
            None => r is None,
        },
{
    if pos < b.len() {
        Some((b[pos], pos + 1))
    } else {
        None
    }
}

pub fn get_u16(b: &[u8], pos: usize) -> (r: Option<(u16, usize)>)
    requires
        pos <= b@.len(),
    ensures
        r matches Some((_, end)) ==> pos <= end <= b@.len(),
        match p_u16(b@.skip(pos as int)) {
            Some((v, n)) => r matches Some((x, end)) && x == v && end == pos + n,
            None => r is None,
        },
{
    if b.len() - pos >= 2 {
        let s = slice_subrange(b, pos, pos + 2);
        assert(s@ =~= b@.skip(pos as int).take(2));
        Some((u16_from_le_bytes(s), pos + 2))
    } else {
        None
    }
}

pub fn get_u32(b: &[u8], pos: usize) -> (r: Option<(u32, usize)>)
    requires
        pos <= b@.len(),
    ensures
        r matches Some((_, end)) ==> pos <= end <= b@.len(),
        match p_u32(b@.skip(pos as int)) {
            Some((v, n)) => r matches Some((x, end)) && x == v && end == pos + n,
            None => r is None,
        },
{
    if b.len() - pos >= 4 {
        let s = slice_subrange(b, pos, pos + 4);
        assert(s@ =~= b@.skip(pos as int).take(4));
        Some((u32_from_le_bytes(s), pos + 4))
    } else {
        None
    }
}

pub fn get_u64(b: &[u8], pos: usize) -> (r: Option<(u64, usize)>)
    requires
        pos <= b@.len(),
    ensures
        r matches Some((_, end)) ==> pos <= end <= b@.len(),
        match p_u64(b@.skip(pos as int)) {
            Some((v, n)) => r matches Some((x, end)) && x == v && end == pos + n,
            None => r is None,
        },
{
    if b.len() - pos >= 8 {
        let s = slice_subrange(b, pos, pos + 8);
        assert(s@ =~= b@.skip(pos as int).take(8));
        Some((u64_from_le_bytes(s), pos + 8))
    } else {
        None
    }
}

pub open spec fn u32_p() -> spec_fn(Seq<u8>) -> Parsed<u32> {
    |s: Seq<u8>| p_u32(s)
}

pub open spec fn u32_e() -> spec_fn(u32) -> Seq<u8> {
    |v: u32| enc_u32(v)
}

pub open spec fn u32_wf() -> spec_fn(u32) -> bool {
    |v: u32| true
}

pub proof fn lemma_u32_inverse()
    ensures
        inverse(u32_p(), u32_e(), u32_wf()),
{
    lemma_u32();
    assert forall|v: u32, rest: Seq<u8>| u32_wf()(v) implies #[trigger] u32_p()(u32_e()(v) + rest)
        == Some((v, u32_e()(v).len() as int)) by {
        assert(p_u32(enc_u32(v) + rest) == Some((v, 4int)));
    }
    assert forall|s: Seq<u8>| consumed(s, #[trigger] u32_p()(s), u32_e(), u32_wf()) by {
        assert(match p_u32(s) {
            Some((v, n)) => n == 4 <= s.len() && s.take(4) == enc_u32(v),
            None => true,
        });
    }
}

// ---------------------------------------------------------------- i64

pub open spec fn enc_i64(x: i64) -> Seq<u8> {
    enc_u64(x as u64)
}

pub open spec fn p_i64(s: Seq<u8>) -> Parsed<i64> {
    match p_u64(s) {
        Some((v, n)) => Some((v as i64, n)),
        None => None,
    }
}

pub proof fn lemma_i64()
    ensures
        forall|v: i64| #[trigger] enc_i64(v).len() == 8,
        forall|v: i64, rest: Seq<u8>| #[trigger] p_i64(enc_i64(v) + rest) == Some((v, 8int)),
        forall|s: Seq<u8>| match #[trigger] p_i64(s) { Some((v, n)) => n == 8 <= s.len() && s.take(8) == enc_i64(v), None => true },
{
    lemma_u64();
    assert forall|v: i64, rest: Seq<u8>| #[trigger] p_i64(enc_i64(v) + rest) == Some((v, 8int)) by {
        assert((v as u64) as i64 == v) by (bit_vector);
        assert(p_u64(enc_u64(v as u64) + rest) == Some((v as u64, 8int)));
    }
    assert forall|s: Seq<u8>| match #[trigger] p_i64(s) { Some((v, n)) => n == 8 <= s.len() && s.take(8) == enc_i64(v), None => true } by {
        if let Some((v, n)) = p_u64(s) {
            assert((v as i64) as u64 == v) by (bit_vector);
        }
    }
}

pub fn put_i64(out: &mut Vec<u8>, x: i64)
    ensures
        final(out)@ == old(out)@ + enc_i64(x),
{
    put_u64(out, x as u64);
}

pub fn get_i64(b: &[u8], pos: usize) -> (r: Option<(i64, usize)>)
    requires
        pos <= b@.len(),
    ensures
        r matches Some((_, end)) ==> pos <= end <= b@.len(),
        match p_i64(b@.skip(pos as int)) {
            Some((v, n)) => r matches Some((x, end)) && x == v && end == pos + n,
            None => r is None,
        },
{
    match get_u64(b, pos) {
        Some((v, end)) => Some((v as i64, end)),
        None => None,
    }
}

// ---------------------------------------------------------------- bool

pub open spec fn enc_bool(x: bool) -> Seq<u8> {
    enc_u8(if x { 1 } else { 0 })
}

pub open spec fn p_bool(s: Seq<u8>) -> Parsed<bool> {
    match p_u8(s) {
        Some((0, n)) => Some((false, n)),
        Some((1, n)) => Some((true, n)),
        _ => None,
    }
}

pub proof fn lemma_bool()
    ensures
        forall|v: bool| #[trigger] enc_bool(v).len() == 1,
        forall|v: bool, rest: Seq<u8>| #[trigger] p_bool(enc_bool(v) + rest) == Some((v, 1int)),
        forall|s: Seq<u8>| match #[trigger] p_bool(s) { Some((v, n)) => n == 1 <= s.len() && s.take(1) == enc_bool(v), None => true },
{
    lemma_u8();
    assert forall|v: bool, rest: Seq<u8>| #[trigger] p_bool(enc_bool(v) + rest) == Some((v, 1int)) by {
        assert(p_u8(enc_u8(if v { 1 } else { 0 }) + rest) == Some(((if v { 1u8 } else { 0u8 }), 1int)));
    }

}

pub fn put_bool(out: &mut Vec<u8>, x: bool)
    ensures
        final(out)@ == old(out)@ + enc_bool(x),
{
    put_u8(out, if x { 1 } else { 0 });
}

pub fn get_bool(b: &[u8], pos: usize) -> (r: Option<(bool, usize)>)
    requires
        pos <= b@.len(),
    ensures
        r matches Some((_, end)) ==> pos <= end <= b@.len(),
        match p_bool(b@.skip(pos as int)) {
            Some((v, n)) => r matches Some((x, end)) && x == v && end == pos + n,
            None => r is None,
        },
{
    match get_u8(b, pos) {
        Some((0, end)) => Some((false, end)),
        Some((1, end)) => Some((true, end)),
        _ => None,
    }
}

// ---------------------------------------------------------------- byte strings

pub open spec fn wf_bytes(b: Seq<u8>) -> bool {
    b.len() <= u64::MAX
}

pub open spec fn enc_bytes(b: Seq<u8>) -> Seq<u8> {
    enc_u64(b.len() as u64) + b
}

pub open spec fn p_bytes(s: Seq<u8>) -> Parsed<Seq<u8>> {
    match p_u64(s) {
        Some((len, n)) => if len <= s.len() - n {
            Some((s.subrange(n, n + len), n + len))
        } else {
            None
        },
        None => None,
    }
}

pub proof fn lemma_bytes()
    ensures
        forall|v: Seq<u8>| #[trigger] enc_bytes(v).len() == 8 + v.len(),
        forall|v: Seq<u8>, rest: Seq<u8>| wf_bytes(v) ==> #[trigger] p_bytes(enc_bytes(v) + rest) == Some((v, enc_bytes(v).len() as int)),
        forall|s: Seq<u8>| match #[trigger] p_bytes(s) { Some((v, n)) => 0 <= n <= s.len() && s.take(n) == enc_bytes(v) && wf_bytes(v), None => true },
{
    lemma_u64();
    assert forall|v: Seq<u8>, rest: Seq<u8>| wf_bytes(v) implies #[trigger] p_bytes(enc_bytes(v) + rest)
        == Some((v, enc_bytes(v).len() as int)) by {
        let s = enc_bytes(v) + rest;
        assert(s =~= enc_u64(v.len() as u64) + (v + rest));
        assert(p_u64(s) == Some((v.len() as u64, 8int)));
        assert(s.subrange(8, 8 + v.len() as int) =~= v);
    }
    assert forall|s: Seq<u8>| match #[trigger] p_bytes(s) { Some((v, n)) => 0 <= n <= s.len() && s.take(n) == enc_bytes(v) && wf_bytes(v), None => true } by {
        if let Some((v, n)) = p_bytes(s) {
            assert(s.take(n) =~= s.take(8) + v);
        }
    }
}

/// Appends the bytes of `b`, in order.
pub fn put_slice(out: &mut Vec<u8>, b: &[u8])
    ensures
        final(out)@ == old(out)@ + b@,
{
    let ghost start = out@;
    let mut i: usize = 0;
    while i < b.len()
        invariant
            i <= b@.len(),
            out@ == start + b@.take(i as int),
        decreases b@.len() - i,
    {
        out.push(b[i]);
        i = i + 1;
        assert(out@ =~= start + b@.take(i as int));
    }
    assert(b@.take(i as int) =~= b@);
}

pub fn put_bytes(out: &mut Vec<u8>, b: &[u8])
    ensures
        final(out)@ == old(out)@ + enc_bytes(b@),
        wf_bytes(b@),
{
    put_u64(out, b.len() as u64);
    put_slice(out, b);
    assert(final(out)@ =~= old(out)@ + enc_bytes(b@));
}

pub fn get_bytes(b: &[u8], pos: usize) -> (r: Option<(Vec<u8>, usize)>)
    requires
        pos <= b@.len(),
    ensures
        r matches Some((_, end)) ==> pos <= end <= b@.len(),
        match p_bytes(b@.skip(pos as int)) {
            Some((v, n)) => r matches Some((x, end)) && x@ == v && end == pos + n,
            None => r is None,
        },
{
    let (len, p) = match get_u64(b, pos) {
        Some(x) => x,
        None => return None,
    };
    if len > (b.len() - p) as u64 {
        return None;
    }
    let end = p + len as usize;
    let s = slice_subrange(b, p, end);
    assert(s@ =~= b@.skip(pos as int).subrange(8, 8 + len));
    Some((slice_to_vec(s), end))
}

// ---------------------------------------------------------------- text

/// Text is stored as its UTF-8 bytes, length first.
pub open spec fn wf_str(t: Seq<char>) -> bool {
    wf_bytes(encode_utf8(t))
}

pub open spec fn enc_str(t: Seq<char>) -> Seq<u8> {
    enc_bytes(encode_utf8(t))
}

pub open spec fn p_str(s: Seq<u8>) -> Parsed<Seq<char>> {
    match p_bytes(s) {
        Some((b, n)) => if valid_utf8(b) {
            Some((decode_utf8(b), n))
        } else {
            None
        },
        None => None,
    }
}

pub proof fn lemma_str()
    ensures
        forall|v: Seq<char>, rest: Seq<u8>| wf_str(v) ==> #[trigger] p_str(enc_str(v) + rest) == Some((v, enc_str(v).len() as int)),
        forall|s: Seq<u8>| match #[trigger] p_str(s) { Some((v, n)) => 0 <= n <= s.len() && s.take(n) == enc_str(v) && wf_str(v), None => true },
{
    lemma_bytes();
    broadcast use encode_utf8_valid_utf8, encode_utf8_decode_utf8, decode_utf8_encode_utf8;

    assert forall|v: Seq<char>, rest: Seq<u8>| wf_str(v) implies #[trigger] p_str(enc_str(v) + rest)
        == Some((v, enc_str(v).len() as int)) by {
        assert(p_bytes(enc_bytes(encode_utf8(v)) + rest) == Some((encode_utf8(v), enc_bytes(encode_utf8(v)).len() as int)));
    }

}

pub open spec fn str_p() -> spec_fn(Seq<u8>) -> Parsed<Seq<char>> {
    |s: Seq<u8>| p_str(s)
}

pub open spec fn str_e() -> spec_fn(Seq<char>) -> Seq<u8> {
    |t: Seq<char>| enc_str(t)
}

pub open spec fn str_wf() -> spec_fn(Seq<char>) -> bool {
    |t: Seq<char>| wf_str(t)
}

pub proof fn lemma_str_inverse()
    ensures
        inverse(str_p(), str_e(), str_wf()),
{
    lemma_str();
    assert forall|v: Seq<char>, rest: Seq<u8>| str_wf()(v) implies #[trigger] str_p()(str_e()(v) + rest)
        == Some((v, str_e()(v).len() as int)) by {
        assert(p_str(enc_str(v) + rest) == Some((v, enc_str(v).len() as int)));
    }
    assert forall|s: Seq<u8>| consumed(s, #[trigger] str_p()(s), str_e(), str_wf()) by {
        assert(match p_str(s) {
            Some((v, n)) => 0 <= n <= s.len() && s.take(n) == enc_str(v) && wf_str(v),
            None => true,
        });
    }
}

/// Relies on `std::str::from_utf8`: it accepts exactly the well-formed
/// UTF-8 byte sequences, and the text it gives back is made of those bytes.
#[verifier::external_body]
pub(crate) fn utf8_text(b: &[u8]) -> (r: Option<String>)
    ensures
        r is Some <==> valid_utf8(b@),
        r matches Some(t) ==> encode_utf8(t@) == b@,
{
    match std::str::from_utf8(b) {
        Ok(t) => Some(t.to_owned()),
        Err(_) => None,
    }
}

pub fn put_str(out: &mut Vec<u8>, t: &str)
    ensures
        final(out)@ == old(out)@ + enc_str(t@),
        wf_str(t@),
{
    put_bytes(out, t.as_bytes());
}

pub fn get_str(b: &[u8], pos: usize) -> (r: Option<(String, usize)>)
    requires
        pos <= b@.len(),
    ensures
        r matches Some((_, end)) ==> pos <= end <= b@.len(),
        match p_str(b@.skip(pos as int)) {
            Some((v, n)) => r matches Some((x, end)) && x@ == v && end == pos + n,
            None => r is None,
        },
{
    broadcast use encode_utf8_decode_utf8;

    let (raw, end) = match get_bytes(b, pos) {
        Some(x) => x,
        None => return None,
    };
    match utf8_text(raw.as_slice()) {
        Some(t) => {
            assert(t@ == decode_utf8(encode_utf8(t@)));
            Some((t, end))
        },
        None => None,
    }
}


// ---------------------------------------------------------------- sequence facts

/// Splitting a prefix of `s` in two.
pub proof fn lemma_take_split(s: Seq<u8>, n: int, m: int)
    requires
        0 <= n,
        0 <= m,
        n + m <= s.len(),
    ensures
        s.take(n + m) == s.take(n) + s.skip(n).take(m),
        s.skip(n).skip(m) == s.skip(n + m),
{
    assert(s.take(n + m) =~= s.take(n) + s.skip(n).take(m));
    assert(s.skip(n).skip(m) =~= s.skip(n + m));
}

pub proof fn lemma_skip_skip(s: Seq<u8>, n: int, m: int)
    requires
        0 <= n,
        0 <= m,
        n + m <= s.len(),
    ensures
        s.skip(n).skip(m) == s.skip(n + m),
{
    assert(s.skip(n).skip(m) =~= s.skip(n + m));
}

/// Reading past a first encoding `a` lands on what follows it.
pub proof fn lemma_cat(a: Seq<u8>, b: Seq<u8>, rest: Seq<u8>)
    ensures
        (a + b) + rest == a + (b + rest),
        (a + (b + rest)).skip(a.len() as int) == b + rest,
        (a + b).len() == a.len() + b.len(),
{
    assert((a + b) + rest =~= a + (b + rest));
    assert((a + (b + rest)).skip(a.len() as int) =~= b + rest);
}

// ---------------------------------------------------------------- optional values

pub open spec fn wf_opt<T>(o: Option<T>, wf: spec_fn(T) -> bool) -> bool {
    match o {
        Some(v) => wf(v),
        None => true,
    }
}

/// One byte, 0 for absent and 1 for present, then the value if present.
pub open spec fn enc_opt<T>(o: Option<T>, e: spec_fn(T) -> Seq<u8>) -> Seq<u8> {
    match o {
        Some(v) => enc_u8(1) + e(v),
        None => enc_u8(0),
    }
}

pub open spec fn p_opt<T>(s: Seq<u8>, p: spec_fn(Seq<u8>) -> Parsed<T>) -> Parsed<Option<T>> {
    match p_u8(s) {
        Some((0, n)) => Some((None, 1)),
        Some((1, n)) => match p(s.skip(1)) {
            Some((v, m)) => Some((Some(v), 1 + m)),
            None => None,
        },
        _ => None,
    }
}

pub proof fn lemma_opt<T>(
    p: spec_fn(Seq<u8>) -> Parsed<T>,
    e: spec_fn(T) -> Seq<u8>,
    wf: spec_fn(T) -> bool,
)
    requires
        inverse(p, e, wf),
    ensures
        forall|v: Option<T>, rest: Seq<u8>|
            wf_opt(v, wf) ==> #[trigger] p_opt(enc_opt(v, e) + rest, p) == Some(
                (v, enc_opt(v, e).len() as int),
            ),
        forall|s: Seq<u8>|
            match #[trigger] p_opt(s, p) {
                Some((v, n)) => 0 <= n <= s.len() && s.take(n) == enc_opt(v, e) && wf_opt(v, wf),
                None => true,
            },
{
    lemma_u8();
    assert forall|v: Option<T>, rest: Seq<u8>| wf_opt(v, wf) implies #[trigger] p_opt(
        enc_opt(v, e) + rest,
        p,
    ) == Some((v, enc_opt(v, e).len() as int)) by {
        match v {
            Some(x) => {
                lemma_cat(enc_u8(1), e(x), rest);
                assert(p(e(x) + rest) == Some((x, e(x).len() as int)));
            },
            None => {},
        }
    }
    assert forall|s: Seq<u8>|
        match #[trigger] p_opt(s, p) {
            Some((v, n)) => 0 <= n <= s.len() && s.take(n) == enc_opt(v, e) && wf_opt(v, wf),
            None => true,
        } by {
        if let Some((v, n)) = p_opt(s, p) {
            if s[0] == 1 {
                let (x, m) = p(s.skip(1)).unwrap();
                assert(consumed(s.skip(1), p(s.skip(1)), e, wf));
                lemma_take_split(s, 1, m);
            }
        }
    }
}

// ---------------------------------------------------------------- lists

pub open spec fn wf_list<T>(v: Seq<T>, wf: spec_fn(T) -> bool) -> bool {
    &&& v.len() <= u64::MAX
    &&& forall|i: int| 0 <= i < v.len() ==> #[trigger] wf(v[i])
}

pub open spec fn enc_items<T>(v: Seq<T>, e: spec_fn(T) -> Seq<u8>) -> Seq<u8>
    decreases v.len(),
{
    if v.len() == 0 {
        Seq::empty()
    } else {
        e(v[0]) + enc_items(v.drop_first(), e)
    }
}

/// The number of items, then each item in order.
pub open spec fn enc_list<T>(v: Seq<T>, e: spec_fn(T) -> Seq<u8>) -> Seq<u8> {
    enc_u64(v.len() as u64) + enc_items(v, e)
}

pub open spec fn p_items<T>(s: Seq<u8>, count: nat, p: spec_fn(Seq<u8>) -> Parsed<T>) -> Parsed<Seq<T>>
    decreases count,
{
    if count == 0 {
        Some((Seq::empty(), 0))
    } else {
        match p(s) {
            Some((v, n)) => match p_items(s.skip(n), (count - 1) as nat, p) {
                Some((vs, m)) => Some((seq![v] + vs, n + m)),
                None => None,
            },
            None => None,
        }
    }
}

pub open spec fn p_list<T>(s: Seq<u8>, p: spec_fn(Seq<u8>) -> Parsed<T>) -> Parsed<Seq<T>> {
    match p_u64(s) {
        Some((count, n)) => match p_items(s.skip(n), count as nat, p) {
            Some((vs, m)) => Some((vs, n + m)),
            None => None,
        },
        None => None,
    }
}

pub proof fn lemma_items_push<T>(v: Seq<T>, x: T, e: spec_fn(T) -> Seq<u8>)
    ensures
        enc_items(v.push(x), e) == enc_items(v, e) + e(x),
    decreases v.len(),
{
    if v.len() == 0 {
        assert(v.push(x).drop_first() =~= Seq::<T>::empty());
        assert(v.push(x)[0] == x);
        assert(enc_items(v.push(x).drop_first(), e) == Seq::<u8>::empty());
        assert(enc_items(v.push(x), e) =~= e(x));
        assert(enc_items(v, e) == Seq::<u8>::empty());
    } else {
        assert(v.push(x).drop_first() =~= v.drop_first().push(x));
        lemma_items_push(v.drop_first(), x, e);
        assert(enc_items(v.push(x), e) =~= enc_items(v, e) + e(x));
    }
}

proof fn lemma_items_round_trip<T>(
    v: Seq<T>,
    rest: Seq<u8>,
    p: spec_fn(Seq<u8>) -> Parsed<T>,
    e: spec_fn(T) -> Seq<u8>,
    wf: spec_fn(T) -> bool,
)
    requires
        inverse(p, e, wf),
        forall|i: int| 0 <= i < v.len() ==> #[trigger] wf(v[i]),
    ensures
        p_items(enc_items(v, e) + rest, v.len(), p) == Some((v, enc_items(v, e).len() as int)),
    decreases v.len(),
{
    if v.len() > 0 {
        let tail = v.drop_first();
        assert(wf(v[0]));
        assert forall|i: int| 0 <= i < tail.len() implies #[trigger] wf(tail[i]) by {
            assert(wf(v[i + 1]));
        }
        lemma_items_round_trip(tail, rest, p, e, wf);
        lemma_cat(e(v[0]), enc_items(tail, e), rest);
        assert(p(e(v[0]) + (enc_items(tail, e) + rest)) == Some((v[0], e(v[0]).len() as int)));
        assert(seq![v[0]] + tail =~= v);
    }
}

proof fn lemma_items_sound<T>(
    s: Seq<u8>,
    count: nat,
    p: spec_fn(Seq<u8>) -> Parsed<T>,
    e: spec_fn(T) -> Seq<u8>,
    wf: spec_fn(T) -> bool,
)
    requires
        inverse(p, e, wf),
    ensures
        match p_items(s, count, p) {
            Some((vs, n)) => 0 <= n <= s.len() && s.take(n) == enc_items(vs, e) && vs.len() == count
                && forall|i: int| 0 <= i < vs.len() ==> #[trigger] wf(vs[i]),
            None => true,
        },
    decreases count,
{
    if count > 0 {
        if let Some((vs, n)) = p_items(s, count, p) {
            let (x, k) = p(s).unwrap();
            assert(consumed(s, p(s), e, wf));
            lemma_items_sound(s.skip(k), (count - 1) as nat, p, e, wf);
            let (tail, m) = p_items(s.skip(k), (count - 1) as nat, p).unwrap();
            lemma_take_split(s, k, m);
            assert((seq![x] + tail).drop_first() =~= tail);
            assert forall|i: int| 0 <= i < vs.len() implies #[trigger] wf(vs[i]) by {
                if i > 0 {
                    assert(vs[i] == tail[i - 1]);
                }
            }
        }
    } else {
        assert(s.take(0) =~= Seq::<u8>::empty());
    }
}

pub proof fn lemma_list<T>(
    p: spec_fn(Seq<u8>) -> Parsed<T>,
    e: spec_fn(T) -> Seq<u8>,
    wf: spec_fn(T) -> bool,
)
    requires
        inverse(p, e, wf),
    ensures
        forall|v: Seq<T>, rest: Seq<u8>|
            wf_list(v, wf) ==> #[trigger] p_list(enc_list(v, e) + rest, p) == Some(
                (v, enc_list(v, e).len() as int),
            ),
        forall|s: Seq<u8>|
            match #[trigger] p_list(s, p) {
                Some((v, n)) => 0 <= n <= s.len() && s.take(n) == enc_list(v, e) && wf_list(v, wf),
                None => true,
            },
{
    lemma_u64();
    assert forall|v: Seq<T>, rest: Seq<u8>| wf_list(v, wf) implies #[trigger] p_list(
        enc_list(v, e) + rest,
        p,
    ) == Some((v, enc_list(v, e).len() as int)) by {
        lemma_cat(enc_u64(v.len() as u64), enc_items(v, e), rest);
        lemma_items_round_trip(v, rest, p, e, wf);
        assert(p_u64(enc_u64(v.len() as u64) + (enc_items(v, e) + rest)) == Some((v.len() as u64, 8int)));
    }
    assert forall|s: Seq<u8>|
        match #[trigger] p_list(s, p) {
            Some((v, n)) => 0 <= n <= s.len() && s.take(n) == enc_list(v, e) && wf_list(v, wf),
            None => true,
        } by {
        if let Some((v, n)) = p_list(s, p) {
            let (count, k) = p_u64(s).unwrap();
            lemma_items_sound(s.skip(8), count as nat, p, e, wf);
            let (vs, m) = p_items(s.skip(8), count as nat, p).unwrap();
            lemma_take_split(s, 8, m);
        }
    }
}

} // verus!
