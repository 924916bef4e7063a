//! The password generator: uniformly drawn symbols from a chosen alphabet.

use crate::crypto::random_below;
use crate::error::VaultError;
use vstd::prelude::*;

verus! {

/// std's `String::push` appends one character at the end.
pub assume_specification[ String::push ](s: &mut String, ch: char)
    ensures
        final(s)@ == old(s)@.push(ch),
;

/// The alphabets a password can be drawn from.
#[derive(Debug, Clone, Copy, PartialEq, Eq, Structural)]
pub enum CharsetKind {
    /// `a-z`, `A-Z`, `0-9`: 62 symbols.
    Alphanum,
    /// `a-z`, `A-Z`: 52 symbols.
    Alpha,
    /// 86 printable ASCII symbols, no space.
    Base86,
    /// The distinct characters of a text the user gives.
    Custom,
}

pub open spec fn charset_name(k: CharsetKind) -> Seq<char> {
    match k {
        CharsetKind::Alphanum => "Alphanumeric"@,
        CharsetKind::Alpha => "Alphabet"@,
        CharsetKind::Base86 => "Base86"@,
        CharsetKind::Custom => "Custom"@,
    }
}

impl CharsetKind {
    /// The label shown for the alphabet.
    pub fn name(&self) -> (r: &'static str)
        ensures
            r@ == charset_name(*self),
    {
        match self {
            CharsetKind::Alphanum => "Alphanumeric",
            CharsetKind::Alpha => "Alphabet",
            CharsetKind::Base86 => "Base86",
            CharsetKind::Custom => "Custom",
        }
    }

    /// The alphabet at a position of the list above, if there is one.
    pub fn try_from_id(id: usize) -> (r: Option<CharsetKind>)
        ensures
            r is Some <==> id < 4,
            id == 0 ==> r == Some(CharsetKind::Alphanum),
            id == 1 ==> r == Some(CharsetKind::Alpha),
            id == 2 ==> r == Some(CharsetKind::Base86),
            id == 3 ==> r == Some(CharsetKind::Custom),
    {
        match id {
            0 => Some(CharsetKind::Alphanum),
            1 => Some(CharsetKind::Alpha),
            2 => Some(CharsetKind::Base86),
            3 => Some(CharsetKind::Custom),
            _ => None,
        }
    }
}

/// The characters of `s` in order, each kept at its first occurrence only.
pub open spec fn dedup(s: Seq<char>) -> Seq<char>
    decreases s.len(),
{
    if s.len() == 0 {
        Seq::empty()
    } else {
        let d = dedup(s.drop_last());
        if d.contains(s.last()) {
            d
        } else {
            d.push(s.last())
        }
    }
}

/// The symbols an alphabet draws from; `custom` is the user's text.
pub open spec fn alphabet(kind: CharsetKind, custom: Seq<char>) -> Seq<char> {
    match kind {
        CharsetKind::Alphanum => "abcdefghijklmnopqrstuvwxyzABCDEFGHIJKLMNOPQRSTUVWXYZ0123456789"@,
        CharsetKind::Alpha => "abcdefghijklmnopqrstuvwxyzABCDEFGHIJKLMNOPQRSTUVWXYZ"@,
        CharsetKind::Base86 => "!\"#$%&'()*+,-./0123456789:;<=>?@ABCDEFGHIJKLMNOPQRSTUVWXYZ[\\]^_`abcdefghijklmnopqrstuz"@,
        CharsetKind::Custom => dedup(custom),
    }
}

fn chars_of(s: &str) -> (r: Vec<char>)
    ensures
        r@ == s@,
{
    let n = s.unicode_len();
    let mut out: Vec<char> = Vec::new();
    let mut i: usize = 0;
    while i < n
        invariant
            i <= n,
            n == s@.len(),
            out@ == s@.take(i as int),
        decreases n - i,
    {
        out.push(s.get_char(i));
        i = i + 1;
        assert(out@ =~= s@.take(i as int));
    }
    assert(s@.take(n as int) =~= s@);
    out
}

/// The distinct characters of `s`, in order of first occurrence.
pub fn dedup_chars(s: &str) -> (r: Vec<char>)
    ensures
        r@ == dedup(s@),
{
    let n = s.unicode_len();
    let mut out: Vec<char> = Vec::new();
    let mut i: usize = 0;
    while i < n
        invariant
            i <= n,
            n == s@.len(),
            out@ == dedup(s@.take(i as int)),
        decreases n - i,
    {
        let c = s.get_char(i);
        let mut j: usize = 0;
        let mut found = false;
        while j < out.len()
            invariant
                j <= out@.len(),
                found <==> exists|k: int| 0 <= k < j && out@[k] == c,
            decreases out@.len() - j,
        {
            if out[j] == c {
                found = true;
            }
            j = j + 1;
        }
        proof {
            let t = s@.take(i as int + 1);
            assert(t.drop_last() =~= s@.take(i as int));
            assert(t.last() == c);
            if found {
                let k = choose|k: int| 0 <= k < j && out@[k] == c;
                assert(out@.contains(c));
            } else {
                assert(!out@.contains(c));
            }
        }
        if !found {
            out.push(c);
        }
        i = i + 1;
    }
    assert(s@.take(n as int) =~= s@);
    out
}

/// The symbols of an alphabet, in order.
pub fn charset_symbols(kind: CharsetKind, custom: &str) -> (r: Vec<char>)
    ensures
        r@ == alphabet(kind, custom@),
{
    match kind {
        CharsetKind::Alphanum => chars_of("abcdefghijklmnopqrstuvwxyzABCDEFGHIJKLMNOPQRSTUVWXYZ0123456789"),
        CharsetKind::Alpha => chars_of("abcdefghijklmnopqrstuvwxyzABCDEFGHIJKLMNOPQRSTUVWXYZ"),
        CharsetKind::Base86 => chars_of("!\"#$%&'()*+,-./0123456789:;<=>?@ABCDEFGHIJKLMNOPQRSTUVWXYZ[\\]^_`abcdefghijklmnopqrstuz"),
        CharsetKind::Custom => dedup_chars(custom),
    }
}

/// The number of distinct symbols an alphabet draws from; a password of
/// `n` symbols carries `n * log2` of it bits of entropy.
pub fn alphabet_size(kind: CharsetKind, custom: &str) -> (r: usize)
    ensures
        r == alphabet(kind, custom@).len(),
{
    charset_symbols(kind, custom).len()
}

/// The password that the drawn positions select: symbol `symbols[i]` for
/// each position `i`, in order.
pub fn password_from_indices(symbols: &Vec<char>, indices: &Vec<usize>) -> (r: String)
    requires
        forall|k: int| 0 <= k < indices@.len() ==> #[trigger] indices@[k] < symbols@.len(),
    ensures
        r@.len() == indices@.len(),
        forall|k: int| 0 <= k < indices@.len() ==> #[trigger] r@[k] == symbols@[indices@[k] as int],
{
    let mut out = String::new();
    let mut i: usize = 0;
    while i < indices.len()
        invariant
            i <= indices@.len(),
            forall|k: int| 0 <= k < indices@.len() ==> #[trigger] indices@[k] < symbols@.len(),
            out@.len() == i,
            forall|k: int| 0 <= k < i ==> #[trigger] out@[k] == symbols@[indices@[k] as int],
        decreases indices@.len() - i,
    {
        out.push(symbols[indices[i]]);
        i = i + 1;
    }
    out
}

/// A password of `length` symbols, each drawn uniformly and independently
/// from the alphabet. Refused when `length` is 0 or the alphabet has fewer
/// than two symbols.
pub fn generate_password(length: usize, kind: CharsetKind, custom: &str) -> (r: Result<
    String,
    VaultError,
>)
    ensures
        r is Err <==> length == 0 || alphabet(kind, custom@).len() < 2,
        r matches Err(e) ==> e == VaultError::GeneratorRefused,
        r matches Ok(p) ==> p@.len() == length && forall|k: int|
            0 <= k < length ==> alphabet(kind, custom@).contains(#[trigger] p@[k]),
{
    let symbols = charset_symbols(kind, custom);
    if length == 0 || symbols.len() < 2 {
        return Err(VaultError::GeneratorRefused);
    }
    let mut indices: Vec<usize> = Vec::new();
    let mut i: usize = 0;
    while i < length
        invariant
            i <= length,
            indices@.len() == i,
            symbols@.len() >= 2,
            forall|k: int| 0 <= k < i ==> #[trigger] indices@[k] < symbols@.len(),
        decreases length - i,
    {
        indices.push(random_below(symbols.len()));
        i = i + 1;
    }
    let p = password_from_indices(&symbols, &indices);
    assert forall|k: int| 0 <= k < length implies alphabet(kind, custom@).contains(#[trigger] p@[k]) by {
        assert(symbols@[indices@[k] as int] == p@[k]);
    }
    Ok(p)
}

} // verus!
