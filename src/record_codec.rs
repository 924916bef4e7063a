//! The canonical encoding of the plaintext record: a deterministic byte
//! string from which the record is recovered exactly.
//!
//! Sequences keep their order; text is length-prefixed UTF-8; an instant is
//! a signed 64-bit count of nanoseconds since the Unix epoch followed by a
//! UTC designator byte; a field value starts with its kind's id as a
//! 32-bit integer; a boolean is one byte, 0 or 1.

use crate::error::VaultError;
use crate::record::{Data, DataView, Entry, EntryTag, EntryTagView, EntryView, Field, FieldValue, FieldValueView, FieldView, Timestamp, TwoFACode, TwoFACodeView, codes_view, entries_view, fields_view, kind_id, kind_of, opt_text_view, tags_view};
use crate::wire::{Parsed, consumed, enc_bool, enc_i64, enc_items, enc_list, enc_opt, enc_str, enc_u32, enc_u64, enc_u8, get_bool, get_i64, get_str, get_u32, get_u64, get_u8, inverse, lemma_bool, lemma_cat, lemma_i64, lemma_items_push, lemma_list, lemma_opt, lemma_skip_skip, lemma_str, lemma_str_inverse, lemma_take_split, lemma_u32, lemma_u32_inverse, lemma_u64, lemma_u8, p_bool, p_i64, p_items, p_list, p_opt, p_str, p_u32, p_u64, p_u8, put_bool, put_i64, put_str, put_u32, put_u64, put_u8, str_e, str_p, str_wf, u32_e, u32_p, u32_wf, wf_list, wf_opt, wf_str};
use vstd::prelude::*;

verus! {

/// The designator that follows every instant: the offset is always UTC.
pub const UTC_MARK: u8 = 0x5A;

// ---------------------------------------------------------------- instants

pub open spec fn enc_ts(t: Timestamp) -> Seq<u8> {
    enc_i64(t.nanos) + enc_u8(UTC_MARK)
}

pub open spec fn p_ts(s: Seq<u8>) -> Parsed<Timestamp> {
    match p_i64(s) {
        Some((x, n)) => match p_u8(s.skip(n)) {
            Some((m, k)) => if m == UTC_MARK {
                Some((Timestamp { nanos: x }, n + k))
            } else {
                None
            },
            None => None,
        },
        None => None,
    }
}

pub open spec fn ts_p() -> spec_fn(Seq<u8>) -> Parsed<Timestamp> {
    |s: Seq<u8>| p_ts(s)
}

pub open spec fn ts_e() -> spec_fn(Timestamp) -> Seq<u8> {
    |t: Timestamp| enc_ts(t)
}

pub open spec fn ts_wf() -> spec_fn(Timestamp) -> bool {
    |t: Timestamp| true
}

pub proof fn lemma_ts()
    ensures
        inverse(ts_p(), ts_e(), ts_wf()),
        forall|t: Timestamp| #[trigger] enc_ts(t).len() == 9,
        forall|v: Timestamp, rest: Seq<u8>| #[trigger] p_ts(enc_ts(v) + rest) == Some((v, 9int)),
        forall|s: Seq<u8>|
            match #[trigger] p_ts(s) {
                Some((v, n)) => n == 9 <= s.len() && s.take(n) == enc_ts(v),
                None => true,
            },
{
    lemma_i64();
    lemma_u8();
    assert forall|v: Timestamp, rest: Seq<u8>| #[trigger] p_ts(enc_ts(v) + rest) == Some((v, 9int)) by {
        lemma_cat(enc_i64(v.nanos), enc_u8(UTC_MARK), rest);
        assert(p_i64(enc_i64(v.nanos) + (enc_u8(UTC_MARK) + rest)) == Some((v.nanos, 8int)));
        assert(p_u8(enc_u8(UTC_MARK) + rest) == Some((UTC_MARK, 1int)));
    }
    assert forall|s: Seq<u8>|
        match #[trigger] p_ts(s) {
            Some((v, n)) => n == 9 <= s.len() && s.take(n) == enc_ts(v),
            None => true,
        } by {
        if let Some((v, n)) = p_ts(s) {
            lemma_take_split(s, 8, 1);
            assert(p_i64(s) matches Some((x, n)) && n == 8);
            assert(p_u8(s.skip(8)) matches Some((m, n)) && n == 1);
        }
    }
    assert forall|v: Timestamp, rest: Seq<u8>| ts_wf()(v) implies #[trigger] ts_p()(ts_e()(v) + rest)
        == Some((v, ts_e()(v).len() as int)) by {
        assert(p_ts(enc_ts(v) + rest) == Some((v, 9int)));
    }
    assert forall|s: Seq<u8>| consumed(s, #[trigger] ts_p()(s), ts_e(), ts_wf()) by {
        assert(match p_ts(s) {
            Some((v, n)) => n == 9 <= s.len() && s.take(n) == enc_ts(v),
            None => true,
        });
    }
}

// ---------------------------------------------------------------- recovery codes

/// One recovery code: its text, then its optional expiry.
pub open spec fn enc_code(v: TwoFACodeView) -> Seq<u8> {
    enc_str(v.value) + enc_opt(v.expired, ts_e())
}

pub open spec fn wf_code(v: TwoFACodeView) -> bool {
    wf_str(v.value) && wf_opt(v.expired, ts_wf())
}

#[verifier::opaque]
pub open spec fn p_code(s: Seq<u8>) -> Parsed<TwoFACodeView> {
    match p_str(s) {
        Some((value, n1)) => match p_opt(s.skip(n1), ts_p()) {
            Some((expired, n2)) => Some((
                    TwoFACodeView { value, expired },
                    n1 + n2,
                )),
            None => None,
        },
        None => None,
    }
}

pub open spec fn code_p() -> spec_fn(Seq<u8>) -> Parsed<TwoFACodeView> {
    |s: Seq<u8>| p_code(s)
}

pub open spec fn code_e() -> spec_fn(TwoFACodeView) -> Seq<u8> {
    |v: TwoFACodeView| enc_code(v)
}

pub open spec fn code_wf() -> spec_fn(TwoFACodeView) -> bool {
    |v: TwoFACodeView| wf_code(v)
}

proof fn lemma_code_round_trip(v: TwoFACodeView, rest: Seq<u8>)
    requires
        wf_code(v),
    ensures
        p_code(enc_code(v) + rest) == Some((v, enc_code(v).len() as int)),
{
    reveal(p_code);
    lemma_str();
    lemma_ts();
    lemma_opt(ts_p(), ts_e(), ts_wf());
    let e1 = enc_str(v.value);
    let e2 = enc_opt(v.expired, ts_e());
    let b2 = e2;
    let b1 = e1 + b2;
    assert(enc_code(v) == b1);
    let s = b1 + rest;
    lemma_cat(e1, b2, rest);
    assert(p_str(e1 + (b2 + rest)) == Some((v.value, e1.len() as int)));
    assert(p_opt(e2 + rest, ts_p()) == Some((v.expired, e2.len() as int)));
    assert(enc_code(v).len() == e1.len() + e2.len());
    assert(v == TwoFACodeView { value: v.value, expired: v.expired });
}

proof fn lemma_code_sound(s: Seq<u8>)
    ensures
        match p_code(s) {
                Some((v, n)) => 0 <= n <= s.len() && s.take(n) == enc_code(v) && wf_code(v),
                None => true,
            },
{
    reveal(p_code);
    lemma_str();
    lemma_ts();
    lemma_opt(ts_p(), ts_e(), ts_wf());
    if let Some((v, n)) = p_code(s) {
        let (x1, n1) = p_str(s).unwrap();
        let (x2, n2) = p_opt(s.skip(n1), ts_p()).unwrap();
        lemma_take_split(s, n1, n2);
        assert(s.take(n) == enc_code(v));
    }
}

pub proof fn lemma_code()
    ensures
        forall|v: TwoFACodeView, rest: Seq<u8>| wf_code(v) ==> #[trigger] p_code(enc_code(v) + rest) == Some((v, enc_code(v).len() as int)),
        forall|s: Seq<u8>| match #[trigger] p_code(s) {
            Some((v, n)) => 0 <= n <= s.len() && s.take(n) == enc_code(v) && wf_code(v),
            None => true,
        },
        inverse(code_p(), code_e(), code_wf()),
{
    assert forall|v: TwoFACodeView, rest: Seq<u8>| wf_code(v) implies #[trigger] p_code(enc_code(v) + rest) == Some((v, enc_code(v).len() as int)) by {
        lemma_code_round_trip(v, rest);
    }
    assert forall|s: Seq<u8>| match #[trigger] p_code(s) {
                Some((v, n)) => 0 <= n <= s.len() && s.take(n) == enc_code(v) && wf_code(v),
                None => true,
            } by {
        lemma_code_sound(s);
    }
    assert forall|v: TwoFACodeView, rest: Seq<u8>| code_wf()(v) implies #[trigger] code_p()(code_e()(v) + rest) == Some((v, code_e()(v).len() as int)) by {
        lemma_code_round_trip(v, rest);
    }
    assert forall|s: Seq<u8>| consumed(s, #[trigger] code_p()(s), code_e(), code_wf()) by {
        lemma_code_sound(s);
    }
}


// ---------------------------------------------------------------- field values

/// The kinds that carry one text.
pub open spec fn text_value(id: u32, t: Seq<char>) -> FieldValueView {
    if id == 0 {
        FieldValueView::Text(t)
    } else if id == 1 {
        FieldValueView::Url(t)
    } else if id == 2 {
        FieldValueView::Phone(t)
    } else if id == 3 {
        FieldValueView::Email(t)
    } else if id == 4 {
        FieldValueView::TOTPRFC6238(t)
    } else {
        FieldValueView::TOTPSteam(t)
    }
}

pub open spec fn enc_value(v: FieldValueView) -> Seq<u8> {
    enc_u32(kind_id(kind_of(v)) as u32) + match v {
        FieldValueView::Text(t) => enc_str(t),
        FieldValueView::Url(t) => enc_str(t),
        FieldValueView::Phone(t) => enc_str(t),
        FieldValueView::Email(t) => enc_str(t),
        FieldValueView::TOTPRFC6238(t) => enc_str(t),
        FieldValueView::TOTPSteam(t) => enc_str(t),
        FieldValueView::TwoFactorRecovery(c) => enc_list(c, code_e()),
        FieldValueView::Binary { mimetype, base64 } => enc_str(mimetype) + enc_str(base64),
    }
}

pub open spec fn wf_value(v: FieldValueView) -> bool {
    match v {
        FieldValueView::Text(t) => wf_str(t),
        FieldValueView::Url(t) => wf_str(t),
        FieldValueView::Phone(t) => wf_str(t),
        FieldValueView::Email(t) => wf_str(t),
        FieldValueView::TOTPRFC6238(t) => wf_str(t),
        FieldValueView::TOTPSteam(t) => wf_str(t),
        FieldValueView::TwoFactorRecovery(c) => wf_list(c, code_wf()),
        FieldValueView::Binary { mimetype, base64 } => wf_str(mimetype) && wf_str(base64),
    }
}

#[verifier::opaque]
pub open spec fn p_value(s: Seq<u8>) -> Parsed<FieldValueView> {
    match p_u32(s) {
        Some((id, n)) => if id <= 5 {
            match p_str(s.skip(n)) {
                Some((t, m)) => Some((text_value(id, t), n + m)),
                None => None,
            }
        } else if id == 6 {
            match p_list(s.skip(n), code_p()) {
                Some((c, m)) => Some((FieldValueView::TwoFactorRecovery(c), n + m)),
                None => None,
            }
        } else if id == 7 {
            match p_str(s.skip(n)) {
                Some((mimetype, m)) => match p_str(s.skip(n + m)) {
                    Some((base64, k)) => Some(
                        (FieldValueView::Binary { mimetype, base64 }, n + m + k),
                    ),
                    None => None,
                },
                None => None,
            }
        } else {
            None
        },
        None => None,
    }
}

pub open spec fn value_p() -> spec_fn(Seq<u8>) -> Parsed<FieldValueView> {
    |s: Seq<u8>| p_value(s)
}

pub open spec fn value_e() -> spec_fn(FieldValueView) -> Seq<u8> {
    |v: FieldValueView| enc_value(v)
}

pub open spec fn value_wf() -> spec_fn(FieldValueView) -> bool {
    |v: FieldValueView| wf_value(v)
}

pub proof fn lemma_value()
    ensures
        forall|v: FieldValueView, rest: Seq<u8>|
            wf_value(v) ==> #[trigger] p_value(enc_value(v) + rest) == Some((v, enc_value(v).len() as int)),
        forall|s: Seq<u8>|
            match #[trigger] p_value(s) {
                Some((v, n)) => 0 <= n <= s.len() && s.take(n) == enc_value(v) && wf_value(v),
                None => true,
            },
        inverse(value_p(), value_e(), value_wf()),
{
    reveal(p_value);
    lemma_u32();
    lemma_str();
    lemma_code();
    lemma_list(code_p(), code_e(), code_wf());
    assert forall|v: FieldValueView, rest: Seq<u8>| wf_value(v) implies #[trigger] p_value(enc_value(v) + rest)
        == Some((v, enc_value(v).len() as int)) by {
        let id = kind_id(kind_of(v)) as u32;
        let tag = enc_u32(id);
        assert(p_u32(tag + (enc_value(v).skip(4) + rest)) == Some((id, 4int)));
        match v {
            FieldValueView::TwoFactorRecovery(c) => {
                let body = enc_list(c, code_e());
                lemma_cat(tag, body, rest);
                assert(p_list(body + rest, code_p()) == Some((c, body.len() as int)));
            },
            FieldValueView::Binary { mimetype, base64 } => {
                let a = enc_str(mimetype);
                let b = enc_str(base64);
                lemma_cat(tag, a + b, rest);
                lemma_cat(a, b, rest);
                assert((tag + (a + b) + rest).skip(4) == a + (b + rest));
                assert(p_str(a + (b + rest)) == Some((mimetype, a.len() as int)));
                assert((tag + (a + b) + rest).skip(4 + a.len() as int) =~= b + rest);
                assert(p_str(b + rest) == Some((base64, b.len() as int)));
            },
            _ => {
                let t = match v {
                    FieldValueView::Text(t) => t,
                    FieldValueView::Url(t) => t,
                    FieldValueView::Phone(t) => t,
                    FieldValueView::Email(t) => t,
                    FieldValueView::TOTPRFC6238(t) => t,
                    FieldValueView::TOTPSteam(t) => t,
                    _ => Seq::empty(),
                };
                let body = enc_str(t);
                lemma_cat(tag, body, rest);
                assert(p_str(body + rest) == Some((t, body.len() as int)));
            },
        }
    }
    assert forall|s: Seq<u8>|
        match #[trigger] p_value(s) {
            Some((v, n)) => 0 <= n <= s.len() && s.take(n) == enc_value(v) && wf_value(v),
            None => true,
        } by {
        if let Some((v, n)) = p_value(s) {
            let (id, k) = p_u32(s).unwrap();
            if id <= 5 {
                let (t, m) = p_str(s.skip(k)).unwrap();
                lemma_take_split(s, k, m);
            } else if id == 6 {
                let (c, m) = p_list(s.skip(k), code_p()).unwrap();
                lemma_take_split(s, k, m);
            } else {
                let (a, m) = p_str(s.skip(k)).unwrap();
                let (b, j) = p_str(s.skip(k + m)).unwrap();
                lemma_take_split(s, k, m);
                lemma_take_split(s, k + m, j);
                lemma_take_split(s.skip(k), m, j);
                assert(s.take(k + m + j) =~= enc_u32(id) + (enc_str(a) + enc_str(b)));
            }
        }
    }
    assert forall|v: FieldValueView, rest: Seq<u8>| value_wf()(v) implies #[trigger] value_p()(
        value_e()(v) + rest,
    ) == Some((v, value_e()(v).len() as int)) by {
        assert(p_value(enc_value(v) + rest) == Some((v, enc_value(v).len() as int)));
    }
    assert forall|s: Seq<u8>| consumed(s, #[trigger] value_p()(s), value_e(), value_wf()) by {
        assert(match p_value(s) {
            Some((v, n)) => 0 <= n <= s.len() && s.take(n) == enc_value(v) && wf_value(v),
            None => true,
        });
    }
}

// ---------------------------------------------------------------- field

/// A field: name, value, hidden flag, then its three instants.
pub open spec fn enc_field(v: FieldView) -> Seq<u8> {
    enc_str(v.name)
        + (enc_value(v.value)
            + (enc_bool(v.hidden)
                + (enc_ts(v.date_added)
                    + (enc_ts(v.date_modified) + enc_ts(v.date_accessed)))))
}

pub open spec fn wf_field(v: FieldView) -> bool {
    wf_str(v.name) && wf_value(v.value)
}

#[verifier::opaque]
pub open spec fn p_field(s: Seq<u8>) -> Parsed<FieldView> {
    match p_str(s) {
        Some((name, n1)) => match p_value(s.skip(n1)) {
            Some((value, n2)) => match p_bool(s.skip(n1 + n2)) {
                Some((hidden, n3)) => match p_ts(s.skip(n1 + n2 + n3)) {
                    Some((date_added, n4)) => match p_ts(s.skip(n1 + n2 + n3 + n4)) {
                        Some((date_modified, n5)) => match p_ts(s.skip(n1 + n2 + n3 + n4 + n5)) {
                            Some((date_accessed, n6)) => Some((
                                    FieldView { name, value, hidden, date_added, date_modified, date_accessed },
                                    n1 + n2 + n3 + n4 + n5 + n6,
                                )),
                            None => None,
                        },
                        None => None,
                    },
                    None => None,
                },
                None => None,
            },
            None => None,
        },
        None => None,
    }
}

pub open spec fn field_p() -> spec_fn(Seq<u8>) -> Parsed<FieldView> {
    |s: Seq<u8>| p_field(s)
}

pub open spec fn field_e() -> spec_fn(FieldView) -> Seq<u8> {
    |v: FieldView| enc_field(v)
}

pub open spec fn field_wf() -> spec_fn(FieldView) -> bool {
    |v: FieldView| wf_field(v)
}

proof fn lemma_field_round_trip(v: FieldView, rest: Seq<u8>)
    requires
        wf_field(v),
    ensures
        p_field(enc_field(v) + rest) == Some((v, enc_field(v).len() as int)),
{
    reveal(p_field);
    lemma_str();
    lemma_value();
    lemma_bool();
    lemma_ts();
    let e1 = enc_str(v.name);
    let e2 = enc_value(v.value);
    let e3 = enc_bool(v.hidden);
    let e4 = enc_ts(v.date_added);
    let e5 = enc_ts(v.date_modified);
    let e6 = enc_ts(v.date_accessed);
    let b6 = e6;
    let b5 = e5 + b6;
    let b4 = e4 + b5;
    let b3 = e3 + b4;
    let b2 = e2 + b3;
    let b1 = e1 + b2;
    assert(enc_field(v) == b1);
    let s = b1 + rest;
    lemma_cat(e1, b2, rest);
    assert(p_str(e1 + (b2 + rest)) == Some((v.name, e1.len() as int)));
    lemma_cat(e2, b3, rest);
    assert(p_value(e2 + (b3 + rest)) == Some((v.value, e2.len() as int)));
    lemma_cat(e3, b4, rest);
    lemma_skip_skip(s, (e1.len()) as int, e2.len() as int);
    assert(p_bool(e3 + (b4 + rest)) == Some((v.hidden, e3.len() as int)));
    lemma_cat(e4, b5, rest);
    lemma_skip_skip(s, (e1.len() + e2.len()) as int, e3.len() as int);
    assert(p_ts(e4 + (b5 + rest)) == Some((v.date_added, e4.len() as int)));
    lemma_cat(e5, b6, rest);
    lemma_skip_skip(s, (e1.len() + e2.len() + e3.len()) as int, e4.len() as int);
    assert(p_ts(e5 + (b6 + rest)) == Some((v.date_modified, e5.len() as int)));
    lemma_skip_skip(s, (e1.len() + e2.len() + e3.len() + e4.len()) as int, e5.len() as int);
    assert(p_ts(e6 + rest) == Some((v.date_accessed, e6.len() as int)));
    assert(enc_field(v).len() == e1.len() + e2.len() + e3.len() + e4.len() + e5.len() + e6.len());
    assert(v == FieldView {
        name: v.name,
        value: v.value,
        hidden: v.hidden,
        date_added: v.date_added,
        date_modified: v.date_modified,
        date_accessed: v.date_accessed
    });
}

proof fn lemma_field_sound(s: Seq<u8>)
    ensures
        match p_field(s) {
                Some((v, n)) => 0 <= n <= s.len() && s.take(n) == enc_field(v) && wf_field(v),
                None => true,
            },
{
    reveal(p_field);
    lemma_str();
    lemma_value();
    lemma_bool();
    lemma_ts();
    if let Some((v, n)) = p_field(s) {
        let (x1, n1) = p_str(s).unwrap();
        let (x2, n2) = p_value(s.skip(n1)).unwrap();
        let (x3, n3) = p_bool(s.skip(n1 + n2)).unwrap();
        let (x4, n4) = p_ts(s.skip(n1 + n2 + n3)).unwrap();
        let (x5, n5) = p_ts(s.skip(n1 + n2 + n3 + n4)).unwrap();
        let (x6, n6) = p_ts(s.skip(n1 + n2 + n3 + n4 + n5)).unwrap();
        lemma_skip_skip(s, n1, n2);
        lemma_skip_skip(s, n1 + n2, n3);
        lemma_skip_skip(s, n1 + n2 + n3, n4);
        lemma_skip_skip(s, n1 + n2 + n3 + n4, n5);
        lemma_take_split(s.skip(n1 + n2 + n3 + n4), n5, n6);
        lemma_take_split(s.skip(n1 + n2 + n3), n4, n5 + n6);
        lemma_take_split(s.skip(n1 + n2), n3, n4 + n5 + n6);
        lemma_take_split(s.skip(n1), n2, n3 + n4 + n5 + n6);
        lemma_take_split(s, n1, n2 + n3 + n4 + n5 + n6);
        assert(s.take(n) == enc_field(v));
    }
}

pub proof fn lemma_field()
    ensures
        forall|v: FieldView, rest: Seq<u8>| wf_field(v) ==> #[trigger] p_field(enc_field(v) + rest) == Some((v, enc_field(v).len() as int)),
        forall|s: Seq<u8>| match #[trigger] p_field(s) {
            Some((v, n)) => 0 <= n <= s.len() && s.take(n) == enc_field(v) && wf_field(v),
            None => true,
        },
        inverse(field_p(), field_e(), field_wf()),
{
    assert forall|v: FieldView, rest: Seq<u8>| wf_field(v) implies #[trigger] p_field(enc_field(v) + rest) == Some((v, enc_field(v).len() as int)) by {
        lemma_field_round_trip(v, rest);
    }
    assert forall|s: Seq<u8>| match #[trigger] p_field(s) {
                Some((v, n)) => 0 <= n <= s.len() && s.take(n) == enc_field(v) && wf_field(v),
                None => true,
            } by {
        lemma_field_sound(s);
    }
    assert forall|v: FieldView, rest: Seq<u8>| field_wf()(v) implies #[trigger] field_p()(field_e()(v) + rest) == Some((v, field_e()(v).len() as int)) by {
        lemma_field_round_trip(v, rest);
    }
    assert forall|s: Seq<u8>| consumed(s, #[trigger] field_p()(s), field_e(), field_wf()) by {
        lemma_field_sound(s);
    }
}

// ---------------------------------------------------------------- tag

/// A tag: name, optional icon, optional colour.
pub open spec fn enc_tag(v: EntryTagView) -> Seq<u8> {
    enc_str(v.name)
        + (enc_opt(v.icon, str_e()) + enc_opt(v.color, u32_e()))
}

pub open spec fn wf_tag(v: EntryTagView) -> bool {
    wf_str(v.name) && wf_opt(v.icon, str_wf()) && wf_opt(v.color, u32_wf())
}

#[verifier::opaque]
pub open spec fn p_tag(s: Seq<u8>) -> Parsed<EntryTagView> {
    match p_str(s) {
        Some((name, n1)) => match p_opt(s.skip(n1), str_p()) {
            Some((icon, n2)) => match p_opt(s.skip(n1 + n2), u32_p()) {
                Some((color, n3)) => Some((
                        EntryTagView { name, icon, color },
                        n1 + n2 + n3,
                    )),
                None => None,
            },
            None => None,
        },
        None => None,
    }
}

pub open spec fn tag_p() -> spec_fn(Seq<u8>) -> Parsed<EntryTagView> {
    |s: Seq<u8>| p_tag(s)
}

pub open spec fn tag_e() -> spec_fn(EntryTagView) -> Seq<u8> {
    |v: EntryTagView| enc_tag(v)
}

pub open spec fn tag_wf() -> spec_fn(EntryTagView) -> bool {
    |v: EntryTagView| wf_tag(v)
}

proof fn lemma_tag_round_trip(v: EntryTagView, rest: Seq<u8>)
    requires
        wf_tag(v),
    ensures
        p_tag(enc_tag(v) + rest) == Some((v, enc_tag(v).len() as int)),
{
    reveal(p_tag);
    lemma_str();
    lemma_str_inverse();
    lemma_opt(str_p(), str_e(), str_wf());
    lemma_u32_inverse();
    lemma_opt(u32_p(), u32_e(), u32_wf());
    let e1 = enc_str(v.name);
    let e2 = enc_opt(v.icon, str_e());
    let e3 = enc_opt(v.color, u32_e());
    let b3 = e3;
    let b2 = e2 + b3;
    let b1 = e1 + b2;
    assert(enc_tag(v) == b1);
    let s = b1 + rest;
    lemma_cat(e1, b2, rest);
    assert(p_str(e1 + (b2 + rest)) == Some((v.name, e1.len() as int)));
    lemma_cat(e2, b3, rest);
    assert(p_opt(e2 + (b3 + rest), str_p()) == Some((v.icon, e2.len() as int)));
    lemma_skip_skip(s, (e1.len()) as int, e2.len() as int);
    assert(p_opt(e3 + rest, u32_p()) == Some((v.color, e3.len() as int)));
    assert(enc_tag(v).len() == e1.len() + e2.len() + e3.len());
    assert(v == EntryTagView { name: v.name, icon: v.icon, color: v.color });
}

proof fn lemma_tag_sound(s: Seq<u8>)
    ensures
        match p_tag(s) {
                Some((v, n)) => 0 <= n <= s.len() && s.take(n) == enc_tag(v) && wf_tag(v),
                None => true,
            },
{
    reveal(p_tag);
    lemma_str();
    lemma_str_inverse();
    lemma_opt(str_p(), str_e(), str_wf());
    lemma_u32_inverse();
    lemma_opt(u32_p(), u32_e(), u32_wf());
    if let Some((v, n)) = p_tag(s) {
        let (x1, n1) = p_str(s).unwrap();
        let (x2, n2) = p_opt(s.skip(n1), str_p()).unwrap();
        let (x3, n3) = p_opt(s.skip(n1 + n2), u32_p()).unwrap();
        lemma_skip_skip(s, n1, n2);
        lemma_take_split(s.skip(n1), n2, n3);
        lemma_take_split(s, n1, n2 + n3);
        assert(s.take(n) == enc_tag(v));
    }
}

pub proof fn lemma_tag()
    ensures
        forall|v: EntryTagView, rest: Seq<u8>| wf_tag(v) ==> #[trigger] p_tag(enc_tag(v) + rest) == Some((v, enc_tag(v).len() as int)),
        forall|s: Seq<u8>| match #[trigger] p_tag(s) {
            Some((v, n)) => 0 <= n <= s.len() && s.take(n) == enc_tag(v) && wf_tag(v),
            None => true,
        },
        inverse(tag_p(), tag_e(), tag_wf()),
{
    assert forall|v: EntryTagView, rest: Seq<u8>| wf_tag(v) implies #[trigger] p_tag(enc_tag(v) + rest) == Some((v, enc_tag(v).len() as int)) by {
        lemma_tag_round_trip(v, rest);
    }
    assert forall|s: Seq<u8>| match #[trigger] p_tag(s) {
                Some((v, n)) => 0 <= n <= s.len() && s.take(n) == enc_tag(v) && wf_tag(v),
                None => true,
            } by {
        lemma_tag_sound(s);
    }
    assert forall|v: EntryTagView, rest: Seq<u8>| tag_wf()(v) implies #[trigger] tag_p()(tag_e()(v) + rest) == Some((v, tag_e()(v).len() as int)) by {
        lemma_tag_round_trip(v, rest);
    }
    assert forall|s: Seq<u8>| consumed(s, #[trigger] tag_p()(s), tag_e(), tag_wf()) by {
        lemma_tag_sound(s);
    }
}

// ---------------------------------------------------------------- entry

/// An entry: name, fields, tags, then its three instants.
pub open spec fn enc_entry(v: EntryView) -> Seq<u8> {
    enc_str(v.name)
        + (enc_list(v.fields, field_e())
            + (enc_list(v.tags, tag_e())
                + (enc_ts(v.created_at)
                    + (enc_ts(v.modified_at) + enc_ts(v.accessed_at)))))
}

pub open spec fn wf_entry(v: EntryView) -> bool {
    wf_str(v.name) && wf_list(v.fields, field_wf()) && wf_list(v.tags, tag_wf())
}

#[verifier::opaque]
pub open spec fn p_entry(s: Seq<u8>) -> Parsed<EntryView> {
    match p_str(s) {
        Some((name, n1)) => match p_list(s.skip(n1), field_p()) {
            Some((fields, n2)) => match p_list(s.skip(n1 + n2), tag_p()) {
                Some((tags, n3)) => match p_ts(s.skip(n1 + n2 + n3)) {
                    Some((created_at, n4)) => match p_ts(s.skip(n1 + n2 + n3 + n4)) {
                        Some((modified_at, n5)) => match p_ts(s.skip(n1 + n2 + n3 + n4 + n5)) {
                            Some((accessed_at, n6)) => Some((
                                    EntryView { name, fields, tags, created_at, modified_at, accessed_at },
                                    n1 + n2 + n3 + n4 + n5 + n6,
                                )),
                            None => None,
                        },
                        None => None,
                    },
                    None => None,
                },
                None => None,
            },
            None => None,
        },
        None => None,
    }
}

pub open spec fn entry_p() -> spec_fn(Seq<u8>) -> Parsed<EntryView> {
    |s: Seq<u8>| p_entry(s)
}

pub open spec fn entry_e() -> spec_fn(EntryView) -> Seq<u8> {
    |v: EntryView| enc_entry(v)
}

pub open spec fn entry_wf() -> spec_fn(EntryView) -> bool {
    |v: EntryView| wf_entry(v)
}

proof fn lemma_entry_round_trip(v: EntryView, rest: Seq<u8>)
    requires
        wf_entry(v),
    ensures
        p_entry(enc_entry(v) + rest) == Some((v, enc_entry(v).len() as int)),
{
    reveal(p_entry);
    lemma_str();
    lemma_field();
    lemma_list(field_p(), field_e(), field_wf());
    lemma_tag();
    lemma_list(tag_p(), tag_e(), tag_wf());
    lemma_ts();
    let e1 = enc_str(v.name);
    let e2 = enc_list(v.fields, field_e());
    let e3 = enc_list(v.tags, tag_e());
    let e4 = enc_ts(v.created_at);
    let e5 = enc_ts(v.modified_at);
    let e6 = enc_ts(v.accessed_at);
    let b6 = e6;
    let b5 = e5 + b6;
    let b4 = e4 + b5;
    let b3 = e3 + b4;
    let b2 = e2 + b3;
    let b1 = e1 + b2;
    assert(enc_entry(v) == b1);
    let s = b1 + rest;
    lemma_cat(e1, b2, rest);
    assert(p_str(e1 + (b2 + rest)) == Some((v.name, e1.len() as int)));
    lemma_cat(e2, b3, rest);
    assert(p_list(e2 + (b3 + rest), field_p()) == Some((v.fields, e2.len() as int)));
    lemma_cat(e3, b4, rest);
    lemma_skip_skip(s, (e1.len()) as int, e2.len() as int);
    assert(p_list(e3 + (b4 + rest), tag_p()) == Some((v.tags, e3.len() as int)));
    lemma_cat(e4, b5, rest);
    lemma_skip_skip(s, (e1.len() + e2.len()) as int, e3.len() as int);
    assert(p_ts(e4 + (b5 + rest)) == Some((v.created_at, e4.len() as int)));
    lemma_cat(e5, b6, rest);
    lemma_skip_skip(s, (e1.len() + e2.len() + e3.len()) as int, e4.len() as int);
    assert(p_ts(e5 + (b6 + rest)) == Some((v.modified_at, e5.len() as int)));
    lemma_skip_skip(s, (e1.len() + e2.len() + e3.len() + e4.len()) as int, e5.len() as int);
    assert(p_ts(e6 + rest) == Some((v.accessed_at, e6.len() as int)));
    assert(enc_entry(v).len() == e1.len() + e2.len() + e3.len() + e4.len() + e5.len() + e6.len());
    assert(v == EntryView {
        name: v.name,
        fields: v.fields,
        tags: v.tags,
        created_at: v.created_at,
        modified_at: v.modified_at,
        accessed_at: v.accessed_at
    });
}

proof fn lemma_entry_sound(s: Seq<u8>)
    ensures
        match p_entry(s) {
                Some((v, n)) => 0 <= n <= s.len() && s.take(n) == enc_entry(v) && wf_entry(v),
                None => true,
            },
{
    reveal(p_entry);
    lemma_str();
    lemma_field();
    lemma_list(field_p(), field_e(), field_wf());
    lemma_tag();
    lemma_list(tag_p(), tag_e(), tag_wf());
    lemma_ts();
    if let Some((v, n)) = p_entry(s) {
        let (x1, n1) = p_str(s).unwrap();
        let (x2, n2) = p_list(s.skip(n1), field_p()).unwrap();
        let (x3, n3) = p_list(s.skip(n1 + n2), tag_p()).unwrap();
        let (x4, n4) = p_ts(s.skip(n1 + n2 + n3)).unwrap();
        let (x5, n5) = p_ts(s.skip(n1 + n2 + n3 + n4)).unwrap();
        let (x6, n6) = p_ts(s.skip(n1 + n2 + n3 + n4 + n5)).unwrap();
        lemma_skip_skip(s, n1, n2);
        lemma_skip_skip(s, n1 + n2, n3);
        lemma_skip_skip(s, n1 + n2 + n3, n4);
        lemma_skip_skip(s, n1 + n2 + n3 + n4, n5);
        lemma_take_split(s.skip(n1 + n2 + n3 + n4), n5, n6);
        lemma_take_split(s.skip(n1 + n2 + n3), n4, n5 + n6);
        lemma_take_split(s.skip(n1 + n2), n3, n4 + n5 + n6);
        lemma_take_split(s.skip(n1), n2, n3 + n4 + n5 + n6);
        lemma_take_split(s, n1, n2 + n3 + n4 + n5 + n6);
        assert(s.take(n) == enc_entry(v));
    }
}

pub proof fn lemma_entry()
    ensures
        forall|v: EntryView, rest: Seq<u8>| wf_entry(v) ==> #[trigger] p_entry(enc_entry(v) + rest) == Some((v, enc_entry(v).len() as int)),
        forall|s: Seq<u8>| match #[trigger] p_entry(s) {
            Some((v, n)) => 0 <= n <= s.len() && s.take(n) == enc_entry(v) && wf_entry(v),
            None => true,
        },
        inverse(entry_p(), entry_e(), entry_wf()),
{
    assert forall|v: EntryView, rest: Seq<u8>| wf_entry(v) implies #[trigger] p_entry(enc_entry(v) + rest) == Some((v, enc_entry(v).len() as int)) by {
        lemma_entry_round_trip(v, rest);
    }
    assert forall|s: Seq<u8>| match #[trigger] p_entry(s) {
                Some((v, n)) => 0 <= n <= s.len() && s.take(n) == enc_entry(v) && wf_entry(v),
                None => true,
            } by {
        lemma_entry_sound(s);
    }
    assert forall|v: EntryView, rest: Seq<u8>| entry_wf()(v) implies #[trigger] entry_p()(entry_e()(v) + rest) == Some((v, entry_e()(v).len() as int)) by {
        lemma_entry_round_trip(v, rest);
    }
    assert forall|s: Seq<u8>| consumed(s, #[trigger] entry_p()(s), entry_e(), entry_wf()) by {
        lemma_entry_sound(s);
    }
}

// ---------------------------------------------------------------- data

/// The record: save counter, entries, then its two instants.
pub open spec fn enc_data(v: DataView) -> Seq<u8> {
    enc_u64(v.iteration)
        + (enc_list(v.entries, entry_e())
            + (enc_ts(v.created_at) + enc_ts(v.modified_at)))
}

pub open spec fn wf_data(v: DataView) -> bool {
    wf_list(v.entries, entry_wf())
}

#[verifier::opaque]
pub open spec fn p_data(s: Seq<u8>) -> Parsed<DataView> {
    match p_u64(s) {
        Some((iteration, n1)) => match p_list(s.skip(n1), entry_p()) {
            Some((entries, n2)) => match p_ts(s.skip(n1 + n2)) {
                Some((created_at, n3)) => match p_ts(s.skip(n1 + n2 + n3)) {
                    Some((modified_at, n4)) => Some((
                            DataView { iteration, entries, created_at, modified_at },
                            n1 + n2 + n3 + n4,
                        )),
                    None => None,
                },
                None => None,
            },
            None => None,
        },
        None => None,
    }
}

pub open spec fn data_p() -> spec_fn(Seq<u8>) -> Parsed<DataView> {
    |s: Seq<u8>| p_data(s)
}

pub open spec fn data_e() -> spec_fn(DataView) -> Seq<u8> {
    |v: DataView| enc_data(v)
}

pub open spec fn data_wf() -> spec_fn(DataView) -> bool {
    |v: DataView| wf_data(v)
}

proof fn lemma_data_round_trip(v: DataView, rest: Seq<u8>)
    requires
        wf_data(v),
    ensures
        p_data(enc_data(v) + rest) == Some((v, enc_data(v).len() as int)),
{
    reveal(p_data);
    lemma_u64();
    lemma_entry();
    lemma_list(entry_p(), entry_e(), entry_wf());
    lemma_ts();
    let e1 = enc_u64(v.iteration);
    let e2 = enc_list(v.entries, entry_e());
    let e3 = enc_ts(v.created_at);
    let e4 = enc_ts(v.modified_at);
    let b4 = e4;
    let b3 = e3 + b4;
    let b2 = e2 + b3;
    let b1 = e1 + b2;
    assert(enc_data(v) == b1);
    let s = b1 + rest;
    lemma_cat(e1, b2, rest);
    assert(p_u64(e1 + (b2 + rest)) == Some((v.iteration, e1.len() as int)));
    lemma_cat(e2, b3, rest);
    assert(p_list(e2 + (b3 + rest), entry_p()) == Some((v.entries, e2.len() as int)));
    lemma_cat(e3, b4, rest);
    lemma_skip_skip(s, (e1.len()) as int, e2.len() as int);
    assert(p_ts(e3 + (b4 + rest)) == Some((v.created_at, e3.len() as int)));
    lemma_skip_skip(s, (e1.len() + e2.len()) as int, e3.len() as int);
    assert(p_ts(e4 + rest) == Some((v.modified_at, e4.len() as int)));
    assert(enc_data(v).len() == e1.len() + e2.len() + e3.len() + e4.len());
    assert(v == DataView {
        iteration: v.iteration,
        entries: v.entries,
        created_at: v.created_at,
        modified_at: v.modified_at
    });
}

proof fn lemma_data_sound(s: Seq<u8>)
    ensures
        match p_data(s) {
                Some((v, n)) => 0 <= n <= s.len() && s.take(n) == enc_data(v) && wf_data(v),
                None => true,
            },
{
    reveal(p_data);
    lemma_u64();
    lemma_entry();
    lemma_list(entry_p(), entry_e(), entry_wf());
    lemma_ts();
    if let Some((v, n)) = p_data(s) {
        let (x1, n1) = p_u64(s).unwrap();
        let (x2, n2) = p_list(s.skip(n1), entry_p()).unwrap();
        let (x3, n3) = p_ts(s.skip(n1 + n2)).unwrap();
        let (x4, n4) = p_ts(s.skip(n1 + n2 + n3)).unwrap();
        lemma_skip_skip(s, n1, n2);
        lemma_skip_skip(s, n1 + n2, n3);
        lemma_take_split(s.skip(n1 + n2), n3, n4);
        lemma_take_split(s.skip(n1), n2, n3 + n4);
        lemma_take_split(s, n1, n2 + n3 + n4);
        assert(s.take(n) == enc_data(v));
    }
}

pub proof fn lemma_data()
    ensures
        forall|v: DataView, rest: Seq<u8>| wf_data(v) ==> #[trigger] p_data(enc_data(v) + rest) == Some((v, enc_data(v).len() as int)),
        forall|s: Seq<u8>| match #[trigger] p_data(s) {
            Some((v, n)) => 0 <= n <= s.len() && s.take(n) == enc_data(v) && wf_data(v),
            None => true,
        },
        inverse(data_p(), data_e(), data_wf()),
{
    assert forall|v: DataView, rest: Seq<u8>| wf_data(v) implies #[trigger] p_data(enc_data(v) + rest) == Some((v, enc_data(v).len() as int)) by {
        lemma_data_round_trip(v, rest);
    }
    assert forall|s: Seq<u8>| match #[trigger] p_data(s) {
                Some((v, n)) => 0 <= n <= s.len() && s.take(n) == enc_data(v) && wf_data(v),
                None => true,
            } by {
        lemma_data_sound(s);
    }
    assert forall|v: DataView, rest: Seq<u8>| data_wf()(v) implies #[trigger] data_p()(data_e()(v) + rest) == Some((v, data_e()(v).len() as int)) by {
        lemma_data_round_trip(v, rest);
    }
    assert forall|s: Seq<u8>| consumed(s, #[trigger] data_p()(s), data_e(), data_wf()) by {
        lemma_data_sound(s);
    }
}


// ---------------------------------------------------------------- writers and readers

pub fn put_ts(out: &mut Vec<u8>, t: Timestamp)
    ensures
        final(out)@ == old(out)@ + enc_ts(t),
{
    let ghost start = out@;
    put_i64(out, t.nanos);
    put_u8(out, UTC_MARK);
    assert(out@ =~= start + enc_ts(t));
}

pub fn get_ts(b: &[u8], pos: usize) -> (r: Option<(Timestamp, usize)>)
    requires
        pos <= b@.len(),
    ensures
        r matches Some((_, end)) ==> pos <= end <= b@.len(),
        match p_ts(b@.skip(pos as int)) {
            Some((v, n)) => r matches Some((x, end)) && x == v && end == pos + n,
            None => r is None,
        },
{
    let ghost s = b@.skip(pos as int);
    proof {
        lemma_i64();
        lemma_u8();
    }
    let (nanos, p1) = match get_i64(b, pos) {
        Some(x) => x,
        None => return None,
    };
    proof {
        assert(s.skip(8) =~= b@.skip(p1 as int));
    }
    match get_u8(b, p1) {
        Some((m, p2)) => if m == UTC_MARK {
            Some((Timestamp { nanos }, p2))
        } else {
            None
        },
        None => None,
    }
}

pub fn put_opt_ts(out: &mut Vec<u8>, o: Option<Timestamp>)
    ensures
        final(out)@ == old(out)@ + enc_opt(o, ts_e()),
        wf_opt(o, ts_wf()),
{
    let ghost start = out@;
    match o {
        Some(t) => {
            put_u8(out, 1);
            put_ts(out, t);
        },
        None => put_u8(out, 0),
    }
    assert(out@ =~= start + enc_opt(o, ts_e()));
}

pub fn get_opt_ts(b: &[u8], pos: usize) -> (r: Option<(Option<Timestamp>, usize)>)
    requires
        pos <= b@.len(),
    ensures
        r matches Some((_, end)) ==> pos <= end <= b@.len(),
        match p_opt(b@.skip(pos as int), ts_p()) {
            Some((v, n)) => r matches Some((x, end)) && x == v && end == pos + n,
            None => r is None,
        },
{
    let ghost s = b@.skip(pos as int);
    proof {
        lemma_u8();
    }
    match get_u8(b, pos) {
        Some((0, p1)) => Some((None, p1)),
        Some((1, p1)) => {
            proof {
                assert(s.skip(1) =~= b@.skip(p1 as int));
            }
            match get_ts(b, p1) {
                Some((t, p2)) => Some((Some(t), p2)),
                None => None,
            }
        },
        _ => None,
    }
}

pub fn put_opt_str(out: &mut Vec<u8>, o: &Option<String>)
    ensures
        final(out)@ == old(out)@ + enc_opt(opt_text_view(*o), str_e()),
        wf_opt(opt_text_view(*o), str_wf()),
{
    let ghost start = out@;
    match o {
        Some(t) => {
            put_u8(out, 1);
            put_str(out, t.as_str());
        },
        None => put_u8(out, 0),
    }
    assert(out@ =~= start + enc_opt(opt_text_view(*o), str_e()));
}

pub fn get_opt_str(b: &[u8], pos: usize) -> (r: Option<(Option<String>, usize)>)
    requires
        pos <= b@.len(),
    ensures
        r matches Some((_, end)) ==> pos <= end <= b@.len(),
        match p_opt(b@.skip(pos as int), str_p()) {
            Some((v, n)) => r matches Some((x, end)) && opt_text_view(x) == v && end == pos + n,
            None => r is None,
        },
{
    let ghost s = b@.skip(pos as int);
    proof {
        lemma_u8();
    }
    match get_u8(b, pos) {
        Some((0, p1)) => Some((None, p1)),
        Some((1, p1)) => {
            proof {
                assert(s.skip(1) =~= b@.skip(p1 as int));
            }
            match get_str(b, p1) {
                Some((t, p2)) => Some((Some(t), p2)),
                None => None,
            }
        },
        _ => None,
    }
}

pub fn put_opt_u32(out: &mut Vec<u8>, o: Option<u32>)
    ensures
        final(out)@ == old(out)@ + enc_opt(o, u32_e()),
        wf_opt(o, u32_wf()),
{
    let ghost start = out@;
    match o {
        Some(c) => {
            put_u8(out, 1);
            put_u32(out, c);
        },
        None => put_u8(out, 0),
    }
    assert(out@ =~= start + enc_opt(o, u32_e()));
}

pub fn get_opt_u32(b: &[u8], pos: usize) -> (r: Option<(Option<u32>, usize)>)
    requires
        pos <= b@.len(),
    ensures
        r matches Some((_, end)) ==> pos <= end <= b@.len(),
        match p_opt(b@.skip(pos as int), u32_p()) {
            Some((v, n)) => r matches Some((x, end)) && x == v && end == pos + n,
            None => r is None,
        },
{
    let ghost s = b@.skip(pos as int);
    proof {
        lemma_u8();
    }
    match get_u8(b, pos) {
        Some((0, p1)) => Some((None, p1)),
        Some((1, p1)) => {
            proof {
                assert(s.skip(1) =~= b@.skip(p1 as int));
            }
            match get_u32(b, p1) {
                Some((c, p2)) => Some((Some(c), p2)),
                None => None,
            }
        },
        _ => None,
    }
}

pub fn put_value(out: &mut Vec<u8>, v: &FieldValue)
    ensures
        final(out)@ == old(out)@ + enc_value(v@),
        wf_value(v@),
{
    let ghost start = out@;
    put_u32(out, v.kind().id() as u32);
    match v {
        FieldValue::Text(t) => put_str(out, t.as_str()),
        FieldValue::Url(t) => put_str(out, t.as_str()),
        FieldValue::Phone(t) => put_str(out, t.as_str()),
        FieldValue::Email(t) => put_str(out, t.as_str()),
        FieldValue::TOTPRFC6238(t) => put_str(out, t.as_str()),
        FieldValue::TOTPSteam(t) => put_str(out, t.as_str()),
        FieldValue::TwoFactorRecovery(c) => put_codes(out, c),
        FieldValue::Binary { mimetype, base64 } => {
            put_str(out, mimetype.as_str());
            put_str(out, base64.as_str());
        },
    }
    assert(out@ =~= start + enc_value(v@));
}

pub fn get_value(b: &[u8], pos: usize) -> (r: Option<(FieldValue, usize)>)
    requires
        pos <= b@.len(),
    ensures
        r matches Some((_, end)) ==> pos <= end <= b@.len(),
        match p_value(b@.skip(pos as int)) {
            Some((v, n)) => r matches Some((x, end)) && x@ == v && end == pos + n,
            None => r is None,
        },
{
    let ghost s = b@.skip(pos as int);
    reveal(p_value);
    let (id, p1) = match get_u32(b, pos) {
        Some(x) => x,
        None => return None,
    };
    proof {
        assert(s.skip(4) =~= b@.skip(p1 as int));
    }
    if id <= 5 {
        let (t, p2) = match get_str(b, p1) {
            Some(x) => x,
            None => return None,
        };
        let v = if id == 0 {
            FieldValue::Text(t)
        } else if id == 1 {
            FieldValue::Url(t)
        } else if id == 2 {
            FieldValue::Phone(t)
        } else if id == 3 {
            FieldValue::Email(t)
        } else if id == 4 {
            FieldValue::TOTPRFC6238(t)
        } else {
            FieldValue::TOTPSteam(t)
        };
        Some((v, p2))
    } else if id == 6 {
        let (c, p2) = match get_codes(b, p1) {
            Some(x) => x,
            None => return None,
        };
        Some((FieldValue::TwoFactorRecovery(c), p2))
    } else if id == 7 {
        let (mimetype, p2) = match get_str(b, p1) {
            Some(x) => x,
            None => return None,
        };
        proof {
            assert(s.skip((p2 - pos) as int) =~= b@.skip(p2 as int));
        }
        let (base64, p3) = match get_str(b, p2) {
            Some(x) => x,
            None => return None,
        };
        Some((FieldValue::Binary { mimetype, base64 }, p3))
    } else {
        None
    }
}

pub fn put_code(out: &mut Vec<u8>, x: &TwoFACode)
    ensures
        final(out)@ == old(out)@ + enc_code(x@),
        wf_code(x@),
{
    let ghost start = out@;
    put_str(out, x.value.as_str());
    put_opt_ts(out, x.expired);
    assert(out@ =~= start + enc_code(x@));
}

pub fn get_code(b: &[u8], pos: usize) -> (r: Option<(TwoFACode, usize)>)
    requires
        pos <= b@.len(),
    ensures
        r matches Some((_, end)) ==> pos <= end <= b@.len(),
        match p_code(b@.skip(pos as int)) {
            Some((v, n)) => r matches Some((x, end)) && x@ == v && end == pos + n,
            None => r is None,
        },
{
    let ghost s = b@.skip(pos as int);
    reveal(p_code);
    let (value, p1) = match get_str(b, pos) {
        Some(x) => x,
        None => return None,
    };
    proof {
        assert(s.skip((p1 - pos) as int) =~= b@.skip(p1 as int));
    }
    let (expired, p2) = match get_opt_ts(b, p1) {
        Some(x) => x,
        None => return None,
    };
    proof {
        assert(s.skip((p2 - pos) as int) =~= b@.skip(p2 as int));
    }
    Some((TwoFACode { value, expired }, p2))
}

pub fn put_field(out: &mut Vec<u8>, x: &Field)
    ensures
        final(out)@ == old(out)@ + enc_field(x@),
        wf_field(x@),
{
    let ghost start = out@;
    put_str(out, x.name.as_str());
    put_value(out, &x.value);
    put_bool(out, x.hidden);
    put_ts(out, x.date_added);
    put_ts(out, x.date_modified);
    put_ts(out, x.date_accessed);
    assert(out@ =~= start + enc_field(x@));
}

pub fn get_field(b: &[u8], pos: usize) -> (r: Option<(Field, usize)>)
    requires
        pos <= b@.len(),
    ensures
        r matches Some((_, end)) ==> pos <= end <= b@.len(),
        match p_field(b@.skip(pos as int)) {
            Some((v, n)) => r matches Some((x, end)) && x@ == v && end == pos + n,
            None => r is None,
        },
{
    let ghost s = b@.skip(pos as int);
    reveal(p_field);
    let (name, p1) = match get_str(b, pos) {
        Some(x) => x,
        None => return None,
    };
    proof {
        assert(s.skip((p1 - pos) as int) =~= b@.skip(p1 as int));
    }
    let (value, p2) = match get_value(b, p1) {
        Some(x) => x,
        None => return None,
    };
    proof {
        assert(s.skip((p2 - pos) as int) =~= b@.skip(p2 as int));
    }
    let (hidden, p3) = match get_bool(b, p2) {
        Some(x) => x,
        None => return None,
    };
    proof {
        assert(s.skip((p3 - pos) as int) =~= b@.skip(p3 as int));
    }
    let (date_added, p4) = match get_ts(b, p3) {
        Some(x) => x,
        None => return None,
    };
    proof {
        assert(s.skip((p4 - pos) as int) =~= b@.skip(p4 as int));
    }
    let (date_modified, p5) = match get_ts(b, p4) {
        Some(x) => x,
        None => return None,
    };
    proof {
        assert(s.skip((p5 - pos) as int) =~= b@.skip(p5 as int));
    }
    let (date_accessed, p6) = match get_ts(b, p5) {
        Some(x) => x,
        None => return None,
    };
    proof {
        assert(s.skip((p6 - pos) as int) =~= b@.skip(p6 as int));
    }
    Some((Field { name, value, hidden, date_added, date_modified, date_accessed }, p6))
}

pub fn put_tag(out: &mut Vec<u8>, x: &EntryTag)
    ensures
        final(out)@ == old(out)@ + enc_tag(x@),
        wf_tag(x@),
{
    let ghost start = out@;
    put_str(out, x.name.as_str());
    put_opt_str(out, &x.icon);
    put_opt_u32(out, x.color);
    assert(out@ =~= start + enc_tag(x@));
}

pub fn get_tag(b: &[u8], pos: usize) -> (r: Option<(EntryTag, usize)>)
    requires
        pos <= b@.len(),
    ensures
        r matches Some((_, end)) ==> pos <= end <= b@.len(),
        match p_tag(b@.skip(pos as int)) {
            Some((v, n)) => r matches Some((x, end)) && x@ == v && end == pos + n,
            None => r is None,
        },
{
    let ghost s = b@.skip(pos as int);
    reveal(p_tag);
    let (name, p1) = match get_str(b, pos) {
        Some(x) => x,
        None => return None,
    };
    proof {
        assert(s.skip((p1 - pos) as int) =~= b@.skip(p1 as int));
    }
    let (icon, p2) = match get_opt_str(b, p1) {
        Some(x) => x,
        None => return None,
    };
    proof {
        assert(s.skip((p2 - pos) as int) =~= b@.skip(p2 as int));
    }
    let (color, p3) = match get_opt_u32(b, p2) {
        Some(x) => x,
        None => return None,
    };
    proof {
        assert(s.skip((p3 - pos) as int) =~= b@.skip(p3 as int));
    }
    Some((EntryTag { name, icon, color }, p3))
}

pub fn put_entry(out: &mut Vec<u8>, x: &Entry)
    ensures
        final(out)@ == old(out)@ + enc_entry(x@),
        wf_entry(x@),
{
    let ghost start = out@;
    put_str(out, x.name.as_str());
    put_fields(out, &x.fields);
    put_tags(out, &x.tags);
    put_ts(out, x.created_at);
    put_ts(out, x.modified_at);
    put_ts(out, x.accessed_at);
    assert(out@ =~= start + enc_entry(x@));
}

pub fn get_entry(b: &[u8], pos: usize) -> (r: Option<(Entry, usize)>)
    requires
        pos <= b@.len(),
    ensures
        r matches Some((_, end)) ==> pos <= end <= b@.len(),
        match p_entry(b@.skip(pos as int)) {
            Some((v, n)) => r matches Some((x, end)) && x@ == v && end == pos + n,
            None => r is None,
        },
{
    let ghost s = b@.skip(pos as int);
    reveal(p_entry);
    let (name, p1) = match get_str(b, pos) {
        Some(x) => x,
        None => return None,
    };
    proof {
        assert(s.skip((p1 - pos) as int) =~= b@.skip(p1 as int));
    }
    let (fields, p2) = match get_fields(b, p1) {
        Some(x) => x,
        None => return None,
    };
    proof {
        assert(s.skip((p2 - pos) as int) =~= b@.skip(p2 as int));
    }
    let (tags, p3) = match get_tags(b, p2) {
        Some(x) => x,
        None => return None,
    };
    proof {
        assert(s.skip((p3 - pos) as int) =~= b@.skip(p3 as int));
    }
    let (created_at, p4) = match get_ts(b, p3) {
        Some(x) => x,
        None => return None,
    };
    proof {
        assert(s.skip((p4 - pos) as int) =~= b@.skip(p4 as int));
    }
    let (modified_at, p5) = match get_ts(b, p4) {
        Some(x) => x,
        None => return None,
    };
    proof {
        assert(s.skip((p5 - pos) as int) =~= b@.skip(p5 as int));
    }
    let (accessed_at, p6) = match get_ts(b, p5) {
        Some(x) => x,
        None => return None,
    };
    proof {
        assert(s.skip((p6 - pos) as int) =~= b@.skip(p6 as int));
    }
    Some((Entry { name, fields, tags, created_at, modified_at, accessed_at }, p6))
}

pub fn put_data(out: &mut Vec<u8>, x: &Data)
    ensures
        final(out)@ == old(out)@ + enc_data(x@),
        wf_data(x@),
{
    let ghost start = out@;
    put_u64(out, x.iteration);
    put_entries(out, &x.entries);
    put_ts(out, x.created_at);
    put_ts(out, x.modified_at);
    assert(out@ =~= start + enc_data(x@));
}

pub fn get_data(b: &[u8], pos: usize) -> (r: Option<(Data, usize)>)
    requires
        pos <= b@.len(),
    ensures
        r matches Some((_, end)) ==> pos <= end <= b@.len(),
        match p_data(b@.skip(pos as int)) {
            Some((v, n)) => r matches Some((x, end)) && x@ == v && end == pos + n,
            None => r is None,
        },
{
    let ghost s = b@.skip(pos as int);
    reveal(p_data);
    let (iteration, p1) = match get_u64(b, pos) {
        Some(x) => x,
        None => return None,
    };
    proof {
        assert(s.skip((p1 - pos) as int) =~= b@.skip(p1 as int));
    }
    let (entries, p2) = match get_entries(b, p1) {
        Some(x) => x,
        None => return None,
    };
    proof {
        assert(s.skip((p2 - pos) as int) =~= b@.skip(p2 as int));
    }
    let (created_at, p3) = match get_ts(b, p2) {
        Some(x) => x,
        None => return None,
    };
    proof {
        assert(s.skip((p3 - pos) as int) =~= b@.skip(p3 as int));
    }
    let (modified_at, p4) = match get_ts(b, p3) {
        Some(x) => x,
        None => return None,
    };
    proof {
        assert(s.skip((p4 - pos) as int) =~= b@.skip(p4 as int));
    }
    Some((Data { iteration, entries, created_at, modified_at }, p4))
}

pub fn put_codes(out: &mut Vec<u8>, v: &Vec<TwoFACode>)
    ensures
        final(out)@ == old(out)@ + enc_list(codes_view(v@), code_e()),
        wf_list(codes_view(v@), code_wf()),
{
    let ghost start = out@;
    put_u64(out, v.len() as u64);
    let ghost mid = out@;
    let mut i: usize = 0;
    while i < v.len()
        invariant
            i <= v@.len(),
            mid == start + enc_u64(v@.len() as u64),
            out@ == mid + enc_items(codes_view(v@).take(i as int), code_e()),
            forall|j: int| 0 <= j < i ==> #[trigger] code_wf()(codes_view(v@)[j]),
        decreases v@.len() - i,
    {
        put_code(out, &v[i]);
        proof {
            lemma_items_push(codes_view(v@).take(i as int), v@[i as int]@, code_e());
            assert(codes_view(v@).take(i + 1) =~= codes_view(v@).take(i as int).push(v@[i as int]@));
        }
        i = i + 1;
    }
    proof {
        assert(codes_view(v@).take(i as int) =~= codes_view(v@));
    }
    assert(out@ =~= start + enc_list(codes_view(v@), code_e()));
}

pub fn get_codes(b: &[u8], pos: usize) -> (r: Option<(Vec<TwoFACode>, usize)>)
    requires
        pos <= b@.len(),
    ensures
        r matches Some((_, end)) ==> pos <= end <= b@.len(),
        match p_list(b@.skip(pos as int), code_p()) {
            Some((v, n)) => r matches Some((x, end)) && codes_view(x@) == v && end == pos + n,
            None => r is None,
        },
{
    let (count, start) = match get_u64(b, pos) {
        Some(x) => x,
        None => return None,
    };
    proof {
        assert(b@.skip(pos as int).skip(8) =~= b@.skip(start as int));
        assert(codes_view(Seq::<TwoFACode>::empty()) =~= Seq::empty());
    }
    let mut acc: Vec<TwoFACode> = Vec::new();
    let mut p: usize = start;
    let mut i: u64 = 0;
    while i < count
        invariant
            start == pos + 8,
            start <= p <= b@.len(),
            i <= count,
            p_list(b@.skip(pos as int), code_p()) == match p_items(
                b@.skip(p as int),
                (count - i) as nat,
                code_p(),
            ) {
                Some((vs, m)) => Some((codes_view(acc@) + vs, (p - pos) + m)),
                None => None,
            },
        decreases count - i,
    {
        let ghost s = b@.skip(p as int);
        let ghost before = codes_view(acc@);
        match get_code(b, p) {
            Some((x, np)) => {
                proof {
                    assert(s.skip((np - p) as int) =~= b@.skip(np as int));
                }
                acc.push(x);
                proof {
                    assert(codes_view(acc@) =~= before.push(x@));
                    match p_items(b@.skip(np as int), (count - i - 1) as nat, code_p()) {
                        Some((vs, m)) => {
                            assert(before + (seq![x@] + vs) =~= codes_view(acc@) + vs);
                        },
                        None => {},
                    }
                }
                p = np;
                i = i + 1;
            },
            None => {
                return None;
            },
        }
    }
    proof {
        assert(codes_view(acc@) + Seq::empty() =~= codes_view(acc@));
    }
    Some((acc, p))
}

pub fn put_fields(out: &mut Vec<u8>, v: &Vec<Field>)
    ensures
        final(out)@ == old(out)@ + enc_list(fields_view(v@), field_e()),
        wf_list(fields_view(v@), field_wf()),
{
    let ghost start = out@;
    put_u64(out, v.len() as u64);
    let ghost mid = out@;
    let mut i: usize = 0;
    while i < v.len()
        invariant
            i <= v@.len(),
            mid == start + enc_u64(v@.len() as u64),
            out@ == mid + enc_items(fields_view(v@).take(i as int), field_e()),
            forall|j: int| 0 <= j < i ==> #[trigger] field_wf()(fields_view(v@)[j]),
        decreases v@.len() - i,
    {
        put_field(out, &v[i]);
        proof {
            lemma_items_push(fields_view(v@).take(i as int), v@[i as int]@, field_e());
            assert(fields_view(v@).take(i + 1) =~= fields_view(v@).take(i as int).push(v@[i as int]@));
        }
        i = i + 1;
    }
    proof {
        assert(fields_view(v@).take(i as int) =~= fields_view(v@));
    }
    assert(out@ =~= start + enc_list(fields_view(v@), field_e()));
}

pub fn get_fields(b: &[u8], pos: usize) -> (r: Option<(Vec<Field>, usize)>)
    requires
        pos <= b@.len(),
    ensures
        r matches Some((_, end)) ==> pos <= end <= b@.len(),
        match p_list(b@.skip(pos as int), field_p()) {
            Some((v, n)) => r matches Some((x, end)) && fields_view(x@) == v && end == pos + n,
            None => r is None,
        },
{
    let (count, start) = match get_u64(b, pos) {
        Some(x) => x,
        None => return None,
    };
    proof {
        assert(b@.skip(pos as int).skip(8) =~= b@.skip(start as int));
        assert(fields_view(Seq::<Field>::empty()) =~= Seq::empty());
    }
    let mut acc: Vec<Field> = Vec::new();
    let mut p: usize = start;
    let mut i: u64 = 0;
    while i < count
        invariant
            start == pos + 8,
            start <= p <= b@.len(),
            i <= count,
            p_list(b@.skip(pos as int), field_p()) == match p_items(
                b@.skip(p as int),
                (count - i) as nat,
                field_p(),
            ) {
                Some((vs, m)) => Some((fields_view(acc@) + vs, (p - pos) + m)),
                None => None,
            },
        decreases count - i,
    {
        let ghost s = b@.skip(p as int);
        let ghost before = fields_view(acc@);
        match get_field(b, p) {
            Some((x, np)) => {
                proof {
                    assert(s.skip((np - p) as int) =~= b@.skip(np as int));
                }
                acc.push(x);
                proof {
                    assert(fields_view(acc@) =~= before.push(x@));
                    match p_items(b@.skip(np as int), (count - i - 1) as nat, field_p()) {
                        Some((vs, m)) => {
                            assert(before + (seq![x@] + vs) =~= fields_view(acc@) + vs);
                        },
                        None => {},
                    }
                }
                p = np;
                i = i + 1;
            },
            None => {
                return None;
            },
        }
    }
    proof {
        assert(fields_view(acc@) + Seq::empty() =~= fields_view(acc@));
    }
    Some((acc, p))
}

pub fn put_tags(out: &mut Vec<u8>, v: &Vec<EntryTag>)
    ensures
        final(out)@ == old(out)@ + enc_list(tags_view(v@), tag_e()),
        wf_list(tags_view(v@), tag_wf()),
{
    let ghost start = out@;
    put_u64(out, v.len() as u64);
    let ghost mid = out@;
    let mut i: usize = 0;
    while i < v.len()
        invariant
            i <= v@.len(),
            mid == start + enc_u64(v@.len() as u64),
            out@ == mid + enc_items(tags_view(v@).take(i as int), tag_e()),
            forall|j: int| 0 <= j < i ==> #[trigger] tag_wf()(tags_view(v@)[j]),
        decreases v@.len() - i,
    {
        put_tag(out, &v[i]);
        proof {
            lemma_items_push(tags_view(v@).take(i as int), v@[i as int]@, tag_e());
            assert(tags_view(v@).take(i + 1) =~= tags_view(v@).take(i as int).push(v@[i as int]@));
        }
        i = i + 1;
    }
    proof {
        assert(tags_view(v@).take(i as int) =~= tags_view(v@));
    }
    assert(out@ =~= start + enc_list(tags_view(v@), tag_e()));
}

pub fn get_tags(b: &[u8], pos: usize) -> (r: Option<(Vec<EntryTag>, usize)>)
    requires
        pos <= b@.len(),
    ensures
        r matches Some((_, end)) ==> pos <= end <= b@.len(),
        match p_list(b@.skip(pos as int), tag_p()) {
            Some((v, n)) => r matches Some((x, end)) && tags_view(x@) == v && end == pos + n,
            None => r is None,
        },
{
    let (count, start) = match get_u64(b, pos) {
        Some(x) => x,
        None => return None,
    };
    proof {
        assert(b@.skip(pos as int).skip(8) =~= b@.skip(start as int));
        assert(tags_view(Seq::<EntryTag>::empty()) =~= Seq::empty());
    }
    let mut acc: Vec<EntryTag> = Vec::new();
    let mut p: usize = start;
    let mut i: u64 = 0;
    while i < count
        invariant
            start == pos + 8,
            start <= p <= b@.len(),
            i <= count,
            p_list(b@.skip(pos as int), tag_p()) == match p_items(
                b@.skip(p as int),
                (count - i) as nat,
                tag_p(),
            ) {
                Some((vs, m)) => Some((tags_view(acc@) + vs, (p - pos) + m)),
                None => None,
            },
        decreases count - i,
    {
        let ghost s = b@.skip(p as int);
        let ghost before = tags_view(acc@);
        match get_tag(b, p) {
            Some((x, np)) => {
                proof {
                    assert(s.skip((np - p) as int) =~= b@.skip(np as int));
                }
                acc.push(x);
                proof {
                    assert(tags_view(acc@) =~= before.push(x@));
                    match p_items(b@.skip(np as int), (count - i - 1) as nat, tag_p()) {
                        Some((vs, m)) => {
                            assert(before + (seq![x@] + vs) =~= tags_view(acc@) + vs);
                        },
                        None => {},
                    }
                }
                p = np;
                i = i + 1;
            },
            None => {
                return None;
            },
        }
    }
    proof {
        assert(tags_view(acc@) + Seq::empty() =~= tags_view(acc@));
    }
    Some((acc, p))
}

pub fn put_entries(out: &mut Vec<u8>, v: &Vec<Entry>)
    ensures
        final(out)@ == old(out)@ + enc_list(entries_view(v@), entry_e()),
        wf_list(entries_view(v@), entry_wf()),
{
    let ghost start = out@;
    put_u64(out, v.len() as u64);
    let ghost mid = out@;
    let mut i: usize = 0;
    while i < v.len()
        invariant
            i <= v@.len(),
            mid == start + enc_u64(v@.len() as u64),
            out@ == mid + enc_items(entries_view(v@).take(i as int), entry_e()),
            forall|j: int| 0 <= j < i ==> #[trigger] entry_wf()(entries_view(v@)[j]),
        decreases v@.len() - i,
    {
        put_entry(out, &v[i]);
        proof {
            lemma_items_push(entries_view(v@).take(i as int), v@[i as int]@, entry_e());
            assert(entries_view(v@).take(i + 1) =~= entries_view(v@).take(i as int).push(v@[i as int]@));
        }
        i = i + 1;
    }
    proof {
        assert(entries_view(v@).take(i as int) =~= entries_view(v@));
    }
    assert(out@ =~= start + enc_list(entries_view(v@), entry_e()));
}

pub fn get_entries(b: &[u8], pos: usize) -> (r: Option<(Vec<Entry>, usize)>)
    requires
        pos <= b@.len(),
    ensures
        r matches Some((_, end)) ==> pos <= end <= b@.len(),
        match p_list(b@.skip(pos as int), entry_p()) {
            Some((v, n)) => r matches Some((x, end)) && entries_view(x@) == v && end == pos + n,
            None => r is None,
        },
{
    let (count, start) = match get_u64(b, pos) {
        Some(x) => x,
        None => return None,
    };
    proof {
        assert(b@.skip(pos as int).skip(8) =~= b@.skip(start as int));
        assert(entries_view(Seq::<Entry>::empty()) =~= Seq::empty());
    }
    let mut acc: Vec<Entry> = Vec::new();
    let mut p: usize = start;
    let mut i: u64 = 0;
    while i < count
        invariant
            start == pos + 8,
            start <= p <= b@.len(),
            i <= count,
            p_list(b@.skip(pos as int), entry_p()) == match p_items(
                b@.skip(p as int),
                (count - i) as nat,
                entry_p(),
            ) {
                Some((vs, m)) => Some((entries_view(acc@) + vs, (p - pos) + m)),
                None => None,
            },
        decreases count - i,
    {
        let ghost s = b@.skip(p as int);
        let ghost before = entries_view(acc@);
        match get_entry(b, p) {
            Some((x, np)) => {
                proof {
                    assert(s.skip((np - p) as int) =~= b@.skip(np as int));
                }
                acc.push(x);
                proof {
                    assert(entries_view(acc@) =~= before.push(x@));
                    match p_items(b@.skip(np as int), (count - i - 1) as nat, entry_p()) {
                        Some((vs, m)) => {
                            assert(before + (seq![x@] + vs) =~= entries_view(acc@) + vs);
                        },
                        None => {},
                    }
                }
                p = np;
                i = i + 1;
            },
            None => {
                return None;
            },
        }
    }
    proof {
        assert(entries_view(acc@) + Seq::empty() =~= entries_view(acc@));
    }
    Some((acc, p))
}

// ---------------------------------------------------------------- the record

/// What a byte string decodes to: the record it encodes, if it is exactly
/// the encoding of one.
pub open spec fn decoded_record(b: Seq<u8>) -> Option<DataView> {
    match p_data(b) {
        Some((d, n)) => if n == b.len() {
            Some(d)
        } else {
            None
        },
        None => None,
    }
}

/// Decoding the encoding of a record gives that record back.
pub proof fn lemma_record_round_trip(d: DataView)
    requires
        wf_data(d),
    ensures
        decoded_record(enc_data(d)) == Some(d),
{
    lemma_data();
    assert(enc_data(d) + Seq::<u8>::empty() =~= enc_data(d));
    assert(p_data(enc_data(d) + Seq::<u8>::empty()) == Some((d, enc_data(d).len() as int)));
}

/// A byte string that decodes is the encoding of what it decodes to, so
/// re-encoding a decoded record reproduces the input byte for byte.
pub proof fn lemma_record_canonical(b: Seq<u8>)
    ensures
        decoded_record(b) matches Some(d) ==> enc_data(d) == b && wf_data(d),
{
    lemma_data();
    if let Some((d, n)) = p_data(b) {
        assert(b.take(b.len() as int) =~= b);
    }
}

/// The canonical encoding of a record.
pub fn encode_data(d: &Data) -> (r: Vec<u8>)
    ensures
        r@ == enc_data(d@),
        wf_data(d@),
{
    let mut out: Vec<u8> = Vec::new();
    put_data(&mut out, d);
    assert(out@ =~= enc_data(d@));
    out
}

/// Decodes a record; fails with `CorruptRecord` exactly when the bytes are
/// not the encoding of a record (truncated, trailing bytes, an unknown
/// discriminant, a length past the end, text that is not UTF-8).
pub fn decode_data(b: &[u8]) -> (r: Result<Data, VaultError>)
    ensures
        match decoded_record(b@) {
            Some(d) => r matches Ok(x) && x@ == d,
            None => r == Err::<Data, VaultError>(VaultError::CorruptRecord),
        },
{
    proof {
        assert(b@.skip(0) =~= b@);
    }
    match get_data(b, 0) {
        Some((d, end)) => if end == b.len() {
            Ok(d)
        } else {
            Err(VaultError::CorruptRecord)
        },
        None => Err(VaultError::CorruptRecord),
    }
}

} // verus!
