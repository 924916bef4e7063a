//! The plaintext record held inside a vault: entries, their fields and
//! tags, and the instants attached to each, with a mathematical view of
//! every type.

use vstd::prelude::*;

verus! {

/// An instant in UTC, as nanoseconds since the Unix epoch.
#[derive(Debug, Clone, Copy, PartialEq, Eq, Structural)]
pub struct Timestamp {
    pub nanos: i64,
}

/// One two-factor recovery code, with the instant it stops being valid.
#[derive(Debug, Clone, PartialEq, Eq)]
pub struct TwoFACode {
    pub value: String,
    pub expired: Option<Timestamp>,
}

pub struct TwoFACodeView {
    pub value: Seq<char>,
    pub expired: Option<Timestamp>,
}

impl View for TwoFACode {
    type V = TwoFACodeView;

    open spec fn view(&self) -> TwoFACodeView {
        TwoFACodeView { value: self.value@, expired: self.expired }
    }
}

/// The value held by a field: a closed set of kinds.
#[derive(Debug, Clone, PartialEq, Eq)]
pub enum FieldValue {
    Text(String),
    Url(String),
    Phone(String),
    Email(String),
    /// TOTP as in RFC 6238.
    TOTPRFC6238(String),
    /// TOTP in Steam's flavour.
    TOTPSteam(String),
    /// Two-factor recovery codes.
    TwoFactorRecovery(Vec<TwoFACode>),
    /// An opaque blob.
    Binary { mimetype: String, base64: String },
}

pub enum FieldValueView {
    Text(Seq<char>),
    Url(Seq<char>),
    Phone(Seq<char>),
    Email(Seq<char>),
    TOTPRFC6238(Seq<char>),
    TOTPSteam(Seq<char>),
    TwoFactorRecovery(Seq<TwoFACodeView>),
    Binary { mimetype: Seq<char>, base64: Seq<char> },
}

pub open spec fn codes_view(codes: Seq<TwoFACode>) -> Seq<TwoFACodeView> {
    codes.map_values(|c: TwoFACode| c@)
}

impl View for FieldValue {
    type V = FieldValueView;

    open spec fn view(&self) -> FieldValueView {
        match self {
            FieldValue::Text(t) => FieldValueView::Text(t@),
            FieldValue::Url(t) => FieldValueView::Url(t@),
            FieldValue::Phone(t) => FieldValueView::Phone(t@),
            FieldValue::Email(t) => FieldValueView::Email(t@),
            FieldValue::TOTPRFC6238(t) => FieldValueView::TOTPRFC6238(t@),
            FieldValue::TOTPSteam(t) => FieldValueView::TOTPSteam(t@),
            FieldValue::TwoFactorRecovery(c) => FieldValueView::TwoFactorRecovery(codes_view(c@)),
            FieldValue::Binary { mimetype, base64 } => FieldValueView::Binary {
                mimetype: mimetype@,
                base64: base64@,
            },
        }
    }
}

/// A named value of an entry.
#[derive(Debug, Clone)]
pub struct Field {
    /// Field name.
    pub name: String,
    /// Field value.
    pub value: FieldValue,
    /// Hidden from previews (a display hint; stored like any other data).
    pub hidden: bool,
    pub date_added: Timestamp,
    pub date_modified: Timestamp,
    pub date_accessed: Timestamp,
}

pub struct FieldView {
    pub name: Seq<char>,
    pub value: FieldValueView,
    pub hidden: bool,
    pub date_added: Timestamp,
    pub date_modified: Timestamp,
    pub date_accessed: Timestamp,
}

impl View for Field {
    type V = FieldView;

    open spec fn view(&self) -> FieldView {
        FieldView {
            name: self.name@,
            value: self.value@,
            hidden: self.hidden,
            date_added: self.date_added,
            date_modified: self.date_modified,
            date_accessed: self.date_accessed,
        }
    }
}

pub open spec fn opt_text_view(o: Option<String>) -> Option<Seq<char>> {
    match o {
        Some(t) => Some(t@),
        None => None,
    }
}

/// A label attached to an entry, with an optional icon and colour.
#[derive(Debug, Clone)]
pub struct EntryTag {
    pub name: String,
    pub icon: Option<String>,
    pub color: Option<u32>,
}

pub struct EntryTagView {
    pub name: Seq<char>,
    pub icon: Option<Seq<char>>,
    pub color: Option<u32>,
}

impl View for EntryTag {
    type V = EntryTagView;

    open spec fn view(&self) -> EntryTagView {
        EntryTagView {
            name: self.name@,
            icon: opt_text_view(self.icon),
            color: self.color,
        }
    }
}

/// A named credential: an ordered list of fields and of tags.
#[derive(Debug, Clone)]
pub struct Entry {
    pub name: String,
    pub fields: Vec<Field>,
    pub tags: Vec<EntryTag>,
    pub created_at: Timestamp,
    pub modified_at: Timestamp,
    pub accessed_at: Timestamp,
}

pub struct EntryView {
    pub name: Seq<char>,
    pub fields: Seq<FieldView>,
    pub tags: Seq<EntryTagView>,
    pub created_at: Timestamp,
    pub modified_at: Timestamp,
    pub accessed_at: Timestamp,
}

pub open spec fn fields_view(fields: Seq<Field>) -> Seq<FieldView> {
    fields.map_values(|f: Field| f@)
}

pub open spec fn tags_view(tags: Seq<EntryTag>) -> Seq<EntryTagView> {
    tags.map_values(|t: EntryTag| t@)
}

impl View for Entry {
    type V = EntryView;

    open spec fn view(&self) -> EntryView {
        EntryView {
            name: self.name@,
            fields: fields_view(self.fields@),
            tags: tags_view(self.tags@),
            created_at: self.created_at,
            modified_at: self.modified_at,
            accessed_at: self.accessed_at,
        }
    }
}

/// The whole plaintext record of a vault.
#[derive(Debug, Clone)]
pub struct Data {
    /// Number of successful saves so far.
    pub iteration: u64,
    pub entries: Vec<Entry>,
    pub created_at: Timestamp,
    pub modified_at: Timestamp,
}

pub struct DataView {
    pub iteration: u64,
    pub entries: Seq<EntryView>,
    pub created_at: Timestamp,
    pub modified_at: Timestamp,
}

pub open spec fn entries_view(entries: Seq<Entry>) -> Seq<EntryView> {
    entries.map_values(|e: Entry| e@)
}

impl View for Data {
    type V = DataView;

    open spec fn view(&self) -> DataView {
        DataView {
            iteration: self.iteration,
            entries: entries_view(self.entries@),
            created_at: self.created_at,
            modified_at: self.modified_at,
        }
    }
}

impl Data {
    /// An empty record created at `now`.
    pub fn empty(now: Timestamp) -> (r: Data)
        ensures
            r@.iteration == 0,
            r@.entries.len() == 0,
            r@.created_at == now,
            r@.modified_at == now,
    {
        Data { iteration: 0, entries: Vec::new(), created_at: now, modified_at: now }
    }
}

/// The kind of a field value, without its payload. Its id is the
/// discriminant that the record codec writes.
#[derive(Debug, Clone, Copy, PartialEq, Eq, Structural)]
pub enum FieldValueKind {
    Text,
    Url,
    Phone,
    Mail,
    TOTPRFC6238,
    TOTPSteam,
    TwoFactorRecovery,
    Binary,
}

pub open spec fn kind_id(k: FieldValueKind) -> int {
    match k {
        FieldValueKind::Text => 0,
        FieldValueKind::Url => 1,
        FieldValueKind::Phone => 2,
        FieldValueKind::Mail => 3,
        FieldValueKind::TOTPRFC6238 => 4,
        FieldValueKind::TOTPSteam => 5,
        FieldValueKind::TwoFactorRecovery => 6,
        FieldValueKind::Binary => 7,
    }
}

pub open spec fn kind_of(v: FieldValueView) -> FieldValueKind {
    match v {
        FieldValueView::Text(_) => FieldValueKind::Text,
        FieldValueView::Url(_) => FieldValueKind::Url,
        FieldValueView::Phone(_) => FieldValueKind::Phone,
        FieldValueView::Email(_) => FieldValueKind::Mail,
        FieldValueView::TOTPRFC6238(_) => FieldValueKind::TOTPRFC6238,
        FieldValueView::TOTPSteam(_) => FieldValueKind::TOTPSteam,
        FieldValueView::TwoFactorRecovery(_) => FieldValueKind::TwoFactorRecovery,
        FieldValueView::Binary { .. } => FieldValueKind::Binary,
    }
}

impl FieldValueKind {
    /// The kind's position in the list of kinds, 0 to 7.
    pub fn id(&self) -> (r: usize)
        ensures
            r as int == kind_id(*self),
    {
        match self {
            FieldValueKind::Text => 0,
            FieldValueKind::Url => 1,
            FieldValueKind::Phone => 2,
            FieldValueKind::Mail => 3,
            FieldValueKind::TOTPRFC6238 => 4,
            FieldValueKind::TOTPSteam => 5,
            FieldValueKind::TwoFactorRecovery => 6,
            FieldValueKind::Binary => 7,
        }
    }

    /// The kind with the given position, if there is one.
    pub fn try_from_id(id: usize) -> (r: Option<FieldValueKind>)
        ensures
            r is Some <==> id < 8,
            r matches Some(k) ==> kind_id(k) == id,
    {
        match id {
            0 => Some(FieldValueKind::Text),
            1 => Some(FieldValueKind::Url),
            2 => Some(FieldValueKind::Phone),
            3 => Some(FieldValueKind::Mail),
            4 => Some(FieldValueKind::TOTPRFC6238),
            5 => Some(FieldValueKind::TOTPSteam),
            6 => Some(FieldValueKind::TwoFactorRecovery),
            7 => Some(FieldValueKind::Binary),
            _ => None,
        }
    }

    /// The label shown for the kind.
    pub fn name(&self) -> (r: &'static str)
        ensures
            r@ == kind_name(*self),
    {
        match self {
            FieldValueKind::Text => "Text",
            FieldValueKind::Url => "URL",
            FieldValueKind::Phone => "Phone",
            FieldValueKind::Mail => "E-Mail",
            FieldValueKind::TOTPRFC6238 => "TOTP (RFC-6238)",
            FieldValueKind::TOTPSteam => "TOTP (Steam)",
            FieldValueKind::TwoFactorRecovery => "2FA Recovery",
            FieldValueKind::Binary => "Binary",
        }
    }
}

pub open spec fn kind_name(k: FieldValueKind) -> Seq<char> {
    match k {
        FieldValueKind::Text => "Text"@,
        FieldValueKind::Url => "URL"@,
        FieldValueKind::Phone => "Phone"@,
        FieldValueKind::Mail => "E-Mail"@,
        FieldValueKind::TOTPRFC6238 => "TOTP (RFC-6238)"@,
        FieldValueKind::TOTPSteam => "TOTP (Steam)"@,
        FieldValueKind::TwoFactorRecovery => "2FA Recovery"@,
        FieldValueKind::Binary => "Binary"@,
    }
}

impl FieldValue {
    /// The kind of this value.
    pub fn kind(&self) -> (r: FieldValueKind)
        ensures
            r == kind_of(self@),
    {
        match self {
            FieldValue::Text(_) => FieldValueKind::Text,
            FieldValue::Url(_) => FieldValueKind::Url,
            FieldValue::Phone(_) => FieldValueKind::Phone,
            FieldValue::Email(_) => FieldValueKind::Mail,
            FieldValue::TOTPRFC6238(_) => FieldValueKind::TOTPRFC6238,
            FieldValue::TOTPSteam(_) => FieldValueKind::TOTPSteam,
            FieldValue::TwoFactorRecovery(_) => FieldValueKind::TwoFactorRecovery,
            FieldValue::Binary { .. } => FieldValueKind::Binary,
        }
    }
}

} // verus!
