use vstd::prelude::*;

verus! {

/// An ASCII decimal digit.
pub open spec fn is_digit(c: char) -> bool {
    '0' <= c && c <= '9'
}

/// A UTC time written as `YYYY-MM-DDTHH:MM:SSZ`: the fields after the year are
/// two digits each, at fixed places from the end; the year is digits, with a
/// leading `+` past 9999.
pub open spec fn is_utc_stamp(s: Seq<char>) -> bool {
    let n = s.len() as int;
    &&& n >= 20
    &&& s[n - 1] == 'Z'
    &&& s[n - 4] == ':'
    &&& s[n - 7] == ':'
    &&& s[n - 10] == 'T'
    &&& s[n - 13] == '-'
    &&& s[n - 16] == '-'
    &&& forall|i: int|
        #![trigger s[i]]
        n - 16 < i < n - 1 && i != n - 4 && i != n - 7 && i != n - 10 && i != n - 13 ==> is_digit(
            s[i],
        )
    &&& is_digit(s[0]) || s[0] == '+'
    &&& forall|i: int| #![trigger s[i]] 0 < i < n - 16 ==> is_digit(s[i])
}

/// Relies on `chrono::Utc::now` and `format("%Y-%m-%dT%H:%M:%SZ")`: the current
/// UTC time in that layout. The time itself depends on the clock; the layout
/// is fixed by chrono's formatting of each field (a year from 1970 on is four
/// digits, or `+` and more digits past 9999; the other fields are two digits).
#[verifier::external_body]
fn utc_timestamp() -> (r: String)
    ensures
        is_utc_stamp(r@),
{
    chrono::Utc::now().format("%Y-%m-%dT%H:%M:%SZ").to_string()
}

/// The schema version of the ledger.
pub const LEDGER_VERSION: u8 = 1;

/// The category of an anchor when none is given.
pub open spec fn default_kind_text() -> Seq<char> {
    "line"@
}

/// The status of every anchor when it is created.
pub open spec fn active_status() -> Seq<char> {
    "active"@
}

/// One inserted marker and where it was put.
#[derive(Clone, Debug)]
pub struct AnchorEntry {
    pub key: String,
    pub path: String,
    /// The line (counted from 1) that the marker now occupies.
    pub line: usize,
    pub kind: String,
    pub description: String,
    pub status: String,
    pub created: String,
}

/// The ledger: a schema version, the time of its last change, and the anchors
/// in the order in which they were dropped.
#[derive(Clone, Debug)]
pub struct AnchorsRecord {
    pub version: u8,
    pub generated: String,
    pub anchors: Vec<AnchorEntry>,
}

/// Whether an entry records exactly these inputs as a new, active anchor.
pub open spec fn entry_matches(
    e: AnchorEntry,
    key: Seq<char>,
    path: Seq<char>,
    line: usize,
    kind: Seq<char>,
    description: Seq<char>,
) -> bool {
    &&& e.key@ == key
    &&& e.path@ == path
    &&& e.line == line
    &&& e.kind@ == kind
    &&& e.description@ == description
    &&& e.status@ == active_status()
}

/// The category to record: the one given, or `line`.
pub open spec fn kind_or_default(kind: Option<Seq<char>>) -> Seq<char> {
    match kind {
        Some(k) => k,
        None => default_kind_text(),
    }
}

/// The category to record: the one given, or `line`.
pub fn default_kind(kind: Option<String>) -> (r: String)
    ensures
        r@ == kind_or_default(
            match kind {
                Some(k) => Some(k@),
                None => None,
            },
        ),
{
    match kind {
        Some(k) => k,
        None => String::from_str("line"),
    }
}

impl AnchorEntry {
    /// A new active entry created at the time `created`.
    pub fn new(
        key: String,
        path: String,
        line: usize,
        kind: String,
        description: String,
        created: String,
    ) -> (r: AnchorEntry)
        ensures
            entry_matches(r, key@, path@, line, kind@, description@),
            r.created == created,
    {
        AnchorEntry {
            key,
            path,
            line,
            kind,
            description,
            status: String::from_str("active"),
            created,
        }
    }
}

impl AnchorsRecord {
    /// An empty ledger of the current version, generated at `generated`.
    pub fn new_at(generated: String) -> (r: AnchorsRecord)
        ensures
            r.version == LEDGER_VERSION,
            r.generated == generated,
            r.anchors@.len() == 0,
    {
        AnchorsRecord { version: LEDGER_VERSION, generated, anchors: Vec::new() }
    }

    /// An empty ledger of the current version, generated now.
    pub fn new() -> (r: AnchorsRecord)
        ensures
            r.version == LEDGER_VERSION,
            is_utc_stamp(r.generated@),
            r.anchors@.len() == 0,
    {
        AnchorsRecord::new_at(utc_timestamp())
    }

    /// Stamps the ledger with the current time; nothing else changes.
    pub fn touch_generated(&mut self)
        ensures
            final(self).version == old(self).version,
            final(self).anchors@ == old(self).anchors@,
            is_utc_stamp(final(self).generated@),
    {
        self.generated = utc_timestamp();
    }

    /// Appends an entry at the end and stamps the ledger with the current time.
    pub fn append_entry(&mut self, entry: AnchorEntry)
        ensures
            final(self).version == old(self).version,
            final(self).anchors@ == old(self).anchors@.push(entry),
            is_utc_stamp(final(self).generated@),
    {
        self.anchors.push(entry);
        self.touch_generated();
    }

    /// Records a newly dropped anchor, created now, after the existing ones.
    /// The category defaults to `line`; the status is `active`.
    pub fn add_anchor(
        &mut self,
        key: String,
        path: String,
        line: usize,
        kind: Option<String>,
        description: String,
    )
        ensures
            final(self).version == old(self).version,
            final(self).anchors@.len() == old(self).anchors@.len() + 1,
            final(self).anchors@.drop_last() == old(self).anchors@,
            is_utc_stamp(final(self).generated@),
            is_utc_stamp(final(self).anchors@.last().created@),
            entry_matches(
                final(self).anchors@.last(),
                key@,
                path@,
                line,
                kind_or_default(
                    match kind {
                        Some(k) => Some(k@),
                        None => None,
                    },
                ),
                description@,
            ),
    {
        let kind = default_kind(kind);
        let entry = AnchorEntry::new(key, path, line, kind, description, utc_timestamp());
        self.append_entry(entry);
        proof {
            assert(self.anchors@.drop_last() =~= old(self).anchors@);
        }
    }
}

/// What was found where the ledger is kept.
pub enum LedgerSource {
    /// No ledger file exists yet.
    Missing,
    /// The file held a valid ledger.
    Parsed(AnchorsRecord),
    /// The file exists but does not hold a valid ledger.
    Corrupt,
}

/// What to do when the ledger file cannot be read as a ledger.
#[derive(Clone, Copy, Debug, PartialEq, Eq, Structural)]
pub enum RecoveryPolicy {
    /// Start over with an empty ledger, discarding the unreadable content.
    ReinitializeOnCorrupt,
    /// Report the corrupt ledger as an error.
    FailOnCorrupt,
}

/// Why no ledger could be had.
#[derive(Clone, Copy, Debug, PartialEq, Eq, Structural)]
pub enum LedgerError {
    Corrupt,
}

/// The ledger to extend: the one found, or a fresh empty one when there is
/// none, or, under `ReinitializeOnCorrupt`, when the one found is corrupt.
pub fn resolve_ledger(source: LedgerSource, policy: RecoveryPolicy) -> (r: Result<
    AnchorsRecord,
    LedgerError,
>)
    ensures
        match source {
            LedgerSource::Parsed(rec) => r == Ok::<AnchorsRecord, LedgerError>(rec),
            LedgerSource::Missing => r is Ok && r->Ok_0.version == LEDGER_VERSION
                && r->Ok_0.anchors@.len() == 0 && is_utc_stamp(r->Ok_0.generated@),
            LedgerSource::Corrupt => match policy {
                RecoveryPolicy::ReinitializeOnCorrupt => r is Ok && r->Ok_0.version
                    == LEDGER_VERSION && r->Ok_0.anchors@.len() == 0 && is_utc_stamp(
                    r->Ok_0.generated@,
                ),
                RecoveryPolicy::FailOnCorrupt => r == Err::<AnchorsRecord, LedgerError>(
                    LedgerError::Corrupt,
                ),
            },
        },
{
    match source {
        LedgerSource::Parsed(rec) => Ok(rec),
        LedgerSource::Missing => Ok(AnchorsRecord::new()),
        LedgerSource::Corrupt => match policy {
            RecoveryPolicy::ReinitializeOnCorrupt => Ok(AnchorsRecord::new()),
            RecoveryPolicy::FailOnCorrupt => Err(LedgerError::Corrupt),
        },
    }
}

} // verus!
