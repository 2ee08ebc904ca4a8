//! Local inbox for project revisions received from Charon: which revisions
//! are accepted, how an inbox entry changes, and how a received project is
//! fitted into the local project list. Files are read and written by the
//! caller.

use vstd::prelude::*;

use crate::charon::{trim, trim_chars};
use crate::chars::{
    decimal, find_str, lex_lt, lex_lt_asymmetric, lex_lt_total, lex_lt_transitive, push_digits,
    str_less, push_str, str_chars, str_eq, string_from_chars, strs_eq,
    strs_view,
};
use crate::project::{
    copy_version, decimal_injective, decimal_reads_back, find_version, has_version, is_version_at, max_version_number, next_version_label,
    version_labels, VersionInfo,
};
use crate::error::{AppError, AppErrorView};
use crate::model::{Layer, Shape};
use crate::state::{layer_views, layers_equal, loaded_state, shapes_equal, AppState};

verus! {

/// Name of the payload file inside a revision's directory.
pub const PAYLOAD_FILE: &'static str = "payload.luxi";

/// Review state of a received revision.
#[derive(Debug, Clone, Copy, PartialEq, Eq, Structural)]
pub enum InboxStatus {
    PendingReview,
    Deferred,
    Applied,
    Ignored,
}

/// A project revision as the service delivers it.
#[derive(Debug, Clone)]
pub struct CharonRevision {
    pub revision_id: String,
    pub project_id: String,
    pub project_name: String,
    pub project_version_id: String,
    pub parent_revision_id: Option<String>,
    pub workplace_id: String,
    pub queued_at: String,
    pub content_hash: String,
    pub payload: String,
}

/// Inbox entry of a received revision.
#[derive(Debug, Clone)]
pub struct InboxEntry {
    pub revision_id: String,
    pub project_id: String,
    pub project_name: String,
    pub project_version_id: String,
    pub parent_revision_id: Option<String>,
    pub source_workplace_id: String,
    pub queued_at: String,
    pub received_at: String,
    pub content_hash: String,
    pub payload_file: String,
    pub status: InboxStatus,
}

/// A character allowed in a revision or project id: ASCII letter or digit,
/// `-` or `_`.
pub open spec fn is_id_char(c: char) -> bool {
    ('a' <= c && c <= 'z') || ('A' <= c && c <= 'Z') || ('0' <= c && c <= '9') || c == '-' || c
        == '_'
}

/// A non-empty id made of id characters only (safe as a directory name).
pub open spec fn is_valid_id(s: Seq<char>) -> bool {
    s.len() > 0 && forall|i: int| 0 <= i < s.len() ==> is_id_char(#[trigger] s[i])
}

/// Is `value` a usable id?
pub fn valid_id(value: &str) -> (r: bool)
    ensures
        r == is_valid_id(value@),
{
    let n = value.unicode_len();
    if n == 0 {
        return false;
    }
    let mut i: usize = 0;
    while i < n
        invariant
            i <= n == value@.len(),
            forall|k: int| 0 <= k < i ==> is_id_char(#[trigger] value@[k]),
        decreases n - i,
    {
        let c = value.get_char(i);
        let ok = (c >= 'a' && c <= 'z') || (c >= 'A' && c <= 'Z') || (c >= '0' && c <= '9') || c
            == '-' || c == '_';
        if !ok {
            assert(!is_id_char(value@[i as int]));
            return false;
        }
        i = i + 1;
    }
    true
}

/// Checks a delivered revision before it is stored: both ids must be usable
/// and `actual_hash` (the hash of the payload as received) must equal the
/// announced content hash.
pub fn validate_remote_revision(revision: &CharonRevision, actual_hash: &str) -> (r: Result<
    (),
    AppError,
>)
    ensures
        !(is_valid_id(revision.revision_id@) && is_valid_id(revision.project_id@)) ==> r is Err
            && r->Err_0@ == (AppErrorView {
            code: "inbox_revision_id"@,
            message: "Charon lieferte eine ungültige Revisionskennung."@,
            details: None,
        }),
        is_valid_id(revision.revision_id@) && is_valid_id(revision.project_id@) && actual_hash@
            != revision.content_hash@ ==> r is Err && r->Err_0@ == (AppErrorView {
            code: "inbox_hash"@,
            message: "Die von Charon gelieferte Projektrevision ist beschädigt."@,
            details: None,
        }),
        r is Ok <==> (is_valid_id(revision.revision_id@) && is_valid_id(revision.project_id@)
            && actual_hash@ == revision.content_hash@),
{
    if !valid_id(revision.revision_id.as_str()) || !valid_id(revision.project_id.as_str()) {
        return Err(
            AppError::new(
                "inbox_revision_id",
                "Charon lieferte eine ungültige Revisionskennung.".to_owned(),
            ),
        );
    }
    if !str_eq(actual_hash, revision.content_hash.as_str()) {
        return Err(
            AppError::new(
                "inbox_hash",
                "Die von Charon gelieferte Projektrevision ist beschädigt.".to_owned(),
            ),
        );
    }
    Ok(())
}

/// What storing a revision means when an entry for its id may already
/// exist (`existing_hash` is that entry's content hash): `Ok(true)` store
/// it, `Ok(false)` nothing to do (the same revision is already there), or a
/// conflict when the same id comes with other content.
pub fn store_decision(existing_hash: Option<&str>, content_hash: &str) -> (r: Result<
    bool,
    AppError,
>)
    ensures
        match existing_hash {
            None => r == Ok::<bool, AppError>(true),
            Some(h) => if h@ == content_hash@ {
                r == Ok::<bool, AppError>(false)
            } else {
                r is Err && r->Err_0@ == (AppErrorView {
                    code: "inbox_conflict"@,
                    message: "Charon lieferte dieselbe Revisions-ID mit anderem Inhalt."@,
                    details: None,
                })
            },
        },
{
    match existing_hash {
        None => Ok(true),
        Some(h) => {
            if str_eq(h, content_hash) {
                Ok(false)
            } else {
                Err(
                    AppError::new(
                        "inbox_conflict",
                        "Charon lieferte dieselbe Revisions-ID mit anderem Inhalt.".to_owned(),
                    ),
                )
            }
        },
    }
}

/// Builds the inbox entry of a newly received revision: pending review, its
/// payload in `payload.luxi`.
pub fn new_inbox_entry(revision: CharonRevision, received_at: String) -> (e: InboxEntry)
    ensures
        e.revision_id == revision.revision_id,
        e.project_id == revision.project_id,
        e.project_name == revision.project_name,
        e.project_version_id == revision.project_version_id,
        e.parent_revision_id == revision.parent_revision_id,
        e.source_workplace_id == revision.workplace_id,
        e.queued_at == revision.queued_at,
        e.received_at == received_at,
        e.content_hash == revision.content_hash,
        e.payload_file@ == PAYLOAD_FILE@,
        e.status == InboxStatus::PendingReview,
{
    InboxEntry {
        revision_id: revision.revision_id,
        project_id: revision.project_id,
        project_name: revision.project_name,
        project_version_id: revision.project_version_id,
        parent_revision_id: revision.parent_revision_id,
        source_workplace_id: revision.workplace_id,
        queued_at: revision.queued_at,
        received_at,
        content_hash: revision.content_hash,
        payload_file: PAYLOAD_FILE.to_owned(),
        status: InboxStatus::PendingReview,
    }
}

/// A revision in the inbox: its entry record and its payload.
#[derive(Debug, Clone)]
pub struct StoredRevision {
    pub entry: InboxEntry,
    pub payload: String,
}

/// `i` is the first entry for revision `id`.
pub open spec fn is_first_entry(inbox: Seq<StoredRevision>, id: Seq<char>, i: int) -> bool {
    &&& 0 <= i < inbox.len()
    &&& inbox[i].entry.revision_id@ == id
    &&& forall|j: int| 0 <= j < i ==> #[trigger] inbox[j].entry.revision_id@ != id
}

/// Position of the (first) entry for revision `id`, if the inbox holds one.
pub open spec fn entry_position(inbox: Seq<StoredRevision>, id: Seq<char>) -> Option<int> {
    if exists|i: int| is_first_entry(inbox, id, i) {
        Some(choose|i: int| is_first_entry(inbox, id, i))
    } else {
        None
    }
}

/// `s` is the newly stored revision `r`, received at `at`: its entry as
/// `new_inbox_entry` makes it and the payload as delivered.
pub open spec fn is_fresh(s: StoredRevision, r: CharonRevision, at: String) -> bool {
    &&& s.entry.revision_id == r.revision_id
    &&& s.entry.project_id == r.project_id
    &&& s.entry.project_name == r.project_name
    &&& s.entry.project_version_id == r.project_version_id
    &&& s.entry.parent_revision_id == r.parent_revision_id
    &&& s.entry.source_workplace_id == r.workplace_id
    &&& s.entry.queued_at == r.queued_at
    &&& s.entry.received_at == at
    &&& s.entry.content_hash == r.content_hash
    &&& s.entry.payload_file@ == PAYLOAD_FILE@
    &&& s.entry.status == InboxStatus::PendingReview
    &&& s.payload == r.payload
}

/// What storing revision `r` (payload hash `actual`, received at `at`) does
/// to the inbox `old`, giving `new` and the result `res`: a revision with an
/// unusable id or a wrong hash is refused; a new id is stored (`Ok(true)`);
/// the same id with the same content hash changes nothing (`Ok(false)`); the
/// same id with other content is a conflict. Every refusal leaves the inbox
/// as it was.
pub open spec fn store_outcome(
    old: Seq<StoredRevision>,
    new: Seq<StoredRevision>,
    r: CharonRevision,
    actual: Seq<char>,
    at: String,
    res: Result<bool, AppError>,
) -> bool {
    if !(is_valid_id(r.revision_id@) && is_valid_id(r.project_id@)) {
        &&& new == old
        &&& res is Err
        &&& res->Err_0@ == (AppErrorView {
            code: "inbox_revision_id"@,
            message: "Charon lieferte eine ungültige Revisionskennung."@,
            details: None,
        })
    } else if actual != r.content_hash@ {
        &&& new == old
        &&& res is Err
        &&& res->Err_0@ == (AppErrorView {
            code: "inbox_hash"@,
            message: "Die von Charon gelieferte Projektrevision ist beschädigt."@,
            details: None,
        })
    } else {
        match entry_position(old, r.revision_id@) {
            None => {
                &&& res == Ok::<bool, AppError>(true)
                &&& new.len() == old.len() + 1
                &&& new.take(old.len() as int) == old
                &&& is_fresh(new.last(), r, at)
            },
            Some(i) => if old[i].entry.content_hash@ == r.content_hash@ {
                new == old && res == Ok::<bool, AppError>(false)
            } else {
                &&& new == old
                &&& res is Err
                &&& res->Err_0@ == (AppErrorView {
                    code: "inbox_conflict"@,
                    message: "Charon lieferte dieselbe Revisions-ID mit anderem Inhalt."@,
                    details: None,
                })
            },
        }
    }
}

/// Stores a delivered revision in the inbox `inbox` (see `store_outcome`):
/// the caller writes the new last entry and its payload.
pub fn store_revision(
    inbox: &mut Vec<StoredRevision>,
    revision: CharonRevision,
    actual_hash: &str,
    received_at: String,
) -> (r: Result<bool, AppError>)
    ensures
        store_outcome(old(inbox)@, final(inbox)@, revision, actual_hash@, received_at, r),
{
    validate_remote_revision(&revision, actual_hash)?;
    let mut k: usize = 0;
    while k < inbox.len()
        invariant
            k <= inbox@.len(),
            inbox@ == old(inbox)@,
            is_valid_id(revision.revision_id@) && is_valid_id(revision.project_id@),
            actual_hash@ == revision.content_hash@,
            forall|j: int| 0 <= j < k ==> #[trigger] inbox@[j].entry.revision_id@ != revision.revision_id@,
        decreases inbox.len() - k,
    {
        if str_eq(inbox[k].entry.revision_id.as_str(), revision.revision_id.as_str()) {
            assert(is_first_entry(inbox@, revision.revision_id@, k as int));
            let ghost i = choose|i: int| is_first_entry(inbox@, revision.revision_id@, i);
            assert(i == k as int) by {
                if i < k {
                    assert(inbox@[i].entry.revision_id@ != revision.revision_id@);
                }
                if i > k {
                    assert(inbox@[k as int].entry.revision_id@ != revision.revision_id@);
                }
            }
            let d = store_decision(Some(inbox[k].entry.content_hash.as_str()), revision.content_hash.as_str());
            return d;
        }
        k = k + 1;
    }
    assert(entry_position(inbox@, revision.revision_id@) is None) by {
        if exists|i: int| is_first_entry(inbox@, revision.revision_id@, i) {
            let i = choose|i: int| is_first_entry(inbox@, revision.revision_id@, i);
            assert(inbox@[i].entry.revision_id@ != revision.revision_id@);
        }
    }
    let payload = revision.payload.clone();
    let entry = new_inbox_entry(revision, received_at);
    let ghost before = inbox@;
    inbox.push(StoredRevision { entry, payload });
    assert(inbox@.take(before.len() as int) =~= before);
    Ok(true)
}

proof fn lemma_first_entry_exists(inbox: Seq<StoredRevision>, id: Seq<char>, k: int)
    requires
        0 <= k < inbox.len(),
        inbox[k].entry.revision_id@ == id,
    ensures
        exists|i: int| is_first_entry(inbox, id, i),
    decreases k,
{
    if exists|j: int| 0 <= j < k && #[trigger] inbox[j].entry.revision_id@ == id {
        let j = choose|j: int| 0 <= j < k && #[trigger] inbox[j].entry.revision_id@ == id;
        lemma_first_entry_exists(inbox, id, j);
    } else {
        assert(is_first_entry(inbox, id, k));
    }
}

/// Storing a revision is idempotent: when a revision was newly stored, a
/// second delivery of it (at any time) changes nothing and reports that
/// nothing was stored; the inbox then holds exactly one entry for it,
/// pending review, with the payload as delivered.
pub proof fn storing_twice_is_idempotent(
    i0: Seq<StoredRevision>,
    i1: Seq<StoredRevision>,
    i2: Seq<StoredRevision>,
    r: CharonRevision,
    actual: Seq<char>,
    at1: String,
    at2: String,
    res1: Result<bool, AppError>,
    res2: Result<bool, AppError>,
)
    requires
        store_outcome(i0, i1, r, actual, at1, res1),
        res1 == Ok::<bool, AppError>(true),
        store_outcome(i1, i2, r, actual, at2, res2),
    ensures
        res2 == Ok::<bool, AppError>(false),
        i2 == i1,
        forall|k: int|
            0 <= k < i1.len() && #[trigger] i1[k].entry.revision_id@ == r.revision_id@ ==> k == i1.len()
                - 1,
        i1.last().entry.revision_id == r.revision_id,
        i1.last().entry.status == InboxStatus::PendingReview,
        i1.last().payload == r.payload,
{
    let n = i0.len();
    assert(entry_position(i0, r.revision_id@) is None);
    assert forall|k: int| 0 <= k < i1.len() && #[trigger] i1[k].entry.revision_id@ == r.revision_id@ implies k
        == i1.len() - 1 by {
        if k < n {
            assert(i1[k] == i1.take(n as int)[k]);
            lemma_first_entry_exists(i0, r.revision_id@, k);
        }
    }
    assert(is_first_entry(i1, r.revision_id@, n as int));
    let p = choose|i: int| is_first_entry(i1, r.revision_id@, i);
    assert(p == n as int) by {
        if p < n {
            assert(i1[p].entry.revision_id@ != r.revision_id@) by {
                assert(i1[p] == i1.take(n as int)[p]);
            }
        }
        if p > n {
            assert(i1[n as int].entry.revision_id@ != r.revision_id@);
        }
    }
}

/// `entry` with its review state set to `status`, all else unchanged.
pub open spec fn with_status(entry: InboxEntry, status: InboxStatus) -> InboxEntry {
    InboxEntry { status, ..entry }
}

/// Puts a received revision aside for later.
pub fn defer_inbox_revision(entry: &mut InboxEntry)
    ensures
        *final(entry) == with_status(*old(entry), InboxStatus::Deferred),
{
    entry.status = InboxStatus::Deferred;
}

/// Brings a put-aside revision back to review.
pub fn reconsider_inbox_revision(entry: &mut InboxEntry)
    ensures
        *final(entry) == with_status(*old(entry), InboxStatus::PendingReview),
{
    entry.status = InboxStatus::PendingReview;
}

/// Keeps the local state: the revision is acknowledged and ignored.
pub fn ignore_inbox_revision(entry: &mut InboxEntry)
    ensures
        *final(entry) == with_status(*old(entry), InboxStatus::Ignored),
{
    entry.status = InboxStatus::Ignored;
}

/// Marks a revision as taken over into the local projects.
pub fn mark_inbox_revision_applied(entry: &mut InboxEntry)
    ensures
        *final(entry) == with_status(*old(entry), InboxStatus::Applied),
{
    entry.status = InboxStatus::Applied;
}

/// Putting a revision aside and bringing it back to review restores its
/// entry; the review state is all the three review actions change.
pub proof fn reconsider_undoes_defer(entry: InboxEntry, s1: InboxStatus, s2: InboxStatus)
    ensures
        entry.status == InboxStatus::PendingReview ==> with_status(
            with_status(entry, InboxStatus::Deferred),
            InboxStatus::PendingReview,
        ) == entry,
        with_status(with_status(entry, s1), s2) == with_status(entry, s2),
{
}

/// `part` appended to the path `base` as `Path::join` does on Unix: an
/// absolute `part` replaces `base`, otherwise one `/` separates them.
pub open spec fn join_path(base: Seq<char>, part: Seq<char>) -> Seq<char> {
    if part.len() > 0 && part[0] == '/' {
        part
    } else if base.len() == 0 || base.last() == '/' {
        base + part
    } else {
        base + seq!['/'] + part
    }
}

fn push_path_part(out: &mut Vec<char>, part: &str)
    ensures
        final(out)@ == join_path(old(out)@, part@),
{
    let absolute = part.unicode_len() > 0 && part.get_char(0) == '/';
    if absolute {
        out.clear();
    } else if out.len() > 0 && out[out.len() - 1] != '/' {
        out.push('/');
    }
    push_str(out, part);
    assert(out@ =~= join_path(old(out)@, part@));
}

impl InboxEntry {
    /// Path of the revision's payload below the inbox directory.
    pub fn payload_path(&self, inbox_dir: &str) -> (p: String)
        ensures
            p@ == join_path(join_path(inbox_dir@, self.revision_id@), self.payload_file@),
    {
        let mut out = str_chars(inbox_dir);
        push_path_part(&mut out, self.revision_id.as_str());
        push_path_part(&mut out, self.payload_file.as_str());
        string_from_chars(&out)
    }
}

/// Checks a payload read back from the inbox: `actual_hash` (its hash now)
/// must equal the entry's hash.
pub fn check_payload_hash(entry: &InboxEntry, actual_hash: &str) -> (r: Result<(), AppError>)
    ensures
        r is Ok <==> actual_hash@ == entry.content_hash@,
        r is Err ==> r->Err_0@ == (AppErrorView {
            code: "inbox_hash"@,
            message: "Die lokale Inbox-Revision ist beschädigt."@,
            details: None,
        }),
{
    if !str_eq(actual_hash, entry.content_hash.as_str()) {
        return Err(AppError::new("inbox_hash", "Die lokale Inbox-Revision ist beschädigt.".to_owned()));
    }
    Ok(())
}

/// Checks that a parsed payload is the project and version its inbox entry
/// announces.
pub fn check_project_identity(entry: &InboxEntry, project_id: &str, current_version: &str) -> (r:
    Result<(), AppError>)
    ensures
        r is Ok <==> (project_id@ == entry.project_id@ && current_version@
            == entry.project_version_id@),
        r is Err ==> r->Err_0@ == (AppErrorView {
            code: "inbox_project_identity"@,
            message: "Die empfangene Projektrevision passt nicht zu ihrem Manifest."@,
            details: None,
        }),
{
    if !str_eq(project_id, entry.project_id.as_str()) || !str_eq(
        current_version,
        entry.project_version_id.as_str(),
    ) {
        return Err(
            AppError::new(
                "inbox_project_identity",
                "Die empfangene Projektrevision passt nicht zu ihrem Manifest.".to_owned(),
            ),
        );
    }
    Ok(())
}

/// Message for an asset of a received project that is not in the local
/// library yet.
pub open spec fn missing_asset_message(id: Seq<char>) -> Seq<char> {
    "Projekt-Asset "@ + id + " ist lokal noch nicht verfügbar."@
}

/// Index of the first asset not available locally.
pub open spec fn first_missing(available: Seq<bool>) -> Option<int>
    decreases available.len(),
{
    if available.len() == 0 {
        None
    } else {
        match first_missing(available.drop_last()) {
            Some(i) => Some(i),
            None => if available.last() {
                None
            } else {
                Some(available.len() - 1)
            },
        }
    }
}

proof fn lemma_first_missing(available: Seq<bool>)
    ensures
        first_missing(available) is None <==> forall|i: int|
            0 <= i < available.len() ==> #[trigger] available[i],
        first_missing(available) matches Some(i) ==> 0 <= i < available.len() && !available[i]
            && forall|k: int| 0 <= k < i ==> #[trigger] available[k],
    decreases available.len(),
{
    if available.len() > 0 {
        lemma_first_missing(available.drop_last());
        let d = available.drop_last();
        assert forall|i: int| 0 <= i < d.len() implies d[i] == available[i] by {}
    }
}

/// Checks that every asset a received project refers to is in the local
/// library (`available[i]` tells it for `asset_refs[i]`); the first missing
/// one is named in the error.
pub fn check_assets_available(asset_refs: &Vec<String>, available: &Vec<bool>) -> (r: Result<
    (),
    AppError,
>)
    requires
        asset_refs@.len() == available@.len(),
    ensures
        match first_missing(available@) {
            None => r is Ok,
            Some(i) => r is Err && r->Err_0@ == (AppErrorView {
                code: "inbox_asset_missing"@,
                message: missing_asset_message(asset_refs@[i]@),
                details: None,
            }),
        },
{
    proof {
        lemma_first_missing(available@);
    }
    let mut i: usize = 0;
    while i < available.len()
        invariant
            i <= available@.len() == asset_refs@.len(),
            forall|k: int| 0 <= k < i ==> #[trigger] available@[k],
            first_missing(available@) is None <==> forall|k: int|
                0 <= k < available@.len() ==> #[trigger] available@[k],
            first_missing(available@) matches Some(m) ==> 0 <= m < available@.len()
                && !available@[m] && forall|k: int| 0 <= k < m ==> #[trigger] available@[k],
        decreases available.len() - i,
    {
        if !available[i] {
            let mut msg: Vec<char> = Vec::new();
            push_str(&mut msg, "Projekt-Asset ");
            push_str(&mut msg, asset_refs[i].as_str());
            push_str(&mut msg, " ist lokal noch nicht verfügbar.");
            return Err(AppError::new("inbox_asset_missing", string_from_chars(&msg)));
        }
        i = i + 1;
    }
    Ok(())
}

/// The versions whose id is `id`.
pub open spec fn versions_with_id(versions: Seq<VersionInfo>, id: Seq<char>) -> Seq<VersionInfo> {
    versions.filter(|v: VersionInfo| v.id@ == id)
}

/// Message when a received project lacks its current version.
pub open spec fn missing_version_message() -> Seq<char> {
    "Die empfangene aktuelle Projektversion fehlt."@
}

/// A project received as new keeps only its current version.
pub fn keep_current_version(versions: &Vec<VersionInfo>, current: &str) -> (r: Result<
    Vec<VersionInfo>,
    AppError,
>)
    ensures
        match r {
            Ok(kept) => kept@ == versions_with_id(versions@, current@) && kept@.len() > 0,
            Err(e) => versions_with_id(versions@, current@).len() == 0 && e@ == (AppErrorView {
                code: "inbox_project_version"@,
                message: missing_version_message(),
                details: None,
            }),
        },
{
    let ghost pred = |v: VersionInfo| v.id@ == current@;
    let mut kept: Vec<VersionInfo> = Vec::new();
    let mut i: usize = 0;
    while i < versions.len()
        invariant
            i <= versions@.len(),
            pred == (|v: VersionInfo| v.id@ == current@),
            kept@ == versions@.subrange(0, i as int).filter(pred),
        decreases versions.len() - i,
    {
        proof {
            reveal(Seq::filter);
            assert(versions@.subrange(0, i + 1).drop_last() =~= versions@.subrange(0, i as int));
        }
        if str_eq(versions[i].id.as_str(), current) {
            kept.push(copy_version(&versions[i]));
        }
        i = i + 1;
    }
    assert(versions@.subrange(0, versions@.len() as int) =~= versions@);
    if kept.len() == 0 {
        return Err(
            AppError::new(
                "inbox_project_version",
                "Die empfangene aktuelle Projektversion fehlt.".to_owned(),
            ),
        );
    }
    Ok(kept)
}

/// Note of a version taken over from another workplace.
pub open spec fn received_note(workplace: Seq<char>) -> Seq<char> {
    "Von Charon: "@ + workplace
}

/// The version under which a received revision is added to the local
/// project: a copy of the received current version with a new local id
/// (`new_id`), the next free local label, and a note naming the sending
/// workplace. The received version keeps none of its own id, since both
/// workplaces may have changed the same version in place.
pub fn incoming_version(
    remote_versions: &Vec<VersionInfo>,
    remote_current: &str,
    local_versions: &Vec<VersionInfo>,
    new_id: String,
    source_workplace: &str,
) -> (r: Result<VersionInfo, AppError>)
    requires
        max_version_number(version_labels(local_versions@)) < u32::MAX,
    ensures
        r is Err <==> !has_version(remote_versions@, remote_current@),
        r is Err ==> r->Err_0@ == (AppErrorView {
            code: "inbox_project_version"@,
            message: missing_version_message(),
            details: None,
        }),
        r is Ok ==> exists|i: int|
            {
                &&& is_version_at(remote_versions@, remote_current@, i)
                &&& r->Ok_0.id == new_id
                &&& r->Ok_0.label@ == seq!['V'] + decimal(
                    max_version_number(version_labels(local_versions@)) + 1,
                )
                &&& r->Ok_0.created_at == remote_versions@[i].created_at
                &&& r->Ok_0.note@ == received_note(source_workplace@)
            },
{
    match find_version(remote_versions, remote_current) {
        None => Err(
            AppError::new(
                "inbox_project_version",
                "Die empfangene aktuelle Projektversion fehlt.".to_owned(),
            ),
        ),
        Some(i) => {
            let mut note: Vec<char> = Vec::new();
            push_str(&mut note, "Von Charon: ");
            push_str(&mut note, source_workplace);
            let v = VersionInfo {
                id: new_id,
                label: next_version_label(local_versions),
                created_at: remote_versions[i].created_at.clone(),
                note: string_from_chars(&note),
            };
            assert(is_version_at(remote_versions@, remote_current@, i as int));
            Ok(v)
        },
    }
}

/// A local project after a received revision was taken over: its content,
/// its version history and the id of its current version.
pub struct AcceptedRevision {
    pub content: ProjectContent,
    pub versions: Vec<VersionInfo>,
    pub current_version: String,
}

/// Takes a received revision over as a new version of the local project.
/// The local history stays; the received current version is appended under a
/// new local id (`new_id`) and the next free label, and becomes current. The
/// project's id and name stay local; description, tags, modification time,
/// layers and shapes come from the received project. Refused when the
/// received project lacks its current version.
pub fn accept_revision(
    local: ProjectContent,
    local_versions: Vec<VersionInfo>,
    remote: ProjectContent,
    remote_versions: &Vec<VersionInfo>,
    remote_current: &str,
    new_id: String,
    source_workplace: &str,
) -> (r: Result<AcceptedRevision, AppError>)
    requires
        max_version_number(version_labels(local_versions@)) < u32::MAX,
    ensures
        r is Err <==> !has_version(remote_versions@, remote_current@),
        r is Err ==> r->Err_0@ == (AppErrorView {
            code: "inbox_project_version"@,
            message: missing_version_message(),
            details: None,
        }),
        r is Ok ==> {
            let a = r->Ok_0;
            let n = local_versions@.len();
            &&& a.content.id == local.id
            &&& a.content.name == local.name
            &&& a.content.description == remote.description
            &&& a.content.tags == remote.tags
            &&& a.content.modified_at == remote.modified_at
            &&& a.content.layers == remote.layers
            &&& a.content.shapes == remote.shapes
            &&& a.versions@.len() == n + 1
            &&& a.versions@.subrange(0, n as int) == local_versions@
            &&& a.current_version == new_id
            &&& a.versions@[n as int].id == new_id
            &&& a.versions@[n as int].label@ == seq!['V'] + decimal(
                max_version_number(version_labels(local_versions@)) + 1,
            )
            &&& a.versions@[n as int].note@ == received_note(source_workplace@)
            &&& exists|i: int|
                is_version_at(remote_versions@, remote_current@, i)
                    && a.versions@[n as int].created_at == #[trigger] remote_versions@[i].created_at
        },
{
    let incoming = incoming_version(
        remote_versions,
        remote_current,
        &local_versions,
        new_id.clone(),
        source_workplace,
    );
    match incoming {
        Err(e) => Err(e),
        Ok(v) => {
            let mut versions = local_versions;
            versions.push(v);
            let content = ProjectContent {
                id: local.id,
                name: local.name,
                description: remote.description,
                tags: remote.tags,
                modified_at: remote.modified_at,
                layers: remote.layers,
                shapes: remote.shapes,
            };
            Ok(AcceptedRevision { content, versions, current_version: new_id })
        },
    }
}

/// Message when a received project already exists locally.
pub open spec fn conflict_message() -> Seq<char> {
    "Dieses Projekt existiert bereits lokal. Die Revision bleibt zur Prüfung in der Inbox."@
}

/// A received project is only added as a new local project when no local
/// project has its id (`ids[i]` is the id of the `i`-th local project).
pub fn check_not_present(ids: &Vec<String>, project_id: &str) -> (r: Result<(), AppError>)
    ensures
        r is Ok <==> !strs_view(ids@).contains(project_id@),
        r is Err ==> r->Err_0@ == (AppErrorView {
            code: "inbox_project_conflict"@,
            message: conflict_message(),
            details: None,
        }),
{
    match find_str(ids, project_id) {
        Some(_) => Err(
            AppError::new(
                "inbox_project_conflict",
                "Dieses Projekt existiert bereits lokal. Die Revision bleibt zur Prüfung in der Inbox.".to_owned(),
            ),
        ),
        None => Ok(()),
    }
}

/// Do name, description or tags differ between the local and the received
/// project?
pub fn metadata_changed(
    local_name: &str,
    local_description: &str,
    local_tags: &Vec<String>,
    remote_name: &str,
    remote_description: &str,
    remote_tags: &Vec<String>,
) -> (r: bool)
    ensures
        r == (local_name@ != remote_name@ || local_description@ != remote_description@
            || strs_view(local_tags@) != strs_view(remote_tags@)),
{
    !str_eq(local_name, remote_name) || !str_eq(local_description, remote_description) || !strs_eq(
        local_tags,
        remote_tags,
    )
}

/// Name a received project is filed under before any suffix: the offered
/// name without surrounding white space, or a generic name when that is
/// empty.
pub open spec fn received_name_base(preferred: Seq<char>) -> Seq<char> {
    let t = trim(preferred);
    if t.len() == 0 {
        "Empfangenes Projekt"@
    } else {
        t
    }
}

/// The `k`-th name tried: the base, then `base (Charon)`, then
/// `base (Charon 2)`, `base (Charon 3)`, ….
pub open spec fn name_candidate(base: Seq<char>, k: nat) -> Seq<char> {
    if k == 0 {
        base
    } else if k == 1 {
        base + " (Charon)"@
    } else {
        base + " (Charon "@ + decimal(k) + ")"@
    }
}

proof fn candidates_differ(base: Seq<char>, j: nat, k: nat)
    requires
        j < k,
    ensures
        name_candidate(base, j) != name_candidate(base, k),
{
    reveal_strlit(" (Charon)");
    reveal_strlit(" (Charon ");
    reveal_strlit(")");
    decimal_reads_back(j);
    decimal_reads_back(k);
    let cj = name_candidate(base, j);
    let ck = name_candidate(base, k);
    let b = base.len() as int;
    assert(ck.len() == if k == 1 {
        b + 9
    } else {
        b + 10 + decimal(k).len()
    });
    assert(cj.len() == if j == 0 {
        b
    } else if j == 1 {
        b + 9
    } else {
        b + 10 + decimal(j).len()
    });
    if j >= 2 && cj == ck {
        let lo: int = b + 9;
        assert(cj.subrange(lo, lo + decimal(j).len() as int) =~= decimal(j));
        assert(ck.subrange(lo, lo + decimal(k).len() as int) =~= decimal(k));
        decimal_injective(j, k);
    }
}

/// Among `taken.len() + 1` candidates at least one is free.
proof fn some_candidate_free(base: Seq<char>, taken: Seq<Seq<char>>)
    ensures
        exists|j: nat| j <= taken.len() && !taken.contains(#[trigger] name_candidate(base, j)),
{
    let n = taken.len();
    if forall|j: nat| j <= n ==> taken.contains(#[trigger] name_candidate(base, j)) {
        let cs = Seq::new(n + 1, |j: int| name_candidate(base, j as nat));
        assert forall|a: int, b: int|
            0 <= a < cs.len() && 0 <= b < cs.len() && a != b implies cs[a] != cs[b] by {
            if a < b {
                candidates_differ(base, a as nat, b as nat);
            } else {
                candidates_differ(base, b as nat, a as nat);
            }
        }
        assert(cs.no_duplicates());
        cs.unique_seq_to_set();
        assert forall|x: Seq<char>| cs.to_set().contains(x) implies taken.to_set().contains(x) by {
            let j = choose|j: int| 0 <= j < cs.len() && cs[j] == x;
            assert(taken.contains(name_candidate(base, j as nat)));
        }
        taken.lemma_cardinality_of_set();
        vstd::set_lib::lemma_len_subset(cs.to_set(), taken.to_set());
        assert(false);
    }
}

/// Candidate `k` is the first one not taken.
pub open spec fn first_free(base: Seq<char>, taken: Seq<Seq<char>>, k: nat) -> bool {
    &&& k <= taken.len()
    &&& !taken.contains(name_candidate(base, k))
    &&& forall|j: nat| j < k ==> taken.contains(#[trigger] name_candidate(base, j))
}

fn candidate_chars(base: &Vec<char>, k: usize) -> (r: Vec<char>)
    ensures
        r@ == name_candidate(base@, k as nat),
{
    let mut out: Vec<char> = Vec::new();
    let mut i: usize = 0;
    while i < base.len()
        invariant
            i <= base@.len(),
            out@ =~= base@.subrange(0, i as int),
        decreases base.len() - i,
    {
        out.push(base[i]);
        i = i + 1;
    }
    assert(base@.subrange(0, base@.len() as int) =~= base@);
    if k == 1 {
        push_str(&mut out, " (Charon)");
    } else if k >= 2 {
        push_str(&mut out, " (Charon ");
        push_digits(&mut out, k as u64, 10);
        push_str(&mut out, ")");
    }
    out
}

/// The name under which a received project is filed: the first candidate
/// (see `name_candidate`) that no entry of the projects directory has.
pub fn unique_project_name(preferred: &str, taken: &Vec<String>) -> (r: String)
    requires
        taken@.len() < usize::MAX,
    ensures
        exists|k: nat|
            #[trigger] first_free(received_name_base(preferred@), strs_view(taken@), k) && r@
                == name_candidate(received_name_base(preferred@), k),
{
    let chars = str_chars(preferred);
    let t = trim_chars(&chars);
    let base = if t.len() == 0 {
        proof {
            reveal_strlit("Empfangenes Projekt");
        }
        str_chars("Empfangenes Projekt")
    } else {
        t
    };
    let ghost b = received_name_base(preferred@);
    assert(base@ == b);
    let mut k: usize = 0;
    while k <= taken.len()
        invariant
            k <= taken@.len() + 1,
            taken@.len() < usize::MAX,
            base@ == b,
            b == received_name_base(preferred@),
            forall|j: nat| j < k ==> strs_view(taken@).contains(#[trigger] name_candidate(b, j)),
        decreases taken@.len() + 1 - k,
    {
        let cand = candidate_chars(&base, k);
        let name = string_from_chars(&cand);
        if find_str(taken, name.as_str()).is_none() {
            assert(first_free(b, strs_view(taken@), k as nat));
            return name;
        }
        k = k + 1;
    }
    proof {
        some_candidate_free(b, strs_view(taken@));
        let j = choose|j: nat|
            j <= taken@.len() && !strs_view(taken@).contains(#[trigger] name_candidate(b, j));
        assert(strs_view(taken@).contains(name_candidate(b, j)));
    }
    string_from_chars(&base)
}

/// The revision ids of a list of entries.
pub open spec fn revision_ids(entries: Seq<InboxEntry>) -> Seq<Seq<char>> {
    entries.map_values(|e: InboxEntry| e.revision_id@)
}

/// The entries are in ascending order of their revision ids.
pub open spec fn sorted_by_revision(entries: Seq<InboxEntry>) -> bool {
    forall|i: int, j: int|
        0 <= i < j < entries.len() ==> !lex_lt(
            #[trigger] entries[j].revision_id@,
            #[trigger] entries[i].revision_id@,
        )
}

/// Orders the inbox listing by revision id (ascending; entries with equal
/// ids keep their order).
pub fn sort_inbox(entries: Vec<InboxEntry>) -> (r: Vec<InboxEntry>)
    ensures
        r@.to_multiset() == entries@.to_multiset(),
        sorted_by_revision(r@),
{
    broadcast use vstd::seq_lib::group_to_multiset_ensures;

    let mut out: Vec<InboxEntry> = Vec::new();
    let mut rest = entries;
    let ghost all = rest@;
    let mut i: usize = 0;
    while i < rest.len()
        invariant
            i <= rest@.len(),
            rest@ == all,
            out@.to_multiset() == all.subrange(0, i as int).to_multiset(),
            sorted_by_revision(out@),
        decreases rest.len() - i,
    {
        let e = copy_entry(&rest[i]);
        let mut p: usize = 0;
        while p < out.len() && !str_less(e.revision_id.as_str(), out[p].revision_id.as_str())
            invariant
                p <= out@.len(),
                forall|k: int| 0 <= k < p ==> !lex_lt(e.revision_id@, #[trigger] out@[k].revision_id@),
            decreases out.len() - p,
        {
            p = p + 1;
        }
        let ghost before = out@;
        out.insert(p, e);
        proof {
            assert(out@ =~= before.insert(p as int, e));
            assert(out@.remove(p as int) =~= before);
            out@.to_multiset_ensures();
            assert(out@.to_multiset() =~= before.to_multiset().insert(e)) by {
                assert(out@.remove(p as int).to_multiset() =~= out@.to_multiset().remove(out@[p as int]));
                assert(out@.to_multiset().count(e) > 0) by {
                    assert(out@.contains(e)) by {
                        assert(out@[p as int] == e);
                    }
                }
            }
            assert(all.subrange(0, i + 1) =~= all.subrange(0, i as int).push(all[i as int]));
            all.subrange(0, i as int).to_multiset_ensures();
            assert(e == all[i as int]);
            assert forall|a: int, b: int| 0 <= a < b < out@.len() implies !lex_lt(
                #[trigger] out@[b].revision_id@,
                #[trigger] out@[a].revision_id@,
            ) by {
                if b == p {
                    lex_lt_total(e.revision_id@, out@[a].revision_id@);
                    lex_lt_asymmetric(e.revision_id@, out@[a].revision_id@);
                } else if a == p {
                    // out@[b] was at b - 1 >= p before; e comes before before[p].
                    assert(out@[b] == before[b - 1]);
                    assert(p < before.len());
                    assert(lex_lt(e.revision_id@, before[p as int].revision_id@));
                    if lex_lt(out@[b].revision_id@, e.revision_id@) {
                        lex_lt_transitive(
                            before[b - 1].revision_id@,
                            e.revision_id@,
                            before[p as int].revision_id@,
                        );
                        if b - 1 > p {
                            assert(!lex_lt(before[b - 1].revision_id@, before[p as int].revision_id@));
                        } else {
                            lex_lt_asymmetric(before[p as int].revision_id@, before[p as int].revision_id@);
                        }
                    }
                } else {
                    let a0 = if a < p { a } else { a - 1 };
                    let b0 = if b < p { b } else { b - 1 };
                    assert(out@[a] == before[a0] && out@[b] == before[b0]);
                    assert(a0 < b0);
                }
            }
        }
        i = i + 1;
    }
    assert(all.subrange(0, all.len() as int) =~= all);
    out
}

/// A copy of `e`.
pub fn copy_entry(e: &InboxEntry) -> (c: InboxEntry)
    ensures
        c == *e,
{
    InboxEntry {
        revision_id: e.revision_id.clone(),
        project_id: e.project_id.clone(),
        project_name: e.project_name.clone(),
        project_version_id: e.project_version_id.clone(),
        parent_revision_id: match &e.parent_revision_id {
            Some(p) => Some(p.clone()),
            None => None,
        },
        source_workplace_id: e.source_workplace_id.clone(),
        queued_at: e.queued_at.clone(),
        received_at: e.received_at.clone(),
        content_hash: e.content_hash.clone(),
        payload_file: e.payload_file.clone(),
        status: e.status,
    }
}

/// What a project file holds of interest when two states of it are
/// compared (bed size and geometry are held by the caller; `geometry` keys
/// name the shapes' geometries).
#[derive(Debug, Clone)]
pub struct ProjectContent {
    pub id: String,
    pub name: String,
    pub description: String,
    pub tags: Vec<String>,
    pub modified_at: String,
    pub layers: Vec<Layer>,
    pub shapes: Vec<Shape>,
}

/// A local project found for a received revision: its folder name, its
/// content, and whether its bed size equals the received one.
#[derive(Debug, Clone)]
pub struct LocalProject {
    pub folder_name: String,
    pub content: ProjectContent,
    pub same_bed: bool,
}

/// Read-only view of a received revision beside the local state of the same
/// project, when there is one. Comparing changes neither inbox nor projects.
pub struct InboxComparison {
    pub entry: InboxEntry,
    pub local_project_name: Option<String>,
    pub local_modified_at: Option<String>,
    pub remote_modified_at: String,
    pub local_state: Option<AppState>,
    pub remote_state: AppState,
    pub bed_changed: bool,
    pub layers_changed: bool,
    pub shapes_changed: bool,
    pub metadata_changed: bool,
}

/// Finds the local project with the given stable id (`ids[i]` is the id of
/// the `i`-th local project); names may differ between workplaces.
pub fn find_project_by_id(ids: &Vec<String>, project_id: &str) -> (r: Option<usize>)
    ensures
        match r {
            Some(i) => crate::chars::is_first_match(strs_view(ids@), project_id@, i as int),
            None => !strs_view(ids@).contains(project_id@),
        },
{
    find_str(ids, project_id)
}

/// Compares a received project with the local one. Without a local project
/// everything counts as changed.
pub fn compare_inbox_revision(
    entry: InboxEntry,
    local: Option<LocalProject>,
    remote: ProjectContent,
) -> (c: InboxComparison)
    ensures
        c.entry == entry,
        c.remote_modified_at == remote.modified_at,
        c.remote_state@ == loaded_state(remote.layers@, remote.shapes@),
        match local {
            None => {
                &&& c.local_project_name is None
                &&& c.local_modified_at is None
                &&& c.local_state is None
                &&& c.bed_changed && c.layers_changed && c.shapes_changed && c.metadata_changed
            },
            Some(l) => {
                &&& c.local_project_name == Some(l.folder_name)
                &&& c.local_modified_at == Some(l.content.modified_at)
                &&& c.local_state matches Some(st) && st@ == loaded_state(
                    l.content.layers@,
                    l.content.shapes@,
                )
                &&& c.bed_changed == !l.same_bed
                &&& c.layers_changed == (layer_views(l.content.layers@) != layer_views(
                    remote.layers@,
                ))
                &&& c.shapes_changed == (l.content.shapes@ != remote.shapes@)
                &&& c.metadata_changed == (l.content.name@ != remote.name@
                    || l.content.description@ != remote.description@ || strs_view(
                    l.content.tags@,
                ) != strs_view(remote.tags@))
            },
        },
{
    let remote_modified_at = remote.modified_at;
    match local {
        None => {
            let remote_state = AppState::from_project(remote.layers, remote.shapes);
            InboxComparison {
                entry,
                local_project_name: None,
                local_modified_at: None,
                remote_modified_at,
                local_state: None,
                remote_state,
                bed_changed: true,
                layers_changed: true,
                shapes_changed: true,
                metadata_changed: true,
            }
        },
        Some(l) => {
            let layers_changed = !layers_equal(&l.content.layers, &remote.layers);
            let shapes_changed = !shapes_equal(&l.content.shapes, &remote.shapes);
            let meta = metadata_changed(
                l.content.name.as_str(),
                l.content.description.as_str(),
                &l.content.tags,
                remote.name.as_str(),
                remote.description.as_str(),
                &remote.tags,
            );
            let local_state = AppState::from_project(l.content.layers, l.content.shapes);
            let remote_state = AppState::from_project(remote.layers, remote.shapes);
            InboxComparison {
                entry,
                local_project_name: Some(l.folder_name),
                local_modified_at: Some(l.content.modified_at),
                remote_modified_at,
                local_state: Some(local_state),
                remote_state,
                bed_changed: !l.same_bed,
                layers_changed,
                shapes_changed,
                metadata_changed: meta,
            }
        },
    }
}

} // verus!
