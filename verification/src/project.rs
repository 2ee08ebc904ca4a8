//! Projects: the project file with its ordered versions, the rules for
//! saving, branching and deleting versions, and the listing of projects.
//! Reading and writing the files, and the measured bed size, are the
//! caller's.

use vstd::prelude::*;

use crate::chars::{decimal, find_str, is_digit, digit_value, push_digits, str_chars, str_eq, string_from_chars, strs_view};
use crate::datetime::{gen_id, id_spec, iso8601_spec, now_iso8601};
use crate::charon::{trim, trim_chars};
use crate::error::{AppError, AppErrorView};
use crate::model::{Layer, Shape};
use crate::state::{layer_views, loaded_state, AppState};

verus! {

/// Short info of a version. Model: a project is an ordered list of versions
/// (V1, V2, …); `label` is the displayable number, `id` the stable key.
#[derive(Debug, Clone)]
pub struct VersionInfo {
    pub id: String,
    /// Displayable number, e.g. "V3", given in order of creation.
    pub label: String,
    pub created_at: String,
    pub note: String,
}

/// Short info of a project for the list view.
#[derive(Debug, Clone)]
pub struct ProjectInfo {
    pub name: String,
    pub tags: Vec<String>,
    pub description: String,
    pub modified_at: String,
}

/// Detail view of a project for the browser: metadata and version list,
/// without geometry.
#[derive(Debug, Clone)]
pub struct ProjectDetail {
    pub name: String,
    pub description: String,
    pub tags: Vec<String>,
    pub created_at: String,
    pub modified_at: String,
    pub versions: Vec<VersionInfo>,
    /// Id of the current version (the one on the canvas).
    pub current_version: String,
}

/// Decimal value of a digit string.
pub open spec fn digits_value(s: Seq<char>) -> nat
    decreases s.len(),
{
    if s.len() == 0 {
        0
    } else {
        digits_value(s.drop_last()) * 10 + digit_value(s.last())
    }
}

/// `s` without a leading `+`.
pub open spec fn unsigned_digits(s: Seq<char>) -> Seq<char> {
    if s.len() > 0 && s[0] == '+' {
        s.drop_first()
    } else {
        s
    }
}

/// Every character of `d` is an ASCII digit.
pub open spec fn all_digits(d: Seq<char>) -> bool {
    forall|i: int| 0 <= i < d.len() ==> is_digit(#[trigger] d[i])
}

/// `s` parsed as `u32` the way `str::parse::<u32>` does: an optional `+`, then
/// at least one ASCII digit, and a value that fits.
pub open spec fn parse_u32(s: Seq<char>) -> Option<u32> {
    let d = unsigned_digits(s);
    if d.len() == 0 || !all_digits(d) || digits_value(d) > u32::MAX {
        None
    } else {
        Some(digits_value(d) as u32)
    }
}

/// Parses an unsigned 32-bit number as `str::parse::<u32>` does.
pub fn parse_u32_chars(s: &Vec<char>, from: usize) -> (r: Option<u32>)
    requires
        from <= s@.len(),
    ensures
        r == parse_u32(s@.subrange(from as int, s@.len() as int)),
{
    let ghost whole = s@.subrange(from as int, s@.len() as int);
    let mut i = from;
    if i < s.len() && s[i] == '+' {
        i = i + 1;
    }
    let ghost d = s@.subrange(i as int, s@.len() as int);
    assert(d == unsigned_digits(whole)) by {
        if whole.len() > 0 && whole[0] == '+' {
            assert(whole.drop_first() =~= d);
        } else {
            assert(whole =~= d);
        }
    }
    if i == s.len() {
        return None;
    }
    let start = i;
    let mut value: u64 = 0;
    let mut overflow = false;
    while i < s.len()
        invariant
            start <= i <= s@.len(),
            start < s@.len(),
            whole == s@.subrange(from as int, s@.len() as int),
            d == s@.subrange(start as int, s@.len() as int),
            d == unsigned_digits(whole),
            forall|k: int| start <= k < i ==> is_digit(#[trigger] s@[k]),
            !overflow ==> value == digits_value(s@.subrange(start as int, i as int)) && value <= u32::MAX,
            overflow ==> digits_value(s@.subrange(start as int, i as int)) > u32::MAX,
        decreases s@.len() - i,
    {
        let c = s[i];
        if !(c >= '0' && c <= '9') {
            proof {
                assert(d[i - start] == c);
                assert(!is_digit(d[i - start]));
                assert(!all_digits(d));
                assert(parse_u32(whole) is None);
            }
            return None;
        }
        let ghost prev = s@.subrange(start as int, i as int);
        assert(s@.subrange(start as int, i + 1).drop_last() =~= prev);
        let dv = (c as u32 - '0' as u32) as u64;
        assert(dv == digit_value(c));
        if !overflow {
            value = value * 10 + dv;
            if value > 0xFFFF_FFFF {
                overflow = true;
            }
        } else {
            proof {
                assert(digits_value(s@.subrange(start as int, i + 1)) == digits_value(prev) * 10 + digit_value(c));
                assert(digits_value(prev) * 10 + digit_value(c) > u32::MAX) by (nonlinear_arith)
                    requires
                        digits_value(prev) > u32::MAX,
                ;
            }
        }
        i = i + 1;
    }
    assert(s@.subrange(start as int, s@.len() as int) =~= d);
    if overflow {
        None
    } else {
        Some(value as u32)
    }
}

/// The number of a label of the form `V<number>`.
pub open spec fn version_number(label: Seq<char>) -> Option<u32> {
    if label.len() > 0 && label[0] == 'V' {
        parse_u32(label.drop_first())
    } else {
        None
    }
}

/// Largest version number among the labels (0 when none).
pub open spec fn max_version_number(labels: Seq<Seq<char>>) -> nat
    decreases labels.len(),
{
    if labels.len() == 0 {
        0
    } else {
        let rest = max_version_number(labels.drop_last());
        match version_number(labels.last()) {
            Some(n) => if n > rest {
                n as nat
            } else {
                rest
            },
            None => rest,
        }
    }
}

pub open spec fn version_labels(versions: Seq<VersionInfo>) -> Seq<Seq<char>> {
    versions.map_values(|v: VersionInfo| v.label@)
}

/// Number of a version label, when it is `V<number>`.
pub fn label_number(label: &str) -> (r: Option<u32>)
    ensures
        r == version_number(label@),
{
    let chars = str_chars(label);
    if chars.len() > 0 && chars[0] == 'V' {
        let r = parse_u32_chars(&chars, 1);
        assert(chars@.subrange(1, chars@.len() as int) =~= label@.drop_first());
        r
    } else {
        None
    }
}

/// Next free version label ("V1", "V2", …): one above the largest numeric
/// label already given, so that no number is handed out twice, even after
/// deletions.
pub fn next_version_label(versions: &Vec<VersionInfo>) -> (s: String)
    requires
        max_version_number(version_labels(versions@)) < u32::MAX,
    ensures
        s@ == seq!['V'] + decimal(max_version_number(version_labels(versions@)) + 1),
{
    let ghost labels = version_labels(versions@);
    let mut max: u32 = 0;
    let mut i: usize = 0;
    while i < versions.len()
        invariant
            i <= versions@.len(),
            labels == version_labels(versions@),
            max == max_version_number(labels.subrange(0, i as int)),
        decreases versions.len() - i,
    {
        assert(labels.subrange(0, i + 1).drop_last() =~= labels.subrange(0, i as int));
        match label_number(versions[i].label.as_str()) {
            Some(n) => {
                if n > max {
                    max = n;
                }
            },
            None => {},
        }
        i = i + 1;
    }
    assert(labels.subrange(0, versions.len() as int) =~= labels);
    let mut out: Vec<char> = Vec::new();
    out.push('V');
    push_digits(&mut out, max as u64 + 1, 10);
    assert(out@ =~= seq!['V'] + decimal(max_version_number(labels) + 1));
    string_from_chars(&out)
}

/// The label given after `next_version_label` is larger than every numbered
/// label before it, so it is new.
pub proof fn next_label_is_new(labels: Seq<Seq<char>>, i: int)
    requires
        0 <= i < labels.len(),
    ensures
        version_number(labels[i]) matches Some(n) ==> n < max_version_number(labels) + 1,
    decreases labels.len(),
{
    if i < labels.len() - 1 {
        next_label_is_new(labels.drop_last(), i);
        assert(labels.drop_last()[i] == labels[i]);
    }
}

/// The ids of a version list.
pub open spec fn version_ids(versions: Seq<VersionInfo>) -> Seq<Seq<char>> {
    versions.map_values(|v: VersionInfo| v.id@)
}

/// `i` is the first version with id `id`.
pub open spec fn is_version_at(versions: Seq<VersionInfo>, id: Seq<char>, i: int) -> bool {
    0 <= i < versions.len() && versions[i].id@ == id && forall|k: int|
        0 <= k < i ==> versions[k].id@ != id
}

/// Some version has id `id`.
pub open spec fn has_version(versions: Seq<VersionInfo>, id: Seq<char>) -> bool {
    exists|k: int| 0 <= k < versions.len() && #[trigger] versions[k].id@ == id
}

/// Position of the version with id `id` (the current one, when `id` is the
/// project's current version).
pub fn find_version(versions: &Vec<VersionInfo>, id: &str) -> (r: Option<usize>)
    ensures
        match r {
            Some(i) => is_version_at(versions@, id@, i as int),
            None => !has_version(versions@, id@),
        },
{
    let mut i: usize = 0;
    while i < versions.len()
        invariant
            i <= versions@.len(),
            forall|k: int| 0 <= k < i ==> versions@[k].id@ != id@,
        decreases versions.len() - i,
    {
        if str_eq(versions[i].id.as_str(), id) {
            return Some(i);
        }
        i = i + 1;
    }
    None
}

/// Is the current version the last of the list (or the list empty)? Then an
/// ordinary save updates it in place; otherwise an older version was loaded
/// and the first save branches into a new one.
pub fn current_is_last(versions: &Vec<VersionInfo>, current: &str) -> (r: bool)
    ensures
        r == (versions@.len() == 0 || versions@.last().id@ == current@),
{
    if versions.len() == 0 {
        true
    } else {
        str_eq(versions[versions.len() - 1].id.as_str(), current)
    }
}

/// Label given to the `i`-th version of an old file that has none.
pub open spec fn default_label(i: nat) -> Seq<char> {
    seq!['V'] + decimal(i + 1)
}

/// `new` is `old` with every empty label replaced by the label of its
/// position.
pub open spec fn labels_filled(old: Seq<VersionInfo>, new: Seq<VersionInfo>) -> bool {
    &&& new.len() == old.len()
    &&& forall|i: int|
        0 <= i < old.len() ==> {
            let (o, n) = (#[trigger] old[i], new[i]);
            &&& n.id == o.id
            &&& n.created_at == o.created_at
            &&& n.note == o.note
            &&& n.label@ == if o.label@.len() == 0 {
                default_label(i as nat)
            } else {
                o.label@
            }
        }
}

/// Labelling is idempotent: after one pass every version has a label, and a
/// second pass keeps all labels.
pub proof fn labelling_is_idempotent(v0: Seq<VersionInfo>, v1: Seq<VersionInfo>, v2: Seq<VersionInfo>)
    requires
        labels_filled(v0, v1),
        labels_filled(v1, v2),
    ensures
        forall|i: int| 0 <= i < v1.len() ==> (#[trigger] v1[i]).label@.len() > 0,
        forall|i: int| 0 <= i < v2.len() ==> (#[trigger] v2[i]).label@ == v1[i].label@,
{
    assert forall|i: int| 0 <= i < v1.len() implies (#[trigger] v1[i]).label@.len() > 0 by {
        let o = v0[i];
        if o.label@.len() == 0 {
            assert(default_label(i as nat).len() > 0);
        }
    }
    assert forall|i: int| 0 <= i < v2.len() implies (#[trigger] v2[i]).label@ == v1[i].label@ by {
        assert(v1[i].label@.len() > 0);
    }
}

/// Gives every unlabelled version the label of its position (`V1`, `V2`, …);
/// labelled versions are kept as they are.
pub fn label_unlabelled_versions(versions: &mut Vec<VersionInfo>)
    requires
        old(versions)@.len() < u64::MAX,
    ensures
        labels_filled(old(versions)@, final(versions)@),
{
    let ghost orig = versions@;
    let mut i: usize = 0;
    while i < versions.len()
        invariant
            i <= versions@.len() == orig.len() < u64::MAX,
            forall|k: int|
                i <= k < orig.len() ==> #[trigger] versions@[k] == orig[k],
            forall|k: int|
                0 <= k < i ==> {
                    let (o, n) = (#[trigger] orig[k], versions@[k]);
                    &&& n.id == o.id
                    &&& n.created_at == o.created_at
                    &&& n.note == o.note
                    &&& n.label@ == if o.label@.len() == 0 {
                        default_label(k as nat)
                    } else {
                        o.label@
                    }
                },
        decreases versions.len() - i,
    {
        if versions[i].label.unicode_len() == 0 {
            let mut label: Vec<char> = Vec::new();
            label.push('V');
            push_digits(&mut label, i as u64 + 1, 10);
            assert(label@ =~= default_label(i as nat));
            let v = VersionInfo {
                id: versions[i].id.clone(),
                label: string_from_chars(&label),
                created_at: versions[i].created_at.clone(),
                note: versions[i].note.clone(),
            };
            versions.set(i, v);
        }
        i = i + 1;
    }
}

/// What making sure that a current version exists does: nothing when the
/// pointer already names a version; otherwise the last version becomes
/// current, or, in an empty list, a first version `V1` with a fresh id.
pub open spec fn current_ensured(
    old_versions: Seq<VersionInfo>,
    old_current: Seq<char>,
    versions: Seq<VersionInfo>,
    current: Seq<char>,
    created_at: Seq<char>,
) -> bool {
    &&& has_version(old_versions, old_current) ==> versions == old_versions && current
        == old_current
    &&& !has_version(old_versions, old_current) && old_versions.len() > 0 ==> versions
        == old_versions && current == old_versions.last().id@
    &&& !has_version(old_versions, old_current) && old_versions.len() == 0 ==> {
        &&& versions.len() == 1
        &&& versions[0].id@ == current
        &&& exists|nanos: u128, entropy: u128| current == id_spec(nanos, entropy)
        &&& versions[0].label@ == "V1"@
        &&& versions[0].created_at@ == created_at
        &&& versions[0].note@.len() == 0
    }
    &&& has_version(versions, current)
}

/// Migrating an old project file is idempotent: a second migration changes
/// nothing.
pub proof fn migration_is_idempotent(
    v0: Seq<VersionInfo>,
    c0: Seq<char>,
    v1: Seq<VersionInfo>,
    c1: Seq<char>,
    v2: Seq<VersionInfo>,
    c2: Seq<char>,
    t1: Seq<char>,
    t2: Seq<char>,
)
    requires
        current_ensured(v0, c0, v1, c1, t1),
        current_ensured(v1, c1, v2, c2, t2),
    ensures
        v2 == v1,
        c2 == c1,
{
}

/// Makes sure `current` names a version. When it already does, nothing
/// changes. Otherwise the last version becomes current, and when there is
/// none a first version `V1` (created at `created_at`, with a fresh id) is
/// added and becomes current.
pub fn ensure_current_version(
    versions: &mut Vec<VersionInfo>,
    current: &mut String,
    created_at: &String,
)
    ensures
        current_ensured(old(versions)@, old(current)@, final(versions)@, final(current)@, created_at@),
{
    match find_version(versions, current.as_str()) {
        Some(i) => {
            assert(versions@[i as int].id@ == current@);
        },
        None => {
            if versions.len() > 0 {
                *current = versions[versions.len() - 1].id.clone();
                assert(versions@[versions@.len() - 1].id@ == current@);
            } else {
                let id = gen_id();
                proof {
                    reveal_strlit("V1");
                }
                let v1 = VersionInfo {
                    id: id.clone(),
                    label: "V1".to_owned(),
                    created_at: created_at.clone(),
                    note: String::new(),
                };
                *current = id;
                versions.push(v1);
                assert(versions@[0].id@ == current@);
            }
        },
    }
}

/// A copy of `v`.
pub fn copy_version(v: &VersionInfo) -> (c: VersionInfo)
    ensures
        c == *v,
{
    VersionInfo {
        id: v.id.clone(),
        label: v.label.clone(),
        created_at: v.created_at.clone(),
        note: v.note.clone(),
    }
}

/// Appends a new version (label: the next free number) and makes it
/// current; returns it.
pub fn push_new_version(
    versions: &mut Vec<VersionInfo>,
    current: &mut String,
    id: String,
    created_at: String,
    note: String,
) -> (v: VersionInfo)
    requires
        max_version_number(version_labels(old(versions)@)) < u32::MAX,
    ensures
        v.id == id,
        v.label@ == seq!['V'] + decimal(max_version_number(version_labels(old(versions)@)) + 1),
        v.created_at == created_at,
        v.note == note,
        final(versions)@ == old(versions)@.push(v),
        final(current)@ == id@,
{
    let label = next_version_label(versions);
    let v = VersionInfo { id: id.clone(), label, created_at, note };
    *current = id;
    versions.push(copy_version(&v));
    v
}

/// Message when the only version would be deleted.
pub open spec fn last_version_refusal() -> Seq<char> {
    "Die letzte Version kann nicht gelöscht werden."@
}

/// Message when the version to delete does not exist.
pub open spec fn unknown_version_refusal() -> Seq<char> {
    "Version nicht gefunden."@
}

/// What removing version `id` from a project does (see `remove_version`).
pub open spec fn removal_outcome(
    old_versions: Seq<VersionInfo>,
    old_current: Seq<char>,
    versions: Seq<VersionInfo>,
    current: Seq<char>,
    id: Seq<char>,
    r: Result<bool, String>,
) -> bool {
    &&& old_versions.len() <= 1 ==> r is Err && r->Err_0@ == last_version_refusal()
    &&& old_versions.len() > 1 && !has_version(old_versions, id) ==> r is Err && r->Err_0@
        == unknown_version_refusal()
    &&& r is Err ==> versions == old_versions && current == old_current
    &&& r is Ok ==> exists|idx: int|
        {
            &&& is_version_at(old_versions, id, idx)
            &&& versions == old_versions.remove(idx)
            &&& r == Ok::<bool, String>(old_current == id)
            &&& old_current == id ==> current == versions[if idx > 0 {
                idx - 1
            } else {
                0
            }].id@
            &&& old_current != id ==> current == old_current
        }
    &&& old_versions.len() > 1 && has_version(old_versions, id) ==> r is Ok
}

/// Removes version `version_id` from the list. The only remaining version
/// cannot be removed. When the removed version was current, the one before
/// it (or else the first) becomes current and `Ok(true)` tells the caller to
/// load its snapshot.
pub fn remove_version(versions: &mut Vec<VersionInfo>, current: &mut String, version_id: &str) -> (r:
    Result<bool, String>)
    ensures
        removal_outcome(
            old(versions)@,
            old(current)@,
            final(versions)@,
            final(current)@,
            version_id@,
            r,
        ),
{
    if versions.len() <= 1 {
        return Err("Die letzte Version kann nicht gelöscht werden.".to_owned());
    }
    let idx = match find_version(versions, version_id) {
        Some(i) => i,
        None => {
            return Err("Version nicht gefunden.".to_owned());
        },
    };
    let was_current = str_eq(current.as_str(), version_id);
    versions.remove(idx);
    if was_current {
        let back = if idx > 0 {
            idx - 1
        } else {
            0
        };
        let new_idx = if back < versions.len() - 1 {
            back
        } else {
            versions.len() - 1
        };
        *current = versions[new_idx].id.clone();
    }
    assert(is_version_at(old(versions)@, version_id@, idx as int));
    Ok(was_current)
}

/// Deleting versions never leaves a project without one, and the current
/// version always names a version that remains.
pub proof fn a_version_always_remains(
    old_versions: Seq<VersionInfo>,
    old_current: Seq<char>,
    versions: Seq<VersionInfo>,
    current: Seq<char>,
    id: Seq<char>,
    r: Result<bool, String>,
)
    requires
        removal_outcome(old_versions, old_current, versions, current, id, r),
        old_versions.len() >= 1,
        has_version(old_versions, old_current),
    ensures
        versions.len() >= 1,
        has_version(versions, current),
{
    if r is Ok {
        let idx = choose|idx: int|
            {
                &&& is_version_at(old_versions, id, idx)
                &&& versions == old_versions.remove(idx)
                &&& r == Ok::<bool, String>(old_current == id)
                &&& old_current == id ==> current == versions[if idx > 0 {
                    idx - 1
                } else {
                    0
                }].id@
                &&& old_current != id ==> current == old_current
            };
        if old_current == id {
            let j = if idx > 0 {
                idx - 1
            } else {
                0
            };
            assert(versions[j].id@ == current);
        } else {
            let k = choose|k: int| 0 <= k < old_versions.len() && #[trigger] old_versions[k].id@ == old_current;
            assert(k != idx);
            if k < idx {
                assert(versions[k] == old_versions[k]);
            } else {
                assert(versions[k - 1] == old_versions[k]);
            }
        }
    }
}

/// The texts of `s` in order of their first occurrence, each once.
pub open spec fn first_occurrences(s: Seq<Seq<char>>) -> Seq<Seq<char>>
    decreases s.len(),
{
    if s.len() == 0 {
        s
    } else {
        let r = first_occurrences(s.drop_last());
        if r.contains(s.last()) {
            r
        } else {
            r.push(s.last())
        }
    }
}

/// The asset references of a project: the asset ids of its image shapes
/// (given in shape order), each once, in order of first occurrence.
pub fn unique_asset_refs(image_assets: &Vec<String>) -> (r: Vec<String>)
    ensures
        strs_view(r@) == first_occurrences(strs_view(image_assets@)),
{
    let ghost all = strs_view(image_assets@);
    let mut refs: Vec<String> = Vec::new();
    let mut i: usize = 0;
    while i < image_assets.len()
        invariant
            i <= image_assets@.len(),
            all == strs_view(image_assets@),
            strs_view(refs@) == first_occurrences(all.subrange(0, i as int)),
        decreases image_assets.len() - i,
    {
        assert(all.subrange(0, i + 1).drop_last() =~= all.subrange(0, i as int));
        match find_str(&refs, image_assets[i].as_str()) {
            Some(k) => {
                assert(strs_view(refs@)[k as int] == all[i as int]);
            },
            None => {
                refs.push(image_assets[i].clone());
                assert(strs_view(refs@) =~= first_occurrences(all.subrange(0, i as int)).push(
                    all[i as int],
                ));
            },
        }
        i = i + 1;
    }
    assert(all.subrange(0, image_assets@.len() as int) =~= all);
    refs
}

/// The asset references name every asset of the project and none twice.
pub proof fn asset_refs_are_unique_and_complete(s: Seq<Seq<char>>)
    ensures
        first_occurrences(s).no_duplicates(),
        forall|x: Seq<char>| s.contains(x) <==> first_occurrences(s).contains(x),
    decreases s.len(),
{
    if s.len() > 0 {
        let d = s.drop_last();
        asset_refs_are_unique_and_complete(d);
        let r = first_occurrences(d);
        assert forall|x: Seq<char>| s.contains(x) <==> first_occurrences(s).contains(x) by {
            if s.contains(x) {
                let k = choose|k: int| 0 <= k < s.len() && s[k] == x;
                if k < s.len() - 1 {
                    assert(d[k] == x);
                    assert(d.contains(x));
                } else {
                    assert(x == s.last());
                }
                if !r.contains(s.last()) {
                    if r.contains(x) {
                        let j = choose|j: int| 0 <= j < r.len() && r[j] == x;
                        assert(r.push(s.last())[j] == x);
                    }
                    if x == s.last() {
                        assert(r.push(s.last())[r.len() as int] == x);
                    }
                }
            }
            if first_occurrences(s).contains(x) {
                if r.contains(x) {
                    assert(d.contains(x));
                    let k = choose|k: int| 0 <= k < d.len() && d[k] == x;
                    assert(s[k] == x);
                } else {
                    assert(x == s.last());
                    assert(s[s.len() - 1] == x);
                }
            }
        }
    }
}

proof fn lemma_digit_char_value(d: nat)
    requires
        d < 10,
    ensures
        digit_value(crate::chars::digit_char(d)) == d,
        is_digit(crate::chars::digit_char(d)),
{
}

/// Reading back the decimal notation of `n` gives `n`, and it consists of
/// digits only.
pub proof fn decimal_reads_back(n: nat)
    ensures
        digits_value(decimal(n)) == n,
        all_digits(decimal(n)),
        decimal(n).len() > 0,
    decreases n,
{
    reveal_with_fuel(crate::chars::digits, 2);
    reveal_with_fuel(digits_value, 2);
    lemma_digit_char_value(n % 10);
    if n < 10 {
        assert(n % 16 == n % 10);
        assert(decimal(n).drop_last() =~= Seq::<char>::empty());
    } else {
        crate::chars::lemma_div_smaller(n, 10);
        decimal_reads_back(n / 10);
        let d = decimal(n / 10);
        assert(decimal(n) == d.push(crate::chars::digit_char(n % 10)));
        assert(decimal(n).drop_last() =~= d);
        assert(decimal(n).last() == crate::chars::digit_char(n % 10));
        assert(digits_value(decimal(n)) == digits_value(d) * 10 + digit_value(decimal(n).last()));
        assert(n == (n / 10) * 10 + n % 10);
        assert forall|i: int| 0 <= i < decimal(n).len() implies is_digit(#[trigger] decimal(n)[i]) by {
            if i < d.len() {
                assert(decimal(n)[i] == d[i]);
            }
        }
    }
}

/// Different numbers have different decimal notations.
pub proof fn decimal_injective(a: nat, b: nat)
    requires
        decimal(a) == decimal(b),
    ensures
        a == b,
{
    decimal_reads_back(a);
    decimal_reads_back(b);
}

/// The label handed out next reads back as the number one above the largest
/// numbered label: it is a well-formed version label.
pub proof fn next_label_reads_back(n: nat)
    requires
        n < u32::MAX,
    ensures
        version_number(seq!['V'] + decimal(n + 1)) == Some((n + 1) as u32),
{
    decimal_reads_back(n + 1);
    let l = seq!['V'] + decimal(n + 1);
    assert(l.drop_first() =~= decimal(n + 1));
    assert(unsigned_digits(decimal(n + 1)) == decimal(n + 1));
}

/// Format version of the project files written now.
pub const FORMAT_VERSION: u32 = 1;

/// A project file: stable identity, metadata, the ordered versions with the
/// current one, and the drawing of the current version. The bed size is held
/// by the caller under the key `bed`.
pub struct ProjectFile {
    pub version: u32,
    pub id: String,
    pub name: String,
    pub description: String,
    pub tags: Vec<String>,
    pub created_at: String,
    pub modified_at: String,
    /// Ids of the assets the drawing uses, each once.
    pub asset_refs: Vec<String>,
    pub versions: Vec<VersionInfo>,
    /// Id of the current version: the one on the canvas.
    pub current_version: String,
    pub bed: u64,
    pub layers: Vec<Layer>,
    pub shapes: Vec<Shape>,
}

/// Everything of a project file but its drawing, bed, asset references and
/// modification time is the same in `a` and `b`.
pub open spec fn same_identity(a: ProjectFile, b: ProjectFile) -> bool {
    &&& a.version == b.version
    &&& a.id == b.id
    &&& a.name == b.name
    &&& a.description == b.description
    &&& a.tags == b.tags
    &&& a.created_at == b.created_at
}

impl ProjectFile {
    /// A new project file from the editor state: fresh id and time stamps,
    /// and a first version `V1` that is current.
    pub fn from_state(
        state: &AppState,
        name: String,
        tags: Vec<String>,
        bed: u64,
        image_assets: &Vec<String>,
    ) -> (pf: ProjectFile)
        ensures
            pf.version == FORMAT_VERSION,
            exists|nanos: u128, entropy: u128| pf.id@ == id_spec(nanos, entropy),
            pf.name == name,
            pf.description@.len() == 0,
            pf.tags == tags,
            exists|secs: u64| pf.created_at@ == iso8601_spec(secs),
            pf.modified_at == pf.created_at,
            strs_view(pf.asset_refs@) == first_occurrences(strs_view(image_assets@)),
            pf.versions@.len() == 1,
            pf.versions@[0].label@ == "V1"@,
            pf.versions@[0].created_at == pf.created_at,
            pf.versions@[0].note@.len() == 0,
            exists|nanos: u128, entropy: u128| pf.versions@[0].id@ == id_spec(nanos, entropy),
            pf.current_version == pf.versions@[0].id,
            pf.bed == bed,
            layer_views(pf.layers@) == state@.current.layers,
            pf.shapes@ == state@.current.shapes,
    {
        let now = now_iso8601();
        let first_id = gen_id();
        let v1 = VersionInfo {
            id: first_id.clone(),
            label: "V1".to_owned(),
            created_at: now.clone(),
            note: String::new(),
        };
        let (layers, shapes) = state.drawing();
        let mut versions: Vec<VersionInfo> = Vec::new();
        versions.push(v1);
        ProjectFile {
            version: FORMAT_VERSION,
            id: gen_id(),
            name,
            description: String::new(),
            tags,
            created_at: now.clone(),
            modified_at: now,
            asset_refs: unique_asset_refs(image_assets),
            versions,
            current_version: first_id,
            bed,
            layers,
            shapes,
        }
    }

    /// Takes the editor state over into the current version (ordinary save):
    /// drawing, bed and asset references change and the modification time is
    /// set; identity, metadata and versions stay.
    pub fn update_from_state(&mut self, state: &AppState, bed: u64, image_assets: &Vec<String>)
        ensures
            same_identity(*final(self), *old(self)),
            final(self).versions == old(self).versions,
            final(self).current_version == old(self).current_version,
            final(self).bed == bed,
            layer_views(final(self).layers@) == state@.current.layers,
            final(self).shapes@ == state@.current.shapes,
            strs_view(final(self).asset_refs@) == first_occurrences(strs_view(image_assets@)),
            exists|secs: u64| final(self).modified_at@ == iso8601_spec(secs),
    {
        let (layers, shapes) = state.drawing();
        self.layers = layers;
        self.shapes = shapes;
        self.bed = bed;
        self.asset_refs = unique_asset_refs(image_assets);
        self.modified_at = now_iso8601();
    }

    /// Derives the asset references from the asset ids of the image shapes
    /// (in shape order): each once, in order of first occurrence.
    pub fn sync_asset_refs(&mut self, image_assets: &Vec<String>)
        ensures
            strs_view(final(self).asset_refs@) == first_occurrences(strs_view(image_assets@)),
            same_identity(*final(self), *old(self)),
            final(self).modified_at == old(self).modified_at,
            final(self).versions == old(self).versions,
            final(self).current_version == old(self).current_version,
    {
        self.asset_refs = unique_asset_refs(image_assets);
    }

    /// The next free version label.
    pub fn next_label(&self) -> (s: String)
        requires
            max_version_number(version_labels(self.versions@)) < u32::MAX,
        ensures
            s@ == seq!['V'] + decimal(max_version_number(version_labels(self.versions@)) + 1),
    {
        next_version_label(&self.versions)
    }

    /// The current version, when the pointer names one.
    pub fn current(&self) -> (r: Option<&VersionInfo>)
        ensures
            match r {
                Some(v) => exists|i: int| is_version_at(self.versions@, self.current_version@, i) && *v
                    == self.versions@[i],
                None => !has_version(self.versions@, self.current_version@),
            },
    {
        match find_version(&self.versions, self.current_version.as_str()) {
            Some(i) => {
                assert(is_version_at(self.versions@, self.current_version@, i as int));
                Some(&self.versions[i])
            },
            None => None,
        }
    }

    /// A fresh editor state on the project's drawing: last layer active,
    /// nothing selected, empty history, not dirty.
    pub fn into_state(self) -> (s: AppState)
        ensures
            s@ == loaded_state(self.layers@, self.shapes@),
    {
        AppState::from_project(self.layers, self.shapes)
    }

    /// Is the current version the last one (or the list empty)?
    pub fn current_is_last(&self) -> (r: bool)
        ensures
            r == (self.versions@.len() == 0 || self.versions@.last().id@ == self.current_version@),
    {
        current_is_last(&self.versions, self.current_version.as_str())
    }

    /// Brings a file of the older format into the version model: unlabelled
    /// versions get the label of their position, and the current-version
    /// pointer is made to name a version (see `current_ensured`).
    pub fn migrate(&mut self)
        requires
            old(self).versions@.len() < u64::MAX,
        ensures
            same_identity(*final(self), *old(self)),
            exists|labelled: Seq<VersionInfo>|
                labels_filled(old(self).versions@, labelled) && current_ensured(
                    labelled,
                    old(self).current_version@,
                    final(self).versions@,
                    final(self).current_version@,
                    old(self).created_at@,
                ),
    {
        label_unlabelled_versions(&mut self.versions);
        let ghost labelled = self.versions@;
        let created = self.created_at.clone();
        ensure_current_version(&mut self.versions, &mut self.current_version, &created);
    }

    /// Freezes the drawing as the next version (next free label, fresh id,
    /// now, `note`) and makes it current.
    pub fn add_version(&mut self, note: String) -> (v: VersionInfo)
        requires
            max_version_number(version_labels(old(self).versions@)) < u32::MAX,
        ensures
            same_identity(*final(self), *old(self)),
            final(self).versions@ == old(self).versions@.push(v),
            final(self).current_version@ == v.id@,
            v.label@ == seq!['V'] + decimal(max_version_number(version_labels(old(self).versions@)) + 1),
            v.note == note,
            exists|nanos: u128, entropy: u128| v.id@ == id_spec(nanos, entropy),
            exists|secs: u64| v.created_at@ == iso8601_spec(secs),
            final(self).modified_at == v.created_at,
            final(self).layers == old(self).layers,
            final(self).shapes == old(self).shapes,
    {
        let now = now_iso8601();
        let id = gen_id();
        let v = push_new_version(&mut self.versions, &mut self.current_version, id, now.clone(), note);
        self.modified_at = now;
        v
    }

    /// Ordinary save: when the current version is the last, it is updated in
    /// place (the modification time is set and it is returned); when an
    /// older version was loaded, the save branches into a new version
    /// instead of overwriting it. A pointer that names no version is
    /// refused.
    pub fn save_current(&mut self) -> (r: Result<VersionInfo, String>)
        requires
            max_version_number(version_labels(old(self).versions@)) < u32::MAX,
        ensures
            same_identity(*final(self), *old(self)),
            !(old(self).versions@.len() == 0 || old(self).versions@.last().id@
                == old(self).current_version@) ==> r is Ok && final(self).versions@
                == old(self).versions@.push(r->Ok_0) && final(self).current_version@ == r->Ok_0.id@
                && r->Ok_0.note@.len() == 0,
            (old(self).versions@.len() == 0 || old(self).versions@.last().id@
                == old(self).current_version@) ==> final(self).versions == old(self).versions
                && final(self).current_version == old(self).current_version && match r {
                Ok(v) => exists|i: int|
                    is_version_at(old(self).versions@, old(self).current_version@, i) && v
                        == old(self).versions@[i],
                Err(m) => !has_version(old(self).versions@, old(self).current_version@) && m@
                    == "Aktuelle Version fehlt."@,
            },
    {
        if !self.current_is_last() {
            return Ok(self.branch_from_current());
        }
        self.modified_at = now_iso8601();
        match self.current() {
            Some(v) => Ok(copy_version(v)),
            None => Err("Aktuelle Version fehlt.".to_owned()),
        }
    }

    /// The first save after loading an older version: a new version from
    /// the drawing, with no note.
    pub fn branch_from_current(&mut self) -> (v: VersionInfo)
        requires
            max_version_number(version_labels(old(self).versions@)) < u32::MAX,
        ensures
            same_identity(*final(self), *old(self)),
            final(self).versions@ == old(self).versions@.push(v),
            final(self).current_version@ == v.id@,
            v.label@ == seq!['V'] + decimal(max_version_number(version_labels(old(self).versions@)) + 1),
            v.note@.len() == 0,
    {
        self.add_version(String::new())
    }

    /// Deletes version `version_id` from the list (see `remove_version`);
    /// `Ok(true)` asks the caller to load the snapshot of the version that
    /// became current and hand it over with `set_drawing`.
    pub fn delete_version(&mut self, version_id: &str) -> (r: Result<bool, String>)
        ensures
            same_identity(*final(self), *old(self)),
            removal_outcome(
                old(self).versions@,
                old(self).current_version@,
                final(self).versions@,
                final(self).current_version@,
                version_id@,
                r,
            ),
    {
        let r = remove_version(&mut self.versions, &mut self.current_version, version_id);
        if r.is_ok() {
            self.modified_at = now_iso8601();
        }
        r
    }

    /// Puts the drawing and bed of a version snapshot in place.
    pub fn set_drawing(&mut self, layers: Vec<Layer>, shapes: Vec<Shape>, bed: u64)
        ensures
            same_identity(*final(self), *old(self)),
            final(self).versions == old(self).versions,
            final(self).current_version == old(self).current_version,
            final(self).layers == layers,
            final(self).shapes == shapes,
            final(self).bed == bed,
    {
        self.layers = layers;
        self.shapes = shapes;
        self.bed = bed;
    }
}

/// A project name as given: trimmed of white space at both ends. An empty
/// name is refused with `message`.
fn trimmed_name(name: &str, message: &str) -> (r: Result<String, AppError>)
    ensures
        trim(name@).len() > 0 ==> r is Ok && r->Ok_0@ == trim(name@),
        trim(name@).len() == 0 ==> r is Err && r->Err_0@ == (AppErrorView {
            code: "project_name_empty"@,
            message: message@,
            details: None,
        }),
{
    let t = trim_chars(&str_chars(name));
    if t.len() == 0 {
        return Err(AppError::new("project_name_empty", message.to_owned()));
    }
    Ok(string_from_chars(&t))
}

/// The name of a new project: trimmed, and not empty.
pub fn new_project_name(name: &str) -> (r: Result<String, AppError>)
    ensures
        trim(name@).len() > 0 ==> r is Ok && r->Ok_0@ == trim(name@),
        trim(name@).len() == 0 ==> r is Err && r->Err_0@ == (AppErrorView {
            code: "project_name_empty"@,
            message: "Bitte einen Projektnamen angeben."@,
            details: None,
        }),
{
    trimmed_name(name, "Bitte einen Projektnamen angeben.")
}

/// The new name of a renamed project: trimmed, and not empty.
pub fn renamed_project_name(name: &str) -> (r: Result<String, AppError>)
    ensures
        trim(name@).len() > 0 ==> r is Ok && r->Ok_0@ == trim(name@),
        trim(name@).len() == 0 ==> r is Err && r->Err_0@ == (AppErrorView {
            code: "project_name_empty"@,
            message: "Bitte einen neuen Projektnamen angeben."@,
            details: None,
        }),
{
    trimmed_name(name, "Bitte einen neuen Projektnamen angeben.")
}

/// The refusal of a project action while no project is open.
pub fn no_open_project() -> (e: AppError)
    ensures
        e@ == (AppErrorView {
            code: "no_open_project"@,
            message: "Kein Projekt offen — erst anlegen oder öffnen."@,
            details: None,
        }),
{
    AppError::new("no_open_project", "Kein Projekt offen — erst anlegen oder öffnen.".to_owned())
}

fn copy_strings(v: &Vec<String>) -> (r: Vec<String>)
    ensures
        r@ == v@,
{
    let mut r: Vec<String> = Vec::new();
    let mut i: usize = 0;
    while i < v.len()
        invariant
            i <= v@.len(),
            r@ =~= v@.subrange(0, i as int),
        decreases v.len() - i,
    {
        r.push(v[i].clone());
        i = i + 1;
    }
    assert(v@.subrange(0, v@.len() as int) =~= v@);
    r
}

fn copy_versions(v: &Vec<VersionInfo>) -> (r: Vec<VersionInfo>)
    ensures
        r@ == v@,
{
    let mut r: Vec<VersionInfo> = Vec::new();
    let mut i: usize = 0;
    while i < v.len()
        invariant
            i <= v@.len(),
            r@ =~= v@.subrange(0, i as int),
        decreases v.len() - i,
    {
        r.push(copy_version(&v[i]));
        i = i + 1;
    }
    assert(v@.subrange(0, v@.len() as int) =~= v@);
    r
}

impl ProjectDetail {
    /// The metadata and versions of a project file, without its drawing.
    pub fn from_file(pf: &ProjectFile) -> (d: ProjectDetail)
        ensures
            d.name == pf.name,
            d.description == pf.description,
            d.tags@ == pf.tags@,
            d.created_at == pf.created_at,
            d.modified_at == pf.modified_at,
            d.versions@ == pf.versions@,
            d.current_version == pf.current_version,
    {
        ProjectDetail {
            name: pf.name.clone(),
            description: pf.description.clone(),
            tags: copy_strings(&pf.tags),
            created_at: pf.created_at.clone(),
            modified_at: pf.modified_at.clone(),
            versions: copy_versions(&pf.versions),
            current_version: pf.current_version.clone(),
        }
    }
}

/// `base` joined with the relative path `part`: a separator between them
/// unless `base` already ends with one.
pub open spec fn joined(base: Seq<char>, part: Seq<char>) -> Seq<char> {
    if base.len() > 0 && base.last() == '/' {
        base + part
    } else {
        base + seq!['/'] + part
    }
}

/// An environment value counts when it is set and not empty.
pub open spec fn given(v: Option<String>) -> bool {
    v matches Some(s) && s@.len() > 0
}

/// The base data directory: `LUXIFER_DATA_DIR`, else `luxifer` under
/// `XDG_DATA_HOME`, else `.local/share/luxifer` under `HOME`, else the
/// working directory `.`; each value only where it is set and not empty.
pub open spec fn data_root_of(
    data_dir: Option<String>,
    xdg_data_home: Option<String>,
    home: Option<String>,
) -> Seq<char> {
    if given(data_dir) {
        data_dir->0@
    } else if given(xdg_data_home) {
        joined(xdg_data_home->0@, "luxifer"@)
    } else if given(home) {
        joined(joined(joined(home->0@, ".local"@), "share"@), "luxifer"@)
    } else {
        "."@
    }
}

/// Appends `part` to the path in `out` as `joined` does.
fn push_joined(out: &mut Vec<char>, part: &str)
    ensures
        final(out)@ == joined(old(out)@, part@),
{
    let n = out.len();
    if n == 0 || out[n - 1] != '/' {
        out.push('/');
    }
    crate::chars::push_str(out, part);
}

/// The base data directory from the values of the environment variables
/// `LUXIFER_DATA_DIR`, `XDG_DATA_HOME` and `HOME` (`None` where one is not
/// set).
pub fn data_root_from(
    data_dir: Option<String>,
    xdg_data_home: Option<String>,
    home: Option<String>,
) -> (r: String)
    ensures
        r@ == data_root_of(data_dir, xdg_data_home, home),
{
    proof {
        reveal_strlit("luxifer");
        reveal_strlit(".local");
        reveal_strlit("share");
        reveal_strlit(".");
    }
    if let Some(dir) = &data_dir {
        if dir.unicode_len() > 0 {
            return dir.clone();
        }
    }
    if let Some(xdg) = &xdg_data_home {
        if xdg.unicode_len() > 0 {
            let mut out = str_chars(xdg.as_str());
            push_joined(&mut out, "luxifer");
            return string_from_chars(&out);
        }
    }
    if let Some(h) = &home {
        if h.unicode_len() > 0 {
            let mut out = str_chars(h.as_str());
            push_joined(&mut out, ".local");
            push_joined(&mut out, "share");
            push_joined(&mut out, "luxifer");
            return string_from_chars(&out);
        }
    }
    ".".to_string()
}

} // verus!
