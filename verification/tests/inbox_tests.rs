use luxifer::project::VersionInfo;
use luxifer::sync_inbox::{
    accept_revision, check_not_present, mark_inbox_revision_applied,
    check_assets_available, check_payload_hash, check_project_identity, compare_inbox_revision,
    defer_inbox_revision, find_project_by_id, ignore_inbox_revision, incoming_version,
    keep_current_version, metadata_changed, new_inbox_entry, reconsider_inbox_revision,
    sort_inbox, store_decision, store_revision, unique_project_name, valid_id, validate_remote_revision,
    CharonRevision, InboxEntry, InboxStatus, LocalProject, ProjectContent, StoredRevision,
};

fn revision(hash: &str) -> CharonRevision {
    CharonRevision {
        revision_id: "revision-remote-1".into(),
        project_id: "project-remote-1".into(),
        project_name: "Remote".into(),
        project_version_id: "version-1".into(),
        parent_revision_id: None,
        workplace_id: "office-1".into(),
        queued_at: "2026-07-13T12:00:00Z".into(),
        content_hash: hash.into(),
        payload: "{\"version\":1}".into(),
    }
}

fn entry(id: &str) -> InboxEntry {
    let mut r = revision("h");
    r.revision_id = id.into();
    new_inbox_entry(r, "2026-07-13T12:05:00Z".into())
}

#[test]
fn ids_are_letters_digits_dash_underscore() {
    assert!(valid_id("revision-remote_1"));
    assert!(!valid_id(""));
    assert!(!valid_id("../etc"));
    assert!(!valid_id("ä"));
}

#[test]
fn beschaedigte_fremdrevision_wird_abgewiesen() {
    let item = revision("falscher-hash");
    let e = validate_remote_revision(&item, "echter-hash").unwrap_err();
    assert_eq!(e.code(), "inbox_hash");
    assert!(validate_remote_revision(&revision("h"), "h").is_ok());
    let mut bad = revision("h");
    bad.project_id = "a/b".into();
    assert_eq!(validate_remote_revision(&bad, "h").unwrap_err().code(), "inbox_revision_id");
}

#[test]
fn fremdrevision_wird_idempotent_abgelegt() {
    assert_eq!(store_decision(None, "h").unwrap(), true);
    assert_eq!(store_decision(Some("h"), "h").unwrap(), false);
    assert_eq!(store_decision(Some("x"), "h").unwrap_err().code(), "inbox_conflict");
    let e = entry("r1");
    assert_eq!(e.status, InboxStatus::PendingReview);
    assert_eq!(e.payload_file, "payload.luxi");
    assert_eq!(e.source_workplace_id, "office-1");
    assert_eq!(e.received_at, "2026-07-13T12:05:00Z");
}

#[test]
fn review_actions_change_only_the_status() {
    let mut e = entry("r1");
    defer_inbox_revision(&mut e);
    assert_eq!(e.status, InboxStatus::Deferred);
    reconsider_inbox_revision(&mut e);
    assert_eq!(e.status, InboxStatus::PendingReview);
    ignore_inbox_revision(&mut e);
    assert_eq!(e.status, InboxStatus::Ignored);
    assert_eq!(e.revision_id, "r1");
}

#[test]
fn payload_path_joins_directory_revision_and_file() {
    let e = entry("r1");
    assert_eq!(e.payload_path("/data/sync/inbox"), "/data/sync/inbox/r1/payload.luxi");
    assert_eq!(e.payload_path("/data/sync/inbox/"), "/data/sync/inbox/r1/payload.luxi");
}

#[test]
fn inbox_is_listed_by_revision_id() {
    let sorted = sort_inbox(vec![entry("r3"), entry("r1"), entry("r2"), entry("r10")]);
    let ids: Vec<&str> = sorted.iter().map(|e| e.revision_id.as_str()).collect();
    assert_eq!(ids, vec!["r1", "r10", "r2", "r3"]);
}

#[test]
fn payload_and_identity_checks() {
    let e = entry("r1");
    assert!(check_payload_hash(&e, "h").is_ok());
    assert_eq!(check_payload_hash(&e, "x").unwrap_err().code(), "inbox_hash");
    assert!(check_project_identity(&e, "project-remote-1", "version-1").is_ok());
    assert_eq!(
        check_project_identity(&e, "project-remote-1", "version-2").unwrap_err().code(),
        "inbox_project_identity"
    );
}

#[test]
fn missing_asset_is_named() {
    let refs = vec!["a1".to_string(), "a2".to_string(), "a3".to_string()];
    assert!(check_assets_available(&refs, &vec![true, true, true]).is_ok());
    let e = check_assets_available(&refs, &vec![true, false, false]).unwrap_err();
    assert_eq!(e.code(), "inbox_asset_missing");
    assert_eq!(e.message(), "Projekt-Asset a2 ist lokal noch nicht verfügbar.");
}

fn v(id: &str, label: &str) -> VersionInfo {
    VersionInfo { id: id.into(), label: label.into(), created_at: format!("t-{id}"), note: String::new() }
}

#[test]
fn new_project_keeps_only_current_version() {
    let versions = vec![v("a", "V1"), v("b", "V2")];
    let kept = keep_current_version(&versions, "b").unwrap();
    assert_eq!(kept.len(), 1);
    assert_eq!(kept[0].id, "b");
    assert_eq!(keep_current_version(&versions, "z").unwrap_err().code(), "inbox_project_version");
}

#[test]
fn accepted_revision_becomes_next_local_version() {
    let remote = vec![v("x", "V1"), v("y", "V2")];
    let local = vec![v("a", "V1")];
    let iv = incoming_version(&remote, "y", &local, "new-id".into(), "office-1").unwrap();
    assert_eq!(iv.id, "new-id");
    assert_eq!(iv.label, "V2");
    assert_eq!(iv.created_at, "t-y");
    assert_eq!(iv.note, "Von Charon: office-1");
    assert!(incoming_version(&remote, "q", &local, "n".into(), "o").is_err());
}

#[test]
fn project_names_get_charon_suffix_when_taken() {
    let taken = vec!["Vom Office".to_string(), "Vom Office (Charon)".to_string()];
    assert_eq!(unique_project_name("  Neu  ", &taken), "Neu");
    assert_eq!(unique_project_name("Vom Office", &taken), "Vom Office (Charon 2)");
    assert_eq!(unique_project_name("   ", &Vec::new()), "Empfangenes Projekt");
    let one = vec!["X".to_string()];
    assert_eq!(unique_project_name("X", &one), "X (Charon)");
}

fn content(name: &str, shapes: usize) -> ProjectContent {
    let mut st = luxifer::state::AppState::new();
    for i in 0..shapes {
        st.add_shape(i as u64);
    }
    ProjectContent {
        id: "p".into(),
        name: name.into(),
        description: String::new(),
        tags: Vec::new(),
        modified_at: format!("m-{name}"),
        layers: st.layers,
        shapes: st.shapes,
    }
}

#[test]
fn vergleich_findet_lokales_projekt_ueber_stabile_id_und_mutiert_nichts() {
    let ids = vec!["p-1".to_string(), "p-2".to_string()];
    assert_eq!(find_project_by_id(&ids, "p-2"), Some(1));
    assert_eq!(find_project_by_id(&ids, "p-3"), None);

    let local = LocalProject {
        folder_name: "Werkstattname".into(),
        content: content("Werkstattname", 0),
        same_bed: true,
    };
    let c = compare_inbox_revision(entry("r1"), Some(local), content("Officename", 1));
    assert_eq!(c.local_project_name.as_deref(), Some("Werkstattname"));
    assert!(c.layers_changed);
    assert!(c.shapes_changed);
    assert!(c.metadata_changed);
    assert!(!c.bed_changed);
    assert_eq!(c.local_state.unwrap().shapes.len(), 0);
    assert_eq!(c.remote_state.shapes.len(), 1);
    assert_eq!(c.entry.status, InboxStatus::PendingReview);

    let none = compare_inbox_revision(entry("r2"), None, content("X", 1));
    assert!(none.bed_changed && none.layers_changed && none.shapes_changed && none.metadata_changed);
    assert!(none.local_state.is_none());
}

#[test]
fn metadata_comparison() {
    let tags = vec!["a".to_string()];
    assert!(!metadata_changed("n", "d", &tags, "n", "d", &tags));
    assert!(metadata_changed("n", "d", &tags, "n", "d", &Vec::new()));
    assert!(metadata_changed("n", "d", &tags, "m", "d", &tags));
}

#[test]
fn neues_projekt_wird_uebernommen_ohne_editorzustand_zu_beruehren() {
    let mut e = entry("revision-apply-1");
    let remote_versions = vec![v("v-1", "V1")];
    let kept = keep_current_version(&remote_versions, "v-1").unwrap();
    assert_eq!(kept.len(), 1);
    let local_ids: Vec<String> = Vec::new();
    assert!(check_not_present(&local_ids, "project-remote-1").is_ok());
    let name = unique_project_name("Vom Office", &Vec::new());
    assert_eq!(name, "Vom Office");
    mark_inbox_revision_applied(&mut e);
    assert_eq!(e.status, InboxStatus::Applied);
    // a project that exists locally stays in the inbox for review
    let err = check_not_present(&vec!["project-remote-1".to_string()], "project-remote-1").unwrap_err();
    assert_eq!(err.code(), "inbox_project_conflict");
    assert_eq!(
        err.message(),
        "Dieses Projekt existiert bereits lokal. Die Revision bleibt zur Prüfung in der Inbox."
    );
}

#[test]
fn projekt_mit_vorhandenem_asset_wird_uebernommen() {
    let refs = vec!["asset-hash".to_string()];
    assert!(check_assets_available(&refs, &vec![true]).is_ok());
    assert_eq!(unique_project_name("Mit Asset", &Vec::new()), "Mit Asset");
}

#[test]
fn lokal_behalten_quittiert_nur_die_inbox() {
    let mut e = entry("revision-ignore-1");
    ignore_inbox_revision(&mut e);
    assert_eq!(e.status, InboxStatus::Ignored);
    assert_eq!(e.revision_id, "revision-ignore-1");
}

#[test]
fn accepted_revision_keeps_local_history_and_name() {
    let mut local = content("Werkstattname", 0);
    local.description = "lokal".into();
    let mut remote = content("Officename", 1);
    remote.id = "anders".into();
    remote.description = "vom Office".into();
    remote.tags = vec!["holz".into()];
    let local_versions = vec![v("a", "V1")];
    let remote_versions = vec![v("x", "V1"), v("y", "V7")];
    let accepted = accept_revision(
        local,
        local_versions,
        remote,
        &remote_versions,
        "y",
        "neu-1".into(),
        "office-1",
    )
    .ok()
    .unwrap();
    assert_eq!(accepted.content.id, "p");
    assert_eq!(accepted.content.name, "Werkstattname");
    assert_eq!(accepted.content.description, "vom Office");
    assert_eq!(accepted.content.tags, vec!["holz".to_string()]);
    assert_eq!(accepted.content.modified_at, "m-Officename");
    assert_eq!(accepted.content.shapes.len(), 1);
    assert_eq!(accepted.versions.len(), 2);
    assert_eq!(accepted.versions[0].id, "a");
    assert_eq!(accepted.versions[1].id, "neu-1");
    assert_eq!(accepted.versions[1].label, "V2");
    assert_eq!(accepted.versions[1].created_at, "t-y");
    assert_eq!(accepted.versions[1].note, "Von Charon: office-1");
    assert_eq!(accepted.current_version, "neu-1");
    let missing = accept_revision(
        content("a", 0),
        Vec::new(),
        content("b", 0),
        &remote_versions,
        "fehlt",
        "n".into(),
        "o",
    );
    let err = match missing {
        Err(e) => e,
        Ok(_) => panic!("expected an error"),
    };
    assert_eq!(err.code(), "inbox_project_version");
}

#[test]
fn fremdrevision_wird_idempotent_und_unveraendert_abgelegt() {
    let mut inbox: Vec<StoredRevision> = Vec::new();
    let r = revision("hash-1");
    assert_eq!(store_revision(&mut inbox, r.clone(), "hash-1", "t1".into()).unwrap(), true);
    assert_eq!(store_revision(&mut inbox, r.clone(), "hash-1", "t2".into()).unwrap(), false);
    assert_eq!(inbox.len(), 1);
    assert_eq!(inbox[0].entry.revision_id, r.revision_id);
    assert_eq!(inbox[0].entry.status, InboxStatus::PendingReview);
    assert_eq!(inbox[0].entry.received_at, "t1");
    assert_eq!(inbox[0].payload, r.payload);
}

#[test]
fn ablage_lehnt_konflikt_und_falschen_hash_ab() {
    let mut inbox: Vec<StoredRevision> = Vec::new();
    assert!(store_revision(&mut inbox, revision("hash-1"), "hash-1", "t1".into()).unwrap());
    let e = store_revision(&mut inbox, revision("hash-2"), "hash-2", "t2".into()).unwrap_err();
    assert_eq!(e.code(), "inbox_conflict");
    let e = store_revision(&mut inbox, revision("hash-3"), "anders", "t3".into()).unwrap_err();
    assert_eq!(e.code(), "inbox_hash");
    assert_eq!(inbox.len(), 1);
}
