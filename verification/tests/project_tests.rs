use luxifer::project::{
    current_is_last, ensure_current_version, find_version, label_number,
    label_unlabelled_versions, next_version_label, parse_u32_chars, push_new_version,
    remove_version, unique_asset_refs, ProjectFile, VersionInfo,
};
use luxifer::project::{data_root_from, new_project_name, no_open_project, renamed_project_name, ProjectDetail};
use luxifer::state::AppState;

fn version(id: &str, label: &str) -> VersionInfo {
    VersionInfo {
        id: id.to_string(),
        label: label.to_string(),
        created_at: "2026-01-01T00:00:00Z".to_string(),
        note: String::new(),
    }
}

#[test]
fn labels_zaehlen_auch_nach_loeschen_korrekt_hoch() {
    let versions = vec![version("a", "V1"), version("c", "V3")];
    assert_eq!(next_version_label(&versions), "V4");
    assert_eq!(next_version_label(&Vec::new()), "V1");
    let odd = vec![version("a", "Entwurf"), version("b", "V+2"), version("c", "V")];
    assert_eq!(next_version_label(&odd), "V3");
}

#[test]
fn label_numbers_parse_like_u32() {
    assert_eq!(label_number("V12"), Some(12));
    assert_eq!(label_number("V+7"), Some(7));
    assert_eq!(label_number("V"), None);
    assert_eq!(label_number("V1a"), None);
    assert_eq!(label_number("v1"), None);
    assert_eq!(label_number("V4294967295"), Some(u32::MAX));
    assert_eq!(label_number("V4294967296"), None);
    let chars: Vec<char> = "x0042".chars().collect();
    assert_eq!(parse_u32_chars(&chars, 1), Some(42));
}

#[test]
fn current_version_lookup() {
    let versions = vec![version("a", "V1"), version("b", "V2")];
    assert_eq!(find_version(&versions, "b"), Some(1));
    assert_eq!(find_version(&versions, "z"), None);
    assert!(current_is_last(&versions, "b"));
    assert!(!current_is_last(&versions, "a"));
    assert!(current_is_last(&Vec::new(), "x"));
}

#[test]
fn migrate_altes_format_erzeugt_v1() {
    let mut versions: Vec<VersionInfo> = Vec::new();
    let mut current = String::new();
    ensure_current_version(&mut versions, &mut current, &"2025-01-01T00:00:00Z".to_string());
    assert_eq!(versions.len(), 1);
    assert_eq!(versions[0].label, "V1");
    assert_eq!(versions[0].id, current);
    assert_eq!(versions[0].created_at, "2025-01-01T00:00:00Z");

    let before = current.clone();
    ensure_current_version(&mut versions, &mut current, &"later".to_string());
    assert_eq!(current, before, "migration is idempotent");
    assert_eq!(versions.len(), 1);
}

#[test]
fn migrate_points_to_last_version_without_valid_pointer() {
    let mut versions = vec![version("a", ""), version("b", "")];
    let mut current = "gone".to_string();
    ensure_current_version(&mut versions, &mut current, &String::new());
    assert_eq!(current, "b");
    label_unlabelled_versions(&mut versions);
    assert_eq!(versions[0].label, "V1");
    assert_eq!(versions[1].label, "V2");
}

#[test]
fn shift_strg_s_legt_naechste_version_an_und_wird_aktuell() {
    let mut versions = vec![version("a", "V1")];
    let mut current = "a".to_string();
    let v = push_new_version(&mut versions, &mut current, "b".to_string(), "t".to_string(), "Notiz".to_string());
    assert_eq!(v.label, "V2");
    assert_eq!(v.note, "Notiz");
    assert_eq!(current, "b");
    assert_eq!(versions.len(), 2);
}

#[test]
fn version_loeschen_letzte_ist_geschuetzt() {
    let mut versions = vec![version("a", "V1")];
    let mut current = "a".to_string();
    assert_eq!(
        remove_version(&mut versions, &mut current, "a"),
        Err("Die letzte Version kann nicht gelöscht werden.".to_string())
    );
    assert_eq!(versions.len(), 1);
}

#[test]
fn aktuelle_version_loeschen_befoerdert_vorherige() {
    let mut versions = vec![version("a", "V1"), version("b", "V2"), version("c", "V3")];
    let mut current = "c".to_string();
    assert_eq!(remove_version(&mut versions, &mut current, "c"), Ok(true));
    assert_eq!(current, "b");
    assert_eq!(versions.len(), 2);
    assert_eq!(remove_version(&mut versions, &mut current, "a"), Ok(false));
    assert_eq!(current, "b");
    let mut current2 = "b".to_string();
    let mut vs = vec![version("b", "V2"), version("x", "V3")];
    assert_eq!(remove_version(&mut vs, &mut current2, "b"), Ok(true));
    assert_eq!(current2, "x", "the first remaining version when none precedes");
    let mut two = vec![version("a", "V1"), version("b", "V2")];
    let mut cur = "a".to_string();
    assert_eq!(
        remove_version(&mut two, &mut cur, "zzz"),
        Err("Version nicht gefunden.".to_string())
    );
    assert_eq!(two.len(), 2);
}

#[test]
fn asset_refs_werden_aus_bild_shapes_abgeleitet() {
    let refs = vec![
        "b".to_string(),
        "a".to_string(),
        "b".to_string(),
        "c".to_string(),
        "a".to_string(),
    ];
    assert_eq!(unique_asset_refs(&refs), vec!["b", "a", "c"]);
}

fn state_with_two_layers() -> AppState {
    let mut s = AppState::new();
    s.add_shape(1);
    s.clear_selection();
    s.activate_color([0x10, 0xB9, 0x81]);
    s.add_shape(2);
    assert_eq!(s.layers.len(), 2);
    s
}

#[test]
fn from_state_hat_id_und_automatisch_v1() {
    let s = state_with_two_layers();
    let pf = ProjectFile::from_state(&s, "T".to_string(), vec![], 0, &vec![]);
    assert!(pf.id.starts_with("lx-"));
    assert!(pf.created_at.ends_with('Z'));
    assert_eq!(pf.created_at, pf.modified_at);
    assert_eq!(pf.versions.len(), 1);
    assert_eq!(pf.versions[0].label, "V1");
    assert_eq!(pf.current_version, pf.versions[0].id);
    assert_eq!(pf.current().map(|v| v.label.as_str()), Some("V1"));
    assert!(pf.asset_refs.is_empty());
    assert_ne!(pf.id, pf.versions[0].id);
}

#[test]
fn into_state_setzt_aktiven_layer_auf_letzten() {
    let s = state_with_two_layers();
    let pf = ProjectFile::from_state(&s, "Test".to_string(), vec![], 0, &vec![]);
    let restored = pf.into_state();
    assert_eq!(restored.layers.len(), 2);
    assert_eq!(restored.active_layer, 1);
    assert!(!restored.can_undo(), "frischer Undo-Verlauf");
    assert!(!restored.dirty);
}

#[test]
fn update_from_state_erhaelt_id_und_versionen() {
    let s = state_with_two_layers();
    let mut pf = ProjectFile::from_state(&s, "P".to_string(), vec![], 0, &vec![]);
    let id = pf.id.clone();
    let cur = pf.current_version.clone();
    let mut s2 = AppState::new();
    s2.add_shape(9);
    pf.update_from_state(&s2, 3, &vec!["asset-1".to_string(), "asset-1".to_string()]);
    assert_eq!(pf.id, id, "Identitaet bleibt");
    assert_eq!(pf.versions.len(), 1, "Versionsliste unverändert (nur V1)");
    assert_eq!(pf.current_version, cur, "aktuelle Version unverändert");
    assert_eq!(pf.shapes.len(), 1, "Arbeitsstand ersetzt");
    assert_eq!(pf.bed, 3);
    assert_eq!(pf.asset_refs, vec!["asset-1".to_string()]);
}

#[test]
fn strg_s_aktualisiert_aktuelle_version_in_place() {
    let s = state_with_two_layers();
    let mut pf = ProjectFile::from_state(&s, "Proj".to_string(), vec![], 0, &vec![]);
    let v1_id = pf.current_version.clone();
    let saved = pf.save_current().unwrap();
    assert_eq!(saved.id, v1_id);
    assert_eq!(pf.versions.len(), 1, "keine neue Version bei Strg+S");
    assert_eq!(pf.current_version, v1_id, "aktuelle Version unverändert");
}

#[test]
fn strg_s_auf_alter_version_verzweigt_dann_in_place() {
    let s = state_with_two_layers();
    let mut pf = ProjectFile::from_state(&s, "Proj".to_string(), vec![], 0, &vec![]);
    let v1_id = pf.current_version.clone();
    let v2 = pf.add_version("zweite".to_string());
    assert_eq!(v2.label, "V2");
    // an older version is loaded
    pf.current_version = v1_id.clone();
    let branched = pf.save_current().unwrap();
    assert_eq!(branched.label, "V3", "verzweigt in neue Version");
    assert_eq!(pf.versions.len(), 3);
    assert_eq!(pf.current_version, branched.id);
    assert_ne!(pf.current_version, v1_id, "V1 bleibt unberührt");
    let again = pf.save_current().unwrap();
    assert_eq!(again.id, branched.id, "in-place, keine neue Version");
    assert_eq!(pf.versions.len(), 3);
    assert!(pf.versions.iter().any(|v| v.id == v2.id));
}

#[test]
fn project_file_delete_version_promotes_previous() {
    let s = state_with_two_layers();
    let mut pf = ProjectFile::from_state(&s, "Proj".to_string(), vec![], 0, &vec![]);
    assert_eq!(pf.delete_version(&pf.current_version.clone()).unwrap_err(), "Die letzte Version kann nicht gelöscht werden.");
    let v2 = pf.add_version(String::new());
    assert_eq!(pf.delete_version("gibt-es-nicht").unwrap_err(), "Version nicht gefunden.");
    assert_eq!(pf.delete_version(&v2.id), Ok(true));
    assert_eq!(pf.versions.len(), 1);
    assert_eq!(pf.current().unwrap().label, "V1");
    let snapshot = AppState::new();
    let (layers, shapes) = snapshot.drawing();
    pf.set_drawing(layers, shapes, 5);
    assert!(pf.shapes.is_empty());
}

#[test]
fn project_file_migration_fills_labels_and_pointer() {
    let s = state_with_two_layers();
    let mut pf = ProjectFile::from_state(&s, "Alt".to_string(), vec![], 0, &vec![]);
    pf.versions = vec![version("a", ""), version("b", "")];
    pf.current_version = String::new();
    pf.migrate();
    assert_eq!(pf.versions[0].label, "V1");
    assert_eq!(pf.versions[1].label, "V2");
    assert_eq!(pf.current_version, "b");
    assert!(pf.current_is_last());
    assert_eq!(pf.next_label(), "V3");
}

#[test]
fn project_names_are_trimmed_and_not_empty() {
    assert_eq!(new_project_name("  Schild  ").unwrap(), "Schild");
    let e = new_project_name("   ").unwrap_err();
    assert_eq!(e.code(), "project_name_empty");
    assert_eq!(e.message(), "Bitte einen Projektnamen angeben.");
    let e = renamed_project_name("").unwrap_err();
    assert_eq!(e.message(), "Bitte einen neuen Projektnamen angeben.");
    assert_eq!(renamed_project_name("Neu\n").unwrap(), "Neu");
    assert_eq!(no_open_project().code(), "no_open_project");
}

#[test]
fn project_detail_shows_metadata_and_versions() {
    let s = state_with_two_layers();
    let mut pf = ProjectFile::from_state(&s, "Det".to_string(), vec!["holz".to_string()], 0, &vec![]);
    pf.description = "Beschreibung".to_string();
    let d = ProjectDetail::from_file(&pf);
    assert_eq!(d.name, "Det");
    assert_eq!(d.description, "Beschreibung");
    assert_eq!(d.tags, vec!["holz".to_string()]);
    assert_eq!(d.versions.len(), 1);
    assert_eq!(d.current_version, pf.current_version);
}

#[test]
fn datenverzeichnis_folgt_der_reihenfolge_der_variablen() {
    let some = |s: &str| Some(s.to_string());
    assert_eq!(data_root_from(some("/daten"), some("/xdg"), some("/home/a")), "/daten");
    assert_eq!(data_root_from(some(""), some("/xdg"), some("/home/a")), "/xdg/luxifer");
    assert_eq!(data_root_from(None, some("/xdg/"), None), "/xdg/luxifer");
    assert_eq!(data_root_from(None, some(""), some("/home/a")), "/home/a/.local/share/luxifer");
    assert_eq!(data_root_from(None, None, some("")), ".");
    assert_eq!(data_root_from(None, None, None), ".");
}
