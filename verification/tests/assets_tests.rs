use luxifer::assets::{
    gray_to_rgba, import_kind, AssetKind, AssetMeta, AssetService, ProjectTagSource,
};

fn meta(id: &str, original_name: &str, derived: bool) -> AssetMeta {
    AssetMeta {
        id: id.into(),
        ext: "png".into(),
        kind: AssetKind::Image,
        original_name: original_name.into(),
        source_format: String::new(),
        width: 1,
        height: 1,
        import_at: String::new(),
        tags: Vec::new(),
        derived,
    }
}

#[test]
fn crop_assets_erscheinen_nur_mit_gespeicherter_projektreferenz() {
    let original = meta("orig", "Original.png", false);
    let crop = meta("crop", "Bildausschnitt.png", false);
    let assets = vec![original, crop];
    let hidden = vec![false, false];

    let visible = AssetService::list_visible(&assets, &hidden, &Vec::new());
    assert!(visible.iter().any(|a| a.id == "orig"));
    assert!(!visible.iter().any(|a| a.id == "crop"));
    assert_eq!(AssetService::cleanup_orphan_derived(&assets, &Vec::new()), vec!["crop"]);

    let saved = AssetService::saved_project_asset_refs(&vec![vec!["crop".to_string()]]);
    let visible = AssetService::list_visible(&assets, &hidden, &saved);
    assert!(visible.iter().any(|a| a.id == "crop"));
    assert!(AssetService::cleanup_orphan_derived(&assets, &saved).is_empty());
}

#[test]
fn hidden_assets_are_not_listed() {
    let assets = vec![meta("a", "a.png", false), meta("b", "b.png", true)];
    let visible = AssetService::list_visible(&assets, &vec![true, false], &vec!["b".to_string()]);
    assert_eq!(visible.len(), 1);
    assert_eq!(visible[0].id, "b");
    assert!(AssetService::is_derived(&assets[1]));
    assert!(!AssetService::is_derived(&assets[0]));
}

#[test]
fn saved_refs_are_united_without_duplicates() {
    let refs = AssetService::saved_project_asset_refs(&vec![
        vec!["a".to_string(), "b".to_string()],
        vec![],
        vec!["b".to_string(), "c".to_string(), "a".to_string()],
    ]);
    assert_eq!(refs, vec!["a", "b", "c"]);
}

#[test]
fn referenced_assets_are_hidden_not_deleted() {
    let projects = vec![vec!["a".to_string()], vec!["b".to_string()]];
    assert!(AssetService::delete_or_hide("b", false, &projects));
    assert!(AssetService::delete_or_hide("z", true, &projects));
    assert!(!AssetService::delete_or_hide("z", false, &projects));
}

#[test]
fn trace_preview_marks_foreground_dark() {
    let p = AssetService::trace_preview(&vec![10, 200], 2, 1, 128, false);
    assert_eq!((p.width, p.height), (2, 1));
    assert_eq!(p.rgba, vec![20, 20, 20, 255, 245, 245, 245, 255]);
    let inv = AssetService::trace_preview(&vec![10, 200], 2, 1, 128, true);
    assert_eq!(inv.rgba, vec![245, 245, 245, 255, 20, 20, 20, 255]);
}

#[test]
fn grey_becomes_opaque_rgba() {
    assert_eq!(gray_to_rgba(&vec![7, 9]), vec![7, 7, 7, 255, 9, 9, 9, 255]);
}

#[test]
fn unbekanntes_format_wird_stabil_abgewiesen() {
    assert_eq!(import_kind("txt").unwrap_err().code(), "asset_format");
    assert_eq!(import_kind("PNG").unwrap(), AssetKind::Image);
    assert_eq!(import_kind("jpeg").unwrap(), AssetKind::Image);
    assert_eq!(import_kind("Svg").unwrap(), AssetKind::SvgSource);
    assert_eq!(import_kind("dxf").unwrap(), AssetKind::DxfSource);
}

#[test]
fn project_name_and_description_tag_its_assets() {
    let projects = vec![ProjectTagSource {
        name: "Schild".into(),
        description: "Holz".into(),
        asset_refs: vec!["a".into(), "b".into()],
    }];
    let reqs = AssetService::enrich_tags_from_projects(&projects);
    assert_eq!(reqs.len(), 2);
    assert_eq!(reqs[1].asset_id, "b");
    assert_eq!(reqs[1].tags, vec!["Schild", "Holz"]);
}
