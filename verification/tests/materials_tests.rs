use luxifer::materials::{
    new_material_id, ActiveMaterial, MaterialLibrary, MaterialProfile, MaterialService,
};

fn profile(id: &str, laser: &str) -> MaterialProfile {
    MaterialProfile { id: id.into(), laser_id: laser.into(), name: "  Sperrholz 3 mm ".into(), settings: 7 }
}

#[test]
fn speichern_und_keine_auswahl() {
    let mut service = MaterialService::new(MaterialLibrary::new());
    let (next, saved) = service.save_profile(profile("", "laser-a"), Ok(())).unwrap();
    assert!(saved.id.starts_with("material-"));
    assert_eq!(saved.name, "Sperrholz 3 mm");
    service.commit(next);
    assert_eq!(service.library().profiles[0].id, saved.id);
    assert_eq!(service.library().active_for("laser-a"), Some(saved.id.clone()));

    let next = service.set_active("laser-a", None).unwrap();
    service.commit(next);
    assert!(service.library().active_for("laser-a").is_none());
}

#[test]
fn saving_an_existing_id_replaces_it() {
    let mut service = MaterialService::new(MaterialLibrary::new());
    let (next, _) = service.save_profile(profile("m1", "laser-a"), Ok(())).unwrap();
    service.commit(next);
    let mut changed = profile("m1", "laser-a");
    changed.settings = 9;
    let (next, _) = service.save_profile(changed, Ok(())).unwrap();
    service.commit(next);
    assert_eq!(service.library().profiles.len(), 1);
    assert_eq!(service.library().profiles[0].settings, 9);
}

#[test]
fn material_must_belong_to_the_laser() {
    let mut service = MaterialService::new(MaterialLibrary::new());
    let (next, _) = service.save_profile(profile("m1", "laser-a"), Ok(())).unwrap();
    service.commit(next);
    let e = service.set_active("laser-b", Some("m1")).unwrap_err();
    assert_eq!(e.code(), "invalid_material_selection");
    assert!(service.set_active("laser-a", Some("m1")).is_ok());
}

#[test]
fn delete_removes_profile_and_its_selections() {
    let mut service = MaterialService::new(MaterialLibrary::new());
    let (next, _) = service.save_profile(profile("m1", "laser-a"), Ok(())).unwrap();
    service.commit(next);
    let (next, _) = service.save_profile(profile("m2", "laser-b"), Ok(())).unwrap();
    service.commit(next);
    let next = service.delete_profile("m1").unwrap();
    service.commit(next);
    assert_eq!(service.library().profiles.len(), 1);
    assert!(service.library().active_for("laser-a").is_none());
    assert_eq!(service.library().active_for("laser-b"), Some("m2".to_string()));
    assert_eq!(service.delete_profile("m1").unwrap_err().code(), "material_not_found");
}

#[test]
fn wiederherstellung_validiert_aktive_laserzuordnung() {
    let service = MaterialService::new(MaterialLibrary::new());
    let mut library = MaterialLibrary::new();
    library.active_by_laser.push(ActiveMaterial { laser_id: "laser-a".into(), material_id: "fehlt".into() });
    assert!(service.restore_library(library, &vec![]).is_err());
    assert!(service.library().active_by_laser.is_empty());

    let mut good = MaterialLibrary::new();
    good.profiles.push(profile("m1", "laser-a"));
    good.active_by_laser.push(ActiveMaterial { laser_id: "laser-a".into(), material_id: "m1".into() });
    assert!(service.restore_library(good, &vec![Ok(())]).is_ok());
}

#[test]
fn material_ids_come_from_the_clock() {
    let id = new_material_id();
    assert!(id.starts_with("material-"));
    assert!(id["material-".len()..].chars().all(|c| c.is_ascii_digit()));
}

#[test]
fn ungueltiges_profil_wird_nicht_gespeichert() {
    let service = MaterialService::new(MaterialLibrary::new());
    let e = service
        .save_profile(profile("", "laser-a"), Err("Name fehlt".to_string()))
        .unwrap_err();
    assert_eq!(e.code(), "invalid_material_profile");
    assert_eq!(e.message(), "Name fehlt");
    assert!(service.library().profiles.is_empty());
}

#[test]
fn wiederherstellung_lehnt_ungueltiges_profil_zuerst_ab() {
    let service = MaterialService::new(MaterialLibrary::new());
    let mut library = MaterialLibrary::new();
    library.profiles.push(profile("m1", "laser-a"));
    library.profiles.push(profile("m2", "laser-a"));
    library.active_by_laser.push(ActiveMaterial { laser_id: "laser-a".into(), material_id: "fehlt".into() });
    let e = service
        .restore_library(library, &vec![Ok(()), Err("Leistung ungültig".to_string())])
        .unwrap_err();
    assert_eq!(e.code(), "invalid_material_profile");
    assert_eq!(e.message(), "Leistung ungültig");
}
