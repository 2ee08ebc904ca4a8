use luxifer::catalog_sync::{
    catalog_key, needs_seed, seed_shared_catalog, CatalogKind, CatalogSyncState, KnownHash,
    SeedProfile,
};

fn seed(kind: CatalogKind, id: &str, hash: &str) -> SeedProfile {
    SeedProfile { kind, id: id.into(), content_hash: hash.into(), payload: format!("{{\"id\":\"{id}\"}}") }
}

#[test]
fn keys_name_catalogue_and_id() {
    assert_eq!(catalog_key(CatalogKind::LaserProfile, "l1"), "laser_profile:l1");
    assert_eq!(catalog_key(CatalogKind::MaterialProfile, "m1"), "material_profile:m1");
}

#[test]
fn enqueue_updates_a_queued_change_in_place() {
    let mut state = CatalogSyncState::new();
    state.known_hashes.push(KnownHash { key: "laser_profile:l1".into(), hash: "h0".into() });
    state.enqueue(CatalogKind::LaserProfile, "l1", "h1".into(), Some("p1".into()));
    assert_eq!(state.pending.len(), 1);
    assert_eq!(state.pending[0].base_hash.as_deref(), Some("h0"));
    state.enqueue(CatalogKind::LaserProfile, "l1", "h2".into(), None);
    assert_eq!(state.pending.len(), 1);
    assert_eq!(state.pending[0].content_hash, "h2");
    assert!(state.pending[0].payload.is_none());
    assert_eq!(state.pending[0].base_hash.as_deref(), Some("h0"));
}

#[test]
fn seeding_queues_only_unknown_profiles_once() {
    let mut state = CatalogSyncState::new();
    state.known_hashes.push(KnownHash { key: "material_profile:m1".into(), hash: "h".into() });
    let profiles = vec![
        seed(CatalogKind::LaserProfile, "l1", "a"),
        seed(CatalogKind::MaterialProfile, "m1", "b"),
        seed(CatalogKind::MaterialProfile, "m2", "c"),
    ];
    seed_shared_catalog(&mut state, &profiles);
    assert_eq!(state.pending.len(), 2);
    assert_eq!(state.pending[0].id, "l1");
    assert_eq!(state.pending[1].id, "m2");
    assert!(state.pending[1].base_hash.is_none());
    seed_shared_catalog(&mut state, &profiles);
    assert_eq!(state.pending.len(), 2, "seeding twice adds nothing");
    assert!(!needs_seed(&state, CatalogKind::LaserProfile, "l1"));
    assert!(needs_seed(&state, CatalogKind::LaserProfile, "l2"));
}

#[test]
fn doppelt_angebotenes_profil_wird_einmal_eingereiht() {
    let mut state = CatalogSyncState::new();
    let profiles = vec![
        seed(CatalogKind::LaserProfile, "l1", "a"),
        seed(CatalogKind::MaterialProfile, "l1", "b"),
        seed(CatalogKind::LaserProfile, "l1", "c"),
    ];
    seed_shared_catalog(&mut state, &profiles);
    assert_eq!(state.pending.len(), 2);
    assert_eq!(state.pending[0].content_hash, "a");
    assert_eq!(state.pending[1].kind, CatalogKind::MaterialProfile);
    assert_eq!(state.pending[1].content_hash, "b");
}
