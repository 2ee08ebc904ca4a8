use luxifer::catalog_sync::CatalogKind;
use luxifer::laser::{
    check_connection, connect_error, connection_target, needs_connection,
    new_laser_id, uses_network, Connection, JobAction, LaserProfile, LaserRegistry, LaserService,
};

fn ruida_at(id: &str, ip: &str) -> LaserProfile {
    LaserProfile {
        id: id.to_string(),
        name: format!("Test-{id}"),
        connection: Connection::Netz { ip: ip.to_string() },
        settings: 7,
    }
}

fn service_with_ruida_at(ip: &str) -> LaserService {
    let mut registry = LaserRegistry::new();
    registry.add(ruida_at("test-ruida", ip));
    assert!(registry.set_active("test-ruida"));
    LaserService::with_registry(registry)
}

#[test]
fn verbindungspflicht_ist_korrekt_klassifiziert() {
    assert!(!needs_connection(JobAction::ExportFile));
    for a in [
        JobAction::SendJob,
        JobAction::StreamGcode,
        JobAction::Frame,
        JobAction::RubberFrame,
        JobAction::Pause,
        JobAction::Stop,
        JobAction::Home,
        JobAction::GoOrigin,
    ] {
        assert!(needs_connection(a), "{a:?} braucht Verbindung");
    }
}

#[test]
fn connection_target_is_ip_or_device() {
    let net = Connection::Netz { ip: "192.168.1.100".to_string() };
    let serial = Connection::Seriell { port: "/dev/ttyUSB0".to_string() };
    assert_eq!(connection_target(&net), "192.168.1.100");
    assert_eq!(connection_target(&serial), "/dev/ttyUSB0");
    assert!(uses_network(&net));
    assert!(!uses_network(&serial));
}

#[test]
fn connected_only_for_the_active_laser() {
    let mut registry = LaserRegistry::new();
    registry.add(ruida_at("laser-1", "1.1.1.1"));
    registry.add(ruida_at("laser-2", "2.2.2.2"));
    let mut svc = LaserService::with_registry(registry);
    svc.mark_connected("laser-1".to_string());
    assert!(!svc.is_connected(), "no laser active");
    let mut registry = LaserRegistry::new();
    registry.add(ruida_at("laser-1", "1.1.1.1"));
    registry.add(ruida_at("laser-2", "2.2.2.2"));
    assert!(registry.set_active("laser-1"));
    let mut svc = LaserService::with_registry(registry);
    assert!(!svc.is_connected(), "no connection opened");
    svc.mark_connected("laser-1".to_string());
    assert!(svc.is_connected());
    svc.mark_connected("laser-2".to_string());
    assert!(!svc.is_connected(), "connected to another laser");
}

#[test]
fn action_without_connection_is_refused() {
    let e = check_connection(JobAction::Frame, false).unwrap_err();
    assert_eq!(e.code(), "laser_not_connected");
    assert!(check_connection(JobAction::ExportFile, false).is_ok());
    assert!(check_connection(JobAction::Frame, true).is_ok());
}

#[test]
fn connect_error_names_target_and_cause() {
    let e = connect_error("127.0.0.1", "timeout".to_string());
    assert_eq!(e.code(), "laser_connect");
    assert!(e.message().contains("127.0.0.1"));
    assert_eq!(e.details(), Some("timeout"));
}

#[test]
fn ohne_aktiven_laser_meldet_stabilen_fehler() {
    let mut svc = LaserService::with_registry(LaserRegistry::new());
    let err = svc.driver_access(false).unwrap_err();
    assert_eq!(err.code(), "no_active_laser");
    assert_eq!(svc.connection_request().unwrap_err().code(), "no_active_laser");
}

#[test]
fn run_action_verlangt_explizite_verbindung() {
    let mut svc = service_with_ruida_at("127.0.0.1");
    let err = svc.driver_access(needs_connection(JobAction::Frame)).unwrap_err();
    assert_eq!(err.code(), "laser_not_connected");
    // exporting compiles only and needs no machine
    let (profile, rebuild) = svc.driver_access(needs_connection(JobAction::ExportFile)).unwrap();
    assert_eq!(profile.id, "test-ruida");
    assert!(!rebuild, "the driver was built by the first access");
}

#[test]
fn explizites_verbinden_meldet_ziel_und_ursache() {
    let svc = service_with_ruida_at("127.0.0.1");
    let (id, target) = svc.connection_request().unwrap();
    assert_eq!(id, "test-ruida");
    let err = connect_error(&target, "connection refused".to_string());
    assert_eq!(err.code(), "laser_connect");
    assert!(err.message().contains("127.0.0.1"), "Ziel in der Meldung");
    assert!(err.details().is_some(), "technische Ursache vorhanden");
    assert!(!svc.is_connected());
}

#[test]
fn laser_connection_belongs_to_the_active_laser() {
    let mut svc = service_with_ruida_at("10.0.0.2");
    let (first, rebuild) = svc.driver_access(false).unwrap();
    assert!(rebuild);
    svc.mark_connected(first.id.clone());
    assert!(svc.is_connected());
    assert!(svc.driver_access(true).is_ok());
    assert!(svc.active_uses_network());
    // another laser becomes active: driver and connection are dropped
    svc.save_profile(ruida_at("second", "10.0.0.3"), "unused".to_string());
    assert!(!svc.is_connected());
    assert!(svc.set_active("second"));
    assert!(!svc.set_active("second"), "already active");
    assert!(!svc.set_active("unknown"));
    assert_eq!(svc.active_profile().unwrap().id, "second");
    let (_, rebuild) = svc.driver_access(false).unwrap();
    assert!(rebuild);
    svc.disconnect();
    assert!(!svc.is_connected());
}

#[test]
fn laser_profile_without_id_receives_a_fresh_one() {
    let mut svc = LaserService::with_registry(LaserRegistry::new());
    let id = new_laser_id();
    assert!(id.starts_with("laser-"));
    assert!(id["laser-".len()..].chars().all(|c| c.is_ascii_digit()));
    let stored = svc.save_profile(ruida_at("", "1.2.3.4"), id.clone());
    assert_eq!(stored.id, id);
    assert_eq!(svc.registry().profiles.len(), 1);
    // saving again with the id updates in place
    let mut changed = stored.clone();
    changed.name = "Neu".to_string();
    svc.save_profile(changed, "unused".to_string());
    assert_eq!(svc.registry().profiles.len(), 1);
    assert_eq!(svc.registry().profiles[0].name, "Neu");
    svc.delete_profile(&id);
    assert!(svc.registry().profiles.is_empty());
}

#[test]
fn shared_laser_record_updates_and_repairs_the_active_laser() {
    let mut registry = LaserRegistry::new();
    registry.add(ruida_at("a", "1.1.1.1"));
    registry.add(ruida_at("b", "2.2.2.2"));
    assert!(registry.set_active("b"));
    let mut svc = LaserService::with_registry(registry);
    // another catalogue is none of this service's business
    assert!(matches!(svc.apply_shared_record(CatalogKind::MaterialProfile, "a", true, None), Ok(false)));
    // an identical profile changes nothing
    let r = svc.apply_shared_record(CatalogKind::LaserProfile, "a", false, Some(Ok(ruida_at("a", "1.1.1.1"))));
    assert!(matches!(r, Ok(false)));
    // a changed profile is taken over in place
    let r = svc.apply_shared_record(CatalogKind::LaserProfile, "a", false, Some(Ok(ruida_at("a", "9.9.9.9"))));
    assert!(matches!(r, Ok(true)));
    assert_eq!(connection_target(&svc.registry().profiles[0].connection), "9.9.9.9");
    // deleting the active laser makes the first one active
    assert!(matches!(svc.apply_shared_record(CatalogKind::LaserProfile, "b", true, None), Ok(true)));
    assert_eq!(svc.registry().active_id.as_deref(), Some("a"));
    // deleting an unknown laser changes nothing
    assert!(matches!(svc.apply_shared_record(CatalogKind::LaserProfile, "zzz", true, None), Ok(false)));
    let err = svc.apply_shared_record(CatalogKind::LaserProfile, "x", false, None).unwrap_err();
    assert_eq!(err.code(), "catalog_payload");
    assert_eq!(err.message(), "Laserprofil fehlt.");
    let err = svc
        .apply_shared_record(CatalogKind::LaserProfile, "x", false, Some(Err("expected value".to_string())))
        .unwrap_err();
    assert_eq!(err.message(), "expected value");
}

#[test]
fn restored_registry_keeps_the_active_laser_when_present() {
    let mut registry = LaserRegistry::new();
    registry.add(ruida_at("a", "1.1.1.1"));
    registry.add(ruida_at("b", "2.2.2.2"));
    assert!(registry.set_active("b"));
    let mut svc = LaserService::with_registry(registry);
    let mut backup = LaserRegistry::new();
    backup.add(ruida_at("c", "3.3.3.3"));
    backup.add(ruida_at("b", "2.2.2.2"));
    let plan = svc.restore_registry(backup);
    assert_eq!(plan.registry.active_id.as_deref(), Some("b"));
    assert_eq!(plan.dropped, vec!["a".to_string()]);
    // nothing changed yet
    assert_eq!(svc.registry().profiles.len(), 2);
    svc.commit_registry(plan.registry);
    assert_eq!(svc.registry().profiles[0].id, "c");
    let mut other = LaserRegistry::new();
    other.add(ruida_at("d", "4.4.4.4"));
    let plan = svc.restore_registry(other);
    assert_eq!(plan.registry.active_id.as_deref(), Some("d"));
    assert_eq!(plan.dropped, vec!["c".to_string(), "b".to_string()]);
    let plan = svc.restore_registry(LaserRegistry::new());
    assert_eq!(plan.registry.active_id, None);
}
