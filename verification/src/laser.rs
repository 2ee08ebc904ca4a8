//! The laser use case: the registry of laser profiles with the active one,
//! which job actions need an open connection, where a profile connects to,
//! and when the driver has to be built anew or a connection is missing.
//! Building drivers, talking to the machine and writing the registry are
//! done by the caller.

use vstd::prelude::*;

use crate::catalog_sync::CatalogKind;
use crate::chars::{decimal, push_decimal_u128, push_str, str_eq, string_from_chars};
use crate::error::{AppError, AppErrorView};

verus! {

/// What the user asks the laser to do with the current job.
#[derive(Debug, Clone, Copy, PartialEq, Eq, Structural)]
pub enum JobAction {
    SendJob,
    StreamGcode,
    Frame,
    RubberFrame,
    Pause,
    Stop,
    Home,
    GoOrigin,
    ExportFile,
}

/// How a laser profile reaches its machine.
#[derive(Debug, Clone)]
pub enum Connection {
    /// Over the network, by IP address.
    Netz { ip: String },
    /// Over a serial line, by device path.
    Seriell { port: String },
}

/// Does the action need an open connection to the machine? Only exporting a
/// job file works without one.
pub fn needs_connection(a: JobAction) -> (r: bool)
    ensures
        r == !(a is ExportFile),
{
    !matches!(a, JobAction::ExportFile)
}

/// What a profile connects to: the IP address on the network or the device
/// path of the serial line.
pub fn connection_target(connection: &Connection) -> (r: String)
    ensures
        r@ == match connection {
            Connection::Netz { ip } => ip@,
            Connection::Seriell { port } => port@,
        },
{
    match connection {
        Connection::Netz { ip } => ip.clone(),
        Connection::Seriell { port } => port.clone(),
    }
}

/// Does the profile connect over the network?
pub fn uses_network(connection: &Connection) -> (r: bool)
    ensures
        r == (connection is Netz),
{
    matches!(connection, Connection::Netz { .. })
}

/// Message when the machine cannot be reached; it names the target.
pub open spec fn connect_failure_message(target: Seq<char>) -> Seq<char> {
    "Keine Verbindung zum Laser ("@ + target + ")."@
}

/// The error of a failed connection attempt to `target`, with the driver's
/// cause as details.
pub fn connect_error(target: &str, cause: String) -> (e: AppError)
    ensures
        e@ == (AppErrorView {
            code: "laser_connect"@,
            message: connect_failure_message(target@),
            details: Some(cause@),
        }),
{
    let mut m: Vec<char> = Vec::new();
    push_str(&mut m, "Keine Verbindung zum Laser (");
    push_str(&mut m, target);
    push_str(&mut m, ").");
    AppError::wrap("laser_connect", string_from_chars(&m), cause)
}

/// Error when an action needs the machine but no connection is open.
pub fn check_connection(action: JobAction, connected: bool) -> (r: Result<(), AppError>)
    ensures
        r is Ok <==> (!needs_connection_spec(action) || connected),
        r is Err ==> r->Err_0@ == (AppErrorView {
            code: "laser_not_connected"@,
            message: "Laser ist nicht verbunden. Bitte zuerst ausdrücklich verbinden."@,
            details: None,
        }),
{
    if needs_connection(action) && !connected {
        return Err(
            AppError::new(
                "laser_not_connected",
                "Laser ist nicht verbunden. Bitte zuerst ausdrücklich verbinden.".to_owned(),
            ),
        );
    }
    Ok(())
}

pub open spec fn needs_connection_spec(a: JobAction) -> bool {
    !(a is ExportFile)
}

/// A laser profile: its stable id, its display name, how it connects, and
/// the key of its machine data (driver kind, bed size, origin) held by the
/// caller.
#[derive(Debug, Clone)]
pub struct LaserProfile {
    pub id: String,
    pub name: String,
    pub connection: Connection,
    pub settings: u64,
}

/// The lasers of the workplace and which one is active.
#[derive(Debug, Clone)]
pub struct LaserRegistry {
    pub profiles: Vec<LaserProfile>,
    pub active_id: Option<String>,
}

/// How a profile connects, as plain values.
pub open spec fn connection_view(c: Connection) -> (bool, Seq<char>) {
    match c {
        Connection::Netz { ip } => (true, ip@),
        Connection::Seriell { port } => (false, port@),
    }
}

/// Two profiles hold the same values.
pub open spec fn same_profile(a: LaserProfile, b: LaserProfile) -> bool {
    &&& a.id@ == b.id@
    &&& a.name@ == b.name@
    &&& connection_view(a.connection) == connection_view(b.connection)
    &&& a.settings == b.settings
}

/// An optional id as plain characters.
pub open spec fn opt_view(o: Option<String>) -> Option<Seq<char>> {
    match o {
        Some(s) => Some(s@),
        None => None,
    }
}

/// Some profile has id `id`.
pub open spec fn has_laser(profiles: Seq<LaserProfile>, id: Seq<char>) -> bool {
    exists|i: int| 0 <= i < profiles.len() && #[trigger] profiles[i].id@ == id
}

/// `i` is the first position of a profile with id `id`.
pub open spec fn is_first_laser(profiles: Seq<LaserProfile>, id: Seq<char>, i: int) -> bool {
    &&& 0 <= i < profiles.len()
    &&& profiles[i].id@ == id
    &&& forall|k: int| 0 <= k < i ==> profiles[k].id@ != id
}

/// Position of the first profile with id `id`.
pub open spec fn first_laser(profiles: Seq<LaserProfile>, id: Seq<char>) -> int {
    choose|i: int| is_first_laser(profiles, id, i)
}

/// The active profile: the first one with the active id.
pub open spec fn active_of_registry(profiles: Seq<LaserProfile>, active: Option<Seq<char>>) -> Option<LaserProfile> {
    match active {
        Some(a) => if has_laser(profiles, a) {
            Some(profiles[first_laser(profiles, a)])
        } else {
            None
        },
        None => None,
    }
}

/// `profiles` with the first profile of `p`'s id replaced by `p`, or `p`
/// appended when there is none.
pub open spec fn laser_upserted(profiles: Seq<LaserProfile>, p: LaserProfile) -> Seq<LaserProfile> {
    if has_laser(profiles, p.id@) {
        profiles.update(first_laser(profiles, p.id@), p)
    } else {
        profiles.push(p)
    }
}

/// The profiles without those of id `id`.
pub open spec fn lasers_without(profiles: Seq<LaserProfile>, id: Seq<char>) -> Seq<LaserProfile> {
    profiles.filter(|p: LaserProfile| p.id@ != id)
}

/// The active id after the profiles changed: it stays while a profile has
/// it, and otherwise passes to the first profile (none when there is none).
pub open spec fn repaired_active(profiles: Seq<LaserProfile>, active: Option<Seq<char>>) -> Option<Seq<char>> {
    match active {
        Some(a) => if has_laser(profiles, a) {
            Some(a)
        } else if profiles.len() > 0 {
            Some(profiles[0].id@)
        } else {
            None
        },
        None => None,
    }
}

/// The active id of a restored registry: the one active so far when the
/// restored profiles hold it, else the first restored profile.
pub open spec fn restored_active(profiles: Seq<LaserProfile>, previous: Option<Seq<char>>) -> Option<Seq<char>> {
    match previous {
        Some(a) if has_laser(profiles, a) => Some(a),
        _ => if profiles.len() > 0 {
            Some(profiles[0].id@)
        } else {
            None
        },
    }
}

/// Ids of the profiles among `old` that `new` no longer has, in order.
pub open spec fn dropped_ids(old: Seq<LaserProfile>, new: Seq<LaserProfile>) -> Seq<Seq<char>>
    decreases old.len(),
{
    if old.len() == 0 {
        Seq::empty()
    } else {
        let rest = dropped_ids(old.drop_last(), new);
        if has_laser(new, old.last().id@) {
            rest
        } else {
            rest.push(old.last().id@)
        }
    }
}

fn copy_connection(c: &Connection) -> (r: Connection)
    ensures
        r == *c,
{
    match c {
        Connection::Netz { ip } => Connection::Netz { ip: ip.clone() },
        Connection::Seriell { port } => Connection::Seriell { port: port.clone() },
    }
}

/// A copy of a profile.
pub fn copy_laser(p: &LaserProfile) -> (r: LaserProfile)
    ensures
        r == *p,
{
    LaserProfile {
        id: p.id.clone(),
        name: p.name.clone(),
        connection: copy_connection(&p.connection),
        settings: p.settings,
    }
}

fn profiles_equal(a: &LaserProfile, b: &LaserProfile) -> (r: bool)
    ensures
        r == same_profile(*a, *b),
{
    let conn = match (&a.connection, &b.connection) {
        (Connection::Netz { ip: x }, Connection::Netz { ip: y }) => str_eq(x.as_str(), y.as_str()),
        (Connection::Seriell { port: x }, Connection::Seriell { port: y }) => str_eq(x.as_str(), y.as_str()),
        _ => false,
    };
    str_eq(a.id.as_str(), b.id.as_str()) && str_eq(a.name.as_str(), b.name.as_str()) && conn
        && a.settings == b.settings
}

/// Position of the first profile with id `id`.
pub fn find_laser(profiles: &Vec<LaserProfile>, id: &str) -> (r: Option<usize>)
    ensures
        match r {
            Some(i) => is_first_laser(profiles@, id@, i as int) && first_laser(profiles@, id@) == i,
            None => !has_laser(profiles@, id@),
        },
{
    let mut i: usize = 0;
    while i < profiles.len()
        invariant
            i <= profiles@.len(),
            forall|k: int| 0 <= k < i ==> #[trigger] profiles@[k].id@ != id@,
        decreases profiles.len() - i,
    {
        if str_eq(profiles[i].id.as_str(), id) {
            proof {
                assert(is_first_laser(profiles@, id@, i as int));
                let c = first_laser(profiles@, id@);
                assert(is_first_laser(profiles@, id@, c));
                if c < i {
                    assert(profiles@[c].id@ != id@);
                } else if i < c {
                    assert(profiles@[i as int].id@ == id@);
                }
            }
            return Some(i);
        }
        i = i + 1;
    }
    None
}

fn copy_lasers(v: &Vec<LaserProfile>) -> (r: Vec<LaserProfile>)
    ensures
        r@ == v@,
{
    let mut r: Vec<LaserProfile> = Vec::new();
    let mut i: usize = 0;
    while i < v.len()
        invariant
            i <= v@.len(),
            r@ =~= v@.subrange(0, i as int),
        decreases v.len() - i,
    {
        r.push(copy_laser(&v[i]));
        i = i + 1;
    }
    assert(v@.subrange(0, v@.len() as int) =~= v@);
    r
}

fn lasers_filtered(v: &Vec<LaserProfile>, id: &str) -> (r: Vec<LaserProfile>)
    ensures
        r@ == lasers_without(v@, id@),
{
    let ghost pred = |p: LaserProfile| p.id@ != id@;
    let mut r: Vec<LaserProfile> = Vec::new();
    let mut i: usize = 0;
    while i < v.len()
        invariant
            i <= v@.len(),
            pred == |p: LaserProfile| p.id@ != id@,
            r@ == v@.subrange(0, i as int).filter(pred),
        decreases v.len() - i,
    {
        proof {
            reveal(Seq::filter);
            assert(v@.subrange(0, i + 1).drop_last() =~= v@.subrange(0, i as int));
        }
        if !str_eq(v[i].id.as_str(), id) {
            r.push(copy_laser(&v[i]));
        }
        i = i + 1;
    }
    assert(v@.subrange(0, v@.len() as int) =~= v@);
    r
}


impl LaserRegistry {
    /// A registry without lasers.
    pub fn new() -> (r: LaserRegistry)
        ensures
            r.profiles@.len() == 0,
            r.active_id is None,
    {
        LaserRegistry { profiles: Vec::new(), active_id: None }
    }

    /// The active profile.
    pub fn active(&self) -> (r: Option<&LaserProfile>)
        ensures
            match r {
                Some(p) => active_of_registry(self.profiles@, opt_view(self.active_id)) == Some(*p),
                None => active_of_registry(self.profiles@, opt_view(self.active_id)) is None,
            },
    {
        match &self.active_id {
            None => None,
            Some(a) => match find_laser(&self.profiles, a.as_str()) {
                Some(i) => Some(&self.profiles[i]),
                None => None,
            },
        }
    }

    /// Makes the laser `id` active; an unknown id is refused (`false`,
    /// nothing changes).
    pub fn set_active(&mut self, id: &str) -> (ok: bool)
        ensures
            ok == has_laser(old(self).profiles@, id@),
            final(self).profiles@ == old(self).profiles@,
            ok ==> opt_view(final(self).active_id) == Some(id@),
            !ok ==> final(self).active_id == old(self).active_id,
    {
        match find_laser(&self.profiles, id) {
            Some(_) => {
                self.active_id = Some(id.to_owned());
                true
            },
            None => false,
        }
    }

    /// Appends a profile.
    pub fn add(&mut self, profile: LaserProfile)
        ensures
            final(self).profiles@ == old(self).profiles@.push(profile),
            final(self).active_id == old(self).active_id,
    {
        self.profiles.push(profile);
    }

    /// Replaces the profile with the same id; `false` when there is none.
    pub fn update(&mut self, profile: LaserProfile) -> (found: bool)
        ensures
            found == has_laser(old(self).profiles@, profile.id@),
            found ==> final(self).profiles@ == laser_upserted(old(self).profiles@, profile),
            !found ==> final(self).profiles@ == old(self).profiles@,
            final(self).active_id == old(self).active_id,
    {
        match find_laser(&self.profiles, profile.id.as_str()) {
            Some(i) => {
                self.profiles.set(i, profile);
                true
            },
            None => false,
        }
    }

    /// Removes the profiles with id `id`.
    pub fn remove(&mut self, id: &str)
        ensures
            final(self).profiles@ == lasers_without(old(self).profiles@, id@),
            final(self).active_id == old(self).active_id,
    {
        self.profiles = lasers_filtered(&self.profiles, id);
    }
}

/// Ids given to new laser profiles: `laser-` and the clock's milliseconds.
pub open spec fn laser_id_spec(millis: nat) -> Seq<char> {
    "laser-"@ + decimal(millis)
}

/// A fresh laser profile id from the system clock.
pub fn new_laser_id() -> (id: String)
    ensures
        exists|millis: nat| id@ == laser_id_spec(millis),
{
    let millis = crate::datetime::unix_nanos() / 1_000_000;
    let mut out: Vec<char> = Vec::new();
    push_str(&mut out, "laser-");
    push_decimal_u128(&mut out, millis);
    assert(out@ == laser_id_spec(millis as nat));
    string_from_chars(&out)
}

/// A restored registry as it will be taken over: its active id is fixed,
/// and `dropped` names the profiles that the restore removes.
pub struct RegistryRestore {
    pub registry: LaserRegistry,
    pub dropped: Vec<String>,
}

/// The laser use case: the registry, the laser the driver was built for, and
/// the laser a connection was opened to. Drivers, files and the catalogue are
/// handled by the caller; each method says what changes here.
pub struct LaserService {
    registry: LaserRegistry,
    driver_id: Option<String>,
    connected_id: Option<String>,
}

impl LaserService {
    pub closed spec fn profiles(&self) -> Seq<LaserProfile> {
        self.registry.profiles@
    }

    pub closed spec fn active_id(&self) -> Option<Seq<char>> {
        opt_view(self.registry.active_id)
    }

    /// The laser the current driver was built for (none: no driver).
    pub closed spec fn driver_for(&self) -> Option<Seq<char>> {
        opt_view(self.driver_id)
    }

    /// The laser a connection was opened to.
    pub closed spec fn connected_to(&self) -> Option<Seq<char>> {
        opt_view(self.connected_id)
    }

    /// The service over a registry, without driver or connection.
    pub fn with_registry(registry: LaserRegistry) -> (s: LaserService)
        ensures
            s.profiles() == registry.profiles@,
            s.active_id() == opt_view(registry.active_id),
            s.driver_for() is None,
            s.connected_to() is None,
    {
        LaserService { registry, driver_id: None, connected_id: None }
    }

    pub fn registry(&self) -> (r: &LaserRegistry)
        ensures
            r.profiles@ == self.profiles(),
            opt_view(r.active_id) == self.active_id(),
    {
        &self.registry
    }

    pub fn active_profile(&self) -> (r: Option<&LaserProfile>)
        ensures
            match r {
                Some(p) => active_of_registry(self.profiles(), self.active_id()) == Some(*p),
                None => active_of_registry(self.profiles(), self.active_id()) is None,
            },
    {
        self.registry.active()
    }

    /// Makes another laser active. `true` when the registry changed: the
    /// caller then writes it and closes the driver, which is dropped here
    /// together with the connection. The active or an unknown laser changes
    /// nothing.
    pub fn set_active(&mut self, id: &str) -> (changed: bool)
        ensures
            changed == (old(self).active_id() != Some(id@) && has_laser(old(self).profiles(), id@)),
            final(self).profiles() == old(self).profiles(),
            changed ==> final(self).active_id() == Some(id@) && final(self).driver_for() is None
                && final(self).connected_to() is None,
            !changed ==> final(self).active_id() == old(self).active_id() && final(self).driver_for()
                == old(self).driver_for() && final(self).connected_to() == old(self).connected_to(),
    {
        if let Some(a) = &self.registry.active_id {
            if str_eq(a.as_str(), id) {
                return false;
            }
        }
        if self.registry.set_active(id) {
            self.connected_id = None;
            self.driver_id = None;
            true
        } else {
            false
        }
    }

    fn reset_driver(&mut self)
        ensures
            final(self).registry == old(self).registry,
            final(self).driver_for() is None,
            final(self).connected_to() is None,
    {
        self.driver_id = None;
        self.connected_id = None;
    }

    /// Creates a profile or updates the one with its id. A profile without
    /// id receives `fresh_id` (see `new_laser_id`). Driver and connection are
    /// dropped. Returns the stored profile, which the caller writes and
    /// queues for the shared catalogue.
    pub fn save_profile(&mut self, profile: LaserProfile, fresh_id: String) -> (stored: LaserProfile)
        ensures
            profile.id@.len() == 0 ==> stored == (LaserProfile { id: fresh_id, ..profile })
                && final(self).profiles() == old(self).profiles().push(stored),
            profile.id@.len() > 0 ==> stored == profile && final(self).profiles() == laser_upserted(
                old(self).profiles(),
                profile,
            ),
            final(self).active_id() == old(self).active_id(),
            final(self).driver_for() is None,
            final(self).connected_to() is None,
    {
        let mut p = profile;
        if p.id.as_str().unicode_len() == 0 {
            proof {
                assert(p.id@.len() == 0);
            }
            p.id = fresh_id;
            self.registry.add(copy_laser(&p));
        } else if !self.registry.update(copy_laser(&p)) {
            self.registry.add(copy_laser(&p));
        }
        self.reset_driver();
        p
    }

    /// Removes the profiles with id `id`; driver and connection are dropped.
    pub fn delete_profile(&mut self, id: &str)
        ensures
            final(self).profiles() == lasers_without(old(self).profiles(), id@),
            final(self).active_id() == old(self).active_id(),
            final(self).driver_for() is None,
            final(self).connected_to() is None,
    {
        self.registry.remove(id);
        self.reset_driver();
    }

    /// Takes over a laser profile that another workplace shared: `deleted`
    /// removes the profile `id`; otherwise `payload` is the received profile
    /// as the caller read it (`None`: the record had none; `Err`: it could
    /// not be read, with the reason). Records of another catalogue change
    /// nothing. Returns whether the profiles changed; then an active laser
    /// that is gone passes to the first profile, and driver and connection
    /// are dropped (the caller writes the registry and closes the driver).
    pub fn apply_shared_record(
        &mut self,
        kind: CatalogKind,
        id: &str,
        deleted: bool,
        payload: Option<Result<LaserProfile, String>>,
    ) -> (r: Result<bool, AppError>)
        ensures
            !(kind is LaserProfile) ==> r == Ok::<bool, AppError>(false) && *final(self) == *old(self),
            kind is LaserProfile && !deleted && payload is None ==> r is Err && r->Err_0@ == (AppErrorView {
                code: "catalog_payload"@,
                message: "Laserprofil fehlt."@,
                details: None,
            }) && *final(self) == *old(self),
            kind is LaserProfile && !deleted && (payload is Some && payload->Some_0 is Err) ==> r is Err
                && r->Err_0@ == (AppErrorView {
                code: "catalog_payload"@,
                message: payload->Some_0->Err_0@,
                details: None,
            }) && *final(self) == *old(self),
            kind is LaserProfile && (deleted || (payload is Some && payload->Some_0 is Ok)) ==> r is Ok && ({
                let changed = r->Ok_0;
                let profiles = if deleted {
                    lasers_without(old(self).profiles(), id@)
                } else {
                    laser_upserted(old(self).profiles(), payload->Some_0->Ok_0)
                };
                &&& changed == if deleted {
                    has_laser(old(self).profiles(), id@)
                } else {
                    !(has_laser(old(self).profiles(), payload->Some_0->Ok_0.id@) && same_profile(
                        old(self).profiles()[first_laser(old(self).profiles(), payload->Some_0->Ok_0.id@)],
                        payload->Some_0->Ok_0,
                    ))
                }
                &&& final(self).profiles() == profiles
                &&& changed ==> final(self).active_id() == repaired_active(profiles, old(self).active_id())
                    && final(self).driver_for() is None && final(self).connected_to() is None
                &&& !changed ==> final(self).active_id() == old(self).active_id()
                    && final(self).driver_for() == old(self).driver_for()
                    && final(self).connected_to() == old(self).connected_to()
            }),
    {
        if !matches!(kind, CatalogKind::LaserProfile) {
            return Ok(false);
        }
        let changed = if deleted {
            let existed = find_laser(&self.registry.profiles, id).is_some();
            self.registry.remove(id);
            existed
        } else {
            match payload {
                None => {
                    return Err(AppError::new("catalog_payload", "Laserprofil fehlt.".to_owned()));
                },
                Some(Err(reason)) => {
                    return Err(AppError::new("catalog_payload", reason));
                },
                Some(Ok(profile)) => {
                    let same = match find_laser(&self.registry.profiles, profile.id.as_str()) {
                        Some(i) => profiles_equal(&self.registry.profiles[i], &profile),
                        None => false,
                    };
                    let ghost p = profile;
                    if !self.registry.update(copy_laser(&profile)) {
                        self.registry.add(profile);
                    }
                    assert(self.registry.profiles@ == laser_upserted(old(self).profiles(), p));
                    !same
                },
            }
        };
        if changed {
            let gone = match &self.registry.active_id {
                Some(a) => find_laser(&self.registry.profiles, a.as_str()).is_none(),
                None => false,
            };
            if gone {
                self.registry.active_id = if self.registry.profiles.len() > 0 {
                    Some(self.registry.profiles[0].id.clone())
                } else {
                    None
                };
            }
            self.reset_driver();
        }
        Ok(changed)
    }

    /// Prepares a restore from a backup: the restored registry keeps the
    /// laser active so far when it holds it, else the first restored
    /// profile becomes active; `dropped` lists the ids of the profiles that
    /// the restore removes. Nothing changes here: the caller writes the
    /// registry, queues every restored profile and each dropped id for the
    /// shared catalogue, and then commits it.
    pub fn restore_registry(&self, registry: LaserRegistry) -> (r: RegistryRestore)
        ensures
            r.registry.profiles@ == registry.profiles@,
            opt_view(r.registry.active_id) == restored_active(registry.profiles@, self.active_id()),
            r.dropped@.map_values(|s: String| s@) == dropped_ids(self.profiles(), registry.profiles@),
    {
        let mut restored = registry;
        let keep = match &self.registry.active_id {
            Some(a) => find_laser(&restored.profiles, a.as_str()).is_some(),
            None => false,
        };
        if keep {
            restored.active_id = self.registry.active_id.clone();
        } else {
            restored.active_id = if restored.profiles.len() > 0 {
                Some(restored.profiles[0].id.clone())
            } else {
                None
            };
        }
        let ghost old_profiles = self.registry.profiles@;
        let mut dropped: Vec<String> = Vec::new();
        let mut i: usize = 0;
        while i < self.registry.profiles.len()
            invariant
                i <= old_profiles.len(),
                old_profiles == self.registry.profiles@,
                dropped@.map_values(|s: String| s@) == dropped_ids(
                    old_profiles.subrange(0, i as int),
                    restored.profiles@,
                ),
            decreases old_profiles.len() - i,
        {
            assert(old_profiles.subrange(0, i + 1).drop_last() =~= old_profiles.subrange(0, i as int));
            let id = &self.registry.profiles[i].id;
            if find_laser(&restored.profiles, id.as_str()).is_none() {
                let ghost before = dropped@;
                dropped.push(id.clone());
                assert(dropped@.map_values(|s: String| s@) =~= before.map_values(|s: String| s@).push(
                    id@,
                ));
            }
            i = i + 1;
        }
        assert(old_profiles.subrange(0, old_profiles.len() as int) =~= old_profiles);
        RegistryRestore { registry: restored, dropped }
    }

    /// Takes a written registry over; driver and connection are dropped.
    pub fn commit_registry(&mut self, registry: LaserRegistry)
        ensures
            final(self).profiles() == registry.profiles@,
            final(self).active_id() == opt_view(registry.active_id),
            final(self).driver_for() is None,
            final(self).connected_to() is None,
    {
        self.registry = registry;
        self.reset_driver();
    }

    /// Connected to the active laser?
    pub fn is_connected(&self) -> (r: bool)
        ensures
            r == (self.connected_to() is Some && self.connected_to() == self.active_id()),
    {
        match (&self.connected_id, &self.registry.active_id) {
            (Some(c), Some(a)) => str_eq(c.as_str(), a.as_str()),
            _ => false,
        }
    }

    /// Does the active laser connect over the network?
    pub fn active_uses_network(&self) -> (r: bool)
        ensures
            r == (active_of_registry(self.profiles(), self.active_id()) is Some
                && active_of_registry(self.profiles(), self.active_id())->Some_0.connection is Netz),
    {
        match self.active_profile() {
            Some(p) => uses_network(&p.connection),
            None => false,
        }
    }

    /// Forgets the open connection (the caller closes the driver's).
    pub fn disconnect(&mut self)
        ensures
            final(self).profiles() == old(self).profiles(),
            final(self).active_id() == old(self).active_id(),
            final(self).driver_for() == old(self).driver_for(),
            final(self).connected_to() is None,
    {
        self.connected_id = None;
    }

    /// Before the driver is used: the active profile, and whether the driver
    /// has to be built anew for it (no driver yet, or one built for another
    /// laser); the driver counts as built for the active laser from here.
    /// Refused without an active laser, and for calls that move the machine
    /// (`requires_connection`) while no connection to the active laser was
    /// opened explicitly.
    pub fn driver_access(&mut self, requires_connection: bool) -> (r: Result<(LaserProfile, bool), AppError>)
        ensures
            final(self).profiles() == old(self).profiles(),
            final(self).active_id() == old(self).active_id(),
            final(self).connected_to() == old(self).connected_to(),
            active_of_registry(old(self).profiles(), old(self).active_id()) is None ==> r is Err
                && r->Err_0@ == (AppErrorView {
                code: "no_active_laser"@,
                message: "Kein Laser aktiv — in den Einstellungen anlegen."@,
                details: None,
            }) && final(self).driver_for() == old(self).driver_for(),
            active_of_registry(old(self).profiles(), old(self).active_id()) is Some ==> {
                let p = active_of_registry(old(self).profiles(), old(self).active_id())->Some_0;
                &&& final(self).driver_for() == Some(p.id@)
                &&& if requires_connection && old(self).connected_to() != Some(p.id@) {
                    r is Err && r->Err_0@ == (AppErrorView {
                        code: "laser_not_connected"@,
                        message: "Laser ist nicht verbunden. Bitte zuerst ausdrücklich verbinden."@,
                        details: None,
                    })
                } else {
                    r is Ok && r->Ok_0.0 == p && r->Ok_0.1 == (old(self).driver_for() != Some(p.id@))
                }
            },
    {
        let profile = match self.registry.active() {
            None => {
                return Err(
                    AppError::new(
                        "no_active_laser",
                        "Kein Laser aktiv — in den Einstellungen anlegen.".to_owned(),
                    ),
                );
            },
            Some(p) => copy_laser(p),
        };
        let rebuild = match &self.driver_id {
            Some(d) => !str_eq(d.as_str(), profile.id.as_str()),
            None => true,
        };
        if rebuild {
            self.driver_id = Some(profile.id.clone());
        }
        let connected = match &self.connected_id {
            Some(c) => str_eq(c.as_str(), profile.id.as_str()),
            None => false,
        };
        if requires_connection && !connected {
            return Err(
                AppError::new(
                    "laser_not_connected",
                    "Laser ist nicht verbunden. Bitte zuerst ausdrücklich verbinden.".to_owned(),
                ),
            );
        }
        Ok((profile, rebuild))
    }

    /// What an explicit connect needs: the active laser's id and its target.
    pub fn connection_request(&self) -> (r: Result<(String, String), AppError>)
        ensures
            match active_of_registry(self.profiles(), self.active_id()) {
                None => r is Err && r->Err_0@ == (AppErrorView {
                    code: "no_active_laser"@,
                    message: "Kein Laser aktiv."@,
                    details: None,
                }),
                Some(p) => r is Ok && r->Ok_0.0@ == p.id@ && r->Ok_0.1@ == connection_view(p.connection).1,
            },
    {
        match self.registry.active() {
            None => Err(AppError::new("no_active_laser", "Kein Laser aktiv.".to_owned())),
            Some(p) => Ok((p.id.clone(), connection_target(&p.connection))),
        }
    }

    /// Records that the driver connected to laser `id`.
    pub fn mark_connected(&mut self, id: String)
        ensures
            final(self).profiles() == old(self).profiles(),
            final(self).active_id() == old(self).active_id(),
            final(self).driver_for() == old(self).driver_for(),
            final(self).connected_to() == Some(id@),
    {
        self.connected_id = Some(id);
    }
}

/// After shared profiles were taken over, an active laser is always one of
/// the profiles, and there is one whenever a laser was active and profiles
/// remain.
pub proof fn synced_active_laser_exists(profiles: Seq<LaserProfile>, active: Option<Seq<char>>)
    ensures
        repaired_active(profiles, active) matches Some(a) ==> has_laser(profiles, a),
        active is Some && profiles.len() > 0 ==> repaired_active(profiles, active) is Some,
{
    if let Some(a) = active {
        if !has_laser(profiles, a) && profiles.len() > 0 {
            assert(profiles[0].id@ == profiles[0].id@);
        }
    }
}

/// A restored registry activates one of its own profiles, and one whenever
/// it has any; the laser active so far stays active when it was restored.
pub proof fn restored_active_laser_exists(profiles: Seq<LaserProfile>, previous: Option<Seq<char>>)
    ensures
        restored_active(profiles, previous) matches Some(a) ==> has_laser(profiles, a),
        profiles.len() > 0 ==> restored_active(profiles, previous) is Some,
        previous matches Some(a) && has_laser(profiles, a) ==> restored_active(profiles, previous)
            == previous,
{
    if profiles.len() > 0 {
        assert(profiles[0].id@ == profiles[0].id@);
    }
}

proof fn lemma_has_laser_push(s: Seq<LaserProfile>, x: LaserProfile, id: Seq<char>)
    ensures
        has_laser(s.push(x), id) <==> (has_laser(s, id) || x.id@ == id),
{
    let t = s.push(x);
    if has_laser(s, id) {
        let i = choose|i: int| 0 <= i < s.len() && #[trigger] s[i].id@ == id;
        assert(t[i].id@ == id);
    }
    if x.id@ == id {
        assert(t[s.len() as int].id@ == id);
    }
    if has_laser(t, id) {
        let i = choose|i: int| 0 <= i < t.len() && #[trigger] t[i].id@ == id;
        if i < s.len() {
            assert(s[i].id@ == id);
        }
    }
}

/// A removed laser is gone, and every other profile stays.
pub proof fn removed_laser_is_gone(profiles: Seq<LaserProfile>, id: Seq<char>)
    ensures
        !has_laser(lasers_without(profiles, id), id),
        forall|other: Seq<char>| other != id ==> (has_laser(lasers_without(profiles, id), other)
            <==> has_laser(profiles, other)),
    decreases profiles.len(),
{
    reveal(Seq::filter);
    if profiles.len() > 0 {
        let d = profiles.drop_last();
        let x = profiles.last();
        removed_laser_is_gone(d, id);
        let f = lasers_without(profiles, id);
        let fd = lasers_without(d, id);
        assert(profiles =~= d.push(x));
        assert forall|other: Seq<char>| #[trigger] has_laser(profiles, other) <==> (has_laser(d, other)
            || x.id@ == other) by {
            lemma_has_laser_push(d, x, other);
        }
        if x.id@ != id {
            assert(f =~= fd.push(x));
            assert forall|other: Seq<char>| #[trigger] has_laser(f, other) <==> (has_laser(fd, other)
                || x.id@ == other) by {
                lemma_has_laser_push(fd, x, other);
            }
        } else {
            assert(f =~= fd);
        }
    } else {
        assert(lasers_without(profiles, id) =~= profiles);
    }
}

} // verus!
