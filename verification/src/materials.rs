//! Material profiles per laser: the library, which profile is selected for
//! which laser, and the checks made before the library is replaced or a
//! profile is saved or deleted. Each change yields the next library; the
//! caller writes it and then commits it, so that a failed write leaves the
//! running state as it was. The measured process values of a profile
//! (speeds, powers, line step, resolution) are held by the caller under the
//! profile's `settings` key.

use vstd::prelude::*;

use crate::chars::{decimal, push_decimal_u128, push_str, str_chars, str_eq, string_from_chars};
use crate::charon::{trim, trim_chars};
use crate::error::{AppError, AppErrorView};

verus! {

/// A material profile of one laser.
#[derive(Debug, Clone)]
pub struct MaterialProfile {
    pub id: String,
    pub laser_id: String,
    pub name: String,
    /// Key of the process defaults (cut, vector engrave, raster engrave)
    /// held by the caller.
    pub settings: u64,
}

/// The material selected for a laser.
#[derive(Debug, Clone)]
pub struct ActiveMaterial {
    pub laser_id: String,
    pub material_id: String,
}

/// All material profiles and the selection per laser.
#[derive(Debug, Clone)]
pub struct MaterialLibrary {
    pub profiles: Vec<MaterialProfile>,
    /// At most one entry per laser.
    pub active_by_laser: Vec<ActiveMaterial>,
}

/// The material selected for `laser` (the last entry for it counts).
pub open spec fn active_of(entries: Seq<ActiveMaterial>, laser: Seq<char>) -> Option<Seq<char>>
    decreases entries.len(),
{
    if entries.len() == 0 {
        None
    } else if entries.last().laser_id@ == laser {
        Some(entries.last().material_id@)
    } else {
        active_of(entries.drop_last(), laser)
    }
}

/// Some profile has id `id` and belongs to laser `laser`.
pub open spec fn has_profile_for(profiles: Seq<MaterialProfile>, id: Seq<char>, laser: Seq<char>) -> bool {
    exists|i: int| 0 <= i < profiles.len() && #[trigger] profiles[i].id@ == id && profiles[i].laser_id@ == laser
}

/// Some profile has id `id`.
pub open spec fn has_profile(profiles: Seq<MaterialProfile>, id: Seq<char>) -> bool {
    exists|i: int| 0 <= i < profiles.len() && #[trigger] profiles[i].id@ == id
}

/// Every selection names a profile of its laser.
pub open spec fn selections_valid(lib: MaterialLibrary) -> bool {
    forall|k: int|
        0 <= k < lib.active_by_laser@.len() ==> has_profile_for(
            lib.profiles@,
            (#[trigger] lib.active_by_laser@[k]).material_id@,
            lib.active_by_laser@[k].laser_id@,
        )
}

/// A copy of a profile.
pub fn copy_profile(p: &MaterialProfile) -> (c: MaterialProfile)
    ensures
        c == *p,
{
    MaterialProfile {
        id: p.id.clone(),
        laser_id: p.laser_id.clone(),
        name: p.name.clone(),
        settings: p.settings,
    }
}

fn copy_active(a: &ActiveMaterial) -> (c: ActiveMaterial)
    ensures
        c == *a,
{
    ActiveMaterial { laser_id: a.laser_id.clone(), material_id: a.material_id.clone() }
}

fn find_profile_for(profiles: &Vec<MaterialProfile>, id: &str, laser: &str) -> (r: bool)
    ensures
        r == has_profile_for(profiles@, id@, laser@),
{
    let mut i: usize = 0;
    while i < profiles.len()
        invariant
            i <= profiles@.len(),
            forall|k: int|
                0 <= k < i ==> !(#[trigger] profiles@[k].id@ == id@ && profiles@[k].laser_id@ == laser@),
        decreases profiles.len() - i,
    {
        if str_eq(profiles[i].id.as_str(), id) && str_eq(profiles[i].laser_id.as_str(), laser) {
            return true;
        }
        i = i + 1;
    }
    false
}

/// Position of the profile with id `id`.
pub fn find_profile(profiles: &Vec<MaterialProfile>, id: &str) -> (r: Option<usize>)
    ensures
        match r {
            Some(i) => i < profiles@.len() && profiles@[i as int].id@ == id@ && forall|k: int|
                0 <= k < i ==> profiles@[k].id@ != id@,
            None => !has_profile(profiles@, id@),
        },
{
    let mut i: usize = 0;
    while i < profiles.len()
        invariant
            i <= profiles@.len(),
            forall|k: int| 0 <= k < i ==> #[trigger] profiles@[k].id@ != id@,
        decreases profiles.len() - i,
    {
        if str_eq(profiles[i].id.as_str(), id) {
            return Some(i);
        }
        i = i + 1;
    }
    None
}

/// The entries without the laser `laser`.
pub open spec fn without_laser(entries: Seq<ActiveMaterial>, laser: Seq<char>) -> Seq<ActiveMaterial> {
    entries.filter(|a: ActiveMaterial| a.laser_id@ != laser)
}

/// The entries not selecting material `id`.
pub open spec fn without_material(entries: Seq<ActiveMaterial>, id: Seq<char>) -> Seq<ActiveMaterial> {
    entries.filter(|a: ActiveMaterial| a.material_id@ != id)
}

fn retain_active(entries: &Vec<ActiveMaterial>, key: &str, by_laser: bool) -> (r: Vec<ActiveMaterial>)
    ensures
        by_laser ==> r@ == without_laser(entries@, key@),
        !by_laser ==> r@ == without_material(entries@, key@),
{
    let ghost pred = if by_laser {
        |a: ActiveMaterial| a.laser_id@ != key@
    } else {
        |a: ActiveMaterial| a.material_id@ != key@
    };
    let mut r: Vec<ActiveMaterial> = Vec::new();
    let mut i: usize = 0;
    while i < entries.len()
        invariant
            i <= entries@.len(),
            pred == if by_laser {
                |a: ActiveMaterial| a.laser_id@ != key@
            } else {
                |a: ActiveMaterial| a.material_id@ != key@
            },
            r@ == entries@.subrange(0, i as int).filter(pred),
        decreases entries.len() - i,
    {
        proof {
            reveal(Seq::filter);
            assert(entries@.subrange(0, i + 1).drop_last() =~= entries@.subrange(0, i as int));
        }
        let keep = if by_laser {
            !str_eq(entries[i].laser_id.as_str(), key)
        } else {
            !str_eq(entries[i].material_id.as_str(), key)
        };
        if keep {
            r.push(copy_active(&entries[i]));
        }
        i = i + 1;
    }
    assert(entries@.subrange(0, entries@.len() as int) =~= entries@);
    r
}

proof fn lemma_active_without(entries: Seq<ActiveMaterial>, laser: Seq<char>, other: Seq<char>)
    ensures
        active_of(without_laser(entries, laser), other) == if other == laser {
            None
        } else {
            active_of(entries, other)
        },
    decreases entries.len(),
{
    reveal(Seq::filter);
    if entries.len() > 0 {
        let d = entries.drop_last();
        lemma_active_without(d, laser, other);
        let f = without_laser(entries, laser);
        let fd = without_laser(d, laser);
        if entries.last().laser_id@ != laser {
            assert(f == fd.push(entries.last()));
            assert(f.drop_last() =~= fd);
        } else {
            assert(f == fd);
        }
    }
}

/// After a profile is deleted no laser selects it any more, and every other
/// selection stays.
pub proof fn deleted_profile_is_not_selected(entries: Seq<ActiveMaterial>, id: Seq<char>, laser: Seq<char>)
    ensures
        active_of(without_material(entries, id), laser) != Some(id),
        active_of(entries, laser) != Some(id) ==> active_of(without_material(entries, id), laser)
            == active_of(entries, laser),
    decreases entries.len(),
{
    reveal(Seq::filter);
    if entries.len() > 0 {
        let d = entries.drop_last();
        deleted_profile_is_not_selected(d, id, laser);
        let f = without_material(entries, id);
        let fd = without_material(d, id);
        if entries.last().material_id@ != id {
            assert(f == fd.push(entries.last()));
            assert(f.drop_last() =~= fd);
        } else {
            assert(f == fd);
        }
    }
}

impl MaterialLibrary {
    /// An empty library.
    pub fn new() -> (l: MaterialLibrary)
        ensures
            l.profiles@.len() == 0,
            l.active_by_laser@.len() == 0,
    {
        MaterialLibrary { profiles: Vec::new(), active_by_laser: Vec::new() }
    }

    /// The material selected for a laser.
    pub fn active_for(&self, laser_id: &str) -> (r: Option<String>)
        ensures
            match r {
                Some(m) => active_of(self.active_by_laser@, laser_id@) == Some(m@),
                None => active_of(self.active_by_laser@, laser_id@) is None,
            },
    {
        let mut i = self.active_by_laser.len();
        assert(self.active_by_laser@.subrange(0, i as int) =~= self.active_by_laser@);
        while i > 0
            invariant
                i <= self.active_by_laser@.len(),
                active_of(self.active_by_laser@, laser_id@) == active_of(
                    self.active_by_laser@.subrange(0, i as int),
                    laser_id@,
                ),
            decreases i,
        {
            assert(self.active_by_laser@.subrange(0, i as int).drop_last()
                =~= self.active_by_laser@.subrange(0, i - 1));
            if str_eq(self.active_by_laser[i - 1].laser_id.as_str(), laser_id) {
                return Some(self.active_by_laser[i - 1].material_id.clone());
            }
            i = i - 1;
        }
        None
    }

    /// Selects `material_id` for `laser_id` (or clears the selection with
    /// `None`). A material that is no profile of that laser is refused
    /// (`false`, nothing changed).
    pub fn set_active(&mut self, laser_id: &str, material_id: Option<&str>) -> (ok: bool)
        ensures
            final(self).profiles@ == old(self).profiles@,
            ok == match material_id {
                None => true,
                Some(m) => has_profile_for(old(self).profiles@, m@, laser_id@),
            },
            !ok ==> final(self).active_by_laser@ == old(self).active_by_laser@,
            ok ==> active_of(final(self).active_by_laser@, laser_id@) == match material_id {
                None => None::<Seq<char>>,
                Some(m) => Some(m@),
            },
            ok ==> forall|other: Seq<char>|
                other != laser_id@ ==> active_of(final(self).active_by_laser@, other) == active_of(
                    old(self).active_by_laser@,
                    other,
                ),
    {
        if let Some(m) = material_id {
            if !find_profile_for(&self.profiles, m, laser_id) {
                return false;
            }
        }
        let mut rest = retain_active(&self.active_by_laser, laser_id, true);
        proof {
            assert forall|other: Seq<char>|
                #[trigger] active_of(rest@, other) == if other == laser_id@ {
                    None
                } else {
                    active_of(old(self).active_by_laser@, other)
                } by {
                lemma_active_without(old(self).active_by_laser@, laser_id@, other);
            }
        }
        let ghost w = rest@;
        if let Some(m) = material_id {
            rest.push(ActiveMaterial { laser_id: laser_id.to_owned(), material_id: m.to_owned() });
            proof {
                assert(rest@.drop_last() =~= w);
                assert forall|other: Seq<char>| other != laser_id@ implies active_of(rest@, other)
                    == active_of(w, other) by {}
            }
        }
        self.active_by_laser = rest;
        assert forall|other: Seq<char>| other != laser_id@ implies active_of(
            self.active_by_laser@,
            other,
        ) == active_of(old(self).active_by_laser@, other) by {
            lemma_active_without(old(self).active_by_laser@, laser_id@, other);
            assert(active_of(w, other) == active_of(old(self).active_by_laser@, other));
        }
        true
    }
}

/// A copy of a library.
pub fn copy_library(l: &MaterialLibrary) -> (c: MaterialLibrary)
    ensures
        c.profiles@ == l.profiles@,
        c.active_by_laser@ == l.active_by_laser@,
{
    let mut profiles: Vec<MaterialProfile> = Vec::new();
    let mut i: usize = 0;
    while i < l.profiles.len()
        invariant
            i <= l.profiles@.len(),
            profiles@ =~= l.profiles@.subrange(0, i as int),
        decreases l.profiles.len() - i,
    {
        profiles.push(copy_profile(&l.profiles[i]));
        i = i + 1;
    }
    let mut active: Vec<ActiveMaterial> = Vec::new();
    let mut j: usize = 0;
    while j < l.active_by_laser.len()
        invariant
            j <= l.active_by_laser@.len(),
            active@ =~= l.active_by_laser@.subrange(0, j as int),
        decreases l.active_by_laser.len() - j,
    {
        active.push(copy_active(&l.active_by_laser[j]));
        j = j + 1;
    }
    assert(profiles@ =~= l.profiles@);
    assert(active@ =~= l.active_by_laser@);
    MaterialLibrary { profiles, active_by_laser: active }
}

/// Ids given to new profiles: `material-` and the clock's nanoseconds.
pub open spec fn material_id_spec(nanos: nat) -> Seq<char> {
    "material-"@ + decimal(nanos)
}

/// A fresh profile id from the system clock.
pub fn new_material_id() -> (id: String)
    ensures
        exists|nanos: nat| id@ == material_id_spec(nanos),
{
    let nanos = crate::datetime::unix_nanos();
    let mut out: Vec<char> = Vec::new();
    push_str(&mut out, "material-");
    push_decimal_u128(&mut out, nanos);
    assert(out@ == material_id_spec(nanos as nat));
    string_from_chars(&out)
}

/// Position of the first failed check, if any.
pub open spec fn first_failure(checks: Seq<Result<(), String>>) -> Option<int>
    decreases checks.len(),
{
    if checks.len() == 0 {
        None
    } else {
        match first_failure(checks.drop_last()) {
            Some(i) => Some(i),
            None => if checks.last() is Err {
                Some(checks.len() - 1)
            } else {
                None
            },
        }
    }
}

proof fn lemma_first_failure_prefix(checks: Seq<Result<(), String>>, c: int)
    requires
        0 <= c < checks.len(),
        first_failure(checks.take(c)) is None,
        checks[c] is Err,
    ensures
        first_failure(checks) == Some(c),
    decreases checks.len() - c,
{
    assert(checks.take(c + 1).drop_last() =~= checks.take(c));
    assert(first_failure(checks.take(c + 1)) == Some(c));
    lemma_first_failure_extends(checks, c + 1, c);
}

proof fn lemma_first_failure_extends(checks: Seq<Result<(), String>>, n: int, i: int)
    requires
        0 <= n <= checks.len(),
        first_failure(checks.take(n)) == Some(i),
    ensures
        first_failure(checks) == Some(i),
    decreases checks.len() - n,
{
    if n < checks.len() {
        assert(checks.take(n + 1).drop_last() =~= checks.take(n));
        lemma_first_failure_extends(checks, n + 1, i);
    } else {
        assert(checks.take(n) =~= checks);
    }
}

/// The material profile use case: the library in memory. Every change is
/// computed as the next library; the caller writes that and then commits it.
pub struct MaterialService {
    library: MaterialLibrary,
}

/// `profiles` with the profile of the same id replaced by `p`, or `p`
/// appended when there is none.
pub open spec fn upserted(profiles: Seq<MaterialProfile>, p: MaterialProfile) -> Seq<MaterialProfile> {
    if has_profile(profiles, p.id@) {
        let i = choose|i: int|
            0 <= i < profiles.len() && profiles[i].id@ == p.id@ && forall|k: int|
                0 <= k < i ==> profiles[k].id@ != p.id@;
        profiles.update(i, p)
    } else {
        profiles.push(p)
    }
}

/// The profiles without the one with id `id`.
pub open spec fn without_profile(profiles: Seq<MaterialProfile>, id: Seq<char>) -> Seq<MaterialProfile> {
    profiles.filter(|p: MaterialProfile| p.id@ != id)
}

impl MaterialService {
    /// The service over a loaded library.
    pub fn new(library: MaterialLibrary) -> (s: MaterialService)
        ensures
            s.library_view() == library,
    {
        MaterialService { library }
    }

    pub closed spec fn library_view(&self) -> MaterialLibrary {
        self.library
    }

    /// The current library.
    pub fn library(&self) -> (l: &MaterialLibrary)
        ensures
            *l == self.library_view(),
    {
        &self.library
    }

    /// Makes a library written to disk the running one.
    pub fn commit(&mut self, next: MaterialLibrary)
        ensures
            final(self).library_view() == next,
    {
        self.library = next;
    }

    /// Checks a library restored from a workplace backup. `checks[i]` is the
    /// outcome of validating its profile `i` (the reason when it is invalid).
    /// The first invalid profile refuses the library; otherwise every
    /// selection must name a profile of its laser. Returns the library to
    /// write and commit.
    pub fn restore_library(&self, library: MaterialLibrary, checks: &Vec<Result<(), String>>) -> (r: Result<
        MaterialLibrary,
        AppError,
    >)
        requires
            checks@.len() == library.profiles@.len(),
        ensures
            match first_failure(checks@) {
                Some(i) => r is Err && r->Err_0@ == (AppErrorView {
                    code: "invalid_material_profile"@,
                    message: checks@[i]->Err_0@,
                    details: None,
                }),
                None => {
                    &&& (r is Ok <==> selections_valid(library))
                    &&& (r matches Ok(l) ==> l == library)
                    &&& (r is Err ==> r->Err_0@ == (AppErrorView {
                        code: "invalid_material_selection"@,
                        message: "Die gesicherte Materialauswahl passt nicht zum Laser."@,
                        details: None,
                    }))
                },
            },
    {
        let mut c: usize = 0;
        while c < checks.len()
            invariant
                c <= checks@.len(),
                first_failure(checks@.take(c as int)) is None,
            decreases checks.len() - c,
        {
            proof {
                assert(checks@.take(c + 1).drop_last() =~= checks@.take(c as int));
            }
            match &checks[c] {
                Err(m) => {
                    proof {
                        lemma_first_failure_prefix(checks@, c as int);
                    }
                    return Err(AppError::new("invalid_material_profile", m.clone()));
                },
                Ok(()) => {},
            }
            c = c + 1;
        }
        assert(checks@.take(c as int) =~= checks@);
        let mut k: usize = 0;
        while k < library.active_by_laser.len()
            invariant
                first_failure(checks@) is None,
                k <= library.active_by_laser@.len(),
                forall|j: int|
                    0 <= j < k ==> has_profile_for(
                        library.profiles@,
                        (#[trigger] library.active_by_laser@[j]).material_id@,
                        library.active_by_laser@[j].laser_id@,
                    ),
            decreases library.active_by_laser.len() - k,
        {
            let a = &library.active_by_laser[k];
            if !find_profile_for(&library.profiles, a.material_id.as_str(), a.laser_id.as_str()) {
                return Err(
                    AppError::new(
                        "invalid_material_selection",
                        "Die gesicherte Materialauswahl passt nicht zum Laser.".to_owned(),
                    ),
                );
            }
            k = k + 1;
        }
        Ok(library)
    }

    /// Saves a profile: its name is trimmed; `check` is the outcome of
    /// validating the profile with the trimmed name, and an invalid profile is
    /// refused with the reason. Otherwise a new profile gets a fresh id, a
    /// profile with the same id is replaced and otherwise it is added, and it
    /// becomes the selected material of its laser. Returns the library to
    /// write and commit, and the saved profile.
    pub fn save_profile(&self, profile: MaterialProfile, check: Result<(), String>) -> (r: Result<
        (MaterialLibrary, MaterialProfile),
        AppError,
    >)
        ensures
            check is Err ==> r is Err && r->Err_0@ == (AppErrorView {
                code: "invalid_material_profile"@,
                message: check->Err_0@,
                details: None,
            }),
            check is Ok ==> (r matches Ok((next, saved)) && {
                &&& saved.name@ == trim(profile.name@)
                &&& saved.laser_id == profile.laser_id
                &&& saved.settings == profile.settings
                &&& (profile.id@.len() > 0 ==> saved.id == profile.id)
                &&& (profile.id@.len() == 0 ==> exists|nanos: nat|
                    saved.id@ == material_id_spec(nanos))
                &&& next.profiles@ == upserted(self.library_view().profiles@, saved)
                &&& active_of(next.active_by_laser@, saved.laser_id@) == Some(saved.id@)
                &&& forall|other: Seq<char>|
                    other != saved.laser_id@ ==> active_of(next.active_by_laser@, other)
                        == active_of(self.library_view().active_by_laser@, other)
            }),
    {
        if let Err(m) = check {
            return Err(AppError::new("invalid_material_profile", m));
        }
        let name_chars = str_chars(profile.name.as_str());
        let name = string_from_chars(&trim_chars(&name_chars));
        let id = if profile.id.unicode_len() == 0 {
            new_material_id()
        } else {
            profile.id
        };
        let saved = MaterialProfile {
            id,
            laser_id: profile.laser_id,
            name,
            settings: profile.settings,
        };
        let mut next = copy_library(&self.library);
        match find_profile(&next.profiles, saved.id.as_str()) {
            Some(i) => {
                next.profiles.set(i, copy_profile(&saved));
                assert(has_profile(self.library.profiles@, saved.id@)) by {
                    assert(self.library.profiles@[i as int].id@ == saved.id@);
                }
                let ghost j = choose|j: int|
                    0 <= j < self.library.profiles@.len() && self.library.profiles@[j].id@
                        == saved.id@ && forall|k: int|
                        0 <= k < j ==> self.library.profiles@[k].id@ != saved.id@;
                assert(j == i as int) by {
                    if j < i {
                        assert(self.library.profiles@[j].id@ != saved.id@);
                    }
                    if i < j {
                        assert(self.library.profiles@[i as int].id@ != saved.id@);
                    }
                }
                assert(next.profiles@[i as int].id@ == saved.id@);
                assert(has_profile_for(next.profiles@, saved.id@, saved.laser_id@));
            },
            None => {
                next.profiles.push(copy_profile(&saved));
                assert(next.profiles@[next.profiles@.len() - 1].id@ == saved.id@);
                assert(has_profile_for(next.profiles@, saved.id@, saved.laser_id@));
            },
        }
        assert(next.profiles@ == upserted(self.library.profiles@, saved));
        if !next.set_active(saved.laser_id.as_str(), Some(saved.id.as_str())) {
            return Err(
                AppError::new(
                    "invalid_material_selection",
                    "Material konnte dem Laser nicht zugeordnet werden.".to_owned(),
                ),
            );
        }
        Ok((next, saved))
    }

    /// Deletes a profile and every selection of it. Returns the library to
    /// write and commit; a profile that does not exist is reported.
    pub fn delete_profile(&self, id: &str) -> (r: Result<MaterialLibrary, AppError>)
        ensures
            r is Ok <==> has_profile(self.library_view().profiles@, id@),
            r matches Ok(next) ==> next.profiles@ == without_profile(
                self.library_view().profiles@,
                id@,
            ) && next.active_by_laser@ == without_material(
                self.library_view().active_by_laser@,
                id@,
            ),
            r is Err ==> r->Err_0@ == (AppErrorView {
                code: "material_not_found"@,
                message: "Das Materialprofil existiert nicht mehr."@,
                details: None,
            }),
    {
        if find_profile(&self.library.profiles, id).is_none() {
            return Err(
                AppError::new("material_not_found", "Das Materialprofil existiert nicht mehr.".to_owned()),
            );
        }
        let ghost pred = |p: MaterialProfile| p.id@ != id@;
        let mut profiles: Vec<MaterialProfile> = Vec::new();
        let mut i: usize = 0;
        while i < self.library.profiles.len()
            invariant
                i <= self.library.profiles@.len(),
                pred == (|p: MaterialProfile| p.id@ != id@),
                profiles@ == self.library.profiles@.subrange(0, i as int).filter(pred),
            decreases self.library.profiles.len() - i,
        {
            proof {
                reveal(Seq::filter);
                assert(self.library.profiles@.subrange(0, i + 1).drop_last()
                    =~= self.library.profiles@.subrange(0, i as int));
            }
            if !str_eq(self.library.profiles[i].id.as_str(), id) {
                profiles.push(copy_profile(&self.library.profiles[i]));
            }
            i = i + 1;
        }
        assert(self.library.profiles@.subrange(0, self.library.profiles@.len() as int)
            =~= self.library.profiles@);
        let active = retain_active(&self.library.active_by_laser, id, false);
        Ok(MaterialLibrary { profiles, active_by_laser: active })
    }

    /// Selects a material for a laser (or clears the selection). A material
    /// that is no profile of that laser is refused. Returns the library to
    /// write and commit.
    pub fn set_active(&self, laser_id: &str, material_id: Option<&str>) -> (r: Result<
        MaterialLibrary,
        AppError,
    >)
        ensures
            r is Ok <==> match material_id {
                None => true,
                Some(m) => has_profile_for(self.library_view().profiles@, m@, laser_id@),
            },
            r matches Ok(next) ==> {
                &&& next.profiles@ == self.library_view().profiles@
                &&& active_of(next.active_by_laser@, laser_id@) == match material_id {
                    None => None::<Seq<char>>,
                    Some(m) => Some(m@),
                }
                &&& forall|other: Seq<char>|
                    other != laser_id@ ==> active_of(next.active_by_laser@, other) == active_of(
                        self.library_view().active_by_laser@,
                        other,
                    )
            },
            r is Err ==> r->Err_0@ == (AppErrorView {
                code: "invalid_material_selection"@,
                message: "Das Material gehört nicht zum aktiven Laser."@,
                details: None,
            }),
    {
        let mut next = copy_library(&self.library);
        if !next.set_active(laser_id, material_id) {
            return Err(
                AppError::new(
                    "invalid_material_selection",
                    "Das Material gehört nicht zum aktiven Laser.".to_owned(),
                ),
            );
        }
        Ok(next)
    }
}

} // verus!
