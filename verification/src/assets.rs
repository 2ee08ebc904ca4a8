//! The asset catalogue: which assets are shown, which internally made ones
//! may go, whether an asset is deleted or only hidden, and the pixel
//! conversions for previews. The asset store on disk is handled by the
//! caller, which hands over the catalogue entries and what it found.

use vstd::prelude::*;

use crate::chars::{copy_strs, find_str, str_eq, strs_view};
use crate::error::{AppError, AppErrorView};
use crate::project::{first_occurrences, unique_asset_refs};

verus! {

/// Kind of a catalogued asset.
#[derive(Debug, Clone, Copy, PartialEq, Eq, Structural)]
pub enum AssetKind {
    Image,
    SvgSource,
    DxfSource,
    Font,
}

/// Catalogue entry of an asset.
#[derive(Debug, Clone)]
pub struct AssetMeta {
    pub id: String,
    pub ext: String,
    pub kind: AssetKind,
    pub original_name: String,
    pub source_format: String,
    pub width: u32,
    pub height: u32,
    pub import_at: String,
    pub tags: Vec<String>,
    /// Made by the program (an image crop), not imported by the user.
    pub derived: bool,
}

/// A grey-scale image prepared for display: RGBA bytes, row by row.
#[derive(Debug, Clone)]
pub struct PreparedImage {
    pub rgba: Vec<u8>,
    pub width: u32,
    pub height: u32,
}

/// The catalogue, import and persistence boundary of assets.
pub struct AssetService;

/// File name under which image crops are stored.
pub open spec fn crop_file_name() -> Seq<char> {
    "Bildausschnitt.png"@
}

/// An asset made by the program: flagged so, or stored under the crop name
/// (crops of older versions carry no flag).
pub open spec fn spec_is_derived(asset: AssetMeta) -> bool {
    asset.derived || asset.original_name@ == crop_file_name()
}

/// Is `id` referenced by a saved project version?
pub open spec fn saved(saved_refs: Seq<String>, id: Seq<char>) -> bool {
    strs_view(saved_refs).contains(id)
}

/// Is the asset shown in the catalogue: not hidden, and either imported by
/// the user or used by a saved project?
pub open spec fn shown(asset: AssetMeta, hidden: bool, saved_refs: Seq<String>) -> bool {
    !hidden && (!spec_is_derived(asset) || saved(saved_refs, asset.id@))
}

/// The entries of `assets` for which `keep` holds (`keep` sees the index).
pub open spec fn kept(assets: Seq<AssetMeta>, keep: spec_fn(int) -> bool) -> Seq<AssetMeta>
    decreases assets.len(),
{
    if assets.len() == 0 {
        assets
    } else {
        let r = kept(assets.drop_last(), keep);
        if keep(assets.len() - 1) {
            r.push(assets.last())
        } else {
            r
        }
    }
}

/// The two entries hold the same values.
pub open spec fn same_meta(c: AssetMeta, a: AssetMeta) -> bool {
    &&& c.id == a.id
    &&& c.ext == a.ext
    &&& c.kind == a.kind
    &&& c.original_name == a.original_name
    &&& c.source_format == a.source_format
    &&& c.width == a.width
    &&& c.height == a.height
    &&& c.import_at == a.import_at
    &&& c.tags@ == a.tags@
    &&& c.derived == a.derived
}

/// A copy of a catalogue entry.
pub fn copy_meta(a: &AssetMeta) -> (c: AssetMeta)
    ensures
        same_meta(c, *a),
{
    let tags = copy_strs(&a.tags);
    AssetMeta {
        id: a.id.clone(),
        ext: a.ext.clone(),
        kind: a.kind,
        original_name: a.original_name.clone(),
        source_format: a.source_format.clone(),
        width: a.width,
        height: a.height,
        import_at: a.import_at.clone(),
        tags,
        derived: a.derived,
    }
}

impl AssetService {
    /// Is the asset made by the program rather than imported?
    pub fn is_derived(asset: &AssetMeta) -> (r: bool)
        ensures
            r == spec_is_derived(*asset),
    {
        proof {
            reveal_strlit("Bildausschnitt.png");
        }
        asset.derived || str_eq(asset.original_name.as_str(), "Bildausschnitt.png")
    }

    /// All asset ids that saved projects refer to (`project_refs` holds the
    /// references of each saved project file and version snapshot), each
    /// once.
    pub fn saved_project_asset_refs(project_refs: &Vec<Vec<String>>) -> (r: Vec<String>)
        ensures
            forall|x: Seq<char>|
                strs_view(r@).contains(x) <==> exists|p: int|
                    0 <= p < project_refs@.len() && #[trigger] strs_view(project_refs@[p]@).contains(
                        x,
                    ),
            strs_view(r@).no_duplicates(),
    {
        let mut all: Vec<String> = Vec::new();
        let mut p: usize = 0;
        while p < project_refs.len()
            invariant
                p <= project_refs@.len(),
                forall|x: Seq<char>|
                    strs_view(all@).contains(x) <==> exists|q: int|
                        0 <= q < p && #[trigger] strs_view(project_refs@[q]@).contains(x),
            decreases project_refs.len() - p,
        {
            let refs = &project_refs[p];
            let ghost before = all@;
            let mut k: usize = 0;
            while k < refs.len()
                invariant
                    k <= refs@.len(),
                    refs == project_refs@[p as int],
                    all@ == before + refs@.subrange(0, k as int),
                decreases refs.len() - k,
            {
                all.push(refs[k].clone());
                assert(all@ =~= before + refs@.subrange(0, k + 1));
                k = k + 1;
            }
            assert(refs@.subrange(0, refs@.len() as int) =~= refs@);
            assert forall|x: Seq<char>|
                strs_view(all@).contains(x) <==> exists|q: int|
                    0 <= q < p + 1 && #[trigger] strs_view(project_refs@[q]@).contains(x) by {
                assert(strs_view(all@) =~= strs_view(before) + strs_view(refs@));
                if strs_view(refs@).contains(x) {
                    let j = choose|j: int| 0 <= j < strs_view(refs@).len() && strs_view(refs@)[j] == x;
                    assert(strs_view(all@)[before.len() + j] == x);
                }
                if strs_view(before).contains(x) {
                    let j = choose|j: int| 0 <= j < strs_view(before).len() && strs_view(before)[j] == x;
                    assert(strs_view(all@)[j] == x);
                }
                if strs_view(all@).contains(x) {
                    let j = choose|j: int| 0 <= j < strs_view(all@).len() && strs_view(all@)[j] == x;
                    if j < before.len() {
                        assert(strs_view(before)[j] == x);
                    } else {
                        assert(strs_view(refs@)[j - before.len()] == x);
                    }
                }
            }
            p = p + 1;
        }
        let r = unique_asset_refs(&all);
        proof {
            crate::project::asset_refs_are_unique_and_complete(strs_view(all@));
            assert forall|x: Seq<char>|
                strs_view(r@).contains(x) <==> exists|q: int|
                    0 <= q < project_refs@.len() && #[trigger] strs_view(project_refs@[q]@).contains(
                        x,
                    ) by {
                assert(strs_view(r@).contains(x) <==> strs_view(all@).contains(x));
            }
        }
        r
    }

    /// The catalogue as shown: the entries not hidden (`hidden[i]` tells it
    /// for `assets[i]`) that are either imported by the user or used by a
    /// saved project, in catalogue order.
    pub fn list_visible(assets: &Vec<AssetMeta>, hidden: &Vec<bool>, saved_refs: &Vec<String>) -> (r:
        Vec<AssetMeta>)
        requires
            hidden@.len() == assets@.len(),
        ensures
            r@.len() == kept(assets@, |i: int| shown(assets@[i], hidden@[i], saved_refs@)).len(),
            forall|k: int|
                0 <= k < r@.len() ==> same_meta(
                    #[trigger] r@[k],
                    kept(assets@, |i: int| shown(assets@[i], hidden@[i], saved_refs@))[k],
                ),
    {
        let ghost keep = |i: int| shown(assets@[i], hidden@[i], saved_refs@);
        let mut out: Vec<AssetMeta> = Vec::new();
        let mut i: usize = 0;
        while i < assets.len()
            invariant
                i <= assets@.len() == hidden@.len(),
                keep == (|i: int| shown(assets@[i], hidden@[i], saved_refs@)),
                out@.len() == kept(assets@.subrange(0, i as int), keep).len(),
                forall|k: int|
                    0 <= k < out@.len() ==> same_meta(
                        #[trigger] out@[k],
                        kept(assets@.subrange(0, i as int), keep)[k],
                    ),
            decreases assets.len() - i,
        {
            assert(assets@.subrange(0, i + 1).drop_last() =~= assets@.subrange(0, i as int));
            let show = !hidden[i] && (!Self::is_derived(&assets[i]) || find_str(
                saved_refs,
                assets[i].id.as_str(),
            ).is_some());
            assert(show == keep(i as int));
            if show {
                out.push(copy_meta(&assets[i]));
            }
            i = i + 1;
        }
        assert(assets@.subrange(0, assets@.len() as int) =~= assets@);
        out
    }

    /// Ids of the program-made assets that no saved project uses: they may
    /// be removed at start-up (no undo history can refer to them yet).
    pub fn cleanup_orphan_derived(assets: &Vec<AssetMeta>, saved_refs: &Vec<String>) -> (r: Vec<
        String,
    >)
        ensures
            strs_view(r@) == kept(
                assets@,
                |i: int| spec_is_derived(assets@[i]) && !saved(saved_refs@, assets@[i].id@),
            ).map_values(|a: AssetMeta| a.id@),
    {
        let ghost keep = |i: int| spec_is_derived(assets@[i]) && !saved(saved_refs@, assets@[i].id@);
        let mut out: Vec<String> = Vec::new();
        let mut i: usize = 0;
        while i < assets.len()
            invariant
                i <= assets@.len(),
                keep == (|i: int| spec_is_derived(assets@[i]) && !saved(saved_refs@, assets@[i].id@)),
                strs_view(out@) == kept(assets@.subrange(0, i as int), keep).map_values(
                    |a: AssetMeta| a.id@,
                ),
            decreases assets.len() - i,
        {
            assert(assets@.subrange(0, i + 1).drop_last() =~= assets@.subrange(0, i as int));
            let orphan = Self::is_derived(&assets[i]) && find_str(
                saved_refs,
                assets[i].id.as_str(),
            ).is_none();
            assert(orphan == keep(i as int));
            if orphan {
                let ghost before = out@;
                out.push(assets[i].id.clone());
                assert(strs_view(out@) =~= strs_view(before).push(assets@[i as int].id@));
                assert(kept(assets@.subrange(0, i + 1), keep).map_values(|a: AssetMeta| a.id@)
                    =~= kept(assets@.subrange(0, i as int), keep).map_values(|a: AssetMeta| a.id@).push(
                    assets@[i as int].id@,
                ));
            }
            i = i + 1;
        }
        assert(assets@.subrange(0, assets@.len() as int) =~= assets@);
        out
    }

    /// Whether an asset that the user removes is only hidden (it is still
    /// used in the open session or by a saved project, `project_refs` holding
    /// each project's references) rather than deleted.
    pub fn delete_or_hide(id: &str, referenced_in_session: bool, project_refs: &Vec<Vec<String>>) -> (r:
        bool)
        ensures
            r == (referenced_in_session || exists|p: int|
                0 <= p < project_refs@.len() && #[trigger] strs_view(project_refs@[p]@).contains(
                    id@,
                )),
    {
        if referenced_in_session {
            return true;
        }
        let mut p: usize = 0;
        while p < project_refs.len()
            invariant
                p <= project_refs@.len(),
                forall|q: int| 0 <= q < p ==> !(#[trigger] strs_view(project_refs@[q]@)).contains(id@),
            decreases project_refs.len() - p,
        {
            match find_str(&project_refs[p], id) {
                Some(i) => {
                    assert(strs_view(project_refs@[p as int]@)[i as int] == id@);
                    assert(strs_view(project_refs@[p as int]@).contains(id@));
                    return true;
                },
                None => {},
            }
            p = p + 1;
        }
        false
    }
}

/// Grey level of a pixel in the trace preview: dark where the trace takes
/// the pixel as foreground (darker than the threshold, or the opposite when
/// inverted), light elsewhere.
pub open spec fn trace_level(pixel: u8, threshold: u8, invert: bool) -> u8 {
    if (pixel < threshold) != invert {
        20
    } else {
        245
    }
}

/// RGBA bytes of grey pixels, each grey level mapped by `level` and drawn
/// opaque.
pub open spec fn rgba_of(gray: Seq<u8>, level: spec_fn(u8) -> u8) -> Seq<u8>
    decreases gray.len(),
{
    if gray.len() == 0 {
        Seq::empty()
    } else {
        let c = level(gray.last());
        rgba_of(gray.drop_last(), level) + seq![c, c, c, 255u8]
    }
}

fn push_gray(out: &mut Vec<u8>, c: u8)
    ensures
        final(out)@ == old(out)@ + seq![c, c, c, 255u8],
{
    out.push(c);
    out.push(c);
    out.push(c);
    out.push(255);
    assert(out@ =~= old(out)@ + seq![c, c, c, 255u8]);
}

/// Opaque RGBA texture of a grey image.
pub fn gray_to_rgba(gray: &Vec<u8>) -> (r: Vec<u8>)
    ensures
        r@ == rgba_of(gray@, |p: u8| p),
{
    let ghost level = |p: u8| p;
    let mut out: Vec<u8> = Vec::new();
    let mut i: usize = 0;
    while i < gray.len()
        invariant
            i <= gray@.len(),
            level == (|p: u8| p),
            out@ == rgba_of(gray@.subrange(0, i as int), level),
        decreases gray.len() - i,
    {
        assert(gray@.subrange(0, i + 1).drop_last() =~= gray@.subrange(0, i as int));
        push_gray(&mut out, gray[i]);
        i = i + 1;
    }
    assert(gray@.subrange(0, gray@.len() as int) =~= gray@);
    out
}

impl AssetService {
    /// Black-and-white preview of the pixels the trace takes as foreground,
    /// from the grey levels after the tone curve (`gray`, row by row).
    pub fn trace_preview(gray: &Vec<u8>, width: u32, height: u32, threshold: u8, invert: bool) -> (r:
        PreparedImage)
        ensures
            r.rgba@ == rgba_of(gray@, |p: u8| trace_level(p, threshold, invert)),
            r.width == width,
            r.height == height,
    {
        let ghost level = |p: u8| trace_level(p, threshold, invert);
        let mut rgba: Vec<u8> = Vec::new();
        let mut i: usize = 0;
        while i < gray.len()
            invariant
                i <= gray@.len(),
                level == (|p: u8| trace_level(p, threshold, invert)),
                rgba@ == rgba_of(gray@.subrange(0, i as int), level),
            decreases gray.len() - i,
        {
            assert(gray@.subrange(0, i + 1).drop_last() =~= gray@.subrange(0, i as int));
            let pixel = gray[i];
            let captured = (pixel < threshold) != invert;
            let color: u8 = if captured {
                20
            } else {
                245
            };
            push_gray(&mut rgba, color);
            i = i + 1;
        }
        assert(gray@.subrange(0, gray@.len() as int) =~= gray@);
        PreparedImage { rgba, width, height }
    }
}

/// `s` with ASCII capitals made small (as `to_ascii_lowercase`).
pub open spec fn ascii_lower(s: Seq<char>) -> Seq<char> {
    s.map_values(|c: char| if 'A' <= c && c <= 'Z' {
        ((c as u8) + 32) as char
    } else {
        c
    })
}

fn lower_char(c: char) -> (r: char)
    ensures
        r == if 'A' <= c && c <= 'Z' {
            ((c as u8) + 32) as char
        } else {
            c
        },
{
    if c >= 'A' && c <= 'Z' {
        (c as u8 + 32) as char
    } else {
        c
    }
}

/// `s` with ASCII capitals made small.
pub(crate) fn ascii_lowercase(s: &str) -> (r: String)
    ensures
        r@ == ascii_lower(s@),
{
    let n = s.unicode_len();
    let mut lower: Vec<char> = Vec::new();
    let mut i: usize = 0;
    while i < n
        invariant
            i <= n == s@.len(),
            lower@ =~= ascii_lower(s@).subrange(0, i as int),
        decreases n - i,
    {
        lower.push(lower_char(s.get_char(i)));
        i = i + 1;
    }
    assert(lower@ =~= ascii_lower(s@));
    crate::chars::string_from_chars(&lower)
}

/// The kind of asset a file extension is imported as: raster images, SVG and
/// DXF sources (case does not matter); `None` for other files.
pub open spec fn import_kind_of(ext: Seq<char>) -> Option<AssetKind> {
    let e = ascii_lower(ext);
    if e == "png"@ || e == "jpg"@ || e == "jpeg"@ || e == "bmp"@ || e == "webp"@ {
        Some(AssetKind::Image)
    } else if e == "svg"@ {
        Some(AssetKind::SvgSource)
    } else if e == "dxf"@ {
        Some(AssetKind::DxfSource)
    } else {
        None
    }
}

/// Decides how a file is imported by its extension; other formats are
/// refused.
pub fn import_kind(ext: &str) -> (r: Result<AssetKind, AppError>)
    ensures
        match import_kind_of(ext@) {
            Some(k) => r == Ok::<AssetKind, AppError>(k),
            None => r is Err && r->Err_0@ == (AppErrorView {
                code: "asset_format"@,
                message: "Dieses Dateiformat wird nicht unterstützt."@,
                details: None,
            }),
        },
{
    let e = ascii_lowercase(ext);
    let es = e.as_str();
    if str_eq(es, "png") || str_eq(es, "jpg") || str_eq(es, "jpeg") || str_eq(es, "bmp") || str_eq(
        es,
        "webp",
    ) {
        Ok(AssetKind::Image)
    } else if str_eq(es, "svg") {
        Ok(AssetKind::SvgSource)
    } else if str_eq(es, "dxf") {
        Ok(AssetKind::DxfSource)
    } else {
        Err(AppError::new("asset_format", "Dieses Dateiformat wird nicht unterstützt.".to_owned()))
    }
}

/// What a saved project contributes to the asset tags: its name and
/// description, for each asset it refers to.
#[derive(Debug, Clone)]
pub struct ProjectTagSource {
    pub name: String,
    pub description: String,
    pub asset_refs: Vec<String>,
}

/// Tags to add to one asset.
#[derive(Debug, Clone)]
pub struct TagRequest {
    pub asset_id: String,
    pub tags: Vec<String>,
}

/// The tag requests of one project, as (asset id, tags).
pub open spec fn project_tag_requests(p: ProjectTagSource) -> Seq<(Seq<char>, Seq<Seq<char>>)> {
    strs_view(p.asset_refs@).map_values(
        |id: Seq<char>| (id, seq![p.name@, p.description@]),
    )
}

/// The tag requests of all projects in order.
pub open spec fn tag_requests(ps: Seq<ProjectTagSource>) -> Seq<(Seq<char>, Seq<Seq<char>>)>
    decreases ps.len(),
{
    if ps.len() == 0 {
        Seq::empty()
    } else {
        tag_requests(ps.drop_last()) + project_tag_requests(ps.last())
    }
}

pub open spec fn request_views(rs: Seq<TagRequest>) -> Seq<(Seq<char>, Seq<Seq<char>>)> {
    rs.map_values(|r: TagRequest| (r.asset_id@, strs_view(r.tags@)))
}

impl AssetService {
    /// Tags every asset of a saved project with the project's name and
    /// description, so the catalogue can be searched by project.
    pub fn enrich_tags_from_projects(projects: &Vec<ProjectTagSource>) -> (r: Vec<TagRequest>)
        ensures
            request_views(r@) == tag_requests(projects@),
    {
        let mut out: Vec<TagRequest> = Vec::new();
        let mut p: usize = 0;
        while p < projects.len()
            invariant
                p <= projects@.len(),
                request_views(out@) == tag_requests(projects@.subrange(0, p as int)),
            decreases projects.len() - p,
        {
            let pr = &projects[p];
            assert(projects@.subrange(0, p + 1).drop_last() =~= projects@.subrange(0, p as int));
            let ghost before = request_views(out@);
            let mut k: usize = 0;
            while k < pr.asset_refs.len()
                invariant
                    k <= pr.asset_refs@.len(),
                    pr == projects@[p as int],
                    request_views(out@) == before + project_tag_requests(*pr).subrange(0, k as int),
                decreases pr.asset_refs.len() - k,
            {
                let mut tags: Vec<String> = Vec::new();
                tags.push(pr.name.clone());
                tags.push(pr.description.clone());
                let ghost prev = out@;
                out.push(TagRequest { asset_id: pr.asset_refs[k].clone(), tags });
                assert(strs_view(out@.last().tags@) =~= seq![pr.name@, pr.description@]);
                assert(request_views(out@) =~= request_views(prev).push(
                    project_tag_requests(*pr)[k as int],
                ));
                assert(project_tag_requests(*pr).subrange(0, k + 1) =~= project_tag_requests(
                    *pr,
                ).subrange(0, k as int).push(project_tag_requests(*pr)[k as int]));
                k = k + 1;
            }
            assert(project_tag_requests(*pr).subrange(0, pr.asset_refs@.len() as int)
                =~= project_tag_requests(*pr));
            p = p + 1;
        }
        assert(projects@.subrange(0, projects@.len() as int) =~= projects@);
        out
    }
}

} // verus!
