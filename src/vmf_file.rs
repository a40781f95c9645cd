//! A whole VMF document: assembling it from top-level blocks, writing it
//! back, and merging two documents.
use vstd::prelude::*;
use crate::errors::{ErrorView, VmfError, VmfResult};
use crate::kv::{kv_entries, kv_new};
use crate::vmf::entities::{entity_of, entity_ok, entity_text, Entities, Entity};
use crate::vmf::metadata::{
    version_info_spec, view_settings_spec, visgroup_of, visgroup_ok, visgroups_depth, VersionInfo,
    ViewSettings, VisGroup, VisGroups,
};
use crate::vmf::regions::{camera_of, camera_ok, cordon_of, cordon_ok, i8_field, Cameras, Cordon, Cordons};
use crate::vmf::world::{solids_of, solids_ok, world_group, World};
use crate::{VmfBlock, VmfSerializable};

verus! {

/// Represents a parsed VMF file.
#[derive(Debug, PartialEq)]
pub struct VmfFile {
    /// The path to the VMF file, if known.
    pub path: Option<String>,
    /// The version info of the VMF file.
    pub versioninfo: VersionInfo,
    /// The visgroups in the VMF file.
    pub visgroups: VisGroups,
    /// The view settings in the VMF file.
    pub viewsettings: ViewSettings,
    /// The world data in the VMF file.
    pub world: World,
    /// The entities in the VMF file.
    pub entities: Entities,
    /// The hidden entities in the VMF file.
    pub hiddens: Entities,
    /// The camera data in the VMF file.
    pub cameras: Cameras,
    /// The cordon data in the VMF file.
    pub cordons: Cordons,
}

/// The kinds of top-level blocks.
#[derive(Debug, Clone, Copy, PartialEq, Eq, Structural)]
pub enum BlockKind {
    VersionInfo,
    VisGroups,
    ViewSettings,
    World,
    Entity,
    Hidden,
    Cameras,
    Cordons,
    Cordon,
    Unknown,
}

/// The kind of a top-level block, from its lower-cased name.
pub open spec fn kind_of(lowered: Seq<char>) -> BlockKind {
    if lowered == "versioninfo"@ {
        BlockKind::VersionInfo
    } else if lowered == "visgroups"@ {
        BlockKind::VisGroups
    } else if lowered == "viewsettings"@ {
        BlockKind::ViewSettings
    } else if lowered == "world"@ {
        BlockKind::World
    } else if lowered == "entity"@ {
        BlockKind::Entity
    } else if lowered == "hidden"@ {
        BlockKind::Hidden
    } else if lowered == "cameras"@ {
        BlockKind::Cameras
    } else if lowered == "cordons"@ {
        BlockKind::Cordons
    } else if lowered == "cordon"@ {
        BlockKind::Cordon
    } else {
        BlockKind::Unknown
    }
}

/// The lower-case form of a text, as `str::to_lowercase` gives it.
pub uninterp spec fn lower_of(s: Seq<char>) -> Seq<char>;

/// `r` is `s` with its ASCII capitals made small, for a text `s` of ASCII
/// characters.
pub open spec fn ascii_lowered(s: Seq<char>, r: Seq<char>) -> bool {
    &&& r.len() == s.len()
    &&& forall|i: int| 0 <= i < s.len() ==> crate::text::same_letter(#[trigger] s[i], r[i])
}

/// Relies on `str::to_lowercase`: the result depends on the characters
/// alone, and an ASCII character maps to its ASCII lower case.
#[verifier::external_body]
fn lowercase(s: &str) -> (r: String)
    ensures
        r@ == lower_of(s@),
        (forall|i: int| 0 <= i < s@.len() ==> (#[trigger] s@[i] as u32) < 128) ==> ascii_lowered(s@, r@),
{
    s.to_lowercase()
}

/// The kind of a top-level block, given its lower-cased name.
pub fn block_kind(lowered: &str) -> (r: BlockKind)
    ensures
        r == kind_of(lowered@),
{
    let l = lowered.to_string();
    if l == "versioninfo".to_string() {
        BlockKind::VersionInfo
    } else if l == "visgroups".to_string() {
        BlockKind::VisGroups
    } else if l == "viewsettings".to_string() {
        BlockKind::ViewSettings
    } else if l == "world".to_string() {
        BlockKind::World
    } else if l == "entity".to_string() {
        BlockKind::Entity
    } else if l == "hidden".to_string() {
        BlockKind::Hidden
    } else if l == "cameras".to_string() {
        BlockKind::Cameras
    } else if l == "cordons".to_string() {
        BlockKind::Cordons
    } else if l == "cordon".to_string() {
        BlockKind::Cordon
    } else {
        BlockKind::Unknown
    }
}

pub open spec fn kind_at(bs: Seq<VmfBlock>, i: int) -> BlockKind {
    kind_of(lower_of(bs[i].name@))
}

/// Whether a top-level block converts as its kind asks.
pub open spec fn top_block_ok(b: VmfBlock, k: BlockKind) -> bool {
    match k {
        BlockKind::VersionInfo => version_info_spec(kv_entries(b.key_values)) is Ok,
        BlockKind::VisGroups => forall|i: int| 0 <= i < b.blocks.len() ==> #[trigger] visgroup_ok(b.blocks[i]),
        BlockKind::ViewSettings => view_settings_spec(kv_entries(b.key_values)) is Ok,
        BlockKind::World => solids_ok(b.blocks@) && crate::vmf::world::groups_ok(b.blocks@),
        BlockKind::Entity => entity_ok(b),
        BlockKind::Hidden => b.blocks.len() > 0 ==> entity_ok(b.blocks[0]),
        BlockKind::Cameras => (forall|i: int| 0 <= i < b.blocks.len() ==> #[trigger] camera_ok(b.blocks[i]))
            && i8_field(kv_entries(b.key_values), "activecamera"@) is Ok,
        BlockKind::Cordons => (forall|i: int| 0 <= i < b.blocks.len() ==> #[trigger] cordon_ok(b.blocks[i]))
            && i8_field(kv_entries(b.key_values), "active"@) is Ok,
        BlockKind::Cordon => cordon_ok(b),
        BlockKind::Unknown => true,
    }
}

/// The last of the first `n` blocks of kind `k`, or -1.
pub open spec fn last_of_kind(bs: Seq<VmfBlock>, k: BlockKind, n: int) -> int
    decreases n,
{
    if n <= 0 || n > bs.len() {
        -1
    } else if kind_at(bs, n - 1) == k {
        n - 1
    } else {
        last_of_kind(bs, k, n - 1)
    }
}

/// The blocks among the first `n` of kind `k`, in order.
pub open spec fn of_kind(bs: Seq<VmfBlock>, k: BlockKind, n: int) -> Seq<VmfBlock>
    decreases n,
{
    if n <= 0 || n > bs.len() {
        Seq::empty()
    } else if kind_at(bs, n - 1) == k {
        of_kind(bs, k, n - 1).push(bs[n - 1])
    } else {
        of_kind(bs, k, n - 1)
    }
}

/// The entity blocks wrapped in the `hidden` blocks among the first `n`.
pub open spec fn hidden_entities(bs: Seq<VmfBlock>, n: int) -> Seq<VmfBlock>
    decreases n,
{
    if n <= 0 || n > bs.len() {
        Seq::empty()
    } else if kind_at(bs, n - 1) == BlockKind::Hidden && bs[n - 1].blocks.len() > 0 {
        hidden_entities(bs, n - 1).push(bs[n - 1].blocks[0])
    } else {
        hidden_entities(bs, n - 1)
    }
}

/// The cordon list of the first `n` blocks: the cordons of the last
/// `cordons` block (none without one), then each lone `cordon` block that
/// follows it.
pub open spec fn cordon_blocks(bs: Seq<VmfBlock>, n: int) -> Seq<VmfBlock>
    decreases n,
{
    if n <= 0 || n > bs.len() {
        Seq::empty()
    } else if kind_at(bs, n - 1) == BlockKind::Cordons {
        bs[n - 1].blocks@
    } else if kind_at(bs, n - 1) == BlockKind::Cordon {
        cordon_blocks(bs, n - 1).push(bs[n - 1])
    } else {
        cordon_blocks(bs, n - 1)
    }
}

pub open spec fn entities_of(src: Seq<VmfBlock>, es: Seq<Entity>, hidden: bool) -> bool {
    es.len() == src.len() && forall|j: int| 0 <= j < src.len() ==> {
        &&& entity_of(src[j], #[trigger] es[j].with_hidden(false))
        &&& es[j].is_hidden == hidden
    }
}

impl Entity {
    /// The same entity with its hidden flag set to `h`.
    pub open spec fn with_hidden(self, h: bool) -> Entity {
        Entity { is_hidden: h, ..self }
    }
}

/// `f` is the document that the first `n` top-level blocks `bs` describe:
/// the last block of each single kind sets that part (the default without
/// one), and entities, hidden entities and cordons gather in order.
pub open spec fn document_of(bs: Seq<VmfBlock>, n: int, f: VmfFile) -> bool {
    let v = last_of_kind(bs, BlockKind::VersionInfo, n);
    let g = last_of_kind(bs, BlockKind::VisGroups, n);
    let s = last_of_kind(bs, BlockKind::ViewSettings, n);
    let w = last_of_kind(bs, BlockKind::World, n);
    let c = last_of_kind(bs, BlockKind::Cameras, n);
    let cb = cordon_blocks(bs, n);
    let co = last_of_kind(bs, BlockKind::Cordons, n);
    &&& f.path is None
    &&& if v >= 0 {
        version_info_spec(kv_entries(bs[v].key_values)) == Ok::<VersionInfo, ErrorView>(f.versioninfo)
    } else {
        f.versioninfo == VersionInfo { editor_version: 0, editor_build: 0, map_version: 0, format_version: 0, prefab: false }
    }
    &&& if g >= 0 {
        f.visgroups.groups.len() == bs[g].blocks.len() && forall|i: int| 0 <= i < bs[g].blocks.len()
            ==> #[trigger] visgroup_of(bs[g].blocks[i], f.visgroups.groups[i])
    } else {
        f.visgroups.groups.len() == 0
    }
    &&& if s >= 0 {
        view_settings_spec(kv_entries(bs[s].key_values)) == Ok::<ViewSettings, ErrorView>(f.viewsettings)
    } else {
        f.viewsettings == ViewSettings { snap_to_grid: true, show_grid: true, show_logical_grid: false, grid_spacing: 8, show_3d_grid: false }
    }
    &&& if w >= 0 {
        &&& kv_entries(f.world.key_values) == kv_entries(bs[w].key_values)
        &&& solids_of(crate::named_prefix(bs[w].blocks@, "solid"@, bs[w].blocks.len() as int), f.world.solids@)
        &&& solids_of(crate::hidden_prefix(bs[w].blocks@, bs[w].blocks.len() as int), f.world.hidden@)
        &&& world_group(bs[w].blocks@, f.world.group)
    } else {
        kv_entries(f.world.key_values).len() == 0 && f.world.solids.len() == 0 && f.world.hidden.len() == 0
            && f.world.group is None
    }
    &&& entities_of(of_kind(bs, BlockKind::Entity, n), f.entities.0@, false)
    &&& entities_of(hidden_entities(bs, n), f.hiddens.0@, true)
    &&& if c >= 0 {
        &&& f.cameras.cams.len() == bs[c].blocks.len()
        &&& forall|i: int| 0 <= i < bs[c].blocks.len() ==> #[trigger] camera_of(bs[c].blocks[i], f.cameras.cams[i])
        &&& i8_field(kv_entries(bs[c].key_values), "activecamera"@) == Ok::<int, ErrorView>(f.cameras.active as int)
    } else {
        f.cameras.cams.len() == 0 && f.cameras.active == 0
    }
    &&& f.cordons.cordons.len() == cb.len()
    &&& forall|i: int| 0 <= i < cb.len() ==> #[trigger] cordon_of(cb[i], f.cordons.cordons[i])
    &&& if co >= 0 {
        i8_field(kv_entries(bs[co].key_values), "active"@) == Ok::<int, ErrorView>(f.cordons.active as int)
    } else {
        f.cordons.active == 0
    }
}

/// The error of a top-level block of kind `k`, none when it converts.
pub open spec fn top_error(b: VmfBlock, k: BlockKind) -> Option<ErrorView> {
    match k {
        BlockKind::VersionInfo => match version_info_spec(kv_entries(b.key_values)) {
            Err(e) => Some(e),
            Ok(_) => None,
        },
        BlockKind::VisGroups => crate::vmf::world::first_error(
            b.blocks@,
            |x: VmfBlock| crate::vmf::metadata::visgroup_error(x),
            b.blocks.len() as int,
        ),
        BlockKind::ViewSettings => match view_settings_spec(kv_entries(b.key_values)) {
            Err(e) => Some(e),
            Ok(_) => None,
        },
        BlockKind::World => crate::vmf::world::world_error(b.blocks@),
        BlockKind::Entity => crate::vmf::entities::entity_error(b),
        BlockKind::Hidden => if b.blocks.len() > 0 {
            crate::vmf::entities::entity_error(b.blocks[0])
        } else {
            None
        },
        BlockKind::Cameras => crate::vmf::regions::cameras_error(b),
        BlockKind::Cordons => crate::vmf::regions::cordons_error(b),
        BlockKind::Cordon => crate::vmf::regions::cordon_fault(b),
        BlockKind::Unknown => None,
    }
}

/// Block `i` is the first of `bs` that does not convert, and `e` is its error.
pub open spec fn fails_first_at(bs: Seq<VmfBlock>, i: int, e: ErrorView) -> bool {
    &&& 0 <= i < bs.len()
    &&& blocks_ok(bs, i)
    &&& !top_block_ok(bs[i], kind_at(bs, i))
    &&& top_error(bs[i], kind_at(bs, i)) == Some(e)
}

/// Whether every one of the first `n` top-level blocks converts.
pub open spec fn blocks_ok(bs: Seq<VmfBlock>, n: int) -> bool {
    forall|i: int| 0 <= i < n ==> #[trigger] top_block_ok(bs[i], kind_at(bs, i))
}

proof fn lemma_entities_push(src: Seq<VmfBlock>, es: Seq<Entity>, b: VmfBlock, e: Entity, hidden: bool)
    requires
        entities_of(src, es, hidden),
        entity_of(b, e.with_hidden(false)),
        e.is_hidden == hidden,
    ensures
        entities_of(src.push(b), es.push(e), hidden),
{
    assert forall|j: int| 0 <= j < src.len() + 1 implies {
        &&& entity_of(src.push(b)[j], #[trigger] es.push(e)[j].with_hidden(false))
        &&& es.push(e)[j].is_hidden == hidden
    } by {
        if j < src.len() {
            assert(src.push(b)[j] == src[j]);
            assert(es.push(e)[j] == es[j]);
        }
    }
}

impl Default for VmfFile {
    /// The empty document: what a text without blocks describes.
    fn default() -> (r: Self)
        ensures
            document_of(Seq::empty(), 0, r),
    {
        VmfFile {
            path: None,
            versioninfo: VersionInfo { editor_version: 0, editor_build: 0, map_version: 0, format_version: 0, prefab: false },
            visgroups: VisGroups { groups: Vec::new() },
            viewsettings: ViewSettings { snap_to_grid: true, show_grid: true, show_logical_grid: false, grid_spacing: 8, show_3d_grid: false },
            world: World { key_values: kv_new(), solids: Vec::new(), hidden: Vec::new(), group: None },
            entities: Entities(Vec::new()),
            hiddens: Entities(Vec::new()),
            cameras: Cameras { active: 0, cams: Vec::new() },
            cordons: Cordons { active: 0, cordons: Vec::new() },
        }
    }
}

impl VmfFile {
    /// Builds the document that a sequence of top-level blocks describes,
    /// dispatching each block on its lower-cased name. Blocks of unknown
    /// names are skipped.
    #[verifier::spinoff_prover]
    #[verifier::rlimit(80)]
    pub fn assemble(top: Vec<VmfBlock>) -> (r: VmfResult<VmfFile>)
        ensures
            r is Ok <==> blocks_ok(top@, top.len() as int),
            r matches Ok(f) ==> document_of(top@, top.len() as int, f),
            r matches Err(e) ==> exists|i: int| #[trigger] fails_first_at(top@, i, e@),
    {
        let ghost all = top@;
        let n = top.len();
        let mut blocks = top;
        let mut f = VmfFile::default();
        let mut i: usize = 0;
        while blocks.len() > 0
            invariant
                i + blocks.len() == n,
                n == all.len(),
                all == top@,
                blocks@ == all.subrange(i as int, n as int),
                blocks_ok(all, i as int),
                document_of(all, i as int, f),
            decreases blocks.len(),
        {
            let b = blocks.remove(0);
            assert(b == all[i as int]);
            let lowered = lowercase(b.name.as_str());
            let kind = block_kind(lowered.as_str());
            assert(kind == kind_at(all, i as int));
            assert(blocks_ok(all, n as int) ==> top_block_ok(all[i as int], kind));
            let ghost ents = f.entities.0@;
            let ghost hids = f.hiddens.0@;
            match kind {
                BlockKind::VersionInfo => {
match VersionInfo::from_block(b) {
                        Ok(v) => { f.versioninfo = v; },
                        Err(e) => {
                            proof {
                                assert(fails_first_at(all, i as int, e@));
                            }
                            return Err(e);
                        },
                    }
                },
                BlockKind::VisGroups => {
                    match VisGroups::from_block(b) {
                        Ok(v) => { f.visgroups = v; },
                        Err(e) => {
                            proof {
                                assert(fails_first_at(all, i as int, e@));
                            }
                            return Err(e);
                        },
                    }
                },
                BlockKind::ViewSettings => {
                    match ViewSettings::from_block(b) {
                        Ok(v) => { f.viewsettings = v; },
                        Err(e) => {
                            proof {
                                assert(fails_first_at(all, i as int, e@));
                            }
                            return Err(e);
                        },
                    }
                },
                BlockKind::World => {
                    match World::from_block(b) {
                        Ok(v) => { f.world = v; },
                        Err(e) => {
                            proof {
                                assert(fails_first_at(all, i as int, e@));
                            }
                            return Err(e);
                        },
                    }
                },
                BlockKind::Entity => {
                    let e = match Entity::from_block(b) {
                        Ok(v) => v,
                        Err(e) => {
                            proof {
                                assert(fails_first_at(all, i as int, e@));
                            }
                            return Err(e);
                        },
                    };
                    proof {
                        assert(e.with_hidden(false) == e);
                        lemma_entities_push(of_kind(all, BlockKind::Entity, i as int), ents, all[i as int], e, false);
                    }
                    f.entities.push(e);
                },
                BlockKind::Hidden => {
                    let mut b = b;
                    if b.blocks.len() > 0 {
                        let first = b.blocks.remove(0);
                        let ghost first_v = first;
                        let mut e = match Entity::from_block(first) {
                            Ok(v) => v,
                            Err(e) => {
                                proof {
                                    assert(first_v == all[i as int].blocks[0]);
                                    assert(fails_first_at(all, i as int, e@));
                                }
                                return Err(e);
                            },
                        };
                        let ghost e0 = e;
                        e.is_hidden = true;
                        proof {
                            assert(e.with_hidden(false) == e0);
                            lemma_entities_push(hidden_entities(all, i as int), hids, all[i as int].blocks[0], e, true);
                        }
                        f.hiddens.push(e);
                    }
                },
                BlockKind::Cameras => {
                    match Cameras::from_block(b) {
                        Ok(v) => { f.cameras = v; },
                        Err(e) => {
                            proof {
                                assert(fails_first_at(all, i as int, e@));
                            }
                            return Err(e);
                        },
                    }
                },
                BlockKind::Cordons => {
                    match Cordons::from_block(b) {
                        Ok(v) => { f.cordons = v; },
                        Err(e) => {
                            proof {
                                assert(fails_first_at(all, i as int, e@));
                            }
                            return Err(e);
                        },
                    }
                },
                BlockKind::Cordon => {
match Cordon::from_block(b) {
                        Ok(v) => { f.cordons.push(v); },
                        Err(e) => {
                            proof {
                                assert(fails_first_at(all, i as int, e@));
                            }
                            return Err(e);
                        },
                    }
                },
                BlockKind::Unknown => {},
            }
            i = i + 1;
            assert(blocks@ =~= all.subrange(i as int, n as int));
        }
        Ok(f)
    }
}

} // verus!

verus! {

pub open spec fn entity_list_text(es: Seq<Entity>, n: int) -> Seq<char>
    decreases n,
{
    if n <= 0 || n > es.len() {
        Seq::empty()
    } else {
        entity_list_text(es, n - 1) + entity_text(es[n - 1], 0)
    }
}

/// Each entity inside its own `hidden` block.
pub open spec fn hidden_list_text(es: Seq<Entity>, n: int) -> Seq<char>
    decreases n,
{
    if n <= 0 || n > es.len() {
        Seq::empty()
    } else {
        hidden_list_text(es, n - 1) + crate::text::open_lines(0, "hidden"@) + entity_text(es[n - 1], 1)
            + crate::text::close_line(0)
    }
}

/// The text of a whole document.
pub open spec fn document_text(f: VmfFile) -> Seq<char> {
    crate::vmf::metadata::version_info_text(f.versioninfo, 0)
        + crate::vmf::metadata::visgroups_text(f.visgroups, 0)
        + crate::vmf::metadata::view_settings_text(f.viewsettings, 0)
        + crate::vmf::world::world_text(f.world, 0)
        + entity_list_text(f.entities.0@, f.entities.0.len() as int)
        + hidden_list_text(f.hiddens.0@, f.hiddens.0.len() as int)
        + crate::vmf::regions::cameras_text(f.cameras, 0)
        + crate::vmf::regions::cordons_text(f.cordons, 0)
}

/// Whether the visgroup tree is shallow enough to be indented.
pub open spec fn writable(f: VmfFile) -> bool {
    visgroups_depth(f.visgroups.groups@, f.visgroups.groups.len() as int) + 2 < usize::MAX
}

/// The nesting of a visgroup, capped at `usize::MAX`.
fn visgroup_depth_of(g: &VisGroup) -> (r: usize)
    ensures
        r as int == if crate::vmf::metadata::visgroup_depth(*g) < usize::MAX { crate::vmf::metadata::visgroup_depth(*g) as int } else { usize::MAX as int },
    decreases g, 1int,
{
    match &g.children {
        Some(cs) => {
            proof {
                assert(decreases_to!(*g => *cs));
            }
            let d = visgroups_depth_of(cs, cs.len());
            if d == usize::MAX { usize::MAX } else { d + 1 }
        },
        None => 1,
    }
}

/// The largest nesting among the first `n` groups, capped at `usize::MAX`.
fn visgroups_depth_of(gs: &Vec<VisGroup>, n: usize) -> (r: usize)
    requires
        n <= gs.len(),
    ensures
        r as int == if visgroups_depth(gs@, n as int) < usize::MAX { visgroups_depth(gs@, n as int) as int } else { usize::MAX as int },
    decreases gs, 0int, n,
{
    if n == 0 {
        0
    } else {
        proof {
            assert(decreases_to!(*gs => gs[n - 1]));
        }
        let a = visgroups_depth_of(gs, n - 1);
        let c = visgroup_depth_of(&gs[n - 1]);
        if a >= c { a } else { c }
    }
}

impl VmfFile {
    /// Whether the document can be written: its visgroup tree is not so deep
    /// that the indentation would overflow.
    pub fn is_writable(&self) -> (r: bool)
        ensures
            r == writable(*self),
    {
        let d = visgroups_depth_of(&self.visgroups.groups, self.visgroups.groups.len());
        d < usize::MAX - 2
    }

    /// Parses a VMF text into a document: the text must hold a sequence of
    /// well-formed blocks, and each block of a known kind must convert.
    pub fn parse(content: &str) -> (r: VmfResult<VmfFile>)
        ensures
            (crate::parser::parse_text(content@) is None) ==> r matches Err(VmfError::Parse(_)),
            r matches Ok(f) ==> exists|bs: Seq<VmfBlock>| crate::parser::parse_text(content@) == Some(crate::shapes(bs))
                && blocks_ok(bs, bs.len() as int) && #[trigger] document_of(bs, bs.len() as int, f),
            (r is Err && crate::parser::parse_text(content@) is Some) ==> exists|bs: Seq<VmfBlock>|
                crate::parser::parse_text(content@) == Some(crate::shapes(bs)) && !#[trigger] blocks_ok(bs, bs.len() as int),
            (r is Err && crate::parser::parse_text(content@) is Some) ==> exists|bs: Seq<VmfBlock>, i: int|
                crate::parser::parse_text(content@) == Some(crate::shapes(bs)) && #[trigger] fails_first_at(bs, i, r->Err_0@),
            r matches Ok(f) ==> f.path is None,
            !(crate::parser::all_space(content@) || crate::parser::ends_with_close(content@))
                ==> r matches Err(VmfError::Parse(_)),
    {
        crate::parser::parse_vmf(content)
    }

    /// Writes the document in the VMF text form: version info, visgroups,
    /// view settings, world, entities, hidden entities (each in a `hidden`
    /// block), cameras and cordons.
    pub fn to_vmf_string(&self) -> (r: String)
        requires
            writable(*self),
        ensures
            r@ == document_text(*self),
    {
        let mut out = String::new();
        out.push_str(self.versioninfo.to_vmf_string(0).as_str());
        out.push_str(self.visgroups.to_vmf_string(0).as_str());
        out.push_str(self.viewsettings.to_vmf_string(0).as_str());
        out.push_str(self.world.to_vmf_string(0).as_str());
        let ghost mid = out@;
        let mut i: usize = 0;
        while i < self.entities.0.len()
            invariant
                i <= self.entities.0.len(),
                out@ == mid + entity_list_text(self.entities.0@, i as int),
            decreases self.entities.0.len() - i,
        {
            out.push_str(self.entities.0[i].to_vmf_string(0).as_str());
            i = i + 1;
            assert(out@ =~= mid + entity_list_text(self.entities.0@, i as int));
        }
        let ghost mid2 = out@;
        let mut i: usize = 0;
        while i < self.hiddens.0.len()
            invariant
                i <= self.hiddens.0.len(),
                out@ == mid2 + hidden_list_text(self.hiddens.0@, i as int),
            decreases self.hiddens.0.len() - i,
        {
            crate::text::push_open(&mut out, 0, "hidden");
            out.push_str(self.hiddens.0[i].to_vmf_string(1).as_str());
            crate::text::push_close(&mut out, 0);
            i = i + 1;
            assert(out@ =~= mid2 + hidden_list_text(self.hiddens.0@, i as int));
        }
        out.push_str(self.cameras.to_vmf_string(0).as_str());
        out.push_str(self.cordons.to_vmf_string(0).as_str());
        assert(out@ =~= document_text(*self));
        out
    }

    /// Merges another document into this one: its visgroups, world solids
    /// (visible and hidden), entities, hidden entities and cordons are added
    /// after this document's own. Version info, view settings and cameras
    /// stay as they are; ids are not reconciled.
    pub fn merge(&mut self, other: VmfFile)
        ensures
            final(self).visgroups.groups@ == old(self).visgroups.groups@ + other.visgroups.groups@,
            final(self).world.solids@ == old(self).world.solids@ + other.world.solids@,
            final(self).world.hidden@ == old(self).world.hidden@ + other.world.hidden@,
            final(self).entities.0@ == old(self).entities.0@ + other.entities.0@,
            final(self).hiddens.0@ == old(self).hiddens.0@ + other.hiddens.0@,
            final(self).cordons.cordons@ == old(self).cordons.cordons@ + other.cordons.cordons@,
            final(self).cordons.active == old(self).cordons.active,
            final(self).versioninfo == old(self).versioninfo,
            final(self).viewsettings == old(self).viewsettings,
            final(self).cameras == old(self).cameras,
            final(self).path == old(self).path,
            final(self).world.key_values == old(self).world.key_values,
            final(self).world.group == old(self).world.group,
    {
        let VmfFile { path: _, versioninfo: _, visgroups, viewsettings: _, world, entities, hiddens, cameras: _, cordons } = other;
        let mut groups = visgroups.groups;
        self.visgroups.groups.append(&mut groups);
        let World { key_values: _, solids, hidden, group: _ } = world;
        let mut solids = solids;
        let mut hidden = hidden;
        self.world.solids.append(&mut solids);
        self.world.hidden.append(&mut hidden);
        let mut es = entities.0;
        let mut hs = hiddens.0;
        self.entities.0.append(&mut es);
        self.hiddens.0.append(&mut hs);
        let mut cs = cordons.cordons;
        self.cordons.cordons.append(&mut cs);
    }
}

/// The ids of a visgroup and of all groups below it.
pub open spec fn subtree_ids(g: VisGroup) -> Set<i32>
    decreases g, 1int,
{
    set![g.id] + match g.children {
        Some(cs) => children_ids(cs@, cs.len() as int),
        None => Set::empty(),
    }
}

pub open spec fn children_ids(cs: Seq<VisGroup>, n: int) -> Set<i32>
    decreases cs, 0int, n,
{
    if n <= 0 || n > cs.len() {
        Set::empty()
    } else {
        children_ids(cs, n - 1) + subtree_ids(cs[n - 1])
    }
}

proof fn lemma_children_ids(cs: Seq<VisGroup>, i: int, n: int)
    requires
        0 <= i < n <= cs.len(),
    ensures
        subtree_ids(cs[i]).subset_of(children_ids(cs, n)),
    decreases n,
{
    if i < n - 1 {
        lemma_children_ids(cs, i, n - 1);
    }
}

/// Whether two sets of ids share none.
pub open spec fn apart(a: Set<i32>, b: Set<i32>) -> bool {
    forall|x: i32| !(#[trigger] a.contains(x) && b.contains(x))
}

/// Whether the ids of a visgroup and of all groups below it are distinct.
pub open spec fn tree_distinct(g: VisGroup) -> bool
    decreases g, 1int,
{
    match g.children {
        Some(cs) => !children_ids(cs@, cs.len() as int).contains(g.id) && children_distinct(cs@, cs.len() as int),
        None => true,
    }
}

/// Whether the ids in the trees of the first `n` groups of `cs` are distinct.
pub open spec fn children_distinct(cs: Seq<VisGroup>, n: int) -> bool
    decreases cs, 0int, n,
{
    if n <= 0 || n > cs.len() {
        true
    } else {
        children_distinct(cs, n - 1) && tree_distinct(cs[n - 1]) && apart(children_ids(cs, n - 1), subtree_ids(cs[n - 1]))
    }
}

proof fn lemma_children_distinct(cs: Seq<VisGroup>, k: int, n: int)
    requires
        0 <= k < n <= cs.len(),
        children_distinct(cs, n),
    ensures
        tree_distinct(cs[k]),
        apart(children_ids(cs, k), subtree_ids(cs[k])),
    decreases n,
{
    if k < n - 1 {
        lemma_children_distinct(cs, k, n - 1);
    }
}

/// The ids that the walk below gathers after `acc`: a group whose id is
/// already gathered is skipped with everything below it; otherwise its id is
/// added, then its children are walked in order.
pub open spec fn gather(acc: Seq<i32>, g: VisGroup) -> Seq<i32>
    decreases g, 1int,
{
    if acc.contains(g.id) {
        acc
    } else {
        match g.children {
            Some(cs) => gather_all(acc.push(g.id), cs@, cs.len() as int),
            None => acc.push(g.id),
        }
    }
}

/// The walk of `gather` over the first `n` groups of `cs`, in order.
pub open spec fn gather_all(acc: Seq<i32>, cs: Seq<VisGroup>, n: int) -> Seq<i32>
    decreases cs, 0int, n,
{
    if n <= 0 || n > cs.len() {
        acc
    } else {
        gather(gather_all(acc, cs, n - 1), cs[n - 1])
    }
}

/// Adds the id of `group` and, recursively, those of its children to
/// `collected_ids`. A group whose id is already there is not entered again,
/// which guards against cycles.
pub fn collect_child_visgroup_ids(group: &VisGroup, collected_ids: &mut Vec<i32>)
    ensures
        old(collected_ids)@.to_set().insert(group.id).subset_of(final(collected_ids)@.to_set()),
        final(collected_ids)@.to_set().subset_of(old(collected_ids)@.to_set() + subtree_ids(*group)),
        old(collected_ids)@.contains(group.id) ==> final(collected_ids)@ == old(collected_ids)@,
        final(collected_ids)@ == gather(old(collected_ids)@, *group),
        tree_distinct(*group) && apart(old(collected_ids)@.to_set(), subtree_ids(*group))
            ==> final(collected_ids)@.to_set() == old(collected_ids)@.to_set() + subtree_ids(*group),
    decreases group,
{
    let mut present = false;
    let mut i: usize = 0;
    while i < collected_ids.len()
        invariant
            i <= collected_ids.len(),
            present <==> exists|j: int| 0 <= j < i && collected_ids@[j] == group.id,
        decreases collected_ids.len() - i,
    {
        if collected_ids[i] == group.id {
            present = true;
        }
        i = i + 1;
    }
    if present {
        assert(old(collected_ids)@.to_set().insert(group.id) =~= old(collected_ids)@.to_set());
        assert(old(collected_ids)@.to_set().contains(group.id));
        assert(subtree_ids(*group).contains(group.id));
        return;
    }
    assert(!old(collected_ids)@.contains(group.id));
    collected_ids.push(group.id);
    assert(collected_ids@.to_set() =~= old(collected_ids)@.to_set().insert(group.id)) by {
        assert forall|x: i32| #[trigger] collected_ids@.to_set().contains(x) <==> old(collected_ids)@.to_set().insert(group.id).contains(x) by {
            if collected_ids@.to_set().contains(x) {
                let j = choose|j: int| 0 <= j < collected_ids@.len() && collected_ids@[j] == x;
                if j < old(collected_ids)@.len() {
                    assert(old(collected_ids)@[j] == x);
                }
            }
            if old(collected_ids)@.to_set().contains(x) {
                let j = choose|j: int| 0 <= j < old(collected_ids)@.len() && old(collected_ids)@[j] == x;
                assert(collected_ids@[j] == x);
            }
            if x == group.id {
                assert(collected_ids@[collected_ids@.len() - 1] == x);
            }
        }
    }
    if let Some(children) = &group.children {
        let ghost base = collected_ids@.to_set();
        let mut k: usize = 0;
        while k < children.len()
            invariant
                k <= children.len(),
                group.children == Some(*children),
                base == old(collected_ids)@.to_set().insert(group.id),
                base.subset_of(collected_ids@.to_set()),
                collected_ids@.to_set().subset_of(old(collected_ids)@.to_set() + subtree_ids(*group)),
                tree_distinct(*group) && apart(old(collected_ids)@.to_set(), subtree_ids(*group))
                    ==> collected_ids@.to_set() == base + children_ids(children@, k as int),
                collected_ids@ == gather_all(old(collected_ids)@.push(group.id), children@, k as int),
                !old(collected_ids)@.contains(group.id),
            decreases children.len() - k,
        {
            proof {
                assert(decreases_to!(*group => *children));
                assert(decreases_to!(*children => children[k as int]));
                lemma_children_ids(children@, k as int, children.len() as int);
                if tree_distinct(*group) && apart(old(collected_ids)@.to_set(), subtree_ids(*group)) {
                    lemma_children_distinct(children@, k as int, children.len() as int);
                    let c = children@[k as int];
                    assert forall|x: i32| !(#[trigger] collected_ids@.to_set().contains(x) && subtree_ids(c).contains(x)) by {
                        if collected_ids@.to_set().contains(x) && subtree_ids(c).contains(x) {
                            assert(children_ids(children@, children.len() as int).contains(x));
                            assert(subtree_ids(*group).contains(x));
                        }
                    }
                }
            }
            let ghost before = collected_ids@.to_set();
            collect_child_visgroup_ids(&children[k], collected_ids);
            proof {
                if tree_distinct(*group) && apart(old(collected_ids)@.to_set(), subtree_ids(*group)) {
                    assert(collected_ids@.to_set() =~= base + children_ids(children@, k + 1));
                }
            }
            k = k + 1;
        }
        proof {
            if tree_distinct(*group) && apart(old(collected_ids)@.to_set(), subtree_ids(*group)) {
                assert(collected_ids@.to_set() =~= old(collected_ids)@.to_set() + subtree_ids(*group));
            }
        }
    } else {
        assert(old(collected_ids)@.to_set().insert(group.id).subset_of(old(collected_ids)@.to_set() + subtree_ids(*group)));
        assert(old(collected_ids)@.to_set().insert(group.id) =~= old(collected_ids)@.to_set() + subtree_ids(*group));
    }
}

} // verus!

verus! {

/// Whether `id` is in `ids`.
fn holds_id(ids: &Vec<i32>, id: i32) -> (r: bool)
    ensures
        r == ids@.contains(id),
{
    let mut i: usize = 0;
    while i < ids.len()
        invariant
            i <= ids.len(),
            forall|j: int| 0 <= j < i ==> ids@[j] != id,
        decreases ids.len() - i,
    {
        if ids[i] == id {
            assert(ids@[i as int] == id);
            return true;
        }
        i = i + 1;
    }
    false
}

/// The first group with id `id` among the groups `gs[..n]` and their
/// descendants, each group before those below it.
pub open spec fn group_in(gs: Seq<VisGroup>, n: int, id: i32) -> Option<VisGroup>
    decreases gs, 0int, n,
{
    if n <= 0 || n > gs.len() {
        None
    } else {
        match group_in(gs, n - 1, id) {
            Some(h) => Some(h),
            None => group_below(gs[n - 1], id),
        }
    }
}

/// The first group with id `id` among `g` and its descendants, `g` first.
pub open spec fn group_below(g: VisGroup, id: i32) -> Option<VisGroup>
    decreases g, 1int,
{
    if g.id == id {
        Some(g)
    } else {
        match g.children {
            Some(cs) => group_in(cs@, cs.len() as int, id),
            None => None,
        }
    }
}

proof fn lemma_group_in_distinct(gs: Seq<VisGroup>, n: int, id: i32)
    requires
        0 <= n <= gs.len(),
        children_distinct(gs, n),
        group_in(gs, n, id) is Some,
    ensures
        tree_distinct(group_in(gs, n, id)->0),
    decreases gs, 0int, n,
{
    if n > 0 {
        if group_in(gs, n - 1, id) is Some {
            lemma_group_in_distinct(gs, n - 1, id);
        } else {
            assert(decreases_to!(gs => gs[n - 1]));
            lemma_group_below_distinct(gs[n - 1], id);
        }
    }
}

proof fn lemma_group_below_distinct(g: VisGroup, id: i32)
    requires
        tree_distinct(g),
        group_below(g, id) is Some,
    ensures
        tree_distinct(group_below(g, id)->0),
    decreases g, 1int,
{
    if g.id != id {
        match g.children {
            Some(cs) => {
                assert(decreases_to!(g => cs));
                assert(decreases_to!(cs => cs@));
                lemma_group_in_distinct(cs@, cs.len() as int, id);
            },
            None => {},
        }
    }
}

/// The first group with id `id` in the groups `gs[..n]` and their descendants.
fn find_in<'a>(gs: &'a Vec<VisGroup>, n: usize, id: i32) -> (r: Option<&'a VisGroup>)
    requires
        n <= gs.len(),
    ensures
        r is None <==> !children_ids(gs@, n as int).contains(id),
        r matches Some(g) ==> g.id == id && subtree_ids(*g).subset_of(children_ids(gs@, n as int)),
        match r {
            Some(g) => group_in(gs@, n as int, id) == Some(*g),
            None => group_in(gs@, n as int, id) is None,
        },
    decreases gs, 0int, n,
{
    if n == 0 {
        return None;
    }
    proof {
        assert(decreases_to!(*gs => gs[n - 1]));
    }
    match find_in(gs, n - 1, id) {
        Some(g) => Some(g),
        None => find_below(&gs[n - 1], id),
    }
}

/// The group with id `id` among `g` and its descendants, `g` first.
fn find_below<'a>(g: &'a VisGroup, id: i32) -> (r: Option<&'a VisGroup>)
    ensures
        r is None <==> !subtree_ids(*g).contains(id),
        r matches Some(h) ==> h.id == id && subtree_ids(*h).subset_of(subtree_ids(*g)),
        match r {
            Some(h) => group_below(*g, id) == Some(*h),
            None => group_below(*g, id) is None,
        },
    decreases g, 1int,
{
    if g.id == id {
        return Some(g);
    }
    match &g.children {
        Some(cs) => {
            proof {
                assert(decreases_to!(*g => *cs));
            }
            find_in(cs, cs.len(), id)
        },
        None => None,
    }
}

/// Whether entity or solid editor data places it in one of the groups `ids`.
pub open spec fn in_groups(visgroup_id: Option<i32>, ids: Set<i32>) -> bool {
    visgroup_id matches Some(x) && ids.contains(x)
}

impl VisGroups {
    /// The visgroup with the given id, searched through the whole tree.
    pub fn find_by_id(&self, id: i32) -> (r: Option<&VisGroup>)
        ensures
            r is None <==> !children_ids(self.groups@, self.groups.len() as int).contains(id),
            r matches Some(g) ==> g.id == id && subtree_ids(*g).subset_of(children_ids(self.groups@, self.groups.len() as int)),
            match r {
                Some(g) => group_in(self.groups@, self.groups.len() as int, id) == Some(*g),
                None => group_in(self.groups@, self.groups.len() as int, id) is None,
            },
    {
        find_in(&self.groups, self.groups.len(), id)
    }
}

impl VmfFile {
    /// The ids that a visgroup query covers: the group's own id, and with
    /// `include_children` those of the groups below it.
    fn query_ids(&self, group_id: i32, include_children: bool) -> (r: Option<Vec<i32>>)
        ensures
            r is None <==> !children_ids(self.visgroups.groups@, self.visgroups.groups.len() as int).contains(group_id),
            r matches Some(ids) ==> ids@.contains(group_id)
                && ids@.to_set().subset_of(children_ids(self.visgroups.groups@, self.visgroups.groups.len() as int))
                && (!include_children ==> ids@.to_set() == set![group_id])
                && (include_children && children_distinct(self.visgroups.groups@, self.visgroups.groups.len() as int)
                    ==> ids@.to_set() == subtree_ids(group_in(self.visgroups.groups@, self.visgroups.groups.len() as int, group_id)->0))
                && (include_children ==> ids@ == gather(Seq::empty(), group_in(self.visgroups.groups@, self.visgroups.groups.len() as int, group_id)->0)),
    {
        let g = match self.visgroups.find_by_id(group_id) {
            Some(g) => g,
            None => return None,
        };
        let mut ids: Vec<i32> = Vec::new();
        let ghost forest = children_ids(self.visgroups.groups@, self.visgroups.groups.len() as int);
        if include_children {
            proof {
                if children_distinct(self.visgroups.groups@, self.visgroups.groups.len() as int) {
                    lemma_group_in_distinct(self.visgroups.groups@, self.visgroups.groups.len() as int, group_id);
                }
                assert(ids@.to_set() =~= Set::<i32>::empty());
            }
            collect_child_visgroup_ids(g, &mut ids);
            proof {
                assert(Seq::<i32>::empty().to_set() =~= Set::<i32>::empty());
                assert(Set::<i32>::empty().insert(g.id).contains(group_id));
                assert(ids@.to_set().contains(group_id));
                assert(ids@.contains(group_id));
                assert(Set::<i32>::empty() + subtree_ids(*g) =~= subtree_ids(*g));
            }
        } else {
            ids.push(g.id);
            proof {
                assert(ids@[0] == group_id);
                assert(ids@.to_set() =~= set![group_id]);
                assert(subtree_ids(*g).contains(g.id));
            }
        }
        Some(ids)
    }
}

} // verus!

verus! {

/// The entities among the first `n` of `es` placed in one of the groups `ids`.
pub open spec fn entities_in(es: Seq<Entity>, ids: Set<i32>, n: int) -> Seq<Entity>
    decreases n,
{
    if n <= 0 || n > es.len() {
        Seq::empty()
    } else if in_groups(es[n - 1].editor.visgroup_id, ids) {
        entities_in(es, ids, n - 1).push(es[n - 1])
    } else {
        entities_in(es, ids, n - 1)
    }
}

/// The solids among the first `n` of `ss` placed in one of the groups `ids`.
pub open spec fn solids_in(ss: Seq<crate::vmf::world::Solid>, ids: Set<i32>, n: int) -> Seq<crate::vmf::world::Solid>
    decreases n,
{
    if n <= 0 || n > ss.len() {
        Seq::empty()
    } else if in_groups(ss[n - 1].editor.visgroup_id, ids) {
        solids_in(ss, ids, n - 1).push(ss[n - 1])
    } else {
        solids_in(ss, ids, n - 1)
    }
}

/// The ids a visgroup query covers: the group's own id, within the tree;
/// only that id without `include_children`; with it, the ids that `gather`
/// collects from the first group with that id, which are exactly the ids of
/// its subtree when the ids of the tree are distinct.
pub open spec fn query_covers(f: VmfFile, group_id: i32, include_children: bool, ids: Set<i32>) -> bool {
    &&& ids.contains(group_id)
    &&& ids.subset_of(children_ids(f.visgroups.groups@, f.visgroups.groups.len() as int))
    &&& !include_children ==> ids == set![group_id]
    &&& include_children && children_distinct(f.visgroups.groups@, f.visgroups.groups.len() as int)
        ==> ids == subtree_ids(group_in(f.visgroups.groups@, f.visgroups.groups.len() as int, group_id)->0)
    &&& include_children ==> ids == gather(Seq::empty(), group_in(f.visgroups.groups@, f.visgroups.groups.len() as int, group_id)->0).to_set()
}

fn select_entities<'a>(es: &'a Vec<Entity>, ids: &Vec<i32>, out: &mut Vec<&'a Entity>)
    ensures
        final(out)@.map_values(|e: &Entity| *e) == old(out)@.map_values(|e: &Entity| *e)
            + entities_in(es@, ids@.to_set(), es.len() as int),
{
    let ghost base = out@.map_values(|e: &Entity| *e);
    let mut i: usize = 0;
    while i < es.len()
        invariant
            i <= es.len(),
            out@.map_values(|e: &Entity| *e) == base + entities_in(es@, ids@.to_set(), i as int),
        decreases es.len() - i,
    {
        let hit = match es[i].editor.visgroup_id {
            Some(x) => holds_id(ids, x),
            None => false,
        };
        let ghost before = out@;
        if hit {
            out.push(&es[i]);
            assert(out@.map_values(|e: &Entity| *e) =~= before.map_values(|e: &Entity| *e).push(es@[i as int]));
        }
        i = i + 1;
        assert(out@.map_values(|e: &Entity| *e) =~= base + entities_in(es@, ids@.to_set(), i as int));
    }
}

fn select_solids<'a>(ss: &'a Vec<crate::vmf::world::Solid>, ids: &Vec<i32>, out: &mut Vec<&'a crate::vmf::world::Solid>)
    ensures
        final(out)@.map_values(|s: &crate::vmf::world::Solid| *s) == old(out)@.map_values(|s: &crate::vmf::world::Solid| *s)
            + solids_in(ss@, ids@.to_set(), ss.len() as int),
{
    let ghost base = out@.map_values(|s: &crate::vmf::world::Solid| *s);
    let mut i: usize = 0;
    while i < ss.len()
        invariant
            i <= ss.len(),
            out@.map_values(|s: &crate::vmf::world::Solid| *s) == base + solids_in(ss@, ids@.to_set(), i as int),
        decreases ss.len() - i,
    {
        let hit = match ss[i].editor.visgroup_id {
            Some(x) => holds_id(ids, x),
            None => false,
        };
        let ghost before = out@;
        if hit {
            out.push(&ss[i]);
            assert(out@.map_values(|s: &crate::vmf::world::Solid| *s)
                =~= before.map_values(|s: &crate::vmf::world::Solid| *s).push(ss@[i as int]));
        }
        i = i + 1;
        assert(out@.map_values(|s: &crate::vmf::world::Solid| *s) =~= base + solids_in(ss@, ids@.to_set(), i as int));
    }
}

impl VmfFile {
    /// The entities, visible then hidden, that belong to the visgroup
    /// `group_id` (with `include_children`, to it or a group below it); none
    /// when no visgroup has that id.
    pub fn get_entities_in_visgroup(&self, group_id: i32, include_children: bool) -> (r: Option<Vec<&Entity>>)
        ensures
            r is None <==> !children_ids(self.visgroups.groups@, self.visgroups.groups.len() as int).contains(group_id),
            r matches Some(v) ==> exists|ids: Set<i32>| #[trigger] query_covers(*self, group_id, include_children, ids)
                && v@.map_values(|e: &Entity| *e) == entities_in(self.entities.0@, ids, self.entities.0.len() as int)
                    + entities_in(self.hiddens.0@, ids, self.hiddens.0.len() as int),
    {
        let ids = match self.query_ids(group_id, include_children) {
            Some(ids) => ids,
            None => return None,
        };
        let mut out: Vec<&Entity> = Vec::new();
        assert(out@.map_values(|e: &Entity| *e) =~= Seq::<Entity>::empty());
        select_entities(&self.entities.0, &ids, &mut out);
        select_entities(&self.hiddens.0, &ids, &mut out);
        proof {
            assert(query_covers(*self, group_id, include_children, ids@.to_set()));
        }
        Some(out)
    }

    /// The world solids, visible then hidden, that belong to the visgroup
    /// `group_id` (with `include_children`, to it or a group below it); none
    /// when no visgroup has that id.
    pub fn get_solids_in_visgroup(&self, group_id: i32, include_children: bool) -> (r: Option<Vec<&crate::vmf::world::Solid>>)
        ensures
            r is None <==> !children_ids(self.visgroups.groups@, self.visgroups.groups.len() as int).contains(group_id),
            r matches Some(v) ==> exists|ids: Set<i32>| #[trigger] query_covers(*self, group_id, include_children, ids)
                && v@.map_values(|s: &crate::vmf::world::Solid| *s) == solids_in(self.world.solids@, ids, self.world.solids.len() as int)
                    + solids_in(self.world.hidden@, ids, self.world.hidden.len() as int),
    {
        let ids = match self.query_ids(group_id, include_children) {
            Some(ids) => ids,
            None => return None,
        };
        let mut out: Vec<&crate::vmf::world::Solid> = Vec::new();
        assert(out@.map_values(|s: &crate::vmf::world::Solid| *s) =~= Seq::<crate::vmf::world::Solid>::empty());
        select_solids(&self.world.solids, &ids, &mut out);
        select_solids(&self.world.hidden, &ids, &mut out);
        proof {
            assert(query_covers(*self, group_id, include_children, ids@.to_set()));
        }
        Some(out)
    }
}

} // verus!

verus! {

impl std::str::FromStr for VmfFile {
    type Err = VmfError;

    /// Parses a VMF text; see `VmfFile::parse`.
    fn from_str(s: &str) -> Result<VmfFile, VmfError> {
        VmfFile::parse(s)
    }
}

} // verus!
