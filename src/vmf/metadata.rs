//! Metadata blocks of a VMF file: version info, visgroups and view settings.
use vstd::prelude::*;
use crate::errors::{res_view, ErrorView, VmfResult};
use crate::kv::{
    flag_field, flag_of, int_field, kv_entries, kv_get, kv_new, lemma_absent, lookup, push_entry,
    signed_field, text_field, text_of,
};
use crate::text::{
    close_line, flag_text, int_in_range, int_string, int_text, kv_line, nat_string,
    open_lines, parse_unsigned, push_close, push_flag_line, push_int_line, push_kv_line,
    push_nat_line, push_open, str_is_one, To01String,
};
use crate::{VmfBlock, VmfSerializable};

verus! {

/// Represents the version info of a VMF file.
#[derive(Debug, Default, Clone, Copy, PartialEq, Eq)]
pub struct VersionInfo {
    /// The editor version.
    pub editor_version: i32,
    /// The editor build number.
    pub editor_build: i32,
    /// The map version.
    pub map_version: i32,
    /// The format version.
    pub format_version: i32,
    /// Whether the VMF is a prefab.
    pub prefab: bool,
}

pub open spec fn i32_field(s: Seq<(Seq<char>, Seq<char>)>, key: Seq<char>) -> Result<int, ErrorView> {
    int_field(s, key, i32::MIN as int, i32::MAX as int)
}

/// The version info that the pairs `s` describe, or the error of the first
/// field that is missing or malformed.
pub open spec fn version_info_spec(s: Seq<(Seq<char>, Seq<char>)>) -> Result<VersionInfo, ErrorView> {
    match i32_field(s, "editorversion"@) {
        Err(e) => Err(e),
        Ok(a) => match i32_field(s, "editorbuild"@) {
            Err(e) => Err(e),
            Ok(b) => match i32_field(s, "mapversion"@) {
                Err(e) => Err(e),
                Ok(c) => match i32_field(s, "formatversion"@) {
                    Err(e) => Err(e),
                    Ok(d) => match flag_field(s, "prefab"@) {
                        Err(e) => Err(e),
                        Ok(p) => Ok(
                            VersionInfo {
                                editor_version: a as i32,
                                editor_build: b as i32,
                                map_version: c as i32,
                                format_version: d as i32,
                                prefab: p,
                            },
                        ),
                    },
                },
            },
        },
    }
}

pub open spec fn version_info_entries(v: VersionInfo) -> Seq<(Seq<char>, Seq<char>)> {
    seq![
        ("editorversion"@, int_text(v.editor_version as int)),
        ("editorbuild"@, int_text(v.editor_build as int)),
        ("mapversion"@, int_text(v.map_version as int)),
        ("formatversion"@, int_text(v.format_version as int)),
        ("prefab"@, flag_text(v.prefab)),
    ]
}

pub open spec fn version_info_text(v: VersionInfo, indent: nat) -> Seq<char> {
    open_lines(indent, "versioninfo"@)
        + kv_line(indent, "editorversion"@, int_text(v.editor_version as int))
        + kv_line(indent, "editorbuild"@, int_text(v.editor_build as int))
        + kv_line(indent, "mapversion"@, int_text(v.map_version as int))
        + kv_line(indent, "formatversion"@, int_text(v.format_version as int))
        + kv_line(indent, "prefab"@, flag_text(v.prefab))
        + close_line(indent)
}

impl VersionInfo {
    /// Converts a `versioninfo` block: four required integers and the
    /// required `prefab` flag.
    pub fn from_block(block: VmfBlock) -> (r: VmfResult<VersionInfo>)
        ensures
            res_view(r) == version_info_spec(kv_entries(block.key_values)),
    {
        let kv = &block.key_values;
        let a = signed_field(kv, "editorversion", i32::MIN as i64, i32::MAX as i64)?;
        let b = signed_field(kv, "editorbuild", i32::MIN as i64, i32::MAX as i64)?;
        let c = signed_field(kv, "mapversion", i32::MIN as i64, i32::MAX as i64)?;
        let d = signed_field(kv, "formatversion", i32::MIN as i64, i32::MAX as i64)?;
        let p = flag_of(kv, "prefab")?;
        Ok(VersionInfo {
            editor_version: a as i32,
            editor_build: b as i32,
            map_version: c as i32,
            format_version: d as i32,
            prefab: p,
        })
    }

    /// The `versioninfo` block of this data.
    pub fn into_block(self) -> (r: VmfBlock)
        ensures
            r.name@ == "versioninfo"@,
            kv_entries(r.key_values) == version_info_entries(self),
            r.blocks@.len() == 0,
    {
        proof {
            reveal_strlit("editorversion");
            reveal_strlit("editorbuild");
            reveal_strlit("mapversion");
            reveal_strlit("formatversion");
            reveal_strlit("prefab");
            assert("editorversion"@.len() == 13);
            assert("editorbuild"@.len() == 11);
            assert("mapversion"@.len() == 10);
            assert("formatversion"@.len() == 13);
            assert("prefab"@.len() == 6);
            assert("editorversion"@[0] != "formatversion"@[0]);
        }
        let mut kv = kv_new();
        proof { lemma_absent(kv_entries(kv), "editorversion"@); }
        push_entry(&mut kv, "editorversion", int_string(self.editor_version as i64));
        proof { lemma_absent(kv_entries(kv), "editorbuild"@); }
        push_entry(&mut kv, "editorbuild", int_string(self.editor_build as i64));
        proof { lemma_absent(kv_entries(kv), "mapversion"@); }
        push_entry(&mut kv, "mapversion", int_string(self.map_version as i64));
        proof { lemma_absent(kv_entries(kv), "formatversion"@); }
        push_entry(&mut kv, "formatversion", int_string(self.format_version as i64));
        proof { lemma_absent(kv_entries(kv), "prefab"@); }
        push_entry(&mut kv, "prefab", self.prefab.to_01_string());
        assert(kv_entries(kv) =~= version_info_entries(self));
        VmfBlock { name: "versioninfo".to_string(), key_values: kv, blocks: Vec::new() }
    }
}

impl VmfSerializable for VersionInfo {
    open spec fn vmf_text(&self, indent: nat) -> Seq<char> {
        version_info_text(*self, indent)
    }

    open spec fn vmf_depth(&self) -> nat {
        1
    }

    fn to_vmf_string(&self, indent_level: usize) -> (r: String) {
        let mut out = String::new();
        push_open(&mut out, indent_level, "versioninfo");
        push_int_line(&mut out, indent_level, "editorversion", self.editor_version as i64);
        push_int_line(&mut out, indent_level, "editorbuild", self.editor_build as i64);
        push_int_line(&mut out, indent_level, "mapversion", self.map_version as i64);
        push_int_line(&mut out, indent_level, "formatversion", self.format_version as i64);
        push_flag_line(&mut out, indent_level, "prefab", self.prefab);
        push_close(&mut out, indent_level);
        assert(out@ =~= version_info_text(*self, indent_level as nat));
        out
    }
}

/// Represents a collection of VisGroups in a VMF file.
#[derive(Debug, Default, PartialEq)]
pub struct VisGroups {
    /// The list of VisGroups.
    pub groups: Vec<VisGroup>,
}

/// Represents a VisGroup in a VMF file.
#[derive(Debug, Default, PartialEq)]
pub struct VisGroup {
    /// The name of the VisGroup.
    pub name: String,
    /// The ID of the VisGroup.
    pub id: i32,
    /// The color of the VisGroup in the editor.
    pub color: String,
    /// The child VisGroups of this VisGroup, if any.
    pub children: Option<Vec<VisGroup>>,
}

/// Whether a `visgroup` block, and every block below it, converts.
pub open spec fn visgroup_ok(b: VmfBlock) -> bool
    decreases b, 1int,
{
    &&& visgroup_children_ok(b, b.blocks.len() as int)
    &&& lookup(kv_entries(b.key_values), "name"@) is Some
    &&& i32_field(kv_entries(b.key_values), "visgroupid"@) is Ok
    &&& lookup(kv_entries(b.key_values), "color"@) is Some
}

/// Whether the first `n` children of `b` convert.
pub open spec fn visgroup_children_ok(b: VmfBlock, n: int) -> bool
    decreases b, 0int, n,
{
    if n <= 0 || n > b.blocks.len() {
        true
    } else {
        visgroup_children_ok(b, n - 1) && visgroup_ok(b.blocks[n - 1])
    }
}

/// The error of a `visgroup` block that does not convert: that of its first
/// child that does not, else that of `name`, `visgroupid` or `color`.
pub open spec fn visgroup_error(b: VmfBlock) -> Option<ErrorView>
    decreases b, 1int,
{
    let s = kv_entries(b.key_values);
    match visgroup_children_error(b, b.blocks.len() as int) {
        Some(e) => Some(e),
        None => match text_field(s, "name"@) {
            Err(e) => Some(e),
            Ok(_) => match i32_field(s, "visgroupid"@) {
                Err(e) => Some(e),
                Ok(_) => match text_field(s, "color"@) {
                    Err(e) => Some(e),
                    Ok(_) => None,
                },
            },
        },
    }
}

/// The error of the first of the first `n` children of `b` that does not convert.
pub open spec fn visgroup_children_error(b: VmfBlock, n: int) -> Option<ErrorView>
    decreases b, 0int, n,
{
    if n <= 0 || n > b.blocks.len() {
        None
    } else {
        match visgroup_children_error(b, n - 1) {
            Some(e) => Some(e),
            None => visgroup_error(b.blocks[n - 1]),
        }
    }
}

proof fn lemma_children_error_persists(b: VmfBlock, m: int, n: int)
    requires
        0 < m <= n <= b.blocks.len(),
        visgroup_children_error(b, m) is Some,
    ensures
        visgroup_children_error(b, n) == visgroup_children_error(b, m),
    decreases n - m,
{
    if m < n {
        lemma_children_error_persists(b, m, n - 1);
    }
}

/// `g` is the visgroup that block `b` describes: its name, id and color, and
/// one child per child block, in order (none when the block has no children).
pub open spec fn visgroup_of(b: VmfBlock, g: VisGroup) -> bool
    decreases b, 1int,
{
    &&& lookup(kv_entries(b.key_values), "name"@) == Some(g.name@)
    &&& i32_field(kv_entries(b.key_values), "visgroupid"@) == Ok::<int, ErrorView>(g.id as int)
    &&& lookup(kv_entries(b.key_values), "color"@) == Some(g.color@)
    &&& if b.blocks.len() == 0 {
        g.children is None
    } else {
        &&& g.children is Some
        &&& g.children->0.len() == b.blocks.len()
        &&& visgroup_children_of(b, g.children->0@, b.blocks.len() as int)
    }
}

/// The first `n` children of `b` convert to the first `n` groups of `gs`.
pub open spec fn visgroup_children_of(b: VmfBlock, gs: Seq<VisGroup>, n: int) -> bool
    decreases b, 0int, n,
{
    if n <= 0 || n > b.blocks.len() {
        true
    } else {
        visgroup_children_of(b, gs, n - 1) && visgroup_of(b.blocks[n - 1], gs[n - 1])
    }
}

/// The nesting of a visgroup: 1 for one without children.
pub open spec fn visgroup_depth(g: VisGroup) -> nat
    decreases g, 1int,
{
    match g.children {
        Some(cs) => 1 + visgroups_depth(cs@, cs.len() as int),
        None => 1,
    }
}

/// The largest nesting among the first `n` groups of `gs`.
pub open spec fn visgroups_depth(gs: Seq<VisGroup>, n: int) -> nat
    decreases gs, 0int, n,
{
    if n <= 0 || n > gs.len() {
        0
    } else {
        let a = visgroups_depth(gs, n - 1);
        let c = visgroup_depth(gs[n - 1]);
        if a >= c { a } else { c }
    }
}

proof fn lemma_visgroups_depth(gs: Seq<VisGroup>, i: int, n: int)
    requires
        0 <= i < n <= gs.len(),
    ensures
        visgroup_depth(gs[i]) <= visgroups_depth(gs, n),
    decreases n,
{
    if i < n - 1 {
        lemma_visgroups_depth(gs, i, n - 1);
    }
}

/// The text of a visgroup written at level `indent`: the block itself
/// stands one level deeper, and its children one more.
pub open spec fn visgroup_text(g: VisGroup, indent: nat) -> Seq<char>
    decreases g, 1int,
{
    open_lines(indent + 1, "visgroup"@)
        + kv_line(indent + 1, "name"@, g.name@)
        + kv_line(indent + 1, "visgroupid"@, int_text(g.id as int))
        + kv_line(indent + 1, "color"@, g.color@)
        + match g.children {
            Some(cs) => visgroup_list_text(cs@, cs.len() as int, indent + 1),
            None => Seq::empty(),
        }
        + close_line(indent + 1)
}

/// The texts of the first `n` groups of `gs`, each written at level `indent`.
pub open spec fn visgroup_list_text(gs: Seq<VisGroup>, n: int, indent: nat) -> Seq<char>
    decreases gs, 0int, n,
{
    if n <= 0 || n > gs.len() {
        Seq::empty()
    } else {
        visgroup_list_text(gs, n - 1, indent) + visgroup_text(gs[n - 1], indent)
    }
}

pub open spec fn visgroups_text(v: VisGroups, indent: nat) -> Seq<char> {
    open_lines(indent, "visgroups"@) + visgroup_list_text(v.groups@, v.groups.len() as int, indent)
        + close_line(indent)
}

proof fn lemma_children_ok_prefix(b: VmfBlock, m: int, n: int)
    requires
        0 <= m <= n <= b.blocks.len(),
        visgroup_children_ok(b, n),
    ensures
        visgroup_children_ok(b, m),
    decreases n,
{
    if m < n {
        lemma_children_ok_prefix(b, m, n - 1);
    }
}

proof fn lemma_children_of_push(b: VmfBlock, gs: Seq<VisGroup>, g: VisGroup, n: int)
    requires
        0 <= n < b.blocks.len(),
        gs.len() == n,
        visgroup_children_of(b, gs, n),
        visgroup_of(b.blocks[n], g),
    ensures
        visgroup_children_of(b, gs.push(g), n + 1),
{
    lemma_children_of_extend(b, gs, gs.push(g), n);
}

proof fn lemma_children_of_extend(b: VmfBlock, gs: Seq<VisGroup>, hs: Seq<VisGroup>, n: int)
    requires
        0 <= n <= gs.len() <= hs.len(),
        n <= b.blocks.len(),
        forall|j: int| 0 <= j < gs.len() ==> gs[j] == hs[j],
        visgroup_children_of(b, gs, n),
    ensures
        visgroup_children_of(b, hs, n),
    decreases n,
{
    if n > 0 {
        lemma_children_of_extend(b, gs, hs, n - 1);
    }
}

impl VisGroup {
    /// Reads a `visgroup` block and, recursively, its child groups.
    fn read(b: &VmfBlock) -> (r: VmfResult<VisGroup>)
        ensures
            r is Ok <==> visgroup_ok(*b),
            r matches Ok(g) ==> visgroup_of(*b, g),
            r matches Err(e) ==> visgroup_error(*b) == Some(e@),
            r is Ok ==> visgroup_error(*b) is None,
        decreases b,
    {
        let mut children: Vec<VisGroup> = Vec::new();
        let mut i: usize = 0;
        while i < b.blocks.len()
            invariant
                i <= b.blocks.len(),
                children.len() == i,
                visgroup_children_ok(*b, i as int),
                visgroup_children_of(*b, children@, i as int),
                visgroup_children_error(*b, i as int) is None,
            decreases b.blocks.len() - i,
        {
            proof {
                assert(decreases_to!(*b => b.blocks[i as int]));
            }
            let c = VisGroup::read(&b.blocks[i]);
            match c {
                Ok(g) => {
                    let ghost before = children@;
                    children.push(g);
                    proof {
                        lemma_children_of_push(*b, before, g, i as int);
                    }
                },
                Err(e) => {
                    proof {
                        if visgroup_children_ok(*b, b.blocks.len() as int) {
                            lemma_children_ok_prefix(*b, i as int + 1, b.blocks.len() as int);
                        }
                        lemma_children_error_persists(*b, i as int + 1, b.blocks.len() as int);
                    }
                    return Err(e);
                },
            }
            i = i + 1;
        }
        let name = text_of(&b.key_values, "name");
        if name.is_err() {
            assert(!visgroup_ok(*b));
        }
        let name = name?;
        let id = signed_field(&b.key_values, "visgroupid", i32::MIN as i64, i32::MAX as i64);
        if id.is_err() {
            assert(!visgroup_ok(*b));
        }
        let id = id?;
        let color = text_of(&b.key_values, "color");
        if color.is_err() {
            assert(!visgroup_ok(*b));
        }
        let color = color?;
        assert(visgroup_ok(*b));
        let children = if b.blocks.len() == 0 {
            None
        } else {
            Some(children)
        };
        Ok(VisGroup { name, id: id as i32, color, children })
    }

    /// Converts a `visgroup` block: the required `name`, `visgroupid` and
    /// `color`, and one child group per child block.
    pub fn from_block(block: VmfBlock) -> (r: VmfResult<VisGroup>)
        ensures
            r is Ok <==> visgroup_ok(block),
            r matches Ok(g) ==> visgroup_of(block, g),
            r matches Err(e) ==> visgroup_error(block) == Some(e@),
    {
        VisGroup::read(&block)
    }

    /// The `visgroup` block of this group: `name`, `visgroupid` and `color`,
    /// and one child block per child group.
    pub fn into_block(self) -> (r: VmfBlock)
        ensures
            r.name@ == "visgroup"@,
            kv_entries(r.key_values) == seq![("name"@, self.name@), ("visgroupid"@, int_text(self.id as int)), ("color"@, self.color@)],
            r.blocks.len() == match self.children { Some(cs) => cs.len() as int, None => 0int },
        decreases self,
    {
        proof {
            reveal_strlit("name");
            reveal_strlit("visgroupid");
            reveal_strlit("color");
            assert("name"@.len() == 4);
            assert("visgroupid"@.len() == 10);
            assert("color"@.len() == 5);
        }
        let VisGroup { name, id, color, children } = self;
        let ghost (n0, c0) = (name@, color@);
        let mut kv = kv_new();
        proof { lemma_absent(kv_entries(kv), "name"@); }
        push_entry(&mut kv, "name", name);
        proof { lemma_absent(kv_entries(kv), "visgroupid"@); }
        push_entry(&mut kv, "visgroupid", int_string(id as i64));
        proof { lemma_absent(kv_entries(kv), "color"@); }
        push_entry(&mut kv, "color", color);
        assert(kv_entries(kv) =~= seq![("name"@, n0), ("visgroupid"@, int_text(id as int)), ("color"@, c0)]);
        let mut blocks: Vec<VmfBlock> = Vec::new();
        if let Some(cs) = children {
            let n = cs.len();
            let ghost all = cs@;
            let mut cs = cs;
            let mut i: usize = 0;
            while cs.len() > 0
                invariant
                    blocks.len() == i,
                    i + cs.len() == n,
                    n == all.len(),
                    cs@ == all.subrange(i as int, n as int),
                    forall|j: int| 0 <= j < all.len() ==> decreases_to!(self => #[trigger] all[j]),
                decreases cs.len(),
            {
                let c = cs.remove(0);
                assert(c == all[i as int]);
                blocks.push(c.into_block());
                i = i + 1;
                assert(cs@ =~= all.subrange(i as int, n as int));
            }
        }
        VmfBlock { name: "visgroup".to_string(), key_values: kv, blocks }
    }

    fn write(&self, out: &mut String, indent_level: usize)
        requires
            indent_level + visgroup_depth(*self) + 1 < usize::MAX,
        ensures
            final(out)@ == old(out)@ + visgroup_text(*self, indent_level as nat),
        decreases self,
    {
        let inner = indent_level + 1;
        push_open(out, inner, "visgroup");
        push_kv_line(out, inner, "name", self.name.as_str());
        push_int_line(out, inner, "visgroupid", self.id as i64);
        push_kv_line(out, inner, "color", self.color.as_str());
        let ghost mid = out@;
        if let Some(children) = &self.children {
            let mut i: usize = 0;
            while i < children.len()
                invariant
                    i <= children.len(),
                    self.children == Some(*children),
                    inner == indent_level + 1,
                    indent_level + visgroup_depth(*self) + 1 < usize::MAX,
                    out@ == mid + visgroup_list_text(children@, i as int, inner as nat),
                decreases children.len() - i,
            {
                proof {
                    assert(decreases_to!(*self => *children));
                    assert(decreases_to!(*children => children[i as int]));
                    lemma_visgroups_depth(children@, i as int, children.len() as int);
                }
                children[i].write(out, inner);
                i = i + 1;
                assert(out@ =~= mid + visgroup_list_text(children@, i as int, inner as nat));
            }
        }
        push_close(out, inner);
        assert(final(out)@ =~= old(out)@ + visgroup_text(*self, indent_level as nat));
    }
}

impl VmfSerializable for VisGroup {
    open spec fn vmf_text(&self, indent: nat) -> Seq<char> {
        visgroup_text(*self, indent)
    }

    open spec fn vmf_depth(&self) -> nat {
        visgroup_depth(*self) + 1
    }

    fn to_vmf_string(&self, indent_level: usize) -> (r: String) {
        let mut out = String::new();
        self.write(&mut out, indent_level);
        assert(out@ =~= visgroup_text(*self, indent_level as nat));
        out
    }
}

impl VisGroups {
    /// Converts a `visgroups` block: one group per child block, in order.
    pub fn from_block(block: VmfBlock) -> (r: VmfResult<VisGroups>)
        ensures
            r is Ok <==> forall|i: int| 0 <= i < block.blocks.len() ==> #[trigger] visgroup_ok(block.blocks[i]),
            r matches Ok(v) ==> v.groups.len() == block.blocks.len()
                && forall|i: int| 0 <= i < block.blocks.len() ==> #[trigger] visgroup_of(block.blocks[i], v.groups[i]),
            r matches Err(e) ==> crate::vmf::world::first_error(block.blocks@, |x: VmfBlock| visgroup_error(x), block.blocks.len() as int)
                == Some(e@),
    {
        let mut groups: Vec<VisGroup> = Vec::new();
        let mut i: usize = 0;
        while i < block.blocks.len()
            invariant
                i <= block.blocks.len(),
                groups.len() == i,
                forall|j: int| 0 <= j < i ==> #[trigger] visgroup_ok(block.blocks[j]),
                forall|j: int| 0 <= j < i ==> #[trigger] visgroup_of(block.blocks[j], groups[j]),
                forall|j: int| 0 <= j < i ==> visgroup_error(#[trigger] block.blocks@[j]) is None,
            decreases block.blocks.len() - i,
        {
            match VisGroup::read(&block.blocks[i]) {
                Ok(g) => groups.push(g),
                Err(e) => {
                    proof {
                        let f = |x: VmfBlock| visgroup_error(x);
                        assert forall|j: int| 0 <= j < i implies f(#[trigger] block.blocks@[j]) is None by {}
                        crate::vmf::world::lemma_first_error_at(block.blocks@, f, i as int, block.blocks.len() as int);
                    }
                    return Err(e);
                },
            }
            i = i + 1;
        }
        Ok(VisGroups { groups })
    }
}

impl VisGroups {
    /// The `visgroups` block: one `visgroup` block per group.
    pub fn into_block(self) -> (r: VmfBlock)
        ensures
            r.name@ == "visgroups"@,
            kv_entries(r.key_values).len() == 0,
            r.blocks.len() == self.groups.len(),
            forall|i: int| 0 <= i < r.blocks.len() ==> (#[trigger] r.blocks[i]).name@ == "visgroup"@
                && kv_entries(r.blocks[i].key_values) == seq![("name"@, self.groups[i].name@),
                    ("visgroupid"@, int_text(self.groups[i].id as int)), ("color"@, self.groups[i].color@)]
                && r.blocks[i].blocks.len() == match self.groups[i].children { Some(cs) => cs.len() as int, None => 0int },
    {
        let n = self.groups.len();
        let ghost all = self.groups@;
        let mut gs = self.groups;
        let mut blocks: Vec<VmfBlock> = Vec::new();
        while gs.len() > 0
            invariant
                blocks.len() + gs.len() == n,
                n == all.len(),
                gs@ == all.subrange(blocks.len() as int, n as int),
                forall|i: int| 0 <= i < blocks.len() ==> (#[trigger] blocks[i]).name@ == "visgroup"@
                    && kv_entries(blocks[i].key_values) == seq![("name"@, all[i].name@),
                        ("visgroupid"@, int_text(all[i].id as int)), ("color"@, all[i].color@)]
                    && blocks[i].blocks.len() == match all[i].children { Some(cs) => cs.len() as int, None => 0int },
            decreases gs.len(),
        {
            let g = gs.remove(0);
            assert(g == all[blocks.len() as int]);
            blocks.push(g.into_block());
            assert(gs@ =~= all.subrange(blocks.len() as int, n as int));
        }
        VmfBlock { name: "visgroups".to_string(), key_values: kv_new(), blocks }
    }
}

impl VmfSerializable for VisGroups {
    open spec fn vmf_text(&self, indent: nat) -> Seq<char> {
        visgroups_text(*self, indent)
    }

    open spec fn vmf_depth(&self) -> nat {
        visgroups_depth(self.groups@, self.groups.len() as int) + 2
    }

    fn to_vmf_string(&self, indent_level: usize) -> (r: String) {
        let mut out = String::new();
        push_open(&mut out, indent_level, "visgroups");
        let ghost mid = out@;
        let mut i: usize = 0;
        while i < self.groups.len()
            invariant
                i <= self.groups.len(),
                indent_level + self.vmf_depth() < usize::MAX,
                out@ == mid + visgroup_list_text(self.groups@, i as int, indent_level as nat),
            decreases self.groups.len() - i,
        {
            proof {
                lemma_visgroups_depth(self.groups@, i as int, self.groups.len() as int);
            }
            self.groups[i].write(&mut out, indent_level);
            i = i + 1;
            assert(out@ =~= mid + visgroup_list_text(self.groups@, i as int, indent_level as nat));
        }
        push_close(&mut out, indent_level);
        assert(out@ =~= visgroups_text(*self, indent_level as nat));
        out
    }
}

/// Represents the view settings of a VMF file.
#[derive(Debug, Clone, Copy, PartialEq, Eq)]
pub struct ViewSettings {
    /// Whether snapping to the grid is enabled.
    pub snap_to_grid: bool,
    /// Whether the grid is shown in the editor.
    pub show_grid: bool,
    /// Whether the logical grid is shown in the editor.
    pub show_logical_grid: bool,
    /// The grid spacing.
    pub grid_spacing: u16,
    /// Whether the 3D grid is shown in the editor.
    pub show_3d_grid: bool,
}

impl Default for ViewSettings {
    fn default() -> (r: Self)
        ensures
            r == (ViewSettings {
                snap_to_grid: true,
                show_grid: true,
                show_logical_grid: false,
                grid_spacing: 8,
                show_3d_grid: false,
            }),
    {
        ViewSettings {
            snap_to_grid: true,
            show_grid: true,
            show_logical_grid: false,
            grid_spacing: 8,
            show_3d_grid: false,
        }
    }
}

/// The grid spacing that a malformed `nGridSpacing` value gives.
pub const FALLBACK_GRID_SPACING: u16 = 64;

/// The view settings that the pairs `s` describe: three required flags, a
/// required spacing (64 when it is no `u16`), and an optional 3D-grid flag.
pub open spec fn view_settings_spec(s: Seq<(Seq<char>, Seq<char>)>) -> Result<ViewSettings, ErrorView> {
    match flag_field(s, "bSnapToGrid"@) {
        Err(e) => Err(e),
        Ok(a) => match flag_field(s, "bShowGrid"@) {
            Err(e) => Err(e),
            Ok(b) => match flag_field(s, "bShowLogicalGrid"@) {
                Err(e) => Err(e),
                Ok(c) => match text_field(s, "nGridSpacing"@) {
                    Err(e) => Err(e),
                    Ok(t) => Ok(
                        ViewSettings {
                            snap_to_grid: a,
                            show_grid: b,
                            show_logical_grid: c,
                            grid_spacing: match int_in_range(t, 0, u16::MAX as int) {
                                Some(n) => n as u16,
                                None => FALLBACK_GRID_SPACING,
                            },
                            show_3d_grid: lookup(s, "bShow3DGrid"@) == Some(seq!['1']),
                        },
                    ),
                },
            },
        },
    }
}

pub open spec fn view_settings_entries(v: ViewSettings) -> Seq<(Seq<char>, Seq<char>)> {
    seq![
        ("bSnapToGrid"@, flag_text(v.snap_to_grid)),
        ("bShowGrid"@, flag_text(v.show_grid)),
        ("bShowLogicalGrid"@, flag_text(v.show_logical_grid)),
        ("nGridSpacing"@, int_text(v.grid_spacing as int)),
        ("bShow3DGrid"@, flag_text(v.show_3d_grid)),
    ]
}

pub open spec fn view_settings_text(v: ViewSettings, indent: nat) -> Seq<char> {
    open_lines(indent, "viewsettings"@)
        + kv_line(indent, "bSnapToGrid"@, flag_text(v.snap_to_grid))
        + kv_line(indent, "bShowGrid"@, flag_text(v.show_grid))
        + kv_line(indent, "bShowLogicalGrid"@, flag_text(v.show_logical_grid))
        + kv_line(indent, "nGridSpacing"@, int_text(v.grid_spacing as int))
        + kv_line(indent, "bShow3DGrid"@, flag_text(v.show_3d_grid))
        + close_line(indent)
}

impl ViewSettings {
    /// Converts a `viewsettings` block.
    pub fn from_block(block: VmfBlock) -> (r: VmfResult<ViewSettings>)
        ensures
            res_view(r) == view_settings_spec(kv_entries(block.key_values)),
    {
        let kv = &block.key_values;
        let a = flag_of(kv, "bSnapToGrid")?;
        let b = flag_of(kv, "bShowGrid")?;
        let c = flag_of(kv, "bShowLogicalGrid")?;
        let t = text_of(kv, "nGridSpacing")?;
        let grid_spacing = match parse_unsigned(t.as_str(), u16::MAX as u64) {
            Some(n) => n as u16,
            None => FALLBACK_GRID_SPACING,
        };
        let show_3d_grid = match kv_get(kv, "bShow3DGrid") {
            Some(v) => str_is_one(v.as_str()),
            None => false,
        };
        Ok(ViewSettings { snap_to_grid: a, show_grid: b, show_logical_grid: c, grid_spacing, show_3d_grid })
    }

    /// The `viewsettings` block of this data.
    pub fn into_block(self) -> (r: VmfBlock)
        ensures
            r.name@ == "viewsettings"@,
            kv_entries(r.key_values) == view_settings_entries(self),
            r.blocks@.len() == 0,
    {
        proof {
            reveal_strlit("bSnapToGrid");
            reveal_strlit("bShowGrid");
            reveal_strlit("bShowLogicalGrid");
            reveal_strlit("nGridSpacing");
            reveal_strlit("bShow3DGrid");
            assert("bSnapToGrid"@.len() == 11);
            assert("bShowGrid"@.len() == 9);
            assert("bShowLogicalGrid"@.len() == 16);
            assert("nGridSpacing"@.len() == 12);
            assert("bShow3DGrid"@.len() == 11);
            assert("bSnapToGrid"@[2] != "bShow3DGrid"@[2]);
        }
        let mut kv = kv_new();
        proof { lemma_absent(kv_entries(kv), "bSnapToGrid"@); }
        push_entry(&mut kv, "bSnapToGrid", self.snap_to_grid.to_01_string());
        proof { lemma_absent(kv_entries(kv), "bShowGrid"@); }
        push_entry(&mut kv, "bShowGrid", self.show_grid.to_01_string());
        proof { lemma_absent(kv_entries(kv), "bShowLogicalGrid"@); }
        push_entry(&mut kv, "bShowLogicalGrid", self.show_logical_grid.to_01_string());
        proof { lemma_absent(kv_entries(kv), "nGridSpacing"@); }
        push_entry(&mut kv, "nGridSpacing", nat_string(self.grid_spacing as u64));
        proof { lemma_absent(kv_entries(kv), "bShow3DGrid"@); }
        push_entry(&mut kv, "bShow3DGrid", self.show_3d_grid.to_01_string());
        assert(kv_entries(kv) =~= view_settings_entries(self));
        VmfBlock { name: "viewsettings".to_string(), key_values: kv, blocks: Vec::new() }
    }
}

impl VmfSerializable for ViewSettings {
    open spec fn vmf_text(&self, indent: nat) -> Seq<char> {
        view_settings_text(*self, indent)
    }

    open spec fn vmf_depth(&self) -> nat {
        1
    }

    fn to_vmf_string(&self, indent_level: usize) -> (r: String) {
        let mut out = String::new();
        push_open(&mut out, indent_level, "viewsettings");
        push_flag_line(&mut out, indent_level, "bSnapToGrid", self.snap_to_grid);
        push_flag_line(&mut out, indent_level, "bShowGrid", self.show_grid);
        push_flag_line(&mut out, indent_level, "bShowLogicalGrid", self.show_logical_grid);
        push_nat_line(&mut out, indent_level, "nGridSpacing", self.grid_spacing as u64);
        push_flag_line(&mut out, indent_level, "bShow3DGrid", self.show_3d_grid);
        push_close(&mut out, indent_level);
        assert(out@ =~= view_settings_text(*self, indent_level as nat));
        out
    }
}

} // verus!
