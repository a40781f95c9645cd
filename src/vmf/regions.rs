//! Region blocks of a VMF file: cameras and cordons.
use vstd::prelude::*;
use crate::errors::{ErrorView, VmfError, VmfResult};
use crate::kv::{
    flag_field, flag_of, int_field, kv_entries, kv_get, kv_new, lemma_absent, lookup, push_entry,
    signed_field, text_field, text_of,
};
use crate::text::{
    close_line, flag_text, int_string, int_text, kv_line, open_lines, push_close, push_flag_line,
    push_int_line, push_kv_line, push_open, To01String,
};
use crate::{VmfBlock, VmfSerializable};

verus! {

pub open spec fn i8_field(s: Seq<(Seq<char>, Seq<char>)>, key: Seq<char>) -> Result<int, ErrorView> {
    int_field(s, key, i8::MIN as int, i8::MAX as int)
}

/// Represents the camera data in a VMF file.
#[derive(Debug, Default, Clone, PartialEq)]
pub struct Cameras {
    /// The index of the active camera.
    pub active: i8,
    /// The list of cameras.
    pub cams: Vec<Camera>,
}

/// Represents a single camera in a VMF file.
#[derive(Debug, Default, Clone, PartialEq)]
pub struct Camera {
    /// The position of the camera in the VMF coordinate system.
    pub position: String,
    /// The point at which the camera is looking, in the VMF coordinate system.
    pub look: String,
}

/// Whether a `camera` block converts: it holds `position` and `look`.
pub open spec fn camera_ok(b: VmfBlock) -> bool {
    lookup(kv_entries(b.key_values), "position"@) is Some && lookup(kv_entries(b.key_values), "look"@) is Some
}

/// `c` is the camera that block `b` describes.
pub open spec fn camera_of(b: VmfBlock, c: Camera) -> bool {
    lookup(kv_entries(b.key_values), "position"@) == Some(c.position@)
        && lookup(kv_entries(b.key_values), "look"@) == Some(c.look@)
}

/// The error of a `camera` block that does not convert.
pub open spec fn camera_error(b: VmfBlock) -> ErrorView {
    match text_field(kv_entries(b.key_values), "position"@) {
        Err(e) => e,
        Ok(_) => match text_field(kv_entries(b.key_values), "look"@) {
            Err(e) => e,
            Ok(_) => ErrorView::InvalidFormat(Seq::empty()),
        },
    }
}

pub open spec fn camera_entries(c: Camera) -> Seq<(Seq<char>, Seq<char>)> {
    seq![("position"@, c.position@), ("look"@, c.look@)]
}

/// The text of a camera block at depth `indent`.
pub open spec fn camera_text(c: Camera, indent: nat) -> Seq<char> {
    open_lines(indent, "camera"@)
        + kv_line(indent, "position"@, c.position@)
        + kv_line(indent, "look"@, c.look@)
        + close_line(indent)
}

/// The texts of the first `n` cameras of `cs`, at depth `indent`.
pub open spec fn cameras_list_text(cs: Seq<Camera>, n: int, indent: nat) -> Seq<char>
    decreases n,
{
    if n <= 0 || n > cs.len() {
        Seq::empty()
    } else {
        cameras_list_text(cs, n - 1, indent) + camera_text(cs[n - 1], indent)
    }
}

pub open spec fn cameras_text(c: Cameras, indent: nat) -> Seq<char> {
    open_lines(indent, "cameras"@)
        + kv_line(indent, "activecamera"@, int_text(c.active as int))
        + cameras_list_text(c.cams@, c.cams.len() as int, indent + 1)
        + close_line(indent)
}

impl Camera {
    fn read(b: &VmfBlock) -> (r: VmfResult<Camera>)
        ensures
            r is Ok <==> camera_ok(*b),
            r matches Ok(c) ==> camera_of(*b, c),
            r matches Err(e) ==> e@ == camera_error(*b),
    {
        let position = text_of(&b.key_values, "position")?;
        let look = text_of(&b.key_values, "look")?;
        Ok(Camera { position, look })
    }

    /// Converts a `camera` block: the required `position` and `look`.
    pub fn from_block(block: VmfBlock) -> (r: VmfResult<Camera>)
        ensures
            r is Ok <==> camera_ok(block),
            r matches Ok(c) ==> camera_of(block, c),
            r matches Err(e) ==> e@ == camera_error(block),
    {
        Camera::read(&block)
    }

    /// The `camera` block of this data.
    pub fn into_block(self) -> (r: VmfBlock)
        ensures
            r.name@ == "camera"@,
            kv_entries(r.key_values) == camera_entries(self),
            r.blocks@.len() == 0,
    {
        proof {
            reveal_strlit("position");
            reveal_strlit("look");
            assert("position"@.len() == 8);
            assert("look"@.len() == 4);
        }
        let ghost c = self;
        let mut kv = kv_new();
        proof { lemma_absent(kv_entries(kv), "position"@); }
        push_entry(&mut kv, "position", self.position);
        proof { lemma_absent(kv_entries(kv), "look"@); }
        push_entry(&mut kv, "look", self.look);
        assert(kv_entries(kv) =~= camera_entries(c));
        VmfBlock { name: "camera".to_string(), key_values: kv, blocks: Vec::new() }
    }

    fn write(&self, out: &mut String, indent_level: usize)
        ensures
            final(out)@ == old(out)@ + camera_text(*self, indent_level as nat),
    {
        push_open(out, indent_level, "camera");
        push_kv_line(out, indent_level, "position", self.position.as_str());
        push_kv_line(out, indent_level, "look", self.look.as_str());
        push_close(out, indent_level);
        assert(final(out)@ =~= old(out)@ + camera_text(*self, indent_level as nat));
    }
}

/// The error of a `camera` block, none when it converts.
pub open spec fn camera_fault(b: VmfBlock) -> Option<ErrorView> {
    if camera_ok(b) { None } else { Some(camera_error(b)) }
}

/// The error of a `cameras` block that does not convert: that of its first
/// camera that does not, else that of `activecamera`.
pub open spec fn cameras_error(b: VmfBlock) -> Option<ErrorView> {
    match crate::vmf::world::first_error(b.blocks@, |x: VmfBlock| camera_fault(x), b.blocks.len() as int) {
        Some(e) => Some(e),
        None => match i8_field(kv_entries(b.key_values), "activecamera"@) {
            Err(e) => Some(e),
            Ok(_) => None,
        },
    }
}

impl Cameras {
    /// Converts a `cameras` block: one camera per child block, then the
    /// required `activecamera` index.
    pub fn from_block(block: VmfBlock) -> (r: VmfResult<Cameras>)
        ensures
            r is Ok <==> (forall|i: int| 0 <= i < block.blocks.len() ==> #[trigger] camera_ok(block.blocks[i]))
                && i8_field(kv_entries(block.key_values), "activecamera"@) is Ok,
            r matches Ok(c) ==> c.cams.len() == block.blocks.len()
                && (forall|i: int| 0 <= i < block.blocks.len() ==> #[trigger] camera_of(block.blocks[i], c.cams[i]))
                && i8_field(kv_entries(block.key_values), "activecamera"@) == Ok::<int, ErrorView>(c.active as int),
            r matches Err(e) ==> cameras_error(block) == Some(e@),
    {
        let mut cams: Vec<Camera> = Vec::new();
        let mut i: usize = 0;
        while i < block.blocks.len()
            invariant
                i <= block.blocks.len(),
                cams.len() == i,
                forall|j: int| 0 <= j < i ==> #[trigger] camera_ok(block.blocks[j]),
                forall|j: int| 0 <= j < i ==> #[trigger] camera_of(block.blocks[j], cams[j]),
            decreases block.blocks.len() - i,
        {
            match Camera::read(&block.blocks[i]) {
                Ok(c) => cams.push(c),
                Err(e) => {
                    proof {
                        let f = |x: VmfBlock| camera_fault(x);
                        assert forall|j: int| 0 <= j < i implies f(#[trigger] block.blocks@[j]) is None by {
                            assert(camera_ok(block.blocks[j]));
                        }
                        crate::vmf::world::lemma_first_error_at(block.blocks@, f, i as int, block.blocks.len() as int);
                    }
                    return Err(e);
                },
            }
            i = i + 1;
        }
        proof {
            let f = |x: VmfBlock| camera_fault(x);
            assert forall|j: int| 0 <= j < block.blocks.len() implies f(#[trigger] block.blocks@[j]) is None by {
                assert(camera_ok(block.blocks[j]));
            }
            crate::vmf::world::lemma_first_error_none(block.blocks@, f, block.blocks.len() as int);
        }
        let active = signed_field(&block.key_values, "activecamera", i8::MIN as i64, i8::MAX as i64)?;
        Ok(Cameras { active: active as i8, cams })
    }

    /// The `cameras` block of this data: `activecamera`, then one `camera`
    /// block per camera.
    pub fn into_block(self) -> (r: VmfBlock)
        ensures
            r.name@ == "cameras"@,
            kv_entries(r.key_values) == seq![("activecamera"@, int_text(self.active as int))],
            r.blocks.len() == self.cams.len(),
            forall|i: int| 0 <= i < r.blocks.len() ==> (#[trigger] r.blocks[i]).name@ == "camera"@
                && kv_entries(r.blocks[i].key_values) == camera_entries(self.cams[i])
                && r.blocks[i].blocks.len() == 0,
    {
        let mut blocks: Vec<VmfBlock> = Vec::new();
        let mut i: usize = 0;
        while i < self.cams.len()
            invariant
                i <= self.cams.len(),
                blocks.len() == i,
                forall|j: int| 0 <= j < i ==> (#[trigger] blocks[j]).name@ == "camera"@
                    && kv_entries(blocks[j].key_values) == camera_entries(self.cams[j])
                    && blocks[j].blocks.len() == 0,
            decreases self.cams.len() - i,
        {
            let c = Camera { position: self.cams[i].position.clone(), look: self.cams[i].look.clone() };
            blocks.push(c.into_block());
            i = i + 1;
        }
        let mut kv = kv_new();
        proof { lemma_absent(kv_entries(kv), "activecamera"@); }
        push_entry(&mut kv, "activecamera", int_string(self.active as i64));
        assert(kv_entries(kv) =~= seq![("activecamera"@, int_text(self.active as int))]);
        VmfBlock { name: "cameras".to_string(), key_values: kv, blocks }
    }
}

impl VmfSerializable for Cameras {
    open spec fn vmf_text(&self, indent: nat) -> Seq<char> {
        cameras_text(*self, indent)
    }

    open spec fn vmf_depth(&self) -> nat {
        2
    }

    fn to_vmf_string(&self, indent_level: usize) -> (r: String) {
        let mut out = String::new();
        push_open(&mut out, indent_level, "cameras");
        push_int_line(&mut out, indent_level, "activecamera", self.active as i64);
        let ghost mid = out@;
        let mut i: usize = 0;
        while i < self.cams.len()
            invariant
                i <= self.cams.len(),
                indent_level + 2 < usize::MAX,
                out@ == mid + cameras_list_text(self.cams@, i as int, (indent_level + 1) as nat),
            decreases self.cams.len() - i,
        {
            self.cams[i].write(&mut out, indent_level + 1);
            i = i + 1;
            assert(out@ =~= mid + cameras_list_text(self.cams@, i as int, (indent_level + 1) as nat));
        }
        push_close(&mut out, indent_level);
        assert(out@ =~= cameras_text(*self, indent_level as nat));
        out
    }
}

/// Represents the cordons data in a VMF file.
#[derive(Debug, Default, Clone, PartialEq)]
pub struct Cordons {
    /// The index of the active cordon.
    pub active: i8,
    /// The list of cordons.
    pub cordons: Vec<Cordon>,
}

/// Represents a single cordon in a VMF file.
#[derive(Debug, Default, Clone, PartialEq)]
pub struct Cordon {
    /// The name of the cordon.
    pub name: String,
    /// Whether the cordon is active.
    pub active: bool,
    /// The minimum point of the cordon's bounding box.
    pub min: String,
    /// The maximum point of the cordon's bounding box.
    pub max: String,
}

/// The bounds of a cordon: `mins` and `maxs` of its first `box` child when
/// that block holds both, else those of the cordon block itself.
pub open spec fn cordon_bounds(b: VmfBlock) -> Option<(Seq<char>, Seq<char>)> {
    let i = crate::first_named(b.blocks@, "box"@);
    if i >= 0 && lookup(kv_entries(b.blocks[i].key_values), "mins"@) is Some
        && lookup(kv_entries(b.blocks[i].key_values), "maxs"@) is Some {
        Some((
            lookup(kv_entries(b.blocks[i].key_values), "mins"@)->0,
            lookup(kv_entries(b.blocks[i].key_values), "maxs"@)->0,
        ))
    } else if lookup(kv_entries(b.key_values), "mins"@) is Some && lookup(kv_entries(b.key_values), "maxs"@) is Some {
        Some((lookup(kv_entries(b.key_values), "mins"@)->0, lookup(kv_entries(b.key_values), "maxs"@)->0))
    } else {
        None
    }
}

pub open spec fn missing_mins_message() -> Seq<char> {
    "Missing 'mins' key in Cordon block or its 'box' sub-block"@
}

pub open spec fn missing_maxs_message() -> Seq<char> {
    "Missing 'maxs' key in Cordon block or its 'box' sub-block"@
}

/// Whether a `cordon` block converts.
pub open spec fn cordon_ok(b: VmfBlock) -> bool {
    cordon_bounds(b) is Some && lookup(kv_entries(b.key_values), "name"@) is Some
        && lookup(kv_entries(b.key_values), "active"@) is Some
}

/// `c` is the cordon that block `b` describes.
pub open spec fn cordon_of(b: VmfBlock, c: Cordon) -> bool {
    &&& cordon_bounds(b) == Some((c.min@, c.max@))
    &&& lookup(kv_entries(b.key_values), "name"@) == Some(c.name@)
    &&& flag_field(kv_entries(b.key_values), "active"@) == Ok::<bool, ErrorView>(c.active)
}

/// The error of a `cordon` block that does not convert.
pub open spec fn cordon_error(b: VmfBlock) -> ErrorView {
    if cordon_bounds(b) is None {
        if lookup(kv_entries(b.key_values), "mins"@) is None {
            ErrorView::InvalidFormat(missing_mins_message())
        } else {
            ErrorView::InvalidFormat(missing_maxs_message())
        }
    } else {
        match text_field(kv_entries(b.key_values), "name"@) {
            Err(e) => e,
            Ok(_) => match text_field(kv_entries(b.key_values), "active"@) {
                Err(e) => e,
                Ok(_) => ErrorView::InvalidFormat(Seq::empty()),
            },
        }
    }
}

/// The text of a cordon block at depth `indent`, with its bounds in a `box` block.
pub open spec fn cordon_text(c: Cordon, indent: nat) -> Seq<char> {
    open_lines(indent, "cordon"@)
        + kv_line(indent, "name"@, c.name@)
        + kv_line(indent, "active"@, flag_text(c.active))
        + open_lines(indent + 1, "box"@)
        + kv_line(indent + 1, "mins"@, c.min@)
        + kv_line(indent + 1, "maxs"@, c.max@)
        + close_line(indent + 1)
        + close_line(indent)
}

/// The texts of the first `n` cordons of `cs`, at depth `indent`.
pub open spec fn cordons_list_text(cs: Seq<Cordon>, n: int, indent: nat) -> Seq<char>
    decreases n,
{
    if n <= 0 || n > cs.len() {
        Seq::empty()
    } else {
        cordons_list_text(cs, n - 1, indent) + cordon_text(cs[n - 1], indent)
    }
}

pub open spec fn cordons_text(c: Cordons, indent: nat) -> Seq<char> {
    open_lines(indent, "cordons"@)
        + kv_line(indent, "active"@, int_text(c.active as int))
        + cordons_list_text(c.cordons@, c.cordons.len() as int, indent + 1)
        + close_line(indent)
}

impl Cordon {
    /// Reads a cordon block; see `from_block`.
    pub fn read(b: &VmfBlock) -> (r: VmfResult<Cordon>)
        ensures
            r is Ok <==> cordon_ok(*b),
            r matches Ok(c) ==> cordon_of(*b, c),
            r matches Err(e) ==> e@ == cordon_error(*b),
    {
        let mut from_box: Option<(String, String)> = None;
        proof {
            crate::lemma_first_named(b.blocks@, "box"@);
        }
        if let Some(bi) = crate::find_named(&b.blocks, "box") {
            let sub = &b.blocks[bi].key_values;
            match (kv_get(sub, "mins"), kv_get(sub, "maxs")) {
                (Some(lo), Some(hi)) => {
                    from_box = Some((lo.clone(), hi.clone()));
                },
                _ => {},
            }
        }
        let (min, max) = match from_box {
            Some(p) => p,
            None => {
                let lo = kv_get(&b.key_values, "mins");
                let hi = kv_get(&b.key_values, "maxs");
                match (lo, hi) {
                    (Some(lo), Some(hi)) => (lo.clone(), hi.clone()),
                    (None, _) => {
                        return Err(VmfError::InvalidFormat(
                            "Missing 'mins' key in Cordon block or its 'box' sub-block".to_string(),
                        ));
                    },
                    _ => {
                        return Err(VmfError::InvalidFormat(
                            "Missing 'maxs' key in Cordon block or its 'box' sub-block".to_string(),
                        ));
                    },
                }
            },
        };
        let name = text_of(&b.key_values, "name")?;
        let active = flag_of(&b.key_values, "active")?;
        Ok(Cordon { name, active, min, max })
    }

    /// Converts a `cordon` block. The bounds come from the first child named
    /// `box` when it holds both `mins` and `maxs`, else from the cordon block
    /// itself; `name` and the `active` flag are required.
    pub fn from_block(block: VmfBlock) -> (r: VmfResult<Cordon>)
        ensures
            r is Ok <==> cordon_ok(block),
            r matches Ok(c) ==> cordon_of(block, c),
            r matches Err(e) ==> e@ == cordon_error(block),
    {
        Cordon::read(&block)
    }

    /// The `cordon` block of this data, with its bounds in a `box` block.
    pub fn into_block(self) -> (r: VmfBlock)
        ensures
            r.name@ == "cordon"@,
            kv_entries(r.key_values) == seq![("name"@, self.name@), ("active"@, flag_text(self.active))],
            r.blocks.len() == 1,
            r.blocks[0].name@ == "box"@,
            kv_entries(r.blocks[0].key_values) == seq![("mins"@, self.min@), ("maxs"@, self.max@)],
            r.blocks[0].blocks.len() == 0,
    {
        proof {
            reveal_strlit("name");
            reveal_strlit("active");
            reveal_strlit("mins");
            reveal_strlit("maxs");
            assert("name"@.len() == 4);
            assert("active"@.len() == 6);
            assert("mins"@[2] != "maxs"@[2]);
        }
        let ghost c = self;
        let mut kv = kv_new();
        proof { lemma_absent(kv_entries(kv), "name"@); }
        push_entry(&mut kv, "name", self.name);
        proof { lemma_absent(kv_entries(kv), "active"@); }
        push_entry(&mut kv, "active", self.active.to_01_string());
        let mut bx = kv_new();
        proof { lemma_absent(kv_entries(bx), "mins"@); }
        push_entry(&mut bx, "mins", self.min);
        proof { lemma_absent(kv_entries(bx), "maxs"@); }
        push_entry(&mut bx, "maxs", self.max);
        assert(kv_entries(kv) =~= seq![("name"@, c.name@), ("active"@, flag_text(c.active))]);
        assert(kv_entries(bx) =~= seq![("mins"@, c.min@), ("maxs"@, c.max@)]);
        let box_block = VmfBlock { name: "box".to_string(), key_values: bx, blocks: Vec::new() };
        let mut blocks: Vec<VmfBlock> = Vec::new();
        blocks.push(box_block);
        VmfBlock { name: "cordon".to_string(), key_values: kv, blocks }
    }

    fn write(&self, out: &mut String, indent_level: usize)
        requires
            indent_level + 1 < usize::MAX,
        ensures
            final(out)@ == old(out)@ + cordon_text(*self, indent_level as nat),
    {
        push_open(out, indent_level, "cordon");
        push_kv_line(out, indent_level, "name", self.name.as_str());
        push_flag_line(out, indent_level, "active", self.active);
        push_open(out, indent_level + 1, "box");
        push_kv_line(out, indent_level + 1, "mins", self.min.as_str());
        push_kv_line(out, indent_level + 1, "maxs", self.max.as_str());
        push_close(out, indent_level + 1);
        push_close(out, indent_level);
        assert(final(out)@ =~= old(out)@ + cordon_text(*self, indent_level as nat));
    }
}

impl VmfSerializable for Cordon {
    open spec fn vmf_text(&self, indent: nat) -> Seq<char> {
        cordon_text(*self, indent)
    }

    open spec fn vmf_depth(&self) -> nat {
        2
    }

    fn to_vmf_string(&self, indent_level: usize) -> (r: String) {
        let mut out = String::new();
        self.write(&mut out, indent_level);
        assert(out@ =~= cordon_text(*self, indent_level as nat));
        out
    }
}

/// The error of a `cordon` block, none when it converts.
pub open spec fn cordon_fault(b: VmfBlock) -> Option<ErrorView> {
    if cordon_ok(b) { None } else { Some(cordon_error(b)) }
}

/// The error of a `cordons` block that does not convert: that of its first
/// cordon that does not, else that of `active`.
pub open spec fn cordons_error(b: VmfBlock) -> Option<ErrorView> {
    match crate::vmf::world::first_error(b.blocks@, |x: VmfBlock| cordon_fault(x), b.blocks.len() as int) {
        Some(e) => Some(e),
        None => match i8_field(kv_entries(b.key_values), "active"@) {
            Err(e) => Some(e),
            Ok(_) => None,
        },
    }
}

impl Cordons {
    /// Converts a `cordons` block: one cordon per child block, then the
    /// required `active` index.
    pub fn from_block(block: VmfBlock) -> (r: VmfResult<Cordons>)
        ensures
            r is Ok <==> (forall|i: int| 0 <= i < block.blocks.len() ==> #[trigger] cordon_ok(block.blocks[i]))
                && i8_field(kv_entries(block.key_values), "active"@) is Ok,
            r matches Ok(c) ==> c.cordons.len() == block.blocks.len()
                && (forall|i: int| 0 <= i < block.blocks.len() ==> #[trigger] cordon_of(block.blocks[i], c.cordons[i]))
                && i8_field(kv_entries(block.key_values), "active"@) == Ok::<int, ErrorView>(c.active as int),
            r matches Err(e) ==> cordons_error(block) == Some(e@),
    {
        let mut cordons: Vec<Cordon> = Vec::new();
        let mut i: usize = 0;
        while i < block.blocks.len()
            invariant
                i <= block.blocks.len(),
                cordons.len() == i,
                forall|j: int| 0 <= j < i ==> #[trigger] cordon_ok(block.blocks[j]),
                forall|j: int| 0 <= j < i ==> #[trigger] cordon_of(block.blocks[j], cordons[j]),
            decreases block.blocks.len() - i,
        {
            match Cordon::read(&block.blocks[i]) {
                Ok(c) => cordons.push(c),
                Err(e) => {
                    proof {
                        let f = |x: VmfBlock| cordon_fault(x);
                        assert forall|j: int| 0 <= j < i implies f(#[trigger] block.blocks@[j]) is None by {
                            assert(cordon_ok(block.blocks[j]));
                        }
                        crate::vmf::world::lemma_first_error_at(block.blocks@, f, i as int, block.blocks.len() as int);
                    }
                    return Err(e);
                },
            }
            i = i + 1;
        }
        proof {
            let f = |x: VmfBlock| cordon_fault(x);
            assert forall|j: int| 0 <= j < block.blocks.len() implies f(#[trigger] block.blocks@[j]) is None by {
                assert(cordon_ok(block.blocks[j]));
            }
            crate::vmf::world::lemma_first_error_none(block.blocks@, f, block.blocks.len() as int);
        }
        let active = signed_field(&block.key_values, "active", i8::MIN as i64, i8::MAX as i64)?;
        Ok(Cordons { active: active as i8, cordons })
    }

    /// The `cordons` block of this data: `active`, then one `cordon` block
    /// per cordon.
    pub fn into_block(self) -> (r: VmfBlock)
        ensures
            r.name@ == "cordons"@,
            kv_entries(r.key_values) == seq![("active"@, int_text(self.active as int))],
            r.blocks.len() == self.cordons.len(),
            forall|i: int| 0 <= i < r.blocks.len() ==> (#[trigger] r.blocks[i]).name@ == "cordon"@
                && kv_entries(r.blocks[i].key_values) == seq![("name"@, self.cordons[i].name@), ("active"@, flag_text(self.cordons[i].active))],
    {
        let Cordons { active, cordons } = self;
        let ghost cs = cordons@;
        let mut cordons = cordons;
        let mut blocks: Vec<VmfBlock> = Vec::new();
        let mut i: usize = 0;
        let n = cordons.len();
        while cordons.len() > 0
            invariant
                i + cordons.len() == n,
                n == cs.len(),
                cordons@ == cs.subrange(i as int, n as int),
                blocks.len() == i,
                forall|j: int| 0 <= j < i ==> (#[trigger] blocks[j]).name@ == "cordon"@
                    && kv_entries(blocks[j].key_values) == seq![("name"@, cs[j].name@), ("active"@, flag_text(cs[j].active))],
            decreases cordons.len(),
        {
            let c = cordons.remove(0);
            blocks.push(c.into_block());
            i = i + 1;
            assert(cordons@ =~= cs.subrange(i as int, n as int));
        }
        let mut kv = kv_new();
        proof { lemma_absent(kv_entries(kv), "active"@); }
        push_entry(&mut kv, "active", int_string(active as i64));
        assert(kv_entries(kv) =~= seq![("active"@, int_text(active as int))]);
        VmfBlock { name: "cordons".to_string(), key_values: kv, blocks }
    }

    /// Adds a cordon at the end of the list.
    pub fn push(&mut self, c: Cordon)
        ensures
            final(self).active == old(self).active,
            final(self).cordons@ == old(self).cordons@.push(c),
    {
        self.cordons.push(c);
    }
}

impl VmfSerializable for Cordons {
    open spec fn vmf_text(&self, indent: nat) -> Seq<char> {
        cordons_text(*self, indent)
    }

    open spec fn vmf_depth(&self) -> nat {
        3
    }

    fn to_vmf_string(&self, indent_level: usize) -> (r: String) {
        let mut out = String::new();
        push_open(&mut out, indent_level, "cordons");
        push_int_line(&mut out, indent_level, "active", self.active as i64);
        let ghost mid = out@;
        let mut i: usize = 0;
        while i < self.cordons.len()
            invariant
                i <= self.cordons.len(),
                indent_level + 3 < usize::MAX,
                out@ == mid + cordons_list_text(self.cordons@, i as int, (indent_level + 1) as nat),
            decreases self.cordons.len() - i,
        {
            self.cordons[i].write(&mut out, indent_level + 1);
            i = i + 1;
            assert(out@ =~= mid + cordons_list_text(self.cordons@, i as int, (indent_level + 1) as nat));
        }
        push_close(&mut out, indent_level);
        assert(out@ =~= cordons_text(*self, indent_level as nat));
        out
    }
}

} // verus!
