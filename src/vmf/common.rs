//! Editor metadata shared by entities, solids and groups.
use vstd::prelude::*;
use indexmap::IndexMap;
use crate::kv::{get_owned, key_is_one, kv_entries, kv_get, kv_new, lemma_absent, lookup, opt_int_field, opt_signed_field, push_entry};
use crate::text::{close_line, flag_text, int_string, kv_line, open_lines, opt_line, push_close, push_flag_line, push_int_line, push_kv_line, push_open, To01String, int_text};
use crate::{VmfBlock, VmfSerializable};

verus! {

/// Represents the editor data of a VMF entity or solid.
#[derive(Debug, Clone, PartialEq, Eq)]
pub struct Editor {
    /// The color of the entity in the editor, in "R G B" format.
    pub color: String,
    /// The ID of the visgroup this entity is in, if any.
    pub visgroup_id: Option<i32>,
    /// The ID of the group this entity is in, if any.
    pub group_id: Option<i32>,
    /// Whether the entity is shown in the visgroup.
    pub visgroup_shown: bool,
    /// Whether the entity should automatically be shown in the visgroup.
    pub visgroup_auto_shown: bool,
    /// Comments associated with the entity, if any.
    pub comments: Option<String>,
    /// The logical position of the entity in the editor, in "[x y]" format.
    pub logical_pos: Option<String>,
}

/// The color that an editor block without one gets.
pub open spec fn default_color() -> Seq<char> {
    "255 255 255"@
}

pub open spec fn opt_i32(v: Option<int>) -> Option<i32> {
    match v {
        Some(n) => Some(n as i32),
        None => None,
    }
}

pub open spec fn opt_view(v: Option<String>) -> Option<Seq<char>> {
    match v {
        Some(s) => Some(s@),
        None => None,
    }
}

pub open spec fn opt_i32_text(v: Option<i32>) -> Option<Seq<char>> {
    match v {
        Some(n) => Some(int_text(n as int)),
        None => None,
    }
}

/// `e` is the editor data that the pairs `s` describe.
pub open spec fn editor_of(s: Seq<(Seq<char>, Seq<char>)>, e: Editor) -> bool {
    &&& e.color@ == (match lookup(s, "color"@) {
        Some(c) => c,
        None => default_color(),
    })
    &&& e.visgroup_id == opt_i32(opt_int_field(s, "visgroupid"@, i32::MIN as int, i32::MAX as int))
    &&& e.group_id == opt_i32(opt_int_field(s, "groupid"@, i32::MIN as int, i32::MAX as int))
    &&& e.visgroup_shown == (lookup(s, "visgroupshown"@) == Some(seq!['1']))
    &&& e.visgroup_auto_shown == (lookup(s, "visgroupautoshown"@) == Some(seq!['1']))
    &&& opt_view(e.comments) == lookup(s, "comments"@)
    &&& opt_view(e.logical_pos) == lookup(s, "logicalpos"@)
}

/// The pairs of an editor block, in the order they are written.
pub open spec fn editor_entries(e: Editor) -> Seq<(Seq<char>, Seq<char>)> {
    seq![("color"@, e.color@)]
        + (match e.visgroup_id {
            Some(n) => seq![("visgroupid"@, int_text(n as int))],
            None => Seq::empty(),
        })
        + (match e.group_id {
            Some(n) => seq![("groupid"@, int_text(n as int))],
            None => Seq::empty(),
        })
        + seq![("visgroupshown"@, flag_text(e.visgroup_shown)), ("visgroupautoshown"@, flag_text(e.visgroup_auto_shown))]
        + (match e.comments {
            Some(c) => seq![("comments"@, c@)],
            None => Seq::empty(),
        })
        + (match e.logical_pos {
            Some(p) => seq![("logicalpos"@, p@)],
            None => Seq::empty(),
        })
}

/// The text of an editor block at depth `indent`.
pub open spec fn editor_text(e: Editor, indent: nat) -> Seq<char> {
    open_lines(indent, "editor"@)
        + kv_line(indent, "color"@, e.color@)
        + opt_line(indent, "visgroupid"@, opt_i32_text(e.visgroup_id))
        + opt_line(indent, "groupid"@, opt_i32_text(e.group_id))
        + kv_line(indent, "visgroupshown"@, flag_text(e.visgroup_shown))
        + kv_line(indent, "visgroupautoshown"@, flag_text(e.visgroup_auto_shown))
        + opt_line(indent, "comments"@, opt_view(e.comments))
        + opt_line(indent, "logicalpos"@, opt_view(e.logical_pos))
        + close_line(indent)
}

impl Default for Editor {
    fn default() -> (r: Self)
        ensures
            r.color@ == default_color(),
            r.visgroup_id is None,
            r.group_id is None,
            r.visgroup_shown,
            r.visgroup_auto_shown,
            r.comments is None,
            r.logical_pos is None,
    {
        Self {
            color: "255 255 255".to_string(),
            visgroup_id: None,
            group_id: None,
            visgroup_shown: true,
            visgroup_auto_shown: true,
            comments: None,
            logical_pos: None,
        }
    }
}

impl Editor {
    /// Reads editor data from the pairs of a block. Every key is optional:
    /// the color defaults to white, a malformed id counts as absent, and a
    /// flag is set only by the text "1".
    pub fn from_key_values(kv: &IndexMap<String, String>) -> (r: Editor)
        ensures
            editor_of(kv_entries(*kv), r),
    {
        let color = match kv_get(kv, "color") {
            Some(c) => c.clone(),
            None => "255 255 255".to_string(),
        };
        let visgroup_id = match opt_signed_field(kv, "visgroupid", i32::MIN as i64, i32::MAX as i64) {
            Some(n) => Some(n as i32),
            None => None,
        };
        let group_id = match opt_signed_field(kv, "groupid", i32::MIN as i64, i32::MAX as i64) {
            Some(n) => Some(n as i32),
            None => None,
        };
        Editor {
            color,
            visgroup_id,
            group_id,
            visgroup_shown: key_is_one(kv, "visgroupshown"),
            visgroup_auto_shown: key_is_one(kv, "visgroupautoshown"),
            comments: get_owned(kv, "comments"),
            logical_pos: get_owned(kv, "logicalpos"),
        }
    }

    /// Converts an `editor` block; this never fails.
    pub fn from_block(block: VmfBlock) -> (r: crate::errors::VmfResult<Editor>)
        ensures
            r matches Ok(e) && editor_of(kv_entries(block.key_values), e),
    {
        Ok(Editor::from_key_values(&block.key_values))
    }

    /// The `editor` block of this data.
    pub fn into_block(self) -> (r: VmfBlock)
        ensures
            r.name@ == "editor"@,
            kv_entries(r.key_values) == editor_entries(self),
            r.blocks@.len() == 0,
    {
        proof {
            reveal_strlit("color");
            reveal_strlit("visgroupid");
            reveal_strlit("groupid");
            reveal_strlit("visgroupshown");
            reveal_strlit("visgroupautoshown");
            reveal_strlit("comments");
            reveal_strlit("logicalpos");
            assert("color"@.len() == 5);
            assert("visgroupid"@.len() == 10);
            assert("groupid"@.len() == 7);
            assert("visgroupshown"@.len() == 13);
            assert("visgroupautoshown"@.len() == 17);
            assert("comments"@.len() == 8);
            assert("logicalpos"@.len() == 10);
            assert("visgroupid"@[0] != "logicalpos"@[0]);
        }
        let ghost e = self;
        let mut kv = kv_new();
        proof { lemma_absent(kv_entries(kv), "color"@); }
        push_entry(&mut kv, "color", self.color);
        if let Some(n) = self.visgroup_id {
            proof { lemma_absent(kv_entries(kv), "visgroupid"@); }
            push_entry(&mut kv, "visgroupid", int_string(n as i64));
        }
        let ghost s1 = kv_entries(kv);
        if let Some(n) = self.group_id {
            proof { lemma_absent(kv_entries(kv), "groupid"@); }
            push_entry(&mut kv, "groupid", int_string(n as i64));
        }
        let ghost s2 = kv_entries(kv);
        proof { lemma_absent(kv_entries(kv), "visgroupshown"@); }
        push_entry(&mut kv, "visgroupshown", self.visgroup_shown.to_01_string());
        proof { lemma_absent(kv_entries(kv), "visgroupautoshown"@); }
        push_entry(&mut kv, "visgroupautoshown", self.visgroup_auto_shown.to_01_string());
        let ghost s3 = kv_entries(kv);
        if let Some(c) = self.comments {
            proof { lemma_absent(kv_entries(kv), "comments"@); }
            push_entry(&mut kv, "comments", c);
        }
        let ghost s4 = kv_entries(kv);
        if let Some(p) = self.logical_pos {
            proof { lemma_absent(kv_entries(kv), "logicalpos"@); }
            push_entry(&mut kv, "logicalpos", p);
        }
        assert(kv_entries(kv) =~= editor_entries(e));
        VmfBlock { name: "editor".to_string(), key_values: kv, blocks: Vec::new() }
    }
}

impl VmfSerializable for Editor {
    open spec fn vmf_text(&self, indent: nat) -> Seq<char> {
        editor_text(*self, indent)
    }

    open spec fn vmf_depth(&self) -> nat {
        1
    }

    fn to_vmf_string(&self, indent_level: usize) -> (r: String) {
        let mut out = String::new();
        push_open(&mut out, indent_level, "editor");
        push_kv_line(&mut out, indent_level, "color", self.color.as_str());
        if let Some(n) = self.visgroup_id {
            push_int_line(&mut out, indent_level, "visgroupid", n as i64);
        }
        if let Some(n) = self.group_id {
            push_int_line(&mut out, indent_level, "groupid", n as i64);
        }
        push_flag_line(&mut out, indent_level, "visgroupshown", self.visgroup_shown);
        push_flag_line(&mut out, indent_level, "visgroupautoshown", self.visgroup_auto_shown);
        if let Some(c) = &self.comments {
            push_kv_line(&mut out, indent_level, "comments", c.as_str());
        }
        if let Some(p) = &self.logical_pos {
            push_kv_line(&mut out, indent_level, "logicalpos", p.as_str());
        }
        push_close(&mut out, indent_level);
        assert(out@ =~= editor_text(*self, indent_level as nat));
        out
    }
}

} // verus!
