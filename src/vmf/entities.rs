//! Entities: arbitrary key-value objects with I/O connections and, for
//! brush entities, solids.
use vstd::prelude::*;
use indexmap::IndexMap;
use crate::errors::{ErrorView, VmfResult};
use crate::kv::{
    after_shift_remove, after_swap_remove, after_insert, kv_entries, kv_get, kv_get_index,
    kv_insert, kv_len, kv_new, kv_shift_remove, kv_swap_remove, lemma_absent, lookup, push_entry,
};
use crate::parser::{joined_parts, split_fold, JOIN_CHAR};
use crate::text::{chars_of, close_line, int_in_range, kv_line, nat_string, open_lines, parse_unsigned, push_close, push_kv_line, push_open};
use crate::vmf::common::{editor_text, Editor};
use crate::vmf::world::{editor_at, is_default_editor, solid_error, solid_ok, solid_of, solid_text, Solid};
use crate::{kv_lines, push_kv_lines, VmfBlock, VmfSerializable};

verus! {

/// The character that separates the fields of a connection's input.
pub const FIELD_SEPARATOR: char = '\x1B';

/// Represents an entity in a VMF file.
#[derive(Debug, Default, Clone, PartialEq)]
pub struct Entity {
    /// The key-value pairs associated with this entity.
    pub key_values: IndexMap<String, String>,
    /// The output connections of this entity.
    pub connections: Option<Vec<(String, String)>>,
    /// The solids associated with this entity, if any.
    pub solids: Option<Vec<Solid>>,
    /// The editor data for this entity.
    pub editor: Editor,
    /// Indicates if the entity is hidden within the editor. Set when the
    /// entity is read from a `hidden` block; not written back.
    pub is_hidden: bool,
}

/// The connections of the first `n` pairs of a `connections` block: one per
/// joined part of each value, under the pair's key.
pub open spec fn connections_spec(s: Seq<(Seq<char>, Seq<char>)>, n: int) -> Seq<(Seq<char>, Seq<char>)>
    decreases n,
{
    if n <= 0 || n > s.len() {
        Seq::empty()
    } else {
        connections_spec(s, n - 1) + joined_parts(s[n - 1].1).map_values(|p: Seq<char>| (s[n - 1].0, p))
    }
}

pub open spec fn conn_view(cs: Seq<(String, String)>) -> Seq<(Seq<char>, Seq<char>)> {
    cs.map_values(|c: (String, String)| (c.0@, c.1@))
}

/// Splits the pairs of a `connections` block into one connection per
/// joined part; none when the block holds no pairs.
pub fn process_connections(map: &IndexMap<String, String>) -> (r: Option<Vec<(String, String)>>)
    ensures
        kv_entries(*map).len() == 0 ==> r is None,
        kv_entries(*map).len() > 0 ==> (r matches Some(cs)
            && conn_view(cs@) == connections_spec(kv_entries(*map), kv_entries(*map).len() as int)),
{
    let n = kv_len(map);
    if n == 0 {
        return None;
    }
    let ghost s = kv_entries(*map);
    let mut result: Vec<(String, String)> = Vec::new();
    let mut i: usize = 0;
    assert(conn_view(result@) =~= connections_spec(s, 0));
    while i < n
        invariant
            i <= n,
            n == s.len(),
            s == kv_entries(*map),
            conn_view(result@) == connections_spec(s, i as int),
        decreases n - i,
    {
        let (k, v) = kv_get_index(map, i);
        let cs = chars_of(v.as_str());
        let ghost base = result@;
        let mut cur = String::new();
        let mut j: usize = 0;
        while j < cs.len()
            invariant
                j <= cs.len(),
                cs@ == v@,
                (k@, v@) == s[i as int],
                conn_view(base) == connections_spec(s, i as int),
                split_fold(cs@, j as int).1 == cur@,
                conn_view(result@) == conn_view(base) + split_fold(cs@, j as int).0.map_values(|p: Seq<char>| (k@, p)),
            decreases cs.len() - j,
        {
            if cs[j] == JOIN_CHAR {
                let part = cur;
                let ghost ps = split_fold(cs@, j as int).0;
                let ghost old_result = result@;
                let kk = k.clone();
                result.push((kk, part));
                assert(conn_view(result@) =~= conn_view(old_result).push((k@, part@)));
                cur = String::new();
                proof {
                    assert(ps.push(part@).map_values(|p: Seq<char>| (k@, p))
                        =~= ps.map_values(|p: Seq<char>| (k@, p)).push((k@, part@)));
                    assert(conn_view(result@) =~= conn_view(base) + split_fold(cs@, j + 1).0.map_values(|p: Seq<char>| (k@, p)));
                }
            } else {
                cur.push(cs[j]);
            }
            j = j + 1;
        }
        let ghost ps = split_fold(cs@, cs.len() as int).0;
        let last = cur;
        let ghost old_result = result@;
        let kk = k.clone();
        result.push((kk, last));
        assert(conn_view(result@) =~= conn_view(old_result).push((k@, last@)));
        proof {
            assert(ps.push(last@).map_values(|p: Seq<char>| (k@, p))
                =~= ps.map_values(|p: Seq<char>| (k@, p)).push((k@, last@)));
            assert(conn_view(result@) =~= connections_spec(s, i + 1));
        }
        i = i + 1;
    }
    Some(result)
}

/// The number of `connections` blocks an entity's block holds: one when it
/// has connections.
pub open spec fn connection_blocks(e: Entity) -> int {
    if e.connections is Some { 1 } else { 0 }
}

/// The pairs of a `connections` block holding the first `n` connections:
/// an output met again is joined to the earlier pair.
pub open spec fn joined_pairs(cs: Seq<(Seq<char>, Seq<char>)>, n: int) -> Seq<(Seq<char>, Seq<char>)>
    decreases n,
{
    if n <= 0 || n > cs.len() {
        Seq::empty()
    } else {
        crate::parser::after_pair(joined_pairs(cs, n - 1), cs[n - 1].0, cs[n - 1].1)
    }
}

/// The blocks among the first `n` children of an entity that become its
/// solids: each `solid` child, and the first child of each `hidden` child,
/// in order.
pub open spec fn entity_solid_blocks(bs: Seq<VmfBlock>, n: int) -> Seq<VmfBlock>
    decreases n,
{
    if n <= 0 || n > bs.len() {
        Seq::empty()
    } else if bs[n - 1].name@ == "solid"@ {
        entity_solid_blocks(bs, n - 1).push(bs[n - 1])
    } else if bs[n - 1].name@ == "hidden"@ && bs[n - 1].blocks.len() > 0 {
        entity_solid_blocks(bs, n - 1).push(bs[n - 1].blocks[0])
    } else {
        entity_solid_blocks(bs, n - 1)
    }
}

/// The error of an `entity` block that does not convert: that of the first
/// block that does not become a solid.
pub open spec fn entity_error(b: VmfBlock) -> Option<ErrorView> {
    let sb = entity_solid_blocks(b.blocks@, b.blocks.len() as int);
    crate::vmf::world::first_error(sb, |x: VmfBlock| solid_error(x), sb.len() as int)
}

/// Whether an `entity` block converts: every block that becomes a solid does.
pub open spec fn entity_ok(b: VmfBlock) -> bool {
    let sb = entity_solid_blocks(b.blocks@, b.blocks.len() as int);
    forall|j: int| 0 <= j < sb.len() ==> solid_ok(#[trigger] sb[j])
}

/// The connections of an entity: those of its last `connections` child,
/// none when that child holds no pairs or there is no such child.
pub open spec fn entity_connections(bs: Seq<VmfBlock>, c: Option<Vec<(String, String)>>) -> bool {
    let i = crate::last_named(bs, "connections"@, bs.len() as int);
    if i >= 0 && kv_entries(bs[i].key_values).len() > 0 {
        c is Some && conn_view(c->0@) == connections_spec(kv_entries(bs[i].key_values), kv_entries(bs[i].key_values).len() as int)
    } else {
        c is None
    }
}

/// `e` is the entity that a convertible `entity` block describes.
pub open spec fn entity_of(b: VmfBlock, e: Entity) -> bool {
    let bs = b.blocks@;
    let sb = entity_solid_blocks(bs, bs.len() as int);
    &&& kv_entries(e.key_values) == kv_entries(b.key_values)
    &&& entity_connections(bs, e.connections)
    &&& if sb.len() == 0 {
        e.solids is None
    } else {
        e.solids is Some && e.solids->0.len() == sb.len()
            && forall|j: int| 0 <= j < sb.len() ==> solid_of(#[trigger] sb[j], e.solids->0[j])
    }
    &&& editor_at(bs, crate::last_named(bs, "editor"@, bs.len() as int), e.editor)
    &&& !e.is_hidden
}

/// The lines of the first `n` connections: one per connection, in order (an
/// input holding the joining character is written once per part, as a
/// block's pair is).
pub open spec fn connection_lines(cs: Seq<(Seq<char>, Seq<char>)>, n: int, indent: nat) -> Seq<char>
    decreases n,
{
    if n <= 0 || n > cs.len() {
        Seq::empty()
    } else {
        connection_lines(cs, n - 1, indent) + crate::pair_lines(indent, cs[n - 1].0, cs[n - 1].1)
    }
}

pub open spec fn entity_solids_text(ss: Seq<Solid>, n: int, indent: nat) -> Seq<char>
    decreases n,
{
    if n <= 0 || n > ss.len() {
        Seq::empty()
    } else {
        entity_solids_text(ss, n - 1, indent) + solid_text(ss[n - 1], indent)
    }
}

/// The text of an entity block at depth `indent`: its pairs, its
/// connections (one line per connection), its solids and its editor data.
pub open spec fn entity_text(e: Entity, indent: nat) -> Seq<char> {
    open_lines(indent, "entity"@)
        + kv_lines(kv_entries(e.key_values), kv_entries(e.key_values).len() as int, indent)
        + match e.connections {
            Some(cs) => open_lines(indent + 1, "connections"@)
                + connection_lines(conn_view(cs@), cs.len() as int, indent + 1)
                + close_line(indent + 1),
            None => Seq::empty(),
        }
        + match e.solids {
            Some(ss) => entity_solids_text(ss@, ss.len() as int, indent + 1),
            None => Seq::empty(),
        }
        + editor_text(e.editor, indent + 1)
        + close_line(indent)
}

pub proof fn lemma_solid_blocks_mono(bs: Seq<VmfBlock>, m: int, n: int)
    requires
        0 <= m <= n <= bs.len(),
    ensures
        entity_solid_blocks(bs, m).len() <= entity_solid_blocks(bs, n).len(),
        forall|j: int| 0 <= j < entity_solid_blocks(bs, m).len()
            ==> #[trigger] entity_solid_blocks(bs, n)[j] == entity_solid_blocks(bs, m)[j],
    decreases n - m,
{
    if m < n {
        lemma_solid_blocks_mono(bs, m, n - 1);
    }
}

impl Entity {
    /// Creates an entity with the given classname and id, no connections,
    /// no solids and default editor data.
    pub fn new(classname: &str, id: u64) -> (r: Entity)
        ensures
            kv_entries(r.key_values) == seq![("classname"@, classname@), ("id"@, crate::text::int_text(id as int))],
            r.connections is None,
            r.solids is None,
            is_default_editor(r.editor),
            !r.is_hidden,
    {
        proof {
            reveal_strlit("classname");
            reveal_strlit("id");
            assert("classname"@.len() == 9);
            assert("id"@.len() == 2);
        }
        let mut key_values = kv_new();
        proof { lemma_absent(kv_entries(key_values), "classname"@); }
        push_entry(&mut key_values, "classname", classname.to_string());
        proof { lemma_absent(kv_entries(key_values), "id"@); }
        push_entry(&mut key_values, "id", nat_string(id));
        assert(kv_entries(key_values) =~= seq![("classname"@, classname@), ("id"@, crate::text::int_text(id as int))]);
        Entity { key_values, connections: None, solids: None, editor: Editor::default(), is_hidden: false }
    }

    /// Sets a key-value pair; an existing key keeps its place.
    pub fn set(&mut self, key: String, value: String)
        ensures
            kv_entries(final(self).key_values) == after_insert(kv_entries(old(self).key_values), key@, value@),
            final(self).connections == old(self).connections,
            final(self).solids == old(self).solids,
            final(self).editor == old(self).editor,
            final(self).is_hidden == old(self).is_hidden,
    {
        kv_insert(&mut self.key_values, key, value);
    }

    /// Removes a key-value pair, keeping the order of the other keys.
    pub fn remove_key(&mut self, key: &str) -> (r: Option<String>)
        ensures
            kv_entries(final(self).key_values) == after_shift_remove(kv_entries(old(self).key_values), key@),
            crate::vmf::common::opt_view(r) == lookup(kv_entries(old(self).key_values), key@),
            final(self).connections == old(self).connections,
            final(self).solids == old(self).solids,
            final(self).editor == old(self).editor,
            final(self).is_hidden == old(self).is_hidden,
    {
        kv_shift_remove(&mut self.key_values, key)
    }

    /// Removes a key-value pair by moving the last pair into its place.
    pub fn swap_remove_key(&mut self, key: &str) -> (r: Option<String>)
        ensures
            kv_entries(final(self).key_values) == after_swap_remove(kv_entries(old(self).key_values), key@),
            crate::vmf::common::opt_view(r) == lookup(kv_entries(old(self).key_values), key@),
            final(self).connections == old(self).connections,
            final(self).solids == old(self).solids,
            final(self).editor == old(self).editor,
            final(self).is_hidden == old(self).is_hidden,
    {
        kv_swap_remove(&mut self.key_values, key)
    }

    /// The value of a key.
    pub fn get(&self, key: &str) -> (r: Option<&String>)
        ensures
            match lookup(kv_entries(self.key_values), key@) {
                Some(v) => r matches Some(x) && x@ == v,
                None => r is None,
            },
    {
        kv_get(&self.key_values, key)
    }

    /// The value of a key, as a string slice.
    fn get_str(&self, key: &str) -> (r: Option<&str>)
        ensures
            match lookup(kv_entries(self.key_values), key@) {
                Some(v) => r matches Some(x) && x@ == v,
                None => r is None,
            },
    {
        match kv_get(&self.key_values, key) {
            Some(v) => Some(v.as_str()),
            None => None,
        }
    }

    /// The classname of the entity.
    pub fn classname(&self) -> (r: Option<&str>)
        ensures
            match lookup(kv_entries(self.key_values), "classname"@) {
                Some(v) => r matches Some(x) && x@ == v,
                None => r is None,
            },
    {
        self.get_str("classname")
    }

    /// The targetname of the entity.
    pub fn targetname(&self) -> (r: Option<&str>)
        ensures
            match lookup(kv_entries(self.key_values), "targetname"@) {
                Some(v) => r matches Some(x) && x@ == v,
                None => r is None,
            },
    {
        self.get_str("targetname")
    }

    /// The model of the entity.
    pub fn model(&self) -> (r: Option<&str>)
        ensures
            match lookup(kv_entries(self.key_values), "model"@) {
                Some(v) => r matches Some(x) && x@ == v,
                None => r is None,
            },
    {
        self.get_str("model")
    }

    /// The id of the entity: its `id` value read as a `u64`, or 0 when it is
    /// absent or malformed.
    pub fn id(&self) -> (r: u64)
        ensures
            r == match lookup(kv_entries(self.key_values), "id"@) {
                Some(v) => match int_in_range(v, 0, u64::MAX as int) {
                    Some(n) => n as u64,
                    None => 0,
                },
                None => 0,
            },
    {
        match kv_get(&self.key_values, "id") {
            Some(v) => match parse_unsigned(v.as_str(), u64::MAX) {
                Some(n) => n,
                None => 0,
            },
            None => 0,
        }
    }

    /// Adds an output connection: `output` fires `input` on `target_entity`
    /// with `parms` after `delay` seconds (given as decimal text), at most
    /// `fire_limit` times (-1: unlimited). The fields of the input are
    /// separated by the escape character.
    pub fn add_connection(&mut self, output: &str, target_entity: &str, input: &str, parms: &str, delay: &str, fire_limit: i32)
        ensures
            ({
                let sep = seq![FIELD_SEPARATOR];
                let value = target_entity@ + sep + input@ + sep + parms@ + sep + delay@ + sep
                    + crate::text::int_text(fire_limit as int);
                let before = match old(self).connections {
                    Some(cs) => conn_view(cs@),
                    None => Seq::empty(),
                };
                final(self).connections is Some && conn_view(final(self).connections->0@) == before.push((output@, value))
            }),
            final(self).key_values == old(self).key_values,
            final(self).solids == old(self).solids,
            final(self).editor == old(self).editor,
            final(self).is_hidden == old(self).is_hidden,
    {
        let mut value = target_entity.to_string();
        value.push(FIELD_SEPARATOR);
        value.push_str(input);
        value.push(FIELD_SEPARATOR);
        value.push_str(parms);
        value.push(FIELD_SEPARATOR);
        value.push_str(delay);
        value.push(FIELD_SEPARATOR);
        crate::text::push_int(&mut value, fire_limit as i64);
        let ghost v = value@;
        let item = (output.to_string(), value);
        let mut cs = match self.connections.take() {
            Some(cs) => cs,
            None => Vec::new(),
        };
        let ghost before = cs@;
        cs.push(item);
        proof {
            assert(conn_view(cs@) =~= conn_view(before).push((output@, v)));
        }
        self.connections = Some(cs);
        proof {
            let sep = seq![FIELD_SEPARATOR];
            assert(v =~= target_entity@ + sep + input@ + sep + parms@ + sep + delay@ + sep
                + crate::text::int_text(fire_limit as int));
        }
    }

    /// Removes all connections from this entity.
    pub fn clear_connections(&mut self)
        ensures
            final(self).connections is None,
            final(self).key_values == old(self).key_values,
            final(self).solids == old(self).solids,
            final(self).editor == old(self).editor,
            final(self).is_hidden == old(self).is_hidden,
    {
        self.connections = None;
    }

    /// Whether the entity has a connection with this output and input.
    pub fn has_connection(&self, output: &str, input: &str) -> (r: bool)
        ensures
            r == (self.connections is Some && exists|i: int|
                0 <= i < self.connections->0.len() && #[trigger] conn_view(self.connections->0@)[i] == (output@, input@)),
    {
        match &self.connections {
            Some(cs) => {
                let mut i: usize = 0;
                while i < cs.len()
                    invariant
                        i <= cs.len(),
                        self.connections == Some(*cs),
                        forall|j: int| 0 <= j < i ==> #[trigger] conn_view(cs@)[j] != (output@, input@),
                    decreases cs.len() - i,
                {
                    let o = cs[i].0.clone();
                    let inp = cs[i].1.clone();
                    assert(conn_view(cs@)[i as int] == (o@, inp@));
                    if o == output.to_string() && inp == input.to_string() {
                        assert(conn_view(cs@)[i as int] == (output@, input@));
                        assert(conn_view(self.connections->0@)[i as int] == (output@, input@));
                        assert(exists|x: int| 0 <= x < self.connections->0.len()
                            && #[trigger] conn_view(self.connections->0@)[x] == (output@, input@));
                        return true;
                    }
                    i = i + 1;
                }
                false
            },
            None => false,
        }
    }

    fn read(b: &VmfBlock) -> (r: VmfResult<(Option<Vec<(String, String)>>, Option<Vec<Solid>>, Editor)>)
        ensures
            r is Ok <==> entity_ok(*b),
            r matches Err(e) ==> entity_error(*b) == Some(e@),
            r matches Ok((c, s, e)) ==> entity_of(*b, Entity { key_values: b.key_values, connections: c, solids: s, editor: e, is_hidden: false }),
    {
        proof {
            reveal_strlit("solid");
            reveal_strlit("hidden");
            reveal_strlit("editor");
            reveal_strlit("connections");
            assert("solid"@.len() == 5);
            assert("hidden"@.len() == 6);
            assert("editor"@.len() == 6);
            assert("connections"@.len() == 11);
            assert("hidden"@[0] != "editor"@[0]);
        }
        let ghost bs = b.blocks@;
        let mut editor = Editor::default();
        let mut connections: Option<Vec<(String, String)>> = None;
        let mut solids: Vec<Solid> = Vec::new();
        let mut i: usize = 0;
        while i < b.blocks.len()
            invariant
                i <= b.blocks.len(),
                bs == b.blocks@,
                "solid"@.len() == 5,
                "hidden"@.len() == 6,
                "editor"@.len() == 6,
                "connections"@.len() == 11,
                "hidden"@[0] != "editor"@[0],
                solids.len() == entity_solid_blocks(bs, i as int).len(),
                forall|j: int| 0 <= j < solids.len() ==> solid_ok(#[trigger] entity_solid_blocks(bs, i as int)[j]),
                forall|j: int| 0 <= j < solids.len() ==> solid_error(#[trigger] entity_solid_blocks(bs, i as int)[j]) is None,
                forall|j: int| 0 <= j < solids.len() ==> solid_of(#[trigger] entity_solid_blocks(bs, i as int)[j], solids[j]),
                editor_at(bs, crate::last_named(bs, "editor"@, i as int), editor),
                ({
                    let k = crate::last_named(bs, "connections"@, i as int);
                    if k >= 0 && kv_entries(bs[k].key_values).len() > 0 {
                        connections is Some && conn_view(connections->0@)
                            == connections_spec(kv_entries(bs[k].key_values), kv_entries(bs[k].key_values).len() as int)
                    } else {
                        connections is None
                    }
                }),
            decreases b.blocks.len() - i,
        {
            let child = &b.blocks[i];
            let ghost before = entity_solid_blocks(bs, i as int);
            if child.name_is("editor") {
                editor = Editor::from_key_values(&child.key_values);
            } else if child.name_is("connections") {
                connections = process_connections(&child.key_values);
            } else if child.name_is("solid") {
                match Solid::read(child) {
                    Ok(so) => {
                        solids.push(so);
                        assert(entity_solid_blocks(bs, i + 1) == before.push(bs[i as int]));
                    },
                    Err(e) => {
                        proof {
                            lemma_solid_blocks_mono(bs, i as int + 1, bs.len() as int);
                            let all = entity_solid_blocks(bs, bs.len() as int);
                            assert(all[before.len() as int] == bs[i as int]);
                            let f = |x: VmfBlock| solid_error(x);
                            assert forall|j: int| 0 <= j < before.len() implies f(#[trigger] all[j]) is None by {
                                assert(all[j] == entity_solid_blocks(bs, i + 1)[j]);
                            }
                            crate::vmf::world::lemma_first_error_at(all, f, before.len() as int, all.len() as int);
                        }
                        return Err(e);
                    },
                }
            } else if child.name_is("hidden") {
                if child.blocks.len() > 0 {
                    match Solid::read(&child.blocks[0]) {
                        Ok(so) => {
                            solids.push(so);
                            assert(entity_solid_blocks(bs, i + 1) == before.push(bs[i as int].blocks[0]));
                        },
                        Err(e) => {
                            proof {
                                lemma_solid_blocks_mono(bs, i as int + 1, bs.len() as int);
                                let all = entity_solid_blocks(bs, bs.len() as int);
                                assert(all[before.len() as int] == bs[i as int].blocks[0]);
                            let f = |x: VmfBlock| solid_error(x);
                            assert forall|j: int| 0 <= j < before.len() implies f(#[trigger] all[j]) is None by {
                                assert(all[j] == entity_solid_blocks(bs, i + 1)[j]);
                            }
                            crate::vmf::world::lemma_first_error_at(all, f, before.len() as int, all.len() as int);
                            }
                            return Err(e);
                        },
                    }
                }
            }
            i = i + 1;
        }
        let solids = if solids.len() == 0 {
            None
        } else {
            Some(solids)
        };
        Ok((connections, solids, editor))
    }

    /// Converts an `entity` block. Its pairs are kept as they are; the last
    /// `editor` child gives the editor data, the last `connections` child the
    /// connections, and `solid` children (and the first child of `hidden`
    /// children) the solids, in order.
    pub fn from_block(block: VmfBlock) -> (r: VmfResult<Entity>)
        ensures
            r is Ok <==> entity_ok(block),
            r matches Err(e) ==> entity_error(block) == Some(e@),
            r matches Ok(e) ==> entity_of(block, e),
    {
        let (connections, solids, editor) = Entity::read(&block)?;
        let VmfBlock { name: _, key_values, blocks: _ } = block;
        Ok(Entity { key_values, connections, solids, editor, is_hidden: false })
    }

    /// The `entity` block of this data: its pairs, a `connections` block
    /// (repeated outputs joined as when read), its solids, then its editor
    /// block.
    pub fn into_block(self) -> (r: VmfBlock)
        ensures
            r.name@ == "entity"@,
            kv_entries(r.key_values) == kv_entries(self.key_values),
            r.blocks.len() == (if self.connections is Some { 1int } else { 0int })
                + (match self.solids { Some(ss) => ss.len() as int, None => 0int }) + 1,
            r.blocks[r.blocks.len() - 1].name@ == "editor"@,
            kv_entries(r.blocks[r.blocks.len() - 1].key_values) == crate::vmf::common::editor_entries(self.editor),
            self.connections matches Some(cs) ==> r.blocks[0].name@ == "connections"@
                && kv_entries(r.blocks[0].key_values) == joined_pairs(conn_view(cs@), cs.len() as int)
                && r.blocks[0].blocks.len() == 0,
            self.solids matches Some(ss) ==> forall|i: int| 0 <= i < ss.len() ==> {
                let b = #[trigger] r.blocks[connection_blocks(self) + i];
                &&& b.name@ == "solid"@
                &&& kv_entries(b.key_values) == seq![("id"@, crate::text::int_text(ss[i].id as int))]
                &&& b.blocks.len() == ss[i].sides.len() + 1
            },
    {
        let Entity { key_values, connections, solids, editor, is_hidden: _ } = self;
        let mut blocks: Vec<VmfBlock> = Vec::new();
        if let Some(cs) = connections {
            let mut kv = kv_new();
            let mut i: usize = 0;
            while i < cs.len()
                invariant
                    i <= cs.len(),
                    kv_entries(kv) == joined_pairs(conn_view(cs@), i as int),
                decreases cs.len() - i,
            {
                let k = cs[i].0.clone();
                let v = cs[i].1.clone();
                assert(conn_view(cs@)[i as int] == (k@, v@));
                crate::parser::add_pair(&mut kv, k, v);
                i = i + 1;
            }
            blocks.push(VmfBlock { name: "connections".to_string(), key_values: kv, blocks: Vec::new() });
            assert(blocks@[0].name@ == "connections"@);
            assert(kv_entries(blocks@[0].key_values) == joined_pairs(conn_view(cs@), cs.len() as int));
        }
        let ghost conn0 = if blocks.len() > 0 { blocks@[0] } else { arbitrary() };
        let c = blocks.len();
        if let Some(ss) = solids {
            let n = ss.len();
            let ghost all = ss@;
            let ghost pre = blocks@;
            let mut ss = ss;
            while ss.len() > 0
                invariant
                    blocks.len() + ss.len() == c + n,
                    blocks.len() >= c,
                    n == all.len(),
                    ss@ == all.subrange(blocks.len() - c, n as int),
                    c <= 1,
                    pre.len() == c,
                    forall|j: int| 0 <= j < c ==> blocks@[j] == pre[j],
                    forall|i: int| 0 <= i < blocks.len() - c ==> {
                        let b = #[trigger] blocks[c + i];
                        &&& b.name@ == "solid"@
                        &&& kv_entries(b.key_values) == seq![("id"@, crate::text::int_text(all[i].id as int))]
                        &&& b.blocks.len() == all[i].sides.len() + 1
                    },
                decreases ss.len(),
            {
                let so = ss.remove(0);
                assert(so == all[blocks.len() - c]);
                let ghost before = blocks@;
                blocks.push(so.into_block());
                assert forall|i: int| 0 <= i < blocks.len() - c - 1 implies #[trigger] blocks[c + i] == before[c + i] by {}
                assert(ss@ =~= all.subrange(blocks.len() - c, n as int));
            }
        }
        assert(c == 1 ==> blocks@[0] == conn0);
        blocks.push(editor.into_block());
        assert(c == 1 ==> blocks@[0] == conn0);
        VmfBlock { name: "entity".to_string(), key_values, blocks }
    }

    fn write_connections(&self, out: &mut String, indent_level: usize)
        ensures
            final(out)@ == old(out)@ + match self.connections {
                Some(cs) => open_lines(indent_level as nat, "connections"@)
                    + connection_lines(conn_view(cs@), cs.len() as int, indent_level as nat)
                    + close_line(indent_level as nat),
                None => Seq::empty(),
            },
    {
        if let Some(cs) = &self.connections {
            push_open(out, indent_level, "connections");
            let ghost mid = out@;
            let mut i: usize = 0;
            while i < cs.len()
                invariant
                    i <= cs.len(),
                    out@ == mid + connection_lines(conn_view(cs@), i as int, indent_level as nat),
                decreases cs.len() - i,
            {
                crate::push_pair_lines(out, indent_level, cs[i].0.as_str(), cs[i].1.as_str());
                i = i + 1;
                assert(out@ =~= mid + connection_lines(conn_view(cs@), i as int, indent_level as nat));
            }
            push_close(out, indent_level);
        }
        assert(final(out)@ =~= old(out)@ + match self.connections {
            Some(cs) => open_lines(indent_level as nat, "connections"@)
                + connection_lines(conn_view(cs@), cs.len() as int, indent_level as nat)
                + close_line(indent_level as nat),
            None => Seq::empty(),
        });
    }

    fn write_solids(&self, out: &mut String, indent_level: usize)
        requires
            indent_level + 5 < usize::MAX,
        ensures
            final(out)@ == old(out)@ + match self.solids {
                Some(ss) => entity_solids_text(ss@, ss.len() as int, indent_level as nat),
                None => Seq::empty(),
            },
    {
        if let Some(ss) = &self.solids {
            let mut i: usize = 0;
            while i < ss.len()
                invariant
                    i <= ss.len(),
                    indent_level + 5 < usize::MAX,
                    out@ == old(out)@ + entity_solids_text(ss@, i as int, indent_level as nat),
                decreases ss.len() - i,
            {
                let t = ss[i].to_vmf_string(indent_level);
                out.push_str(t.as_str());
                i = i + 1;
                assert(out@ =~= old(out)@ + entity_solids_text(ss@, i as int, indent_level as nat));
            }
        }
        assert(final(out)@ =~= old(out)@ + match self.solids {
            Some(ss) => entity_solids_text(ss@, ss.len() as int, indent_level as nat),
            None => Seq::empty(),
        });
    }
}

impl VmfSerializable for Entity {
    open spec fn vmf_text(&self, indent: nat) -> Seq<char> {
        entity_text(*self, indent)
    }

    open spec fn vmf_depth(&self) -> nat {
        7
    }

    fn to_vmf_string(&self, indent_level: usize) -> (r: String) {
        let mut out = String::new();
        push_open(&mut out, indent_level, "entity");
        push_kv_lines(&mut out, &self.key_values, indent_level);
        self.write_connections(&mut out, indent_level + 1);
        self.write_solids(&mut out, indent_level + 1);
        let e = self.editor.to_vmf_string(indent_level + 1);
        out.push_str(e.as_str());
        push_close(&mut out, indent_level);
        assert(out@ =~= entity_text(*self, indent_level as nat));
        out
    }
}

/// A collection of entities.
#[derive(Debug, Default, Clone, PartialEq)]
pub struct Entities(pub Vec<Entity>);

/// The positions among the first `n` entities whose value of `key` is `value`.
pub open spec fn matching(es: Seq<Entity>, key: Seq<char>, value: Seq<char>, n: int) -> Seq<usize>
    decreases n,
{
    if n <= 0 || n > es.len() {
        Seq::empty()
    } else if lookup(kv_entries(es[n - 1].key_values), key) == Some(value) {
        matching(es, key, value, n - 1).push((n - 1) as usize)
    } else {
        matching(es, key, value, n - 1)
    }
}

/// The entities among the first `n` whose value of `key` is not `value`.
pub open spec fn keeping(es: Seq<Entity>, key: Seq<char>, value: Seq<char>, n: int) -> Seq<Entity>
    decreases n,
{
    if n <= 0 || n > es.len() {
        Seq::empty()
    } else if lookup(kv_entries(es[n - 1].key_values), key) == Some(value) {
        keeping(es, key, value, n - 1)
    } else {
        keeping(es, key, value, n - 1).push(es[n - 1])
    }
}

impl Entities {
    /// The number of entities.
    pub fn len(&self) -> (r: usize)
        ensures
            r == self.0.len(),
    {
        self.0.len()
    }

    /// Whether there are no entities.
    pub fn is_empty(&self) -> (r: bool)
        ensures
            r == (self.0.len() == 0),
    {
        self.0.len() == 0
    }

    /// Adds an entity at the end.
    pub fn push(&mut self, e: Entity)
        ensures
            final(self).0@ == old(self).0@.push(e),
    {
        self.0.push(e);
    }

    /// The positions, in order, of the entities whose value of `key` is `value`.
    pub fn find_by_keyvalue(&self, key: &str, value: &str) -> (r: Vec<usize>)
        ensures
            r@ == matching(self.0@, key@, value@, self.0.len() as int),
    {
        let mut r: Vec<usize> = Vec::new();
        let mut i: usize = 0;
        while i < self.0.len()
            invariant
                i <= self.0.len(),
                r@ == matching(self.0@, key@, value@, i as int),
            decreases self.0.len() - i,
        {
            let hit = match self.0[i].get(key) {
                Some(v) => *v == value.to_string(),
                None => false,
            };
            if hit {
                r.push(i);
            }
            i = i + 1;
        }
        r
    }

    /// The positions of the matching entities, for changing them in place
    /// through `self.0[i]`.
    pub fn find_by_keyvalue_mut(&mut self, key: &str, value: &str) -> (r: Vec<usize>)
        ensures
            *final(self) == *old(self),
            r@ == matching(old(self).0@, key@, value@, old(self).0.len() as int),
    {
        self.find_by_keyvalue(key, value)
    }

    /// The positions of the entities with the given classname.
    pub fn find_by_classname(&self, classname: &str) -> (r: Vec<usize>)
        ensures
            r@ == matching(self.0@, "classname"@, classname@, self.0.len() as int),
    {
        self.find_by_keyvalue("classname", classname)
    }

    /// The positions of the entities with the given targetname.
    pub fn find_by_name(&self, name: &str) -> (r: Vec<usize>)
        ensures
            r@ == matching(self.0@, "targetname"@, name@, self.0.len() as int),
    {
        self.find_by_keyvalue("targetname", name)
    }

    /// The positions of the entities with the given model.
    pub fn find_by_model(&self, model: &str) -> (r: Vec<usize>)
        ensures
            r@ == matching(self.0@, "model"@, model@, self.0.len() as int),
    {
        self.find_by_keyvalue("model", model)
    }

    /// The positions of the entities with the given classname, for changing them.
    pub fn find_by_classname_mut(&mut self, classname: &str) -> (r: Vec<usize>)
        ensures
            *final(self) == *old(self),
            r@ == matching(old(self).0@, "classname"@, classname@, old(self).0.len() as int),
    {
        self.find_by_keyvalue("classname", classname)
    }

    /// The positions of the entities with the given targetname, for changing them.
    pub fn find_by_name_mut(&mut self, name: &str) -> (r: Vec<usize>)
        ensures
            *final(self) == *old(self),
            r@ == matching(old(self).0@, "targetname"@, name@, old(self).0.len() as int),
    {
        self.find_by_keyvalue("targetname", name)
    }

    /// The positions of the entities with the given model, for changing them.
    pub fn find_by_model_mut(&mut self, model: &str) -> (r: Vec<usize>)
        ensures
            *final(self) == *old(self),
            r@ == matching(old(self).0@, "model"@, model@, old(self).0.len() as int),
    {
        self.find_by_keyvalue("model", model)
    }

    /// Removes the first entity whose `id` value is the decimal text of
    /// `entity_id`, and returns it.
    pub fn remove_entity(&mut self, entity_id: i32) -> (r: Option<Entity>)
        ensures
            ({
                let m = matching(old(self).0@, "id"@, crate::text::int_text(entity_id as int), old(self).0.len() as int);
                if m.len() > 0 {
                    r == Some(old(self).0@[m[0] as int]) && final(self).0@ == old(self).0@.remove(m[0] as int)
                } else {
                    r is None && final(self).0@ == old(self).0@
                }
            }),
    {
        let id = crate::text::int_string(entity_id as i64);
        let m = self.find_by_keyvalue("id", id.as_str());
        proof {
            lemma_matching_bounds(self.0@, "id"@, id@, self.0.len() as int);
        }
        if m.len() > 0 {
            let e = self.0.remove(m[0]);
            Some(e)
        } else {
            None
        }
    }

    /// Removes every entity whose value of `key` is `value`, keeping the
    /// order of the others.
    pub fn remove_by_keyvalue(&mut self, key: &str, value: &str)
        ensures
            final(self).0@ == keeping(old(self).0@, key@, value@, old(self).0.len() as int),
    {
        let mut kept: Vec<Entity> = Vec::new();
        let ghost all = self.0@;
        let mut i: usize = 0;
        let n = self.0.len();
        while self.0.len() > 0
            invariant
                i + self.0.len() == n,
                n == all.len(),
                self.0@ == all.subrange(i as int, n as int),
                kept@ == keeping(all, key@, value@, i as int),
            decreases self.0.len(),
        {
            let e = self.0.remove(0);
            let hit = match e.get(key) {
                Some(v) => *v == value.to_string(),
                None => false,
            };
            if !hit {
                kept.push(e);
            }
            i = i + 1;
            assert(self.0@ =~= all.subrange(i as int, n as int));
        }
        self.0 = kept;
    }
}

proof fn lemma_matching_bounds(es: Seq<Entity>, key: Seq<char>, value: Seq<char>, n: int)
    requires
        0 <= n <= es.len() <= usize::MAX,
    ensures
        forall|j: int| 0 <= j < matching(es, key, value, n).len() ==> #[trigger] matching(es, key, value, n)[j] < n,
    decreases n,
{
    if n > 0 {
        lemma_matching_bounds(es, key, value, n - 1);
        let p = matching(es, key, value, n - 1);
        assert forall|j: int| 0 <= j < matching(es, key, value, n).len() implies #[trigger] matching(es, key, value, n)[j] < n by {
            if j < p.len() {
                assert(matching(es, key, value, n)[j] == p[j]);
            }
        }
    }
}

} // verus!
