//! Parsing and serialization of the Valve Map Format (VMF): a text of
//! brace-delimited blocks holding quoted key-value pairs, read into a generic
//! tree of blocks and then into typed structures, and written back.
use vstd::prelude::*;
use indexmap::IndexMap;

pub mod errors;
pub mod kv;
pub mod laws;
pub mod parser;
pub mod round_trip;
pub mod text;
pub mod vmf;
pub mod vmf_file;

pub use errors::{VmfError, VmfResult};

use kv::{kv_entries, kv_get_index, kv_len};
use text::{close_line, kv_line, open_lines, push_close, push_kv_line, push_open};

verus! {

/// Types that can be written in the VMF text form.
pub trait VmfSerializable {
    /// The text of the value at nesting depth `indent`.
    spec fn vmf_text(&self, indent: nat) -> Seq<char>;

    /// How many levels of indentation the text goes below its own.
    spec fn vmf_depth(&self) -> nat;

    /// Serializes the object into a VMF string at the given indentation level.
    fn to_vmf_string(&self, indent_level: usize) -> (r: String)
        requires
            indent_level + self.vmf_depth() < usize::MAX,
        ensures
            r@ == self.vmf_text(indent_level as nat),
    ;
}

/// A block of a VMF file: a name, ordered key-value pairs and child blocks.
#[derive(Debug, Default)]
pub struct VmfBlock {
    /// The name of the block.
    pub name: String,
    /// The key-value pairs in the block.
    pub key_values: IndexMap<String, String>,
    /// The child blocks contained within this block.
    pub blocks: Vec<VmfBlock>,
}

/// The lines of the first `n` entries, at block depth `indent`.
pub open spec fn kv_lines(s: Seq<(Seq<char>, Seq<char>)>, n: int, indent: nat) -> Seq<char>
    decreases n,
{
    if n <= 0 {
        Seq::empty()
    } else {
        kv_lines(s, n - 1, indent) + pair_lines(indent, s[n - 1].0, s[n - 1].1)
    }
}

/// One `"k" "part"` line for each of the parts `ps`.
pub open spec fn part_lines(indent: nat, k: Seq<char>, ps: Seq<Seq<char>>) -> Seq<char>
    decreases ps.len(),
{
    if ps.len() == 0 {
        Seq::empty()
    } else {
        part_lines(indent, k, ps.drop_last()) + kv_line(indent, k, ps.last())
    }
}

/// The lines of the pair `(k, v)` of a block: one `"k" "part"` line for each
/// part of `v` between joining characters, so that a key met several times
/// when reading is written once per value again.
pub open spec fn pair_lines(indent: nat, k: Seq<char>, v: Seq<char>) -> Seq<char> {
    part_lines(indent, k, crate::parser::joined_parts(v))
}

/// A value without the joining character is written as one line.
pub proof fn lemma_pair_lines_plain(indent: nat, k: Seq<char>, v: Seq<char>)
    requires
        !v.contains(crate::parser::JOIN_CHAR),
    ensures
        pair_lines(indent, k, v) == kv_line(indent, k, v),
{
    crate::parser::lemma_single_part(v);
    let ps = seq![v];
    assert(ps.drop_last() =~= Seq::<Seq<char>>::empty());
    assert(part_lines(indent, k, Seq::<Seq<char>>::empty()) == Seq::<char>::empty());
    assert(ps.last() == v);
    assert(part_lines(indent, k, ps) == part_lines(indent, k, ps.drop_last()) + kv_line(indent, k, ps.last()));
    assert(Seq::<char>::empty() + kv_line(indent, k, v) =~= kv_line(indent, k, v));
}

/// Appends the lines of the pair `(k, v)`: one line per part of `v`.
pub fn push_pair_lines(out: &mut String, indent: usize, k: &str, v: &str)
    ensures
        final(out)@ == old(out)@ + pair_lines(indent as nat, k@, v@),
{
    let cs = crate::text::chars_of(v);
    let mut cur = String::new();
    let mut j: usize = 0;
    while j < cs.len()
        invariant
            j <= cs.len(),
            cs@ == v@,
            crate::parser::split_fold(cs@, j as int).1 == cur@,
            out@ == old(out)@ + part_lines(indent as nat, k@, crate::parser::split_fold(cs@, j as int).0),
        decreases cs.len() - j,
    {
        if cs[j] == crate::parser::JOIN_CHAR {
            let ghost ps = crate::parser::split_fold(cs@, j as int).0;
            push_kv_line(out, indent, k, cur.as_str());
            proof {
                assert(ps.push(cur@).drop_last() =~= ps);
            }
            cur = String::new();
        } else {
            cur.push(cs[j]);
        }
        j = j + 1;
        assert(out@ =~= old(out)@ + part_lines(indent as nat, k@, crate::parser::split_fold(cs@, j as int).0));
    }
    let ghost ps = crate::parser::split_fold(cs@, cs.len() as int).0;
    push_kv_line(out, indent, k, cur.as_str());
    proof {
        assert(ps.push(cur@).drop_last() =~= ps);
    }
    assert(final(out)@ =~= old(out)@ + pair_lines(indent as nat, k@, v@));
}

/// The text of a block at depth `indent`.
pub open spec fn block_text(b: VmfBlock, indent: nat) -> Seq<char>
    decreases b, 1int,
{
    open_lines(indent, b.name@)
        + kv_lines(kv_entries(b.key_values), kv_entries(b.key_values).len() as int, indent)
        + children_text(b, b.blocks.len() as int, indent + 1)
        + close_line(indent)
}

/// The text of the first `n` children of `b`, each at depth `indent`.
pub open spec fn children_text(b: VmfBlock, n: int, indent: nat) -> Seq<char>
    decreases b, 0int, n,
{
    if n <= 0 || n > b.blocks.len() {
        Seq::empty()
    } else {
        children_text(b, n - 1, indent) + block_text(b.blocks[n - 1], indent)
    }
}

/// The number of nesting levels of a block: 1 for a block without children.
pub open spec fn block_depth(b: VmfBlock) -> nat
    decreases b, 1int,
{
    1 + children_depth(b, b.blocks.len() as int)
}

/// The largest depth among the first `n` children of `b`.
pub open spec fn children_depth(b: VmfBlock, n: int) -> nat
    decreases b, 0int, n,
{
    if n <= 0 || n > b.blocks.len() {
        0
    } else {
        let a = children_depth(b, n - 1);
        let c = block_depth(b.blocks[n - 1]);
        if a >= c { a } else { c }
    }
}

proof fn lemma_child_depth(b: VmfBlock, i: int, n: int)
    requires
        0 <= i < n <= b.blocks.len(),
    ensures
        block_depth(b.blocks[i]) <= children_depth(b, n),
    decreases n,
{
    if i < n - 1 {
        lemma_child_depth(b, i, n - 1);
    }
}

/// Appends the lines of all entries of a map at block depth `indent`.
pub fn push_kv_lines(out: &mut String, m: &IndexMap<String, String>, indent: usize)
    ensures
        final(out)@ == old(out)@ + kv_lines(kv_entries(*m), kv_entries(*m).len() as int, indent as nat),
{
    let n = kv_len(m);
    let mut i: usize = 0;
    while i < n
        invariant
            i <= n,
            n == kv_entries(*m).len(),
            out@ == old(out)@ + kv_lines(kv_entries(*m), i as int, indent as nat),
        decreases n - i,
    {
        let (k, v) = kv_get_index(m, i);
        push_pair_lines(out, indent, k.as_str(), v.as_str());
        i = i + 1;
        assert(out@ =~= old(out)@ + kv_lines(kv_entries(*m), i as int, indent as nat));
    }
}

/// The position of the first block named `name`, or -1.
pub open spec fn first_named(bs: Seq<VmfBlock>, name: Seq<char>) -> int
    decreases bs.len(),
{
    if bs.len() == 0 {
        -1
    } else {
        let j = first_named(bs.drop_last(), name);
        if j >= 0 {
            j
        } else if bs.last().name@ == name {
            bs.len() - 1
        } else {
            -1
        }
    }
}

pub proof fn lemma_first_named(bs: Seq<VmfBlock>, name: Seq<char>)
    ensures
        -1 <= first_named(bs, name) < bs.len(),
        first_named(bs, name) >= 0 ==> bs[first_named(bs, name)].name@ == name,
        first_named(bs, name) >= 0 ==> forall|j: int| 0 <= j < first_named(bs, name) ==> bs[j].name@ != name,
        first_named(bs, name) < 0 ==> forall|j: int| 0 <= j < bs.len() ==> bs[j].name@ != name,
    decreases bs.len(),
{
    if bs.len() > 0 {
        let t = bs.drop_last();
        lemma_first_named(t, name);
        assert(forall|j: int| 0 <= j < t.len() ==> t[j] == bs[j]);
    }
}

/// The position of the first block named `name`.
pub fn find_named(bs: &Vec<VmfBlock>, name: &str) -> (r: Option<usize>)
    ensures
        match r {
            Some(i) => first_named(bs@, name@) == i as int,
            None => first_named(bs@, name@) == -1,
        },
{
    proof {
        lemma_first_named(bs@, name@);
    }
    let mut i: usize = 0;
    while i < bs.len()
        invariant
            i <= bs.len(),
            forall|j: int| 0 <= j < i ==> bs@[j].name@ != name@,
        decreases bs.len() - i,
    {
        if bs[i].name_is(name) {
            proof {
                lemma_first_named(bs@, name@);
            }
            return Some(i);
        }
        i = i + 1;
    }
    None
}

impl VmfBlock {
    /// Whether the block is named `name`.
    pub fn name_is(&self, name: &str) -> (r: bool)
        ensures
            r == (self.name@ == name@),
    {
        self.name == name.to_string()
    }

    /// Serializes the block, its pairs and its children (one tab deeper) at
    /// the given indentation level. A value that joins the values of a
    /// repeated key is written as one line per value.
    pub fn serialize(&self, indent_level: usize) -> (r: String)
        requires
            indent_level + block_depth(*self) < usize::MAX,
        ensures
            r@ == block_text(*self, indent_level as nat),
        decreases self,
    {
        let mut out = String::new();
        self.serialize_into(&mut out, indent_level);
        assert(out@ =~= block_text(*self, indent_level as nat));
        out
    }

    fn serialize_into(&self, out: &mut String, indent_level: usize)
        requires
            indent_level + block_depth(*self) < usize::MAX,
        ensures
            final(out)@ == old(out)@ + block_text(*self, indent_level as nat),
        decreases self,
    {
        push_open(out, indent_level, self.name.as_str());
        push_kv_lines(out, &self.key_values, indent_level);
        let ghost mid = out@;
        let mut i: usize = 0;
        while i < self.blocks.len()
            invariant
                i <= self.blocks.len(),
                indent_level + block_depth(*self) < usize::MAX,
                out@ == mid + children_text(*self, i as int, (indent_level + 1) as nat),
            decreases self.blocks.len() - i,
        {
            proof {
                assert(decreases_to!(*self => self.blocks[i as int]));
                lemma_child_depth(*self, i as int, self.blocks.len() as int);
            }
            self.blocks[i].serialize_into(out, indent_level + 1);
            i = i + 1;
            assert(out@ =~= mid + children_text(*self, i as int, (indent_level + 1) as nat));
        }
        push_close(out, indent_level);
        assert(final(out)@ =~= old(out)@ + block_text(*self, indent_level as nat));
    }
}

} // verus!

verus! {

/// The blocks among the first `n` of `bs` that are named `name`, in order.
pub open spec fn named_prefix(bs: Seq<VmfBlock>, name: Seq<char>, n: int) -> Seq<VmfBlock>
    decreases n,
{
    if n <= 0 || n > bs.len() {
        Seq::empty()
    } else if bs[n - 1].name@ == name {
        named_prefix(bs, name, n - 1).push(bs[n - 1])
    } else {
        named_prefix(bs, name, n - 1)
    }
}

/// The position of the last block among the first `n` named `name`, or -1.
pub open spec fn last_named(bs: Seq<VmfBlock>, name: Seq<char>, n: int) -> int
    decreases n,
{
    if n <= 0 || n > bs.len() {
        -1
    } else if bs[n - 1].name@ == name {
        n - 1
    } else {
        last_named(bs, name, n - 1)
    }
}

/// The first children of the blocks among the first `n` of `bs` that are
/// named `hidden` and have a child, in order.
pub open spec fn hidden_prefix(bs: Seq<VmfBlock>, n: int) -> Seq<VmfBlock>
    decreases n,
{
    if n <= 0 || n > bs.len() {
        Seq::empty()
    } else if bs[n - 1].name@ == "hidden"@ && bs[n - 1].blocks.len() > 0 {
        hidden_prefix(bs, n - 1).push(bs[n - 1].blocks[0])
    } else {
        hidden_prefix(bs, n - 1)
    }
}

} // verus!

verus! {

/// The content of a block: its name, its pairs and the content of its children.
pub struct BlockShape {
    pub name: Seq<char>,
    pub entries: Seq<(Seq<char>, Seq<char>)>,
    pub children: Seq<BlockShape>,
}

/// The content of a block.
pub open spec fn shape_of(b: VmfBlock) -> BlockShape
    decreases b, 1int, 0int,
{
    BlockShape { name: b.name@, entries: kv_entries(b.key_values), children: child_shapes(b, b.blocks.len() as int) }
}

/// The content of the first `n` children of `b`.
pub open spec fn child_shapes(b: VmfBlock, n: int) -> Seq<BlockShape>
    decreases b, 0int, n,
{
    if n <= 0 || n > b.blocks.len() {
        Seq::empty()
    } else {
        child_shapes(b, n - 1).push(shape_of(b.blocks[n - 1]))
    }
}

/// The content of each block of a sequence.
pub open spec fn shapes(bs: Seq<VmfBlock>) -> Seq<BlockShape> {
    Seq::new(bs.len(), |k: int| shape_of(bs[k]))
}

pub proof fn lemma_child_shapes(b: VmfBlock, n: int)
    requires
        0 <= n <= b.blocks.len(),
    ensures
        child_shapes(b, n) == shapes(b.blocks@.take(n)),
    decreases n,
{
    if n > 0 {
        lemma_child_shapes(b, n - 1);
        assert(shapes(b.blocks@.take(n)) =~= shapes(b.blocks@.take(n - 1)).push(shape_of(b.blocks[n - 1])));
    } else {
        assert(shapes(b.blocks@.take(0)) =~= Seq::<BlockShape>::empty());
    }
}

} // verus!
