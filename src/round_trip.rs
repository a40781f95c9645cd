//! Reading back the text of a block gives the block again.
use vstd::prelude::*;
use crate::kv::{key_index, kv_entries, lemma_key_index, lookup};
use crate::parser::{
    after_pair, block_at, is_name_char, is_space, items, lemma_name_end, lemma_quote_at,
    lemma_skip_ws, name_end, parse_text, quote_at, skip_ws, top_blocks,
};
use crate::text::{close_line, kv_line, open_lines, tabs};
use crate::{block_text, child_shapes, children_text, kv_lines, shape_of, BlockShape, VmfBlock};

verus! {

/// `t` stands in `cs` at position `p`.
pub open spec fn at(cs: Seq<char>, p: int, t: Seq<char>) -> bool {
    0 <= p && p + t.len() <= cs.len() && cs.subrange(p, p + t.len() as int) == t
}

/// A text that may stand between quotes.
pub open spec fn quotable(s: Seq<char>) -> bool {
    forall|k: int| 0 <= k < s.len() ==> s[k] != '"'
}

/// Whether the pairs have distinct keys, quotable keys and values, and
/// values without the joining character.
pub open spec fn entries_ok(s: Seq<(Seq<char>, Seq<char>)>) -> bool {
    &&& forall|a: int, b: int| 0 <= a < b < s.len() ==> s[a].0 != s[b].0
    &&& forall|a: int| 0 <= a < s.len() ==> quotable(#[trigger] s[a].0) && quotable(s[a].1)
        && !s[a].1.contains(crate::parser::JOIN_CHAR)
}

/// Whether a block can be written and read back: a non-empty name of name
/// characters, pairs with distinct quotable keys and quotable values, and
/// children of the same kind.
pub open spec fn block_ok(b: VmfBlock) -> bool
    decreases b, 1int,
{
    &&& b.name@.len() > 0
    &&& forall|k: int| 0 <= k < b.name@.len() ==> is_name_char(#[trigger] b.name@[k])
    &&& entries_ok(kv_entries(b.key_values))
    &&& children_ok(b, b.blocks.len() as int)
}

pub open spec fn children_ok(b: VmfBlock, n: int) -> bool
    decreases b, 0int, n,
{
    if n <= 0 || n > b.blocks.len() {
        true
    } else {
        children_ok(b, n - 1) && block_ok(b.blocks[n - 1])
    }
}

proof fn lemma_at_split(cs: Seq<char>, p: int, a: Seq<char>, b: Seq<char>)
    requires
        at(cs, p, a + b),
    ensures
        at(cs, p, a),
        at(cs, p + a.len(), b),
{
    let w = cs.subrange(p, p + (a + b).len());
    assert(w == a + b);
    assert forall|k: int| 0 <= k < a.len() implies cs[p + k] == a[k] by {
        assert(w[k] == cs[p + k]);
        assert((a + b)[k] == a[k]);
    }
    assert(cs.subrange(p, p + a.len() as int) =~= a);
    assert forall|k: int| 0 <= k < b.len() implies cs[p + a.len() + k] == b[k] by {
        assert(w[a.len() + k] == cs[p + a.len() + k]);
        assert((a + b)[a.len() + k] == b[k]);
    }
    assert(cs.subrange(p + a.len(), p + a.len() + b.len()) =~= b);
}

proof fn lemma_at_index(cs: Seq<char>, p: int, t: Seq<char>, k: int)
    requires
        at(cs, p, t),
        0 <= k < t.len(),
    ensures
        cs[p + k] == t[k],
{
    assert(cs.subrange(p, p + t.len() as int)[k] == cs[p + k]);
}

proof fn lemma_tabs(n: nat)
    ensures
        tabs(n).len() == n,
        forall|k: int| 0 <= k < n ==> #[trigger] tabs(n)[k] == '\t',
    decreases n,
{
    if n > 0 {
        lemma_tabs((n - 1) as nat);
    }
}

/// Moving over one whitespace character does not change what follows.
proof fn lemma_items_space(cs: Seq<char>, p: int, acc: BlockShape)
    requires
        0 <= p < cs.len(),
        is_space(cs[p]),
    ensures
        items(cs, p, acc) == items(cs, p + 1, acc),
{
    assert(skip_ws(cs, p) == skip_ws(cs, p + 1));
    lemma_skip_ge(cs, p + 1);
}

proof fn lemma_skip_ge(cs: Seq<char>, i: int)
    requires
        0 <= i <= cs.len(),
    ensures
        i <= skip_ws(cs, i) <= cs.len(),
    decreases cs.len() - i,
{
    if i < cs.len() && is_space(cs[i]) {
        lemma_skip_ge(cs, i + 1);
    }
}

/// Moving over several whitespace characters.
proof fn lemma_items_spaces(cs: Seq<char>, p: int, n: int, acc: BlockShape)
    requires
        0 <= p,
        0 <= n,
        p + n < cs.len(),
        forall|k: int| p <= k < p + n ==> is_space(#[trigger] cs[k]),
    ensures
        items(cs, p, acc) == items(cs, p + n, acc),
    decreases n,
{
    if n > 0 {
        lemma_items_space(cs, p, acc);
        lemma_items_spaces(cs, p + 1, n - 1, acc);
    }
}

} // verus!

verus! {

proof fn lemma_literals()
    ensures
        "\t\""@ == seq!['\t', '"'],
        "\" \""@ == seq!['"', ' ', '"'],
        "\"\n"@ == seq!['"', '\n'],
        "\n"@ == seq!['\n'],
        "{\n"@ == seq!['{', '\n'],
        "}\n"@ == seq!['}', '\n'],
{
    reveal_strlit("\t\"");
    reveal_strlit("\" \"");
    reveal_strlit("\"\n");
    reveal_strlit("\n");
    reveal_strlit("{\n");
    reveal_strlit("}\n");
}

/// Reading the line of a pair adds the pair.
proof fn lemma_items_pair(cs: Seq<char>, p: int, d: nat, k: Seq<char>, v: Seq<char>, acc: BlockShape)
    requires
        at(cs, p, kv_line(d, k, v)),
        quotable(k),
        quotable(v),
    ensures
        kv_line(d, k, v).len() == d + k.len() + v.len() + 7,
        cs[p + kv_line(d, k, v).len() - 1] == '\n',
        items(cs, p, acc) == items(
            cs,
            p + kv_line(d, k, v).len() - 1,
            BlockShape { entries: after_pair(acc.entries, k, v), ..acc },
        ),
{
    reveal(kv_line);
    lemma_literals();
    lemma_tabs(d);
    let a = "\t\""@;
    let b = "\" \""@;
    let c = "\"\n"@;
    let t0 = tabs(d);
    lemma_at_split(cs, p, t0 + a + k + b + v, c);
    lemma_at_split(cs, p, t0 + a + k + b, v);
    lemma_at_split(cs, p, t0 + a + k, b);
    lemma_at_split(cs, p, t0 + a, k);
    lemma_at_split(cs, p, t0, a);
    let q = p + d + 1;
    let ke = q + 1 + k.len();
    let q2 = ke + 2;
    let k2 = q2 + 1 + v.len();
    assert forall|i: int| p <= i < q implies is_space(#[trigger] cs[i]) by {
        if i < p + d {
            lemma_at_index(cs, p, t0, i - p);
        } else {
            lemma_at_index(cs, p + d, a, 0);
        }
    }
    lemma_at_index(cs, p + d, a, 1);
    lemma_skip_ws(cs, p, q);
    assert forall|i: int| q + 1 <= i < ke implies #[trigger] cs[i] != '"' by {
        lemma_at_index(cs, q + 1, k, i - q - 1);
    }
    lemma_at_index(cs, ke, b, 0);
    lemma_at_index(cs, ke, b, 1);
    lemma_at_index(cs, ke, b, 2);
    lemma_quote_at(cs, q + 1, ke);
    assert forall|i: int| ke + 1 <= i < q2 implies is_space(#[trigger] cs[i]) by {}
    lemma_skip_ws(cs, ke + 1, q2);
    assert forall|i: int| q2 + 1 <= i < k2 implies #[trigger] cs[i] != '"' by {
        lemma_at_index(cs, q2 + 1, v, i - q2 - 1);
    }
    lemma_at_index(cs, k2, c, 0);
    lemma_at_index(cs, k2, c, 1);
    lemma_quote_at(cs, q2 + 1, k2);
    assert(cs.subrange(q + 1, ke) == k);
    assert(cs.subrange(q2 + 1, k2) == v);
}

} // verus!

verus! {

proof fn lemma_fresh_key(s: Seq<(Seq<char>, Seq<char>)>, n: int)
    requires
        entries_ok(s),
        0 <= n < s.len(),
    ensures
        after_pair(s.take(n), s[n].0, s[n].1) == s.take(n + 1),
{
    let t = s.take(n);
    lemma_key_index(t, s[n].0);
    assert(key_index(t, s[n].0) < 0);
    assert(lookup(t, s[n].0) is None);
    assert(t.push((s[n].0, s[n].1)) =~= s.take(n + 1));
}

/// Reading the lines of the first `n` pairs adds those pairs.
proof fn lemma_items_lines(cs: Seq<char>, p: int, s: Seq<(Seq<char>, Seq<char>)>, n: int, d: nat, acc: BlockShape)
    requires
        0 <= n <= s.len(),
        entries_ok(s),
        at(cs, p, kv_lines(s, n, d)),
        p + kv_lines(s, n, d).len() < cs.len(),
    ensures
        items(cs, p, BlockShape { entries: Seq::empty(), ..acc })
            == items(cs, p + kv_lines(s, n, d).len(), BlockShape { entries: s.take(n), ..acc }),
    decreases n,
{
    if n == 0 {
        assert(s.take(0) =~= Seq::<(Seq<char>, Seq<char>)>::empty());
    } else {
        let l1 = kv_lines(s, n - 1, d);
        let line = kv_line(d, s[n - 1].0, s[n - 1].1);
        assert(!s[n - 1].1.contains(crate::parser::JOIN_CHAR));
        crate::lemma_pair_lines_plain(d, s[n - 1].0, s[n - 1].1);
        lemma_at_split(cs, p, l1, line);
        lemma_items_lines(cs, p, s, n - 1, d, acc);
        assert(quotable(s[n - 1].0) && quotable(s[n - 1].1));
        let a1 = BlockShape { entries: s.take(n - 1), ..acc };
        lemma_items_pair(cs, p + l1.len(), d, s[n - 1].0, s[n - 1].1, a1);
        lemma_fresh_key(s, n - 1);
        let a2 = BlockShape { entries: s.take(n), ..acc };
        lemma_items_space(cs, p + l1.len() + line.len() - 1, a2);
    }
}

/// Reading a block at the start of its text gives its content, and the
/// position after its closing brace.
proof fn lemma_block_at(cs: Seq<char>, p: int, b: VmfBlock, d: nat)
    requires
        block_ok(b),
        at(cs, p, block_text(b, d)),
    ensures
        block_text(b, d).len() >= 2,
        cs[p + block_text(b, d).len() - 1] == '\n',
        block_at(cs, p) == Some((shape_of(b), p + block_text(b, d).len() - 1)),
    decreases b, 1int,
{
    reveal(open_lines);
    reveal(close_line);
    lemma_literals();
    lemma_tabs(d);
    let name = b.name@;
    let e = kv_entries(b.key_values);
    let lines = kv_lines(e, e.len() as int, d);
    let kids = children_text(b, b.blocks.len() as int, d + 1);
    let t0 = tabs(d);
    let ol = t0 + name + "\n"@ + t0 + "{\n"@;
    let cl = t0 + "}\n"@;
    assert(block_text(b, d) == ol + lines + kids + cl);
    lemma_at_split(cs, p, ol + lines + kids, cl);
    lemma_at_split(cs, p, ol + lines, kids);
    lemma_at_split(cs, p, ol, lines);
    lemma_at_split(cs, p, t0 + name + "\n"@ + t0, "{\n"@);
    lemma_at_split(cs, p, t0 + name + "\n"@, t0);
    lemma_at_split(cs, p, t0 + name, "\n"@);
    lemma_at_split(cs, p, t0, name);
    let s = p + d;
    let en = s + name.len();
    let o = en + 1 + d;
    assert forall|i: int| p <= i < s implies is_space(#[trigger] cs[i]) by {
        lemma_at_index(cs, p, t0, i - p);
    }
    lemma_at_index(cs, s, name, 0);
    lemma_skip_ws(cs, p, s);
    assert forall|i: int| s <= i < en implies is_name_char(#[trigger] cs[i]) by {
        lemma_at_index(cs, s, name, i - s);
    }
    lemma_at_index(cs, en, "\n"@, 0);
    lemma_name_end(cs, s, en);
    assert(cs.subrange(s, en) == name);
    assert forall|i: int| en <= i < o implies is_space(#[trigger] cs[i]) by {
        if i > en {
            lemma_at_index(cs, en + 1, t0, i - en - 1);
        }
    }
    lemma_at_index(cs, o, "{\n"@, 0);
    lemma_at_index(cs, o, "{\n"@, 1);
    lemma_skip_ws(cs, en, o);
    let p1 = p + ol.len();
    let p2 = p1 + lines.len();
    let p3 = p2 + kids.len();
    let acc0 = BlockShape { name: name, entries: Seq::empty(), children: Seq::empty() };
    assert(block_at(cs, p) == items(cs, o + 1, acc0));
    lemma_items_space(cs, o + 1, acc0);
    assert(o + 2 == p1);
    lemma_at_index(cs, p3, cl, 0);
    lemma_items_lines(cs, p1, e, e.len() as int, d, acc0);
    assert(e.take(e.len() as int) =~= e);
    let acc1 = BlockShape { name: name, entries: e, children: Seq::empty() };
    lemma_items_children(cs, p2, b, b.blocks.len() as int, d, acc1);
    let acc2 = BlockShape { name: name, entries: e, children: child_shapes(b, b.blocks.len() as int) };
    assert forall|i: int| p3 <= i < p3 + d implies is_space(#[trigger] cs[i]) by {
        lemma_at_index(cs, p3, cl, i - p3);
    }
    lemma_at_index(cs, p3, cl, d as int);
    lemma_at_index(cs, p3, cl, d + 1int);
    lemma_skip_ws(cs, p3, p3 + d);
    assert(items(cs, p3, acc2) == Some((acc2, p3 + d + 1)));
    assert(acc2 == shape_of(b));
}

/// Reading the texts of the first `n` children of `b` adds their contents.
proof fn lemma_items_children(cs: Seq<char>, p: int, b: VmfBlock, n: int, d: nat, acc: BlockShape)
    requires
        0 <= n <= b.blocks.len(),
        children_ok(b, n),
        at(cs, p, children_text(b, n, d + 1)),
        acc.children == Seq::<BlockShape>::empty(),
        p + children_text(b, n, d + 1).len() < cs.len(),
    ensures
        items(cs, p, acc) == items(cs, p + children_text(b, n, d + 1).len(), BlockShape { children: child_shapes(b, n), ..acc }),
    decreases b, 0int, n,
{
    if n == 0 {
        assert(acc == BlockShape { children: child_shapes(b, 0), ..acc });
    } else {
        let c = b.blocks[n - 1];
        let l1 = children_text(b, n - 1, d + 1);
        let t = block_text(c, d + 1);
        lemma_at_split(cs, p, l1, t);
        lemma_items_children(cs, p, b, n - 1, d, acc);
        assert(decreases_to!(b => c));
        lemma_block_at(cs, p + l1.len(), c, d + 1);
        let q0 = p + l1.len();
        let a1 = BlockShape { children: child_shapes(b, n - 1), ..acc };
        reveal(open_lines);
        lemma_tabs(d + 1);
        let name = c.name@;
        assert(t == tabs(d + 1) + name + "\n"@ + tabs(d + 1) + "{\n"@
            + kv_lines(kv_entries(c.key_values), kv_entries(c.key_values).len() as int, d + 1)
            + children_text(c, c.blocks.len() as int, d + 2) + close_line(d + 1));
        assert forall|i: int| q0 <= i < q0 + d + 1 implies is_space(#[trigger] cs[i]) by {
            lemma_at_index(cs, q0, t, i - q0);
        }
        lemma_at_index(cs, q0, t, d + 1int);
        let q = q0 + d + 1;
        assert(block_ok(c));
        assert(t[d + 1int] == name[0]);
        assert(is_name_char(name[0]));
        lemma_skip_ws(cs, q0, q);
        assert(is_name_char(cs[q]));
        assert(skip_ws(cs, q) == q);
        lemma_skip_ws(cs, q, q);
        assert(block_at(cs, q) == block_at(cs, q0));
        let j = q0 + t.len() - 1;
        let a2 = BlockShape { children: child_shapes(b, n), ..acc };
        assert(items(cs, q0, a1) == items(cs, j, a2));
        lemma_items_space(cs, j, a2);
    }
}

} // verus!

verus! {

/// The texts of the first `n` blocks, one after another at the top level.
pub open spec fn blocks_text(bs: Seq<VmfBlock>, n: int) -> Seq<char>
    decreases n,
{
    if n <= 0 || n > bs.len() {
        Seq::empty()
    } else {
        blocks_text(bs, n - 1) + block_text(bs[n - 1], 0)
    }
}

proof fn lemma_top_space(cs: Seq<char>, p: int, acc: Seq<BlockShape>)
    requires
        0 <= p < cs.len(),
        is_space(cs[p]),
    ensures
        top_blocks(cs, p, acc) == top_blocks(cs, p + 1, acc),
{
    assert(skip_ws(cs, p) == skip_ws(cs, p + 1));
    lemma_skip_ge(cs, p + 1);
}

proof fn lemma_top(cs: Seq<char>, bs: Seq<VmfBlock>, n: int)
    requires
        0 <= n <= bs.len(),
        forall|i: int| 0 <= i < bs.len() ==> block_ok(#[trigger] bs[i]),
        at(cs, 0, blocks_text(bs, n)),
    ensures
        top_blocks(cs, 0, Seq::empty()) == top_blocks(cs, blocks_text(bs, n).len() as int, crate::shapes(bs.take(n))),
    decreases n,
{
    if n == 0 {
        assert(crate::shapes(bs.take(0)) =~= Seq::<BlockShape>::empty());
    } else {
        let b = bs[n - 1];
        let l1 = blocks_text(bs, n - 1);
        let t = block_text(b, 0);
        lemma_at_split(cs, 0, l1, t);
        lemma_top(cs, bs, n - 1);
        let pp = l1.len() as int;
        lemma_block_at(cs, pp, b, 0);
        reveal(open_lines);
        lemma_tabs(0);
        assert(tabs(0) =~= Seq::<char>::empty());
        assert(t[0] == b.name@[0]) by {
            assert(t == tabs(0) + b.name@ + "\n"@ + tabs(0) + "{\n"@
                + kv_lines(kv_entries(b.key_values), kv_entries(b.key_values).len() as int, 0)
                + children_text(b, b.blocks.len() as int, 1) + close_line(0));
        }
        lemma_at_index(cs, pp, t, 0);
        assert(is_name_char(cs[pp]));
        lemma_skip_ws(cs, pp, pp);
        let j = pp + t.len() - 1;
        let a0 = crate::shapes(bs.take(n - 1));
        let a1 = crate::shapes(bs.take(n));
        assert(a1 =~= a0.push(shape_of(b)));
        assert(top_blocks(cs, pp, a0) == top_blocks(cs, j, a1));
        lemma_top_space(cs, j, a1);
    }
}

/// Writing blocks one after another at the top level and reading the text
/// back gives the same blocks, when each has a name of name characters and
/// distinct keys, and no key or value holds a quote.
pub proof fn lemma_blocks_round_trip(bs: Seq<VmfBlock>)
    requires
        forall|i: int| 0 <= i < bs.len() ==> block_ok(#[trigger] bs[i]),
    ensures
        parse_text(blocks_text(bs, bs.len() as int)) == Some(crate::shapes(bs)),
{
    let cs = blocks_text(bs, bs.len() as int);
    assert(cs.subrange(0, cs.len() as int) =~= cs);
    lemma_top(cs, bs, bs.len() as int);
    assert(bs.take(bs.len() as int) =~= bs);
    lemma_skip_ws(cs, cs.len() as int, cs.len() as int);
}

} // verus!
