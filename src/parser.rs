//! Reading VMF text into a tree of generic blocks, and the document assembler.
use vstd::prelude::*;
use indexmap::IndexMap;
use crate::errors::{ParseError, ParseErrorKind};
use crate::kv::{after_insert, kv_entries, kv_get, kv_insert, kv_new, lookup};
use crate::text::chars_of;
use crate::{child_shapes, lemma_child_shapes, shape_of, shapes, BlockShape, VmfBlock};

verus! {

/// The character that joins the values of a key repeated within one block.
pub const JOIN_CHAR: char = '\r';

pub open spec fn is_space(c: char) -> bool {
    c == ' ' || c == '\t' || c == '\n' || c == '\r'
}

/// A character that may stand in a bare block name.
pub open spec fn is_name_char(c: char) -> bool {
    !is_space(c) && c != '{' && c != '}' && c != '"'
}

fn space(c: char) -> (r: bool)
    ensures
        r == is_space(c),
{
    c == ' ' || c == '\t' || c == '\n' || c == '\r'
}

fn name_char(c: char) -> (r: bool)
    ensures
        r == is_name_char(c),
{
    !space(c) && c != '{' && c != '}' && c != '"'
}

/// The first position at or after `i` that holds no whitespace.
pub open spec fn skip_ws(cs: Seq<char>, i: int) -> int
    decreases cs.len() - i,
{
    if 0 <= i < cs.len() && is_space(cs[i]) {
        skip_ws(cs, i + 1)
    } else {
        i
    }
}

/// The end of the run of name characters that starts at `i`.
pub open spec fn name_end(cs: Seq<char>, i: int) -> int
    decreases cs.len() - i,
{
    if 0 <= i < cs.len() && is_name_char(cs[i]) {
        name_end(cs, i + 1)
    } else {
        i
    }
}

/// The first position at or after `i` that holds a quote, or the length.
pub open spec fn quote_at(cs: Seq<char>, i: int) -> int
    decreases cs.len() - i,
{
    if i < 0 || i >= cs.len() {
        cs.len() as int
    } else if cs[i] == '"' {
        i
    } else {
        quote_at(cs, i + 1)
    }
}

pub proof fn lemma_skip_ws(cs: Seq<char>, i: int, j: int)
    requires
        0 <= i <= j <= cs.len(),
        forall|k: int| i <= k < j ==> is_space(#[trigger] cs[k]),
        j < cs.len() ==> !is_space(cs[j]),
    ensures
        skip_ws(cs, i) == j,
    decreases j - i,
{
    if i < j {
        lemma_skip_ws(cs, i + 1, j);
    }
}

pub proof fn lemma_name_end(cs: Seq<char>, i: int, j: int)
    requires
        0 <= i <= j <= cs.len(),
        forall|k: int| i <= k < j ==> is_name_char(#[trigger] cs[k]),
        j < cs.len() ==> !is_name_char(cs[j]),
    ensures
        name_end(cs, i) == j,
    decreases j - i,
{
    if i < j {
        lemma_name_end(cs, i + 1, j);
    }
}

pub proof fn lemma_quote_at(cs: Seq<char>, i: int, j: int)
    requires
        0 <= i <= j <= cs.len(),
        forall|k: int| i <= k < j ==> #[trigger] cs[k] != '"',
        j < cs.len() ==> cs[j] == '"',
    ensures
        quote_at(cs, i) == j,
    decreases j - i,
{
    if i < j {
        lemma_quote_at(cs, i + 1, j);
    }
}

/// Splitting the first `n` characters of `v` at each joining character:
/// the parts completed so far and the part being read.
pub open spec fn split_fold(v: Seq<char>, n: int) -> (Seq<Seq<char>>, Seq<char>)
    decreases n,
{
    if n <= 0 || n > v.len() {
        (Seq::empty(), Seq::empty())
    } else {
        let (ps, cur) = split_fold(v, n - 1);
        if v[n - 1] == JOIN_CHAR {
            (ps.push(cur), Seq::empty())
        } else {
            (ps, cur.push(v[n - 1]))
        }
    }
}

/// The parts of `v` between joining characters (one part when there is none).
pub open spec fn joined_parts(v: Seq<char>) -> Seq<Seq<char>> {
    let (ps, cur) = split_fold(v, v.len() as int);
    ps.push(cur)
}

/// A value without the joining character is its own single part.
pub proof fn lemma_single_part(v: Seq<char>)
    requires
        !v.contains(JOIN_CHAR),
    ensures
        joined_parts(v) == seq![v],
{
    lemma_split_plain(v, v.len() as int);
    assert(v.take(v.len() as int) =~= v);
    assert(Seq::<Seq<char>>::empty().push(v) =~= seq![v]);
}

proof fn lemma_split_plain(v: Seq<char>, n: int)
    requires
        0 <= n <= v.len(),
        !v.contains(JOIN_CHAR),
    ensures
        split_fold(v, n) == (Seq::<Seq<char>>::empty(), v.take(n)),
    decreases n,
{
    if n > 0 {
        lemma_split_plain(v, n - 1);
        assert(v[n - 1] != JOIN_CHAR);
        assert(v.take(n - 1).push(v[n - 1]) =~= v.take(n));
    } else {
        assert(v.take(0) =~= Seq::<char>::empty());
    }
}

/// The value stored for a key met again in the same block: the earlier
/// value, the joining character, then the new one.
pub open spec fn joined(old: Seq<char>, new: Seq<char>) -> Seq<char> {
    old.push(JOIN_CHAR) + new
}

/// The entries after reading the pair `(k, v)` in a block.
pub open spec fn after_pair(s: Seq<(Seq<char>, Seq<char>)>, k: Seq<char>, v: Seq<char>) -> Seq<(Seq<char>, Seq<char>)> {
    match lookup(s, k) {
        Some(o) => after_insert(s, k, joined(o, v)),
        None => after_insert(s, k, v),
    }
}

/// Removes the leading and trailing quote of a string that has both.
pub fn strip_quotes(s: &str) -> (r: String)
    ensures
        r@ == if s@.len() >= 2 && s@[0] == '"' && s@.last() == '"' {
            s@.subrange(1, s@.len() - 1)
        } else {
            s@
        },
{
    let cs = chars_of(s);
    let n = cs.len();
    if n >= 2 && cs[0] == '"' && cs[n - 1] == '"' {
        substring(&cs, 1, n - 1)
    } else {
        s.to_string()
    }
}

/// The characters `cs[from..to]` as a string.
fn substring(cs: &Vec<char>, from: usize, to: usize) -> (r: String)
    requires
        from <= to <= cs.len(),
    ensures
        r@ == cs@.subrange(from as int, to as int),
{
    let mut r = String::new();
    let mut i = from;
    while i < to
        invariant
            from <= i <= to <= cs.len(),
            r@ == cs@.subrange(from as int, i as int),
        decreases to - i,
    {
        r.push(cs[i]);
        i = i + 1;
        assert(r@ =~= cs@.subrange(from as int, i as int));
    }
    r
}

/// The first position at or after `i` that holds no whitespace.
fn skip_space(cs: &Vec<char>, i: usize) -> (j: usize)
    requires
        i <= cs.len(),
    ensures
        i <= j <= cs.len(),
        forall|k: int| i <= k < j ==> is_space(#[trigger] cs@[k]),
        j < cs.len() ==> !is_space(cs@[j as int]),
        j == skip_ws(cs@, i as int),
{
    let mut j = i;
    while j < cs.len() && space(cs[j])
        invariant
            i <= j <= cs.len(),
            forall|k: int| i <= k < j ==> is_space(#[trigger] cs@[k]),
        decreases cs.len() - j,
    {
        j = j + 1;
    }
    proof {
        lemma_skip_ws(cs@, i as int, j as int);
    }
    j
}

/// Reads the quoted string that opens at `i`: its content, and the position
/// after the closing quote.
fn read_quoted(cs: &Vec<char>, i: usize) -> (r: Result<(String, usize), ParseError>)
    requires
        i < cs.len(),
        cs@[i as int] == '"',
    ensures
        match r {
            Ok((s, j)) => i + 2 <= j <= cs.len() && cs@[j - 1] == '"'
                && s@ == cs@.subrange(i + 1, j - 1)
                && j - 1 == quote_at(cs@, i + 1),
            Err(e) => e.kind == ParseErrorKind::UnterminatedString && e.position == i
                && quote_at(cs@, i + 1) == cs.len(),
        },
{
    let mut j = i + 1;
    while j < cs.len() && cs[j] != '"'
        invariant
            i < j <= cs.len(),
            forall|k: int| i < k < j ==> #[trigger] cs@[k] != '"',
        decreases cs.len() - j,
    {
        j = j + 1;
    }
    proof {
        lemma_quote_at(cs@, i + 1, j as int);
    }
    if j == cs.len() {
        Err(ParseError { position: i, kind: ParseErrorKind::UnterminatedString })
    } else {
        let s = substring(cs, i + 1, j);
        Ok((s, j + 1))
    }
}

/// Reads the bare name that starts at `i`: the longest run of name characters.
fn read_name(cs: &Vec<char>, i: usize) -> (r: (String, usize))
    requires
        i <= cs.len(),
    ensures
        i <= r.1 <= cs.len(),
        r.0@ == cs@.subrange(i as int, r.1 as int),
        forall|k: int| i <= k < r.1 ==> is_name_char(#[trigger] cs@[k]),
        r.1 < cs.len() ==> !is_name_char(cs@[r.1 as int]),
        r.1 == name_end(cs@, i as int),
{
    let mut j = i;
    while j < cs.len() && name_char(cs[j])
        invariant
            i <= j <= cs.len(),
            forall|k: int| i <= k < j ==> is_name_char(#[trigger] cs@[k]),
        decreases cs.len() - j,
    {
        j = j + 1;
    }
    proof {
        lemma_name_end(cs@, i as int, j as int);
    }
    (substring(cs, i, j), j)
}

/// Stores a pair read in a block; a key met again keeps its place and its
/// values are joined.
pub fn add_pair(m: &mut IndexMap<String, String>, key: String, value: String)
    ensures
        kv_entries(*final(m)) == after_pair(kv_entries(*old(m)), key@, value@),
{
    let merged = match kv_get(m, key.as_str()) {
        Some(existing) => {
            let mut s = existing.clone();
            s.push(JOIN_CHAR);
            s.push_str(value.as_str());
            s
        },
        None => value,
    };
    kv_insert(m, key, merged);
}

/// The block that starts at `i` (after any whitespace), and the position
/// after its closing brace; none when the text there is no block.
pub open spec fn block_at(cs: Seq<char>, i: int) -> Option<(BlockShape, int)>
    decreases cs.len() - i, 0int,
{
    let s = skip_ws(cs, i);
    let e = name_end(cs, s);
    if i < 0 || i > cs.len() || s < i || e <= s {
        None
    } else {
        let o = skip_ws(cs, e);
        if o < e || o >= cs.len() || cs[o] != '{' {
            None
        } else {
            items(cs, o + 1, BlockShape { name: cs.subrange(s, e), entries: Seq::empty(), children: Seq::empty() })
        }
    }
}

/// Reads the pairs and child blocks from `p` to the closing brace, adding
/// them to `acc`.
pub open spec fn items(cs: Seq<char>, p: int, acc: BlockShape) -> Option<(BlockShape, int)>
    decreases cs.len() - p, 1int,
{
    let q = skip_ws(cs, p);
    if p < 0 || p > cs.len() || q < p || q >= cs.len() {
        None
    } else if cs[q] == '}' {
        Some((acc, q + 1))
    } else if cs[q] == '"' {
        let k = quote_at(cs, q + 1);
        let q2 = skip_ws(cs, k + 1);
        if k <= q || k >= cs.len() || q2 <= k || q2 >= cs.len() || cs[q2] != '"' {
            None
        } else {
            let k2 = quote_at(cs, q2 + 1);
            if k2 <= q2 || k2 >= cs.len() {
                None
            } else {
                items(
                    cs,
                    k2 + 1,
                    BlockShape {
                        entries: after_pair(acc.entries, cs.subrange(q + 1, k), cs.subrange(q2 + 1, k2)),
                        ..acc
                    },
                )
            }
        }
    } else if is_name_char(cs[q]) {
        match block_at(cs, q) {
            None => None,
            Some((c, j)) => if j <= q || j > cs.len() {
                None
            } else {
                items(cs, j, BlockShape { children: acc.children.push(c), ..acc })
            },
        }
    } else {
        None
    }
}

/// Reads the top-level blocks from `p` to the end of the text.
pub open spec fn top_blocks(cs: Seq<char>, p: int, acc: Seq<BlockShape>) -> Option<Seq<BlockShape>>
    decreases cs.len() - p,
{
    let q = skip_ws(cs, p);
    if p < 0 || p > cs.len() || q < p {
        None
    } else if q >= cs.len() {
        Some(acc)
    } else if !is_name_char(cs[q]) {
        None
    } else {
        match block_at(cs, q) {
            None => None,
            Some((b, j)) => if j <= q || j > cs.len() {
                None
            } else {
                top_blocks(cs, j, acc.push(b))
            },
        }
    }
}

/// The blocks that a text holds, in order; none when it is malformed.
pub open spec fn parse_text(s: Seq<char>) -> Option<Seq<BlockShape>> {
    top_blocks(s, 0, Seq::empty())
}

/// Reads the block whose name starts at `i` (after any whitespace): the
/// block, and the position after its closing brace. A key met twice keeps
/// its place, its values joined.
fn parse_block_at(cs: &Vec<char>, i: usize) -> (r: Result<(VmfBlock, usize), ParseError>)
    requires
        i <= cs.len(),
    ensures
        match r {
            Ok((b, j)) => i < j <= cs.len() && block_at(cs@, i as int) == Some((shape_of(b), j as int))
                && cs@[j - 1] == '}' && b.name@.len() > 0,
            Err(e) => e.position <= cs.len() && block_at(cs@, i as int) is None,
        },
    decreases cs.len() - i,
{
    let start = skip_space(cs, i);
    let (name, after_name) = read_name(cs, start);
    if after_name == start {
        let kind = if start == cs.len() {
            ParseErrorKind::UnexpectedEnd
        } else {
            ParseErrorKind::UnexpectedChar
        };
        return Err(ParseError { position: start, kind });
    }
    let open = skip_space(cs, after_name);
    if open == cs.len() {
        return Err(ParseError { position: open, kind: ParseErrorKind::UnexpectedEnd });
    }
    if cs[open] != '{' {
        return Err(ParseError { position: open, kind: ParseErrorKind::UnexpectedChar });
    }
    let mut key_values = kv_new();
    let mut blocks: Vec<VmfBlock> = Vec::new();
    assert(shapes(blocks@) =~= Seq::<BlockShape>::empty());
    let mut p = open + 1;
    loop
        invariant
            i < p <= cs.len(),
            name@.len() > 0,
            block_at(cs@, i as int) == items(
                cs@,
                p as int,
                BlockShape { name: name@, entries: kv_entries(key_values), children: shapes(blocks@) },
            ),
        decreases cs.len() - p,
    {
        let ghost acc = BlockShape { name: name@, entries: kv_entries(key_values), children: shapes(blocks@) };
        let ghost p0 = p as int;
        p = skip_space(cs, p);
        if p == cs.len() {
            return Err(ParseError { position: p, kind: ParseErrorKind::UnexpectedEnd });
        }
        let c = cs[p];
        if c == '}' {
            let b = VmfBlock { name, key_values, blocks };
            proof {
                lemma_child_shapes(b, b.blocks.len() as int);
                assert(b.blocks@.take(b.blocks.len() as int) =~= b.blocks@);
                assert(shape_of(b) == acc);
            }
            return Ok((b, p + 1));
        } else if c == '"' {
            let (key, after_key) = match read_quoted(cs, p) {
                Ok(x) => x,
                Err(e) => return Err(e),
            };
            let q = skip_space(cs, after_key);
            if q == cs.len() {
                return Err(ParseError { position: q, kind: ParseErrorKind::UnexpectedEnd });
            }
            if cs[q] != '"' {
                return Err(ParseError { position: q, kind: ParseErrorKind::UnexpectedChar });
            }
            let (value, after_value) = match read_quoted(cs, q) {
                Ok(x) => x,
                Err(e) => return Err(e),
            };
            add_pair(&mut key_values, key, value);
            p = after_value;
            assert(shapes(blocks@) == acc.children);
        } else if name_char(c) {
            let (child, after_child) = match parse_block_at(cs, p) {
                Ok(x) => x,
                Err(e) => return Err(e),
            };
            let ghost before = blocks@;
            blocks.push(child);
            proof {
                assert(shapes(blocks@) =~= shapes(before).push(shape_of(child)));
            }
            p = after_child;
        } else {
            return Err(ParseError { position: p, kind: ParseErrorKind::UnexpectedChar });
        }
    }
}

/// Whether the text holds only whitespace.
pub open spec fn all_space(s: Seq<char>) -> bool {
    forall|k: int| 0 <= k < s.len() ==> is_space(#[trigger] s[k])
}

/// Whether the last character of the text that is not whitespace closes a block.
pub open spec fn ends_with_close(s: Seq<char>) -> bool {
    exists|j: int| 0 <= j < s.len() && s[j] == '}' && forall|k: int| j < k < s.len() ==> is_space(#[trigger] s[k])
}

/// Whether the first character of the text that is not whitespace may
/// start a block name.
pub open spec fn starts_with_name(s: Seq<char>) -> bool {
    exists|j: int| 0 <= j < s.len() && is_name_char(s[j]) && forall|k: int| 0 <= k < j ==> is_space(#[trigger] s[k])
}

/// Reads the top-level blocks of a text, in order, as `parse_text` describes
/// them. In particular a text that is not all whitespace fails unless it
/// starts with a block name and its last character other than whitespace is
/// a closing brace.
pub fn parse_blocks(input: &str) -> (r: Result<Vec<VmfBlock>, ParseError>)
    ensures
        match r {
            Ok(bs) => parse_text(input@) == Some(shapes(bs@)),
            Err(_) => parse_text(input@) is None,
        },
        r matches Ok(bs) ==> forall|k: int| 0 <= k < bs.len() ==> (#[trigger] bs[k]).name@.len() > 0,
        r is Ok ==> all_space(input@) || ends_with_close(input@),
        r is Ok ==> all_space(input@) || starts_with_name(input@),
{
    let cs = chars_of(input);
    let mut blocks: Vec<VmfBlock> = Vec::new();
    assert(shapes(blocks@) =~= Seq::<BlockShape>::empty());
    let mut p: usize = 0;
    loop
        invariant
            p <= cs.len(),
            cs@ == input@,
            p == 0 || cs@[p - 1] == '}',
            p > 0 ==> starts_with_name(input@),
            forall|k: int| 0 <= k < blocks.len() ==> (#[trigger] blocks[k]).name@.len() > 0,
            parse_text(input@) == top_blocks(cs@, p as int, shapes(blocks@)),
        decreases cs.len() - p,
    {
        let start = p;
        p = skip_space(&cs, p);
        if p == cs.len() {
            proof {
                if start == 0 {
                    assert(all_space(input@));
                } else {
                    assert(cs@[start - 1] == '}');
                    assert(forall|k: int| start - 1 < k < cs@.len() ==> is_space(#[trigger] cs@[k]));
                    assert(ends_with_close(input@));
                }
            }
            return Ok(blocks);
        }
        if cs[p] == '}' {
            return Err(ParseError { position: p, kind: ParseErrorKind::UnbalancedClose });
        }
        if !name_char(cs[p]) {
            return Err(ParseError { position: p, kind: ParseErrorKind::UnexpectedChar });
        }
        assert(start == 0 ==> starts_with_name(input@));
        let (b, after) = match parse_block_at(&cs, p) {
            Ok(x) => x,
            Err(e) => return Err(e),
        };
        let ghost before = blocks@;
        blocks.push(b);
        proof {
            assert(shapes(blocks@) =~= shapes(before).push(shape_of(b)));
        }
        p = after;
    }
}

} // verus!

verus! {

/// Parses a VMF text into a document: reads its top-level blocks, then
/// assembles them (see `VmfFile::assemble`). An unterminated text fails with
/// a parse error.
pub fn parse_vmf(input: &str) -> (r: crate::errors::VmfResult<crate::vmf_file::VmfFile>)
    ensures
        (parse_text(input@) is None) ==> r matches Err(crate::errors::VmfError::Parse(_)),
        r matches Ok(f) ==> exists|bs: Seq<VmfBlock>| parse_text(input@) == Some(shapes(bs))
            && crate::vmf_file::blocks_ok(bs, bs.len() as int) && #[trigger] crate::vmf_file::document_of(bs, bs.len() as int, f),
        (r is Err && parse_text(input@) is Some) ==> exists|bs: Seq<VmfBlock>| parse_text(input@) == Some(shapes(bs))
            && !#[trigger] crate::vmf_file::blocks_ok(bs, bs.len() as int),
        (r is Err && parse_text(input@) is Some) ==> exists|bs: Seq<VmfBlock>, i: int|
            parse_text(input@) == Some(shapes(bs)) && #[trigger] crate::vmf_file::fails_first_at(bs, i, r->Err_0@),
        r matches Ok(f) ==> f.path is None,
        !(all_space(input@) || ends_with_close(input@)) ==> r matches Err(crate::errors::VmfError::Parse(_)),
        !(all_space(input@) || starts_with_name(input@)) ==> r matches Err(crate::errors::VmfError::Parse(_)),
{
    let blocks = match parse_blocks(input) {
        Ok(b) => b,
        Err(p) => return Err(crate::errors::VmfError::Parse(p)),
    };
    let ghost bs = blocks@;
    let r = crate::vmf_file::VmfFile::assemble(blocks);
    proof {
        if r is Err {
            let e = r->Err_0;
            let i = choose|i: int| #[trigger] crate::vmf_file::fails_first_at(bs, i, e@);
            assert(parse_text(input@) == Some(shapes(bs)) && crate::vmf_file::fails_first_at(bs, i, e@));
        }
    }
    r
}

} // verus!
