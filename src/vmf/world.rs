//! The world block: solids, their sides and displacements, and groups.
use vstd::prelude::*;
use indexmap::IndexMap;
use crate::errors::{float_error, int_error, missing_key, ErrorView, VmfError, VmfResult};
use crate::kv::{
    flag_field, flag_of, int_field, kv_entries, kv_get, kv_get_index, kv_len, list_entries,
    list_get_index, list_insert, list_len, list_new, lookup, opt_int_field, opt_unsigned_field,
    text_field, text_of, unsigned_field, after_insert,
};
use crate::text::{
    chars_of, close_line, flag_text, int_in_range, int_text, is_float, is_float_text, kv_line,
    nat_string, open_lines, opt_line, parse_signed, parse_unsigned, push_close, push_flag_line,
    push_kv_line, push_nat, push_nat_line, push_open,
};
use crate::vmf::common::{editor_of, editor_text, Editor};
use crate::{find_named, first_named, VmfBlock, VmfSerializable};

verus! {

/// Represents rows of data for displacement information, such as normals,
/// distances, offsets, etc.
#[derive(Debug, Default, Clone, PartialEq, Eq)]
pub struct DispRows {
    /// The rows of data, each represented as a string.
    pub rows: Vec<String>,
}

/// The largest row index that a `row<N>` key may carry: one less than the
/// largest `usize`, so that the grown list's length still fits.
pub const MAX_ROW_INDEX: usize = usize::MAX - 1;

/// `rows` with row `i` set to `v`, growing with empty rows as needed.
pub open spec fn set_row(rows: Seq<Seq<char>>, i: int, v: Seq<char>) -> Seq<Seq<char>> {
    if i < rows.len() {
        rows.update(i, v)
    } else {
        (rows + Seq::new((i - rows.len()) as nat, |j: int| Seq::<char>::empty())).push(v)
    }
}

pub open spec fn row_prefix() -> Seq<char> {
    seq!['r', 'o', 'w']
}

/// The rows that the first `n` pairs of a rows block give: each key
/// `row<N>` sets row `N`; other keys are ignored.
pub open spec fn rows_spec(s: Seq<(Seq<char>, Seq<char>)>, n: int) -> Result<Seq<Seq<char>>, ErrorView>
    decreases n,
{
    if n <= 0 || n > s.len() {
        Ok(Seq::empty())
    } else {
        match rows_spec(s, n - 1) {
            Err(e) => Err(e),
            Ok(rows) => {
                let k = s[n - 1].0;
                if k.len() >= 3 && k.subrange(0, 3) == row_prefix() {
                    let t = k.subrange(3, k.len() as int);
                    match int_in_range(t, 0, MAX_ROW_INDEX as int) {
                        Some(i) => Ok(set_row(rows, i, s[n - 1].1)),
                        None => Err(ErrorView::ParseInt { key: k, text: t }),
                    }
                } else {
                    Ok(rows)
                }
            },
        }
    }
}

pub open spec fn rows_view(r: DispRows) -> Seq<Seq<char>> {
    r.rows@.map_values(|s: String| s@)
}

/// The key `row<i>`.
pub open spec fn row_key(i: int) -> Seq<char> {
    "row"@ + int_text(i)
}

/// The lines of the first `n` rows.
pub open spec fn row_lines(rows: Seq<Seq<char>>, n: int, indent: nat) -> Seq<char>
    decreases n,
{
    if n <= 0 || n > rows.len() {
        Seq::empty()
    } else {
        row_lines(rows, n - 1, indent) + kv_line(indent, row_key(n - 1), rows[n - 1])
    }
}

/// The text of a rows block named `name` at depth `indent`.
pub open spec fn rows_text(r: DispRows, name: Seq<char>, indent: nat) -> Seq<char> {
    open_lines(indent, name) + row_lines(rows_view(r), r.rows.len() as int, indent) + close_line(indent)
}

/// Whether the key starts with `row`.
fn is_row_key(k: &Vec<char>) -> (r: bool)
    ensures
        r == (k@.len() >= 3 && k@.subrange(0, 3) == row_prefix()),
{
    if k.len() >= 3 && k[0] == 'r' && k[1] == 'o' && k[2] == 'w' {
        assert(k@.subrange(0, 3) =~= row_prefix());
        true
    } else {
        if k.len() >= 3 {
            assert(k@.subrange(0, 3)[0] == k@[0]);
            assert(k@.subrange(0, 3)[1] == k@[1]);
            assert(k@.subrange(0, 3)[2] == k@[2]);
        }
        false
    }
}

fn tail_string(k: &Vec<char>, from: usize) -> (r: String)
    requires
        from <= k.len(),
    ensures
        r@ == k@.subrange(from as int, k.len() as int),
{
    let mut r = String::new();
    let mut i = from;
    while i < k.len()
        invariant
            from <= i <= k.len(),
            r@ == k@.subrange(from as int, i as int),
        decreases k.len() - i,
    {
        r.push(k[i]);
        i = i + 1;
        assert(r@ =~= k@.subrange(from as int, i as int));
    }
    r
}

proof fn lemma_rows_err(s: Seq<(Seq<char>, Seq<char>)>, m: int, n: int)
    requires
        0 < m <= n <= s.len(),
        rows_spec(s, m) is Err,
    ensures
        rows_spec(s, n) == rows_spec(s, m),
    decreases n - m,
{
    if m < n {
        lemma_rows_err(s, m, n - 1);
    }
}

impl DispRows {
    /// Reads the rows of a rows block: each `row<N>` key sets row `N`, and
    /// rows that no key sets are empty.
    pub fn read(b: &VmfBlock) -> (r: VmfResult<DispRows>)
        ensures
            match r {
                Ok(d) => rows_spec(kv_entries(b.key_values), kv_entries(b.key_values).len() as int)
                    == Ok::<Seq<Seq<char>>, ErrorView>(rows_view(d)),
                Err(e) => rows_spec(kv_entries(b.key_values), kv_entries(b.key_values).len() as int)
                    == Err::<Seq<Seq<char>>, ErrorView>(e@),
            },
    {
        let ghost s = kv_entries(b.key_values);
        let n = kv_len(&b.key_values);
        let mut rows: Vec<String> = Vec::new();
        assert(rows@.map_values(|x: String| x@) =~= Seq::<Seq<char>>::empty());
        let mut i: usize = 0;
        while i < n
            invariant
                i <= n,
                n == s.len(),
                s == kv_entries(b.key_values),
                rows_spec(s, i as int) == Ok::<Seq<Seq<char>>, ErrorView>(rows@.map_values(|x: String| x@)),
            decreases n - i,
        {
            let (k, v) = kv_get_index(&b.key_values, i);
            let kc = chars_of(k.as_str());
            if is_row_key(&kc) {
                let t = tail_string(&kc, 3);
                match parse_unsigned(t.as_str(), MAX_ROW_INDEX as u64) {
                    Some(idx) => {
                        let idx = idx as usize;
                        let ghost before = rows@.map_values(|x: String| x@);
                        while rows.len() <= idx
                            invariant
                                idx < usize::MAX,
                                before.len() <= rows.len(),
                                rows.len() <= idx + 1 || rows.len() == before.len(),
                                forall|j: int| 0 <= j < before.len() ==> rows@.map_values(|x: String| x@)[j] == before[j],
                                forall|j: int| before.len() <= j < rows.len() ==> rows@[j]@ == Seq::<char>::empty(),
                            decreases idx + 1 - rows.len(),
                        {
                            rows.push(String::new());
                        }
                        rows.set(idx, v.clone());
                        proof {
                            assert(rows@.map_values(|x: String| x@) =~= set_row(before, idx as int, v@));
                        }
                    },
                    None => {
                        let e = int_error(k.as_str(), t.as_str());
                        proof {
                            lemma_rows_err(s, i as int + 1, n as int);
                        }
                        return Err(e);
                    },
                }
            }
            i = i + 1;
        }
        Ok(DispRows { rows })
    }

    /// Converts a rows block.
    pub fn from_block(block: VmfBlock) -> (r: VmfResult<DispRows>)
        ensures
            match r {
                Ok(d) => rows_spec(kv_entries(block.key_values), kv_entries(block.key_values).len() as int)
                    == Ok::<Seq<Seq<char>>, ErrorView>(rows_view(d)),
                Err(e) => rows_spec(kv_entries(block.key_values), kv_entries(block.key_values).len() as int)
                    == Err::<Seq<Seq<char>>, ErrorView>(e@),
            },
    {
        DispRows::read(&block)
    }

    fn write(&self, out: &mut String, indent_level: usize, name: &str)
        ensures
            final(out)@ == old(out)@ + rows_text(*self, name@, indent_level as nat),
    {
        push_open(out, indent_level, name);
        let ghost mid = out@;
        let mut i: usize = 0;
        while i < self.rows.len()
            invariant
                i <= self.rows.len(),
                out@ == mid + row_lines(rows_view(*self), i as int, indent_level as nat),
            decreases self.rows.len() - i,
        {
            let mut key = "row".to_string();
            push_nat(&mut key, i as u64);
            push_kv_line(out, indent_level, key.as_str(), self.rows[i].as_str());
            i = i + 1;
            assert(out@ =~= mid + row_lines(rows_view(*self), i as int, indent_level as nat));
        }
        push_close(out, indent_level);
        assert(final(out)@ =~= old(out)@ + rows_text(*self, name@, indent_level as nat));
    }

    /// Serializes the rows as a block named `name`, one `row<N>` line per row.
    pub fn to_vmf_string(&self, indent_level: usize, name: &str) -> (r: String)
        ensures
            r@ == rows_text(*self, name@, indent_level as nat),
    {
        let mut out = String::new();
        self.write(&mut out, indent_level, name);
        assert(out@ =~= rows_text(*self, name@, indent_level as nat));
        out
    }
}

pub open spec fn is_blank(c: char) -> bool {
    c == ' ' || c == '\t' || c == '\n' || c == '\r' || c == '\x0B' || c == '\x0C'
}

/// Splitting the first `n` characters into words: the words completed so
/// far, and the word being read.
pub open spec fn split_words(s: Seq<char>, n: int) -> (Seq<Seq<char>>, Seq<char>)
    decreases n,
{
    if n <= 0 || n > s.len() {
        (Seq::empty(), Seq::empty())
    } else {
        let (ws, cur) = split_words(s, n - 1);
        if is_blank(s[n - 1]) {
            if cur.len() > 0 {
                (ws.push(cur), Seq::empty())
            } else {
                (ws, cur)
            }
        } else {
            (ws, cur.push(s[n - 1]))
        }
    }
}

/// The words of `s`: its maximal runs of non-blank characters.
pub open spec fn words(s: Seq<char>) -> Seq<Seq<char>> {
    let (ws, cur) = split_words(s, s.len() as int);
    if cur.len() > 0 {
        ws.push(cur)
    } else {
        ws
    }
}

/// The integers that the words `ws` denote, or the first word that is none.
pub open spec fn ints_of(ws: Seq<Seq<char>>) -> Result<Seq<i32>, Seq<char>>
    decreases ws.len(),
{
    if ws.len() == 0 {
        Ok(Seq::empty())
    } else {
        match ints_of(ws.drop_last()) {
            Err(w) => Err(w),
            Ok(vs) => match int_in_range(ws.last(), i32::MIN as int, i32::MAX as int) {
                Some(v) => Ok(vs.push(v as i32)),
                None => Err(ws.last()),
            },
        }
    }
}

/// The allowed vertices of the first `n` pairs, or the error of the first
/// word that is no `i32`.
pub open spec fn verts_spec(s: Seq<(Seq<char>, Seq<char>)>, n: int) -> Result<Seq<(Seq<char>, Seq<i32>)>, ErrorView>
    decreases n,
{
    if n <= 0 || n > s.len() {
        Ok(Seq::empty())
    } else {
        match verts_spec(s, n - 1) {
            Err(e) => Err(e),
            Ok(m) => match ints_of(words(s[n - 1].1)) {
                Err(w) => Err(ErrorView::ParseInt { key: w, text: w }),
                Ok(vs) => Ok(after_insert(m, s[n - 1].0, vs)),
            },
        }
    }
}

/// The integers joined by single spaces.
pub open spec fn join_ints(vs: Seq<i32>) -> Seq<char>
    decreases vs.len(),
{
    if vs.len() == 0 {
        Seq::empty()
    } else if vs.len() == 1 {
        int_text(vs[0] as int)
    } else {
        join_ints(vs.drop_last()) + seq![' '] + int_text(vs.last() as int)
    }
}

pub open spec fn verts_lines(m: Seq<(Seq<char>, Seq<i32>)>, n: int, indent: nat) -> Seq<char>
    decreases n,
{
    if n <= 0 || n > m.len() {
        Seq::empty()
    } else {
        verts_lines(m, n - 1, indent) + kv_line(indent, m[n - 1].0, join_ints(m[n - 1].1))
    }
}

pub open spec fn verts_text(m: Seq<(Seq<char>, Seq<i32>)>, indent: nat) -> Seq<char> {
    open_lines(indent, "allowed_verts"@) + verts_lines(m, m.len() as int, indent) + close_line(indent)
}

/// Reads the integers of a whitespace-separated list.
fn parse_ints(text: &String) -> (r: Result<Vec<i32>, String>)
    ensures
        match r {
            Ok(v) => ints_of(words(text@)) == Ok::<Seq<i32>, Seq<char>>(v@),
            Err(w) => ints_of(words(text@)) == Err::<Seq<i32>, Seq<char>>(w@),
        },
{
    let cs = chars_of(text.as_str());
    let mut out: Vec<i32> = Vec::new();
    let mut cur = String::new();
    let mut i: usize = 0;
    while i < cs.len()
        invariant
            i <= cs.len(),
            cs@ == text@,
            split_words(cs@, i as int).1 == cur@,
            ints_of(split_words(cs@, i as int).0) == Ok::<Seq<i32>, Seq<char>>(out@),
        decreases cs.len() - i,
    {
        let c = cs[i];
        if c == ' ' || c == '\t' || c == '\n' || c == '\r' || c == '\x0B' || c == '\x0C' {
            if cur.unicode_len() > 0 {
                let ghost ws = split_words(cs@, i as int).0;
                match parse_signed(cur.as_str(), i32::MIN as i64, i32::MAX as i64) {
                    Some(v) => {
                        out.push(v as i32);
                        proof {
                            assert(ws.push(cur@).drop_last() =~= ws);
                        }
                    },
                    None => {
                        proof {
                            assert(ws.push(cur@).drop_last() =~= ws);
                            lemma_ints_of_prefix_err(cs@, i as int + 1);
                        }
                        return Err(cur);
                    },
                }
                cur = String::new();
            }
        } else {
            cur.push(c);
        }
        i = i + 1;
    }
    assert(cs@.len() == text@.len());
    if cur.unicode_len() > 0 {
        let ghost ws = split_words(cs@, i as int).0;
        proof {
            assert(ws.push(cur@).drop_last() =~= ws);
        }
        match parse_signed(cur.as_str(), i32::MIN as i64, i32::MAX as i64) {
            Some(v) => {
                out.push(v as i32);
                Ok(out)
            },
            None => Err(cur),
        }
    } else {
        Ok(out)
    }
}

/// Once a completed word fails, the list fails with it.
proof fn lemma_ints_of_prefix_err(s: Seq<char>, n: int)
    requires
        0 <= n <= s.len(),
        ints_of(split_words(s, n).0) is Err,
    ensures
        ints_of(words(s)) == ints_of(split_words(s, n).0),
    decreases s.len() - n,
{
    if n < s.len() {
        let (ws, cur) = split_words(s, n);
        let (ws2, cur2) = split_words(s, n + 1);
        if is_blank(s[n]) && cur.len() > 0 {
            assert(ws2.drop_last() =~= ws);
        }
        lemma_ints_of_prefix_err(s, n + 1);
    } else {
        let (ws, cur) = split_words(s, n);
        if cur.len() > 0 {
            assert(ws.push(cur).drop_last() =~= ws);
        }
    }
}

} // verus!

verus! {

/// Reads the allowed vertices of an `allowed_verts` block.
fn read_verts(b: &VmfBlock) -> (r: VmfResult<IndexMap<String, Vec<i32>>>)
    ensures
        match r {
            Ok(m) => verts_spec(kv_entries(b.key_values), kv_entries(b.key_values).len() as int)
                == Ok::<Seq<(Seq<char>, Seq<i32>)>, ErrorView>(list_entries(m)),
            Err(e) => verts_spec(kv_entries(b.key_values), kv_entries(b.key_values).len() as int)
                == Err::<Seq<(Seq<char>, Seq<i32>)>, ErrorView>(e@),
        },
{
    let ghost s = kv_entries(b.key_values);
    let n = kv_len(&b.key_values);
    let mut m = list_new();
    let mut i: usize = 0;
    while i < n
        invariant
            i <= n,
            n == s.len(),
            s == kv_entries(b.key_values),
            verts_spec(s, i as int) == Ok::<Seq<(Seq<char>, Seq<i32>)>, ErrorView>(list_entries(m)),
        decreases n - i,
    {
        let (k, v) = kv_get_index(&b.key_values, i);
        match parse_ints(v) {
            Ok(vs) => {
                list_insert(&mut m, k.clone(), vs);
            },
            Err(w) => {
                proof {
                    lemma_verts_err(s, i as int + 1, n as int);
                }
                return Err(int_error(w.as_str(), w.as_str()));
            },
        }
        i = i + 1;
    }
    Ok(m)
}

proof fn lemma_verts_err(s: Seq<(Seq<char>, Seq<char>)>, m: int, n: int)
    requires
        0 < m <= n <= s.len(),
        verts_spec(s, m) is Err,
    ensures
        verts_spec(s, n) == verts_spec(s, m),
    decreases n - m,
{
    if m < n {
        lemma_verts_err(s, m, n - 1);
    }
}

/// Appends the integers joined by single spaces.
fn push_joined(out: &mut String, vs: &Vec<i32>)
    ensures
        final(out)@ == old(out)@ + join_ints(vs@),
{
    let mut i: usize = 0;
    while i < vs.len()
        invariant
            i <= vs.len(),
            out@ == old(out)@ + join_ints(vs@.take(i as int)),
        decreases vs.len() - i,
    {
        if i > 0 {
            out.push(' ');
        }
        crate::text::push_int(out, vs[i] as i64);
        i = i + 1;
        proof {
            let t = vs@.take(i as int);
            assert(t.drop_last() =~= vs@.take(i - 1));
        }
        assert(out@ =~= old(out)@ + join_ints(vs@.take(i as int)));
    }
    assert(vs@.take(vs.len() as int) =~= vs@);
}

fn write_verts(out: &mut String, m: &IndexMap<String, Vec<i32>>, indent_level: usize)
    ensures
        final(out)@ == old(out)@ + verts_text(list_entries(*m), indent_level as nat),
{
    push_open(out, indent_level, "allowed_verts");
    let ghost mid = out@;
    let n = list_len(m);
    let mut i: usize = 0;
    while i < n
        invariant
            i <= n,
            n == list_entries(*m).len(),
            out@ == mid + verts_lines(list_entries(*m), i as int, indent_level as nat),
        decreases n - i,
    {
        let (k, vs) = list_get_index(m, i);
        let mut line = String::new();
        push_joined(&mut line, vs);
        assert(line@ =~= join_ints(vs@));
        push_kv_line(out, indent_level, k.as_str(), line.as_str());
        i = i + 1;
        assert(out@ =~= mid + verts_lines(list_entries(*m), i as int, indent_level as nat));
    }
    push_close(out, indent_level);
    assert(final(out)@ =~= old(out)@ + verts_text(list_entries(*m), indent_level as nat));
}

/// Represents the displacement information for a side.
#[derive(Debug, Default, Clone, PartialEq)]
pub struct DispInfo {
    /// The power of the displacement map (2, 3, or 4).
    pub power: u8,
    /// The starting position of the displacement.
    pub start_position: String,
    /// Flags for the displacement.
    pub flags: Option<u32>,
    /// The elevation of the displacement, as the decimal text it was given in.
    pub elevation: String,
    /// Whether the displacement is subdivided.
    pub subdiv: bool,
    /// The normals for each vertex in the displacement.
    pub normals: DispRows,
    /// The distances for each vertex in the displacement.
    pub distances: DispRows,
    /// The offsets for each vertex in the displacement.
    pub offsets: DispRows,
    /// The offset normals for each vertex in the displacement.
    pub offset_normals: DispRows,
    /// The alpha values for each vertex in the displacement.
    pub alphas: DispRows,
    /// The triangle tags for the displacement.
    pub triangle_tags: DispRows,
    /// The allowed vertices for the displacement.
    pub allowed_verts: IndexMap<String, Vec<i32>>,
}

pub open spec fn block_rows(b: VmfBlock) -> Result<Seq<Seq<char>>, ErrorView> {
    rows_spec(kv_entries(b.key_values), kv_entries(b.key_values).len() as int)
}

pub open spec fn missing_block_message(name: Seq<char>) -> Seq<char> {
    "Missing "@ + name + " block in dispinfo"@
}

/// The rows of the first child named `name`, or none when there is none.
pub open spec fn optional_rows(bs: Seq<VmfBlock>, name: Seq<char>) -> Result<Seq<Seq<char>>, ErrorView> {
    let i = first_named(bs, name);
    if i >= 0 {
        block_rows(bs[i])
    } else {
        Ok(Seq::empty())
    }
}

pub open spec fn elevation_field(s: Seq<(Seq<char>, Seq<char>)>) -> Result<Seq<char>, ErrorView> {
    match lookup(s, "elevation"@) {
        None => Err(missing_key("elevation"@)),
        Some(t) => if is_float_text(t) {
            Ok(t)
        } else {
            Err(ErrorView::ParseFloat { key: "elevation"@, text: t })
        },
    }
}

/// The error of the first check that a `dispinfo` block fails, in the order
/// the conversion makes them.
pub open spec fn dispinfo_error(b: VmfBlock) -> Option<ErrorView> {
    let bs = b.blocks@;
    let s = kv_entries(b.key_values);
    if first_named(bs, "normals"@) < 0 {
        Some(ErrorView::InvalidFormat(missing_block_message("normals"@)))
    } else if first_named(bs, "distances"@) < 0 {
        Some(ErrorView::InvalidFormat(missing_block_message("distances"@)))
    } else if first_named(bs, "alphas"@) < 0 {
        Some(ErrorView::InvalidFormat(missing_block_message("alphas"@)))
    } else if first_named(bs, "triangle_tags"@) < 0 {
        Some(ErrorView::InvalidFormat(missing_block_message("triangle_tags"@)))
    } else if first_named(bs, "allowed_verts"@) < 0 {
        Some(ErrorView::InvalidFormat(missing_block_message("allowed_verts"@)))
    } else if optional_rows(bs, "offsets"@) is Err {
        Some(optional_rows(bs, "offsets"@)->Err_0)
    } else if optional_rows(bs, "offset_normals"@) is Err {
        Some(optional_rows(bs, "offset_normals"@)->Err_0)
    } else if int_field(s, "power"@, 0, u8::MAX as int) is Err {
        Some(int_field(s, "power"@, 0, u8::MAX as int)->Err_0)
    } else if text_field(s, "startposition"@) is Err {
        Some(text_field(s, "startposition"@)->Err_0)
    } else if elevation_field(s) is Err {
        Some(elevation_field(s)->Err_0)
    } else if flag_field(s, "subdiv"@) is Err {
        Some(flag_field(s, "subdiv"@)->Err_0)
    } else if block_rows(bs[first_named(bs, "normals"@)]) is Err {
        Some(block_rows(bs[first_named(bs, "normals"@)])->Err_0)
    } else if block_rows(bs[first_named(bs, "distances"@)]) is Err {
        Some(block_rows(bs[first_named(bs, "distances"@)])->Err_0)
    } else if block_rows(bs[first_named(bs, "alphas"@)]) is Err {
        Some(block_rows(bs[first_named(bs, "alphas"@)])->Err_0)
    } else if block_rows(bs[first_named(bs, "triangle_tags"@)]) is Err {
        Some(block_rows(bs[first_named(bs, "triangle_tags"@)])->Err_0)
    } else {
        let v = bs[first_named(bs, "allowed_verts"@)];
        match verts_spec(kv_entries(v.key_values), kv_entries(v.key_values).len() as int) {
            Err(e) => Some(e),
            Ok(_) => None,
        }
    }
}

pub open spec fn opt_u32(v: Option<int>) -> Option<u32> {
    match v {
        Some(n) => Some(n as u32),
        None => None,
    }
}

/// `d` is the displacement that a `dispinfo` block without errors describes.
pub open spec fn dispinfo_of(b: VmfBlock, d: DispInfo) -> bool {
    let bs = b.blocks@;
    let s = kv_entries(b.key_values);
    let v = bs[first_named(bs, "allowed_verts"@)];
    &&& int_field(s, "power"@, 0, u8::MAX as int) == Ok::<int, ErrorView>(d.power as int)
    &&& lookup(s, "startposition"@) == Some(d.start_position@)
    &&& d.flags == opt_u32(opt_int_field(s, "flags"@, 0, u32::MAX as int))
    &&& elevation_field(s) == Ok::<Seq<char>, ErrorView>(d.elevation@)
    &&& flag_field(s, "subdiv"@) == Ok::<bool, ErrorView>(d.subdiv)
    &&& block_rows(bs[first_named(bs, "normals"@)]) == Ok::<Seq<Seq<char>>, ErrorView>(rows_view(d.normals))
    &&& block_rows(bs[first_named(bs, "distances"@)]) == Ok::<Seq<Seq<char>>, ErrorView>(rows_view(d.distances))
    &&& optional_rows(bs, "offsets"@) == Ok::<Seq<Seq<char>>, ErrorView>(rows_view(d.offsets))
    &&& optional_rows(bs, "offset_normals"@) == Ok::<Seq<Seq<char>>, ErrorView>(rows_view(d.offset_normals))
    &&& block_rows(bs[first_named(bs, "alphas"@)]) == Ok::<Seq<Seq<char>>, ErrorView>(rows_view(d.alphas))
    &&& block_rows(bs[first_named(bs, "triangle_tags"@)]) == Ok::<Seq<Seq<char>>, ErrorView>(rows_view(d.triangle_tags))
    &&& verts_spec(kv_entries(v.key_values), kv_entries(v.key_values).len() as int)
        == Ok::<Seq<(Seq<char>, Seq<i32>)>, ErrorView>(list_entries(d.allowed_verts))
}

pub open spec fn opt_u32_text(v: Option<u32>) -> Option<Seq<char>> {
    match v {
        Some(n) => Some(int_text(n as int)),
        None => None,
    }
}

/// The text of a `dispinfo` block at depth `indent`.
pub open spec fn dispinfo_text(d: DispInfo, indent: nat) -> Seq<char> {
    dispinfo_head(d, indent) + dispinfo_body(d, indent + 1) + close_line(indent)
}

/// The opening lines and the pairs of a `dispinfo` block.
pub open spec fn dispinfo_head(d: DispInfo, indent: nat) -> Seq<char> {
    open_lines(indent, "dispinfo"@)
        + kv_line(indent, "power"@, int_text(d.power as int))
        + kv_line(indent, "startposition"@, d.start_position@)
        + opt_line(indent, "flags"@, opt_u32_text(d.flags))
        + kv_line(indent, "elevation"@, d.elevation@)
        + kv_line(indent, "subdiv"@, flag_text(d.subdiv))
}

/// The child blocks of a `dispinfo` block, each at depth `indent`.
pub open spec fn dispinfo_body(d: DispInfo, indent: nat) -> Seq<char> {
    rows_text(d.normals, "normals"@, indent)
        + rows_text(d.distances, "distances"@, indent)
        + rows_text(d.offsets, "offsets"@, indent)
        + rows_text(d.offset_normals, "offset_normals"@, indent)
        + rows_text(d.alphas, "alphas"@, indent)
        + rows_text(d.triangle_tags, "triangle_tags"@, indent)
        + verts_text(list_entries(d.allowed_verts), indent)
}

fn missing_block(name: &str) -> (e: VmfError)
    ensures
        e@ == ErrorView::InvalidFormat(missing_block_message(name@)),
{
    let mut m = "Missing ".to_string();
    m.push_str(name);
    m.push_str(" block in dispinfo");
    VmfError::InvalidFormat(m)
}

fn required_block(bs: &Vec<VmfBlock>, name: &str) -> (r: VmfResult<usize>)
    ensures
        match r {
            Ok(i) => first_named(bs@, name@) == i as int && i < bs.len(),
            Err(e) => first_named(bs@, name@) < 0 && e@ == ErrorView::InvalidFormat(missing_block_message(name@)),
        },
{
    proof {
        crate::lemma_first_named(bs@, name@);
    }
    match find_named(bs, name) {
        Some(i) => Ok(i),
        None => Err(missing_block(name)),
    }
}

fn optional_block_rows(bs: &Vec<VmfBlock>, name: &str) -> (r: VmfResult<DispRows>)
    ensures
        match r {
            Ok(d) => optional_rows(bs@, name@) == Ok::<Seq<Seq<char>>, ErrorView>(rows_view(d)),
            Err(e) => optional_rows(bs@, name@) == Err::<Seq<Seq<char>>, ErrorView>(e@),
        },
{
    proof {
        crate::lemma_first_named(bs@, name@);
    }
    match find_named(bs, name) {
        Some(i) => DispRows::read(&bs[i]),
        None => {
            let d = DispRows { rows: Vec::new() };
            assert(rows_view(d) =~= Seq::<Seq<char>>::empty());
            Ok(d)
        },
    }
}

fn elevation_of(kv: &IndexMap<String, String>) -> (r: VmfResult<String>)
    ensures
        match r {
            Ok(t) => elevation_field(kv_entries(*kv)) == Ok::<Seq<char>, ErrorView>(t@),
            Err(e) => elevation_field(kv_entries(*kv)) == Err::<Seq<char>, ErrorView>(e@),
        },
{
    let t = text_of(kv, "elevation")?;
    if is_float(t.as_str()) {
        Ok(t)
    } else {
        Err(float_error("elevation", t.as_str()))
    }
}

impl DispInfo {
    fn read(b: &VmfBlock) -> (r: VmfResult<DispInfo>)
        ensures
            r is Err <==> dispinfo_error(*b) is Some,
            r matches Err(e) ==> dispinfo_error(*b) == Some(e@),
            r matches Ok(d) ==> dispinfo_of(*b, d),
    {
        let bs = &b.blocks;
        let normals_i = required_block(bs, "normals")?;
        let distances_i = required_block(bs, "distances")?;
        let alphas_i = required_block(bs, "alphas")?;
        let triangle_tags_i = required_block(bs, "triangle_tags")?;
        let allowed_verts_i = required_block(bs, "allowed_verts")?;
        let offsets = optional_block_rows(bs, "offsets")?;
        let offset_normals = optional_block_rows(bs, "offset_normals")?;
        let kv = &b.key_values;
        let power = unsigned_field(kv, "power", u8::MAX as u64)?;
        let start_position = text_of(kv, "startposition")?;
        let flags = match opt_unsigned_field(kv, "flags", u32::MAX as u64) {
            Some(f) => Some(f as u32),
            None => None,
        };
        let elevation = elevation_of(kv)?;
        let subdiv = flag_of(kv, "subdiv")?;
        let normals = DispRows::read(&bs[normals_i])?;
        let distances = DispRows::read(&bs[distances_i])?;
        let alphas = DispRows::read(&bs[alphas_i])?;
        let triangle_tags = DispRows::read(&bs[triangle_tags_i])?;
        let allowed_verts = read_verts(&bs[allowed_verts_i])?;
        Ok(DispInfo {
            power: power as u8,
            start_position,
            flags,
            elevation,
            subdiv,
            normals,
            distances,
            offsets,
            offset_normals,
            alphas,
            triangle_tags,
            allowed_verts,
        })
    }

    /// Converts a `dispinfo` block. The `normals`, `distances`, `alphas`,
    /// `triangle_tags` and `allowed_verts` child blocks are required;
    /// `offsets` and `offset_normals` may be absent (empty rows).
    pub fn from_block(block: VmfBlock) -> (r: VmfResult<DispInfo>)
        ensures
            r is Err <==> dispinfo_error(block) is Some,
            r matches Err(e) ==> dispinfo_error(block) == Some(e@),
            r matches Ok(d) ==> dispinfo_of(block, d),
    {
        DispInfo::read(&block)
    }

    fn write(&self, out: &mut String, indent_level: usize)
        requires
            indent_level + 1 < usize::MAX,
        ensures
            final(out)@ == old(out)@ + dispinfo_text(*self, indent_level as nat),
    {
        self.write_head(out, indent_level);
        self.write_body(out, indent_level + 1);
        push_close(out, indent_level);
        assert(final(out)@ =~= old(out)@ + dispinfo_text(*self, indent_level as nat));
    }

    fn write_head(&self, out: &mut String, indent_level: usize)
        ensures
            final(out)@ == old(out)@ + dispinfo_head(*self, indent_level as nat),
    {
        push_open(out, indent_level, "dispinfo");
        push_nat_line(out, indent_level, "power", self.power as u64);
        push_kv_line(out, indent_level, "startposition", self.start_position.as_str());
        if let Some(f) = self.flags {
            push_nat_line(out, indent_level, "flags", f as u64);
        }
        push_kv_line(out, indent_level, "elevation", self.elevation.as_str());
        push_flag_line(out, indent_level, "subdiv", self.subdiv);
        assert(final(out)@ =~= old(out)@ + dispinfo_head(*self, indent_level as nat));
    }

    fn write_body(&self, out: &mut String, indent_level: usize)
        ensures
            final(out)@ == old(out)@ + dispinfo_body(*self, indent_level as nat),
    {
        self.normals.write(out, indent_level, "normals");
        self.distances.write(out, indent_level, "distances");
        self.offsets.write(out, indent_level, "offsets");
        self.offset_normals.write(out, indent_level, "offset_normals");
        self.alphas.write(out, indent_level, "alphas");
        self.triangle_tags.write(out, indent_level, "triangle_tags");
        write_verts(out, &self.allowed_verts, indent_level);
        assert(final(out)@ =~= old(out)@ + dispinfo_body(*self, indent_level as nat));
    }
}

impl VmfSerializable for DispInfo {
    open spec fn vmf_text(&self, indent: nat) -> Seq<char> {
        dispinfo_text(*self, indent)
    }

    open spec fn vmf_depth(&self) -> nat {
        2
    }

    fn to_vmf_string(&self, indent_level: usize) -> (r: String) {
        let mut out = String::new();
        self.write(&mut out, indent_level);
        assert(out@ =~= dispinfo_text(*self, indent_level as nat));
        out
    }
}

} // verus!

verus! {

/// Represents a side of a solid object in the VMF world.
#[derive(Debug, Default, Clone, PartialEq)]
pub struct Side {
    /// The unique ID of the side.
    pub id: u32,
    /// The plane equation of the side.
    pub plane: String,
    /// The material used on the side.
    pub material: String,
    /// The U axis of the texture coordinates.
    pub u_axis: String,
    /// The V axis of the texture coordinates.
    pub v_axis: String,
    /// The rotation of the texture, as the decimal text it was given in.
    pub rotation: Option<String>,
    /// The scale of the lightmap.
    pub lightmap_scale: u16,
    /// The smoothing groups that this side belongs to.
    pub smoothing_groups: i32,
    /// flags
    pub flags: Option<u32>,
    /// The displacement info of the side, if any.
    pub dispinfo: Option<DispInfo>,
}

/// An optional float field: its text when it reads as a float, else none.
pub open spec fn opt_float_field(s: Seq<(Seq<char>, Seq<char>)>, key: Seq<char>) -> Option<Seq<char>> {
    match lookup(s, key) {
        Some(t) => if is_float_text(t) {
            Some(t)
        } else {
            None
        },
        None => None,
    }
}

/// The error of the first check that a `side` block fails.
pub open spec fn side_error(b: VmfBlock) -> Option<ErrorView> {
    let s = kv_entries(b.key_values);
    let d = first_named(b.blocks@, "dispinfo"@);
    if text_field(s, "plane"@) is Err {
        Some(text_field(s, "plane"@)->Err_0)
    } else if text_field(s, "material"@) is Err {
        Some(text_field(s, "material"@)->Err_0)
    } else if text_field(s, "uaxis"@) is Err {
        Some(text_field(s, "uaxis"@)->Err_0)
    } else if text_field(s, "vaxis"@) is Err {
        Some(text_field(s, "vaxis"@)->Err_0)
    } else if int_field(s, "id"@, 0, u32::MAX as int) is Err {
        Some(int_field(s, "id"@, 0, u32::MAX as int)->Err_0)
    } else if int_field(s, "lightmapscale"@, 0, u16::MAX as int) is Err {
        Some(int_field(s, "lightmapscale"@, 0, u16::MAX as int)->Err_0)
    } else if int_field(s, "smoothing_groups"@, i32::MIN as int, i32::MAX as int) is Err {
        Some(int_field(s, "smoothing_groups"@, i32::MIN as int, i32::MAX as int)->Err_0)
    } else if d >= 0 {
        dispinfo_error(b.blocks[d])
    } else {
        None
    }
}

/// `sd` is the side that a `side` block without errors describes.
pub open spec fn side_of(b: VmfBlock, sd: Side) -> bool {
    let s = kv_entries(b.key_values);
    let d = first_named(b.blocks@, "dispinfo"@);
    &&& lookup(s, "plane"@) == Some(sd.plane@)
    &&& lookup(s, "material"@) == Some(sd.material@)
    &&& lookup(s, "uaxis"@) == Some(sd.u_axis@)
    &&& lookup(s, "vaxis"@) == Some(sd.v_axis@)
    &&& int_field(s, "id"@, 0, u32::MAX as int) == Ok::<int, ErrorView>(sd.id as int)
    &&& int_field(s, "lightmapscale"@, 0, u16::MAX as int) == Ok::<int, ErrorView>(sd.lightmap_scale as int)
    &&& int_field(s, "smoothing_groups"@, i32::MIN as int, i32::MAX as int) == Ok::<int, ErrorView>(sd.smoothing_groups as int)
    &&& crate::vmf::common::opt_view(sd.rotation) == opt_float_field(s, "rotation"@)
    &&& sd.flags == opt_u32(opt_int_field(s, "flags"@, 0, u32::MAX as int))
    &&& if d >= 0 {
        sd.dispinfo is Some && dispinfo_of(b.blocks[d], sd.dispinfo->0)
    } else {
        sd.dispinfo is None
    }
}

pub open spec fn side_head(sd: Side, indent: nat) -> Seq<char> {
    open_lines(indent, "side"@)
        + kv_line(indent, "id"@, int_text(sd.id as int))
        + kv_line(indent, "plane"@, sd.plane@)
        + kv_line(indent, "material"@, sd.material@)
        + kv_line(indent, "uaxis"@, sd.u_axis@)
        + kv_line(indent, "vaxis"@, sd.v_axis@)
        + opt_line(indent, "rotation"@, crate::vmf::common::opt_view(sd.rotation))
        + kv_line(indent, "lightmapscale"@, int_text(sd.lightmap_scale as int))
        + kv_line(indent, "smoothing_groups"@, int_text(sd.smoothing_groups as int))
        + opt_line(indent, "flags"@, opt_u32_text(sd.flags))
}

/// The text of a `side` block at depth `indent`.
pub open spec fn side_text(sd: Side, indent: nat) -> Seq<char> {
    side_head(sd, indent)
        + match sd.dispinfo {
            Some(d) => dispinfo_text(d, indent + 1),
            None => Seq::empty(),
        }
        + close_line(indent)
}

fn rotation_of(kv: &IndexMap<String, String>) -> (r: Option<String>)
    ensures
        crate::vmf::common::opt_view(r) == opt_float_field(kv_entries(*kv), "rotation"@),
{
    match kv_get(kv, "rotation") {
        Some(t) => if is_float(t.as_str()) {
            Some(t.clone())
        } else {
            None
        },
        None => None,
    }
}

impl Side {
    fn read(b: &VmfBlock) -> (r: VmfResult<Side>)
        ensures
            r is Err <==> side_error(*b) is Some,
            r matches Err(e) ==> side_error(*b) == Some(e@),
            r matches Ok(sd) ==> side_of(*b, sd),
    {
        let kv = &b.key_values;
        let d = find_named(&b.blocks, "dispinfo");
        proof {
            crate::lemma_first_named(b.blocks@, "dispinfo"@);
        }
        let plane = text_of(kv, "plane")?;
        let material = text_of(kv, "material")?;
        let u_axis = text_of(kv, "uaxis")?;
        let v_axis = text_of(kv, "vaxis")?;
        let id = unsigned_field(kv, "id", u32::MAX as u64)?;
        let lightmap_scale = unsigned_field(kv, "lightmapscale", u16::MAX as u64)?;
        let smoothing_groups = crate::kv::signed_field(kv, "smoothing_groups", i32::MIN as i64, i32::MAX as i64)?;
        let rotation = rotation_of(kv);
        let flags = match opt_unsigned_field(kv, "flags", u32::MAX as u64) {
            Some(f) => Some(f as u32),
            None => None,
        };
        let dispinfo = match d {
            Some(i) => Some(DispInfo::read(&b.blocks[i])?),
            None => None,
        };
        Ok(Side {
            id: id as u32,
            plane,
            material,
            u_axis,
            v_axis,
            rotation,
            lightmap_scale: lightmap_scale as u16,
            smoothing_groups: smoothing_groups as i32,
            flags,
            dispinfo,
        })
    }

    /// Converts a `side` block. `plane`, `material`, `uaxis`, `vaxis`, `id`,
    /// `lightmapscale` and `smoothing_groups` are required; `rotation` and
    /// `flags` count as absent when malformed; the first `dispinfo` child,
    /// if any, gives the displacement.
    pub fn from_block(block: VmfBlock) -> (r: VmfResult<Side>)
        ensures
            r is Err <==> side_error(block) is Some,
            r matches Err(e) ==> side_error(block) == Some(e@),
            r matches Ok(sd) ==> side_of(block, sd),
    {
        Side::read(&block)
    }

    fn write_head(&self, out: &mut String, indent_level: usize)
        ensures
            final(out)@ == old(out)@ + side_head(*self, indent_level as nat),
    {
        push_open(out, indent_level, "side");
        push_nat_line(out, indent_level, "id", self.id as u64);
        push_kv_line(out, indent_level, "plane", self.plane.as_str());
        push_kv_line(out, indent_level, "material", self.material.as_str());
        push_kv_line(out, indent_level, "uaxis", self.u_axis.as_str());
        push_kv_line(out, indent_level, "vaxis", self.v_axis.as_str());
        if let Some(r) = &self.rotation {
            push_kv_line(out, indent_level, "rotation", r.as_str());
        }
        push_nat_line(out, indent_level, "lightmapscale", self.lightmap_scale as u64);
        crate::text::push_int_line(out, indent_level, "smoothing_groups", self.smoothing_groups as i64);
        if let Some(f) = self.flags {
            push_nat_line(out, indent_level, "flags", f as u64);
        }
        assert(final(out)@ =~= old(out)@ + side_head(*self, indent_level as nat));
    }

    fn write(&self, out: &mut String, indent_level: usize)
        requires
            indent_level + 2 < usize::MAX,
        ensures
            final(out)@ == old(out)@ + side_text(*self, indent_level as nat),
    {
        self.write_head(out, indent_level);
        if let Some(d) = &self.dispinfo {
            d.write(out, indent_level + 1);
        }
        push_close(out, indent_level);
        assert(final(out)@ =~= old(out)@ + side_text(*self, indent_level as nat));
    }
}

impl VmfSerializable for Side {
    open spec fn vmf_text(&self, indent: nat) -> Seq<char> {
        side_text(*self, indent)
    }

    open spec fn vmf_depth(&self) -> nat {
        3
    }

    fn to_vmf_string(&self, indent_level: usize) -> (r: String) {
        let mut out = String::new();
        self.write(&mut out, indent_level);
        assert(out@ =~= side_text(*self, indent_level as nat));
        out
    }
}

} // verus!

verus! {

/// Whether `e` is the editor data that a block without an `editor` child gets.
pub open spec fn is_default_editor(e: Editor) -> bool {
    &&& e.color@ == crate::vmf::common::default_color()
    &&& e.visgroup_id is None
    &&& e.group_id is None
    &&& e.visgroup_shown
    &&& e.visgroup_auto_shown
    &&& e.comments is None
    &&& e.logical_pos is None
}

/// `e` is the editor data of the child block at `idx` (-1: none).
pub open spec fn editor_at(bs: Seq<VmfBlock>, idx: int, e: Editor) -> bool {
    if idx >= 0 {
        editor_of(kv_entries(bs[idx].key_values), e)
    } else {
        is_default_editor(e)
    }
}

pub open spec fn editor_word() -> Seq<char> {
    seq!['e', 'd', 'i', 't', 'o', 'r']
}

/// The last of the first `n` blocks whose name is `editor` in any case, or -1.
pub open spec fn last_editor(bs: Seq<VmfBlock>, n: int) -> int
    decreases n,
{
    if n <= 0 || n > bs.len() {
        -1
    } else if crate::text::spells(bs[n - 1].name@, editor_word()) {
        n - 1
    } else {
        last_editor(bs, n - 1)
    }
}

/// Represents a group in the VMF world.
#[derive(Debug, Default, Clone, PartialEq, Eq)]
pub struct Group {
    /// The unique ID of the group.
    pub id: u32,
    /// The editor data for the group.
    pub editor: Editor,
}

/// `g` is the group that a `group` block describes: its required `id`, and
/// the editor data of its last `editor` child (compared without case).
pub open spec fn group_of(b: VmfBlock, g: Group) -> bool {
    int_field(kv_entries(b.key_values), "id"@, 0, u32::MAX as int) == Ok::<int, ErrorView>(g.id as int)
        && editor_at(b.blocks@, last_editor(b.blocks@, b.blocks.len() as int), g.editor)
}

pub open spec fn group_text(g: Group, indent: nat) -> Seq<char> {
    open_lines(indent, "group"@)
        + kv_line(indent, "id"@, int_text(g.id as int))
        + editor_text(g.editor, indent + 1)
        + close_line(indent)
}

impl Group {
    fn read(b: &VmfBlock) -> (r: VmfResult<Group>)
        ensures
            match r {
                Ok(g) => group_of(*b, g),
                Err(e) => int_field(kv_entries(b.key_values), "id"@, 0, u32::MAX as int) == Err::<int, ErrorView>(e@),
            },
    {
        let mut editor = Editor::default();
        let word = vec!['e', 'd', 'i', 't', 'o', 'r'];
        assert(word@ =~= editor_word());
        let mut i: usize = 0;
        while i < b.blocks.len()
            invariant
                i <= b.blocks.len(),
                word@ == editor_word(),
                editor_at(b.blocks@, last_editor(b.blocks@, i as int), editor),
            decreases b.blocks.len() - i,
        {
            let name = chars_of(b.blocks[i].name.as_str());
            if crate::text::spells_between(&name, 0, name.len(), &word) {
                assert(name@.subrange(0, name@.len() as int) =~= name@);
                editor = Editor::from_key_values(&b.blocks[i].key_values);
            } else {
                assert(name@.subrange(0, name@.len() as int) =~= name@);
            }
            i = i + 1;
        }
        let id = unsigned_field(&b.key_values, "id", u32::MAX as u64)?;
        Ok(Group { id: id as u32, editor })
    }

    /// Converts a `group` block.
    pub fn from_block(block: VmfBlock) -> (r: VmfResult<Group>)
        ensures
            match r {
                Ok(g) => group_of(block, g),
                Err(e) => int_field(kv_entries(block.key_values), "id"@, 0, u32::MAX as int) == Err::<int, ErrorView>(e@),
            },
    {
        Group::read(&block)
    }

    fn write(&self, out: &mut String, indent_level: usize)
        requires
            indent_level + 2 < usize::MAX,
        ensures
            final(out)@ == old(out)@ + group_text(*self, indent_level as nat),
    {
        push_open(out, indent_level, "group");
        push_nat_line(out, indent_level, "id", self.id as u64);
        let e = self.editor.to_vmf_string(indent_level + 1);
        out.push_str(e.as_str());
        push_close(out, indent_level);
        assert(final(out)@ =~= old(out)@ + group_text(*self, indent_level as nat));
    }
}

impl VmfSerializable for Group {
    open spec fn vmf_text(&self, indent: nat) -> Seq<char> {
        group_text(*self, indent)
    }

    open spec fn vmf_depth(&self) -> nat {
        3
    }

    fn to_vmf_string(&self, indent_level: usize) -> (r: String) {
        let mut out = String::new();
        self.write(&mut out, indent_level);
        assert(out@ =~= group_text(*self, indent_level as nat));
        out
    }
}

/// Represents a solid object in the VMF world.
#[derive(Debug, Default, Clone, PartialEq)]
pub struct Solid {
    /// The unique ID of the solid.
    pub id: u64,
    /// The sides of the solid.
    pub sides: Vec<Side>,
    /// The editor data for the solid.
    pub editor: Editor,
}

/// Whether a `solid` block converts: its `id` reads as a `u64` and every
/// `side` child converts.
pub open spec fn solid_ok(b: VmfBlock) -> bool {
    let sp = crate::named_prefix(b.blocks@, "side"@, b.blocks.len() as int);
    &&& int_field(kv_entries(b.key_values), "id"@, 0, u64::MAX as int) is Ok
    &&& forall|j: int| 0 <= j < sp.len() ==> side_error(#[trigger] sp[j]) is None
}

/// `so` is the solid that a convertible `solid` block describes: one side per
/// `side` child, in order, and the editor data of its last `editor` child.
pub open spec fn solid_of(b: VmfBlock, so: Solid) -> bool {
    let sp = crate::named_prefix(b.blocks@, "side"@, b.blocks.len() as int);
    &&& int_field(kv_entries(b.key_values), "id"@, 0, u64::MAX as int) == Ok::<int, ErrorView>(so.id as int)
    &&& so.sides.len() == sp.len()
    &&& forall|j: int| 0 <= j < sp.len() ==> side_of(#[trigger] sp[j], so.sides[j])
    &&& editor_at(b.blocks@, crate::last_named(b.blocks@, "editor"@, b.blocks.len() as int), so.editor)
}

pub open spec fn sides_text(ss: Seq<Side>, n: int, indent: nat) -> Seq<char>
    decreases n,
{
    if n <= 0 || n > ss.len() {
        Seq::empty()
    } else {
        sides_text(ss, n - 1, indent) + side_text(ss[n - 1], indent)
    }
}

pub open spec fn solid_text(so: Solid, indent: nat) -> Seq<char> {
    open_lines(indent, "solid"@)
        + kv_line(indent, "id"@, int_text(so.id as int))
        + sides_text(so.sides@, so.sides.len() as int, indent + 1)
        + editor_text(so.editor, indent + 1)
        + close_line(indent)
}

/// The error of the first of the first `n` blocks of `bs` for which `f`
/// gives one.
pub open spec fn first_error(bs: Seq<VmfBlock>, f: spec_fn(VmfBlock) -> Option<ErrorView>, n: int) -> Option<ErrorView>
    decreases n,
{
    if n <= 0 || n > bs.len() {
        None
    } else {
        match first_error(bs, f, n - 1) {
            Some(e) => Some(e),
            None => f(bs[n - 1]),
        }
    }
}

/// When the blocks before `k` give no error and block `k` does, the first
/// error is that of block `k`.
pub proof fn lemma_first_error_at(bs: Seq<VmfBlock>, f: spec_fn(VmfBlock) -> Option<ErrorView>, k: int, n: int)
    requires
        0 <= k < n <= bs.len(),
        forall|j: int| 0 <= j < k ==> f(#[trigger] bs[j]) is None,
        f(bs[k]) is Some,
    ensures
        first_error(bs, f, n) == f(bs[k]),
    decreases n,
{
    if n > k + 1 {
        lemma_first_error_at(bs, f, k, n - 1);
    } else {
        lemma_first_error_none(bs, f, k);
    }
}

/// Blocks that give no error give no first error.
pub proof fn lemma_first_error_none(bs: Seq<VmfBlock>, f: spec_fn(VmfBlock) -> Option<ErrorView>, n: int)
    requires
        0 <= n <= bs.len(),
        forall|j: int| 0 <= j < n ==> f(#[trigger] bs[j]) is None,
    ensures
        first_error(bs, f, n) is None,
    decreases n,
{
    if n > 0 {
        lemma_first_error_none(bs, f, n - 1);
    }
}

/// The error of a `solid` block that does not convert: that of its `id`,
/// else that of its first `side` child that does not convert.
pub open spec fn solid_error(b: VmfBlock) -> Option<ErrorView> {
    let sp = crate::named_prefix(b.blocks@, "side"@, b.blocks.len() as int);
    match int_field(kv_entries(b.key_values), "id"@, 0, u64::MAX as int) {
        Err(e) => Some(e),
        Ok(_) => first_error(sp, |x: VmfBlock| side_error(x), sp.len() as int),
    }
}

impl Solid {
    /// Reads a solid block; see `from_block`.
    pub fn read(b: &VmfBlock) -> (r: VmfResult<Solid>)
        ensures
            r is Ok <==> solid_ok(*b),
            r matches Ok(so) ==> solid_of(*b, so),
            r matches Err(e) ==> solid_error(*b) == Some(e@),
            r is Ok ==> solid_error(*b) is None,
    {
        proof {
            reveal_strlit("side");
            reveal_strlit("editor");
            assert("side"@.len() == 4);
            assert("editor"@.len() == 6);
        }
        let id = unsigned_field(&b.key_values, "id", u64::MAX)?;
        let mut sides: Vec<Side> = Vec::new();
        let mut editor = Editor::default();
        let ghost bs = b.blocks@;
        let mut i: usize = 0;
        while i < b.blocks.len()
            invariant
                i <= b.blocks.len(),
                bs == b.blocks@,
                "side"@.len() == 4,
                "editor"@.len() == 6,
                int_field(kv_entries(b.key_values), "id"@, 0, u64::MAX as int) == Ok::<int, ErrorView>(id as int),
                sides.len() == crate::named_prefix(bs, "side"@, i as int).len(),
                forall|j: int| 0 <= j < sides.len() ==> side_error(#[trigger] crate::named_prefix(bs, "side"@, i as int)[j]) is None,
                forall|j: int| 0 <= j < sides.len() ==> side_of(#[trigger] crate::named_prefix(bs, "side"@, i as int)[j], sides[j]),
                editor_at(bs, crate::last_named(bs, "editor"@, i as int), editor),
            decreases b.blocks.len() - i,
        {
            let child = &b.blocks[i];
            let ghost before = crate::named_prefix(bs, "side"@, i as int);
            if child.name_is("side") {
                match Side::read(child) {
                    Ok(sd) => {
                        sides.push(sd);
                        assert(crate::named_prefix(bs, "side"@, i + 1) == before.push(bs[i as int]));
                    },
                    Err(e) => {
                        proof {
                            lemma_named_prefix_mono(bs, "side"@, i as int + 1, bs.len() as int);
                            let sp = crate::named_prefix(bs, "side"@, bs.len() as int);
                            assert(sp[before.len() as int] == bs[i as int]);
                            let f = |x: VmfBlock| side_error(x);
                            assert forall|j: int| 0 <= j < before.len() implies f(#[trigger] sp[j]) is None by {
                                assert(sp[j] == crate::named_prefix(bs, "side"@, i + 1)[j]);
                                assert(crate::named_prefix(bs, "side"@, i + 1)[j] == before[j]);
                            }
                            lemma_first_error_at(sp, f, before.len() as int, sp.len() as int);
                        }
                        return Err(e);
                    },
                }
            } else if child.name_is("editor") {
                editor = Editor::from_key_values(&child.key_values);
            }
            i = i + 1;
        }
        proof {
            let sp = crate::named_prefix(bs, "side"@, bs.len() as int);
            let f = |x: VmfBlock| side_error(x);
            assert forall|j: int| 0 <= j < sp.len() implies f(#[trigger] sp[j]) is None by {}
            lemma_first_error_none(sp, f, sp.len() as int);
        }
        Ok(Solid { id, sides, editor })
    }

    /// Converts a `solid` block: the required `id`, one side per `side`
    /// child, and the editor data of the last `editor` child.
    pub fn from_block(block: VmfBlock) -> (r: VmfResult<Solid>)
        ensures
            r is Ok <==> solid_ok(block),
            r matches Ok(so) ==> solid_of(block, so),
            r matches Err(e) ==> solid_error(block) == Some(e@),
            r is Ok ==> solid_error(block) is None,
    {
        Solid::read(&block)
    }

    fn write(&self, out: &mut String, indent_level: usize)
        requires
            indent_level + 4 < usize::MAX,
        ensures
            final(out)@ == old(out)@ + solid_text(*self, indent_level as nat),
    {
        push_open(out, indent_level, "solid");
        push_nat_line(out, indent_level, "id", self.id);
        let ghost mid = out@;
        let mut i: usize = 0;
        while i < self.sides.len()
            invariant
                i <= self.sides.len(),
                indent_level + 4 < usize::MAX,
                out@ == mid + sides_text(self.sides@, i as int, (indent_level + 1) as nat),
            decreases self.sides.len() - i,
        {
            self.sides[i].write(out, indent_level + 1);
            i = i + 1;
            assert(out@ =~= mid + sides_text(self.sides@, i as int, (indent_level + 1) as nat));
        }
        let e = self.editor.to_vmf_string(indent_level + 1);
        out.push_str(e.as_str());
        push_close(out, indent_level);
        assert(final(out)@ =~= old(out)@ + solid_text(*self, indent_level as nat));
    }
}

/// A longer prefix keeps the named blocks of a shorter one, in place.
pub proof fn lemma_named_prefix_mono(bs: Seq<VmfBlock>, name: Seq<char>, m: int, n: int)
    requires
        0 <= m <= n <= bs.len(),
    ensures
        crate::named_prefix(bs, name, m).len() <= crate::named_prefix(bs, name, n).len(),
        forall|j: int| 0 <= j < crate::named_prefix(bs, name, m).len()
            ==> #[trigger] crate::named_prefix(bs, name, n)[j] == crate::named_prefix(bs, name, m)[j],
    decreases n - m,
{
    if m < n {
        lemma_named_prefix_mono(bs, name, m, n - 1);
    }
}

impl VmfSerializable for Solid {
    open spec fn vmf_text(&self, indent: nat) -> Seq<char> {
        solid_text(*self, indent)
    }

    open spec fn vmf_depth(&self) -> nat {
        4
    }

    fn to_vmf_string(&self, indent_level: usize) -> (r: String) {
        let mut out = String::new();
        self.write(&mut out, indent_level);
        assert(out@ =~= solid_text(*self, indent_level as nat));
        out
    }
}

} // verus!

verus! {

/// Represents the world block in a VMF file.
#[derive(Debug, Default, Clone, PartialEq)]
pub struct World {
    /// The key-value pairs associated with the world.
    pub key_values: IndexMap<String, String>,
    /// The list of solids that make up the world geometry.
    pub solids: Vec<Solid>,
    /// The list of hidden solids in the world.
    pub hidden: Vec<Solid>,
    /// The groups present in the world, if any.
    pub group: Option<Group>,
}

pub open spec fn group_ok(b: VmfBlock) -> bool {
    int_field(kv_entries(b.key_values), "id"@, 0, u32::MAX as int) is Ok
}

/// Whether the blocks `bs` of a world (or entity) convert: every `solid`
/// child and every solid wrapped in a `hidden` child.
pub open spec fn solids_ok(bs: Seq<VmfBlock>) -> bool {
    let sp = crate::named_prefix(bs, "solid"@, bs.len() as int);
    let hp = crate::hidden_prefix(bs, bs.len() as int);
    &&& forall|j: int| 0 <= j < sp.len() ==> solid_ok(#[trigger] sp[j])
    &&& forall|j: int| 0 <= j < hp.len() ==> solid_ok(#[trigger] hp[j])
}

/// `solids` are the conversions of the blocks `src`, in order.
pub open spec fn solids_of(src: Seq<VmfBlock>, solids: Seq<Solid>) -> bool {
    solids.len() == src.len() && forall|j: int| 0 <= j < src.len() ==> solid_of(#[trigger] src[j], solids[j])
}

/// The error of a `group` block, none when it converts.
pub open spec fn group_fault(b: VmfBlock) -> Option<ErrorView> {
    match int_field(kv_entries(b.key_values), "id"@, 0, u32::MAX as int) {
        Err(e) => Some(e),
        Ok(_) => None,
    }
}

/// The error of the first `group` child of a world that does not convert.
pub open spec fn groups_error(bs: Seq<VmfBlock>) -> Option<ErrorView> {
    let gp = crate::named_prefix(bs, "group"@, bs.len() as int);
    first_error(gp, |x: VmfBlock| group_fault(x), gp.len() as int)
}

/// The error of a `world` block that does not convert: that of its solids,
/// else that of its groups.
pub open spec fn world_error(bs: Seq<VmfBlock>) -> Option<ErrorView> {
    match solids_error(bs) {
        Some(e) => Some(e),
        None => groups_error(bs),
    }
}

/// Whether every `group` child of a world converts.
pub open spec fn groups_ok(bs: Seq<VmfBlock>) -> bool {
    let gp = crate::named_prefix(bs, "group"@, bs.len() as int);
    forall|j: int| 0 <= j < gp.len() ==> group_ok(#[trigger] gp[j])
}

/// The group of a world: that of its last `group` child, and none when
/// there is no such child.
pub open spec fn world_group(bs: Seq<VmfBlock>, g: Option<Group>) -> bool {
    let i = crate::last_named(bs, "group"@, bs.len() as int);
    if i >= 0 {
        g is Some && group_of(bs[i], g->0)
    } else {
        g is None
    }
}

pub open spec fn solids_text(ss: Seq<Solid>, n: int, indent: nat) -> Seq<char>
    decreases n,
{
    if n <= 0 || n > ss.len() {
        Seq::empty()
    } else {
        solids_text(ss, n - 1, indent) + solid_text(ss[n - 1], indent)
    }
}

/// Each solid in its own `hidden` block at depth `indent`.
pub open spec fn hidden_text(ss: Seq<Solid>, n: int, indent: nat) -> Seq<char>
    decreases n,
{
    if n <= 0 || n > ss.len() {
        Seq::empty()
    } else {
        hidden_text(ss, n - 1, indent) + open_lines(indent, "hidden"@) + solid_text(ss[n - 1], indent + 1)
            + close_line(indent)
    }
}

pub open spec fn world_text(w: World, indent: nat) -> Seq<char> {
    open_lines(indent, "world"@)
        + crate::kv_lines(kv_entries(w.key_values), kv_entries(w.key_values).len() as int, indent)
        + solids_text(w.solids@, w.solids.len() as int, indent + 1)
        + hidden_text(w.hidden@, w.hidden.len() as int, indent + 1)
        + match w.group {
            Some(g) => group_text(g, indent + 1),
            None => Seq::empty(),
        }
        + close_line(indent)
}

proof fn lemma_hidden_prefix_mono(bs: Seq<VmfBlock>, m: int, n: int)
    requires
        0 <= m <= n <= bs.len(),
    ensures
        crate::hidden_prefix(bs, m).len() <= crate::hidden_prefix(bs, n).len(),
        forall|j: int| 0 <= j < crate::hidden_prefix(bs, m).len()
            ==> #[trigger] crate::hidden_prefix(bs, n)[j] == crate::hidden_prefix(bs, m)[j],
    decreases n - m,
{
    if m < n {
        lemma_hidden_prefix_mono(bs, m, n - 1);
    }
}

/// The solids of the children of a world or brush entity: those of the
/// `solid` children, and those wrapped in `hidden` children.
pub fn read_solids(bs: &Vec<VmfBlock>) -> (r: VmfResult<(Vec<Solid>, Vec<Solid>)>)
    ensures
        r is Ok <==> solids_ok(bs@),
        r matches Err(e) ==> solids_error(bs@) == Some(e@),
        r is Ok ==> solids_error(bs@) is None,
        r matches Ok((s, h)) ==> solids_of(crate::named_prefix(bs@, "solid"@, bs.len() as int), s@)
            && solids_of(crate::hidden_prefix(bs@, bs.len() as int), h@),
{
    proof {
        reveal_strlit("solid");
        reveal_strlit("hidden");
        assert("solid"@.len() == 5);
        assert("hidden"@.len() == 6);
    }
    let mut solids: Vec<Solid> = Vec::new();
    let mut hidden: Vec<Solid> = Vec::new();
    let mut i: usize = 0;
    while i < bs.len()
        invariant
            i <= bs.len(),
            "solid"@.len() == 5,
            "hidden"@.len() == 6,
            forall|j: int| 0 <= j < crate::named_prefix(bs@, "solid"@, i as int).len()
                ==> solid_ok(#[trigger] crate::named_prefix(bs@, "solid"@, i as int)[j]),
            forall|j: int| 0 <= j < crate::hidden_prefix(bs@, i as int).len()
                ==> solid_ok(#[trigger] crate::hidden_prefix(bs@, i as int)[j]),
            solids_of(crate::named_prefix(bs@, "solid"@, i as int), solids@),
            solids_of(crate::hidden_prefix(bs@, i as int), hidden@),
            forall|j: int| 0 <= j < crate::vmf::entities::entity_solid_blocks(bs@, i as int).len()
                ==> solid_error(#[trigger] crate::vmf::entities::entity_solid_blocks(bs@, i as int)[j]) is None,
        decreases bs.len() - i,
    {
        let child = &bs[i];
        let ghost eb = crate::vmf::entities::entity_solid_blocks(bs@, i as int);
        let ghost sp = crate::named_prefix(bs@, "solid"@, i as int);
        let ghost hp = crate::hidden_prefix(bs@, i as int);
        if child.name_is("solid") {
            match Solid::read(child) {
                Ok(so) => {
                    solids.push(so);
                    assert(crate::named_prefix(bs@, "solid"@, i + 1) == sp.push(bs@[i as int]));
                    assert(crate::vmf::entities::entity_solid_blocks(bs@, i + 1) == eb.push(bs@[i as int]));
                },
                Err(e) => {
                    proof {
                        lemma_named_prefix_mono(bs@, "solid"@, i as int + 1, bs.len() as int);
                        let all = crate::named_prefix(bs@, "solid"@, bs.len() as int);
                        assert(all[sp.len() as int] == bs@[i as int]);
                        lemma_solids_error_at(bs@, i as int, eb);
                    }
                    return Err(e);
                },
            }
        } else if child.name_is("hidden") {
            if child.blocks.len() > 0 {
                match Solid::read(&child.blocks[0]) {
                    Ok(so) => {
                        hidden.push(so);
                        assert(crate::hidden_prefix(bs@, i + 1) == hp.push(bs@[i as int].blocks[0]));
                        assert(crate::vmf::entities::entity_solid_blocks(bs@, i + 1) == eb.push(bs@[i as int].blocks[0]));
                    },
                    Err(e) => {
                        proof {
                            lemma_hidden_prefix_mono(bs@, i as int + 1, bs.len() as int);
                            let all = crate::hidden_prefix(bs@, bs.len() as int);
                            assert(all[hp.len() as int] == bs@[i as int].blocks[0]);
                            lemma_solids_error_at(bs@, i as int, eb);
                        }
                        return Err(e);
                    },
                }
            }
        }
        i = i + 1;
    }
    proof {
        let all = crate::vmf::entities::entity_solid_blocks(bs@, bs.len() as int);
        let f = |x: VmfBlock| solid_error(x);
        assert forall|j: int| 0 <= j < all.len() implies f(#[trigger] all[j]) is None by {}
        lemma_first_error_none(all, f, all.len() as int);
    }
    Ok((solids, hidden))
}

/// The error of the solids of a world: that of the first block that does
/// not become a solid, in the order of the children.
pub open spec fn solids_error(bs: Seq<VmfBlock>) -> Option<ErrorView> {
    let sb = crate::vmf::entities::entity_solid_blocks(bs, bs.len() as int);
    first_error(sb, |x: VmfBlock| solid_error(x), sb.len() as int)
}

proof fn lemma_solids_error_at(bs: Seq<VmfBlock>, i: int, eb: Seq<VmfBlock>)
    requires
        0 <= i < bs.len(),
        eb == crate::vmf::entities::entity_solid_blocks(bs, i),
        forall|j: int| 0 <= j < eb.len() ==> solid_error(#[trigger] eb[j]) is None,
        crate::vmf::entities::entity_solid_blocks(bs, i + 1).len() == eb.len() + 1,
        solid_error(crate::vmf::entities::entity_solid_blocks(bs, i + 1)[eb.len() as int]) is Some,
    ensures
        solids_error(bs) == solid_error(crate::vmf::entities::entity_solid_blocks(bs, i + 1)[eb.len() as int]),
{
    crate::vmf::entities::lemma_solid_blocks_mono(bs, i + 1, bs.len() as int);
    crate::vmf::entities::lemma_solid_blocks_mono(bs, i, i + 1);
    let all = crate::vmf::entities::entity_solid_blocks(bs, bs.len() as int);
    let f = |x: VmfBlock| solid_error(x);
    assert forall|j: int| 0 <= j < eb.len() implies f(#[trigger] all[j]) is None by {
        assert(all[j] == crate::vmf::entities::entity_solid_blocks(bs, i + 1)[j]);
    }
    lemma_first_error_at(all, f, eb.len() as int, all.len() as int);
}

/// The group of the last `group` child; fails when any `group` child does
/// not convert.
fn read_group(bs: &Vec<VmfBlock>) -> (r: VmfResult<Option<Group>>)
    ensures
        r is Ok <==> groups_ok(bs@),
        r matches Err(e) ==> groups_error(bs@) == Some(e@),
        r matches Ok(g) ==> world_group(bs@, g),
{
    let mut g: Option<Group> = None;
    let mut i: usize = 0;
    while i < bs.len()
        invariant
            i <= bs.len(),
            forall|j: int| 0 <= j < crate::named_prefix(bs@, "group"@, i as int).len()
                ==> group_ok(#[trigger] crate::named_prefix(bs@, "group"@, i as int)[j]),
            ({
                let k = crate::last_named(bs@, "group"@, i as int);
                if k >= 0 {
                    g is Some && group_of(bs@[k], g->0)
                } else {
                    g is None
                }
            }),
        decreases bs.len() - i,
    {
        let ghost gp = crate::named_prefix(bs@, "group"@, i as int);
        if bs[i].name_is("group") {
            match Group::read(&bs[i]) {
                Ok(x) => {
                    g = Some(x);
                    assert(crate::named_prefix(bs@, "group"@, i + 1) == gp.push(bs@[i as int]));
                },
                Err(e) => {
                    proof {
                        lemma_named_prefix_mono(bs@, "group"@, i as int + 1, bs.len() as int);
                        let all = crate::named_prefix(bs@, "group"@, bs.len() as int);
                        assert(all[gp.len() as int] == bs@[i as int]);
                        let f = |x: VmfBlock| group_fault(x);
                        assert forall|j: int| 0 <= j < gp.len() implies f(#[trigger] all[j]) is None by {
                            assert(all[j] == crate::named_prefix(bs@, "group"@, i + 1)[j]);
                            assert(group_ok(gp[j]));
                        }
                        lemma_first_error_at(all, f, gp.len() as int, all.len() as int);
                    }
                    return Err(e);
                },
            }
        }
        i = i + 1;
    }
    Ok(g)
}

impl World {
    /// Converts a `world` block. Its pairs are kept as they are; `solid`
    /// children become solids, the first child of each `hidden` child a
    /// hidden solid, and the last `group` child the group. Fails when a
    /// solid or a group does not convert.
    pub fn from_block(block: VmfBlock) -> (r: VmfResult<World>)
        ensures
            r is Ok <==> solids_ok(block.blocks@) && groups_ok(block.blocks@),
            r matches Err(e) ==> world_error(block.blocks@) == Some(e@),
            r matches Ok(w) ==> kv_entries(w.key_values) == kv_entries(block.key_values)
                && solids_of(crate::named_prefix(block.blocks@, "solid"@, block.blocks.len() as int), w.solids@)
                && solids_of(crate::hidden_prefix(block.blocks@, block.blocks.len() as int), w.hidden@)
                && world_group(block.blocks@, w.group),
    {
        let VmfBlock { name: _, key_values, blocks } = block;
        let (solids, hidden) = read_solids(&blocks)?;
        let group = read_group(&blocks)?;
        Ok(World { key_values, solids, hidden, group })
    }

    fn write_solids(&self, out: &mut String, indent_level: usize)
        requires
            indent_level + 5 < usize::MAX,
        ensures
            final(out)@ == old(out)@ + solids_text(self.solids@, self.solids.len() as int, indent_level as nat)
                + hidden_text(self.hidden@, self.hidden.len() as int, indent_level as nat),
    {
        let mut i: usize = 0;
        while i < self.solids.len()
            invariant
                i <= self.solids.len(),
                indent_level + 5 < usize::MAX,
                out@ == old(out)@ + solids_text(self.solids@, i as int, indent_level as nat),
            decreases self.solids.len() - i,
        {
            self.solids[i].write(out, indent_level);
            i = i + 1;
            assert(out@ =~= old(out)@ + solids_text(self.solids@, i as int, indent_level as nat));
        }
        let ghost mid = out@;
        let mut i: usize = 0;
        while i < self.hidden.len()
            invariant
                i <= self.hidden.len(),
                indent_level + 5 < usize::MAX,
                out@ == mid + hidden_text(self.hidden@, i as int, indent_level as nat),
            decreases self.hidden.len() - i,
        {
            push_open(out, indent_level, "hidden");
            self.hidden[i].write(out, indent_level + 1);
            push_close(out, indent_level);
            i = i + 1;
            assert(out@ =~= mid + hidden_text(self.hidden@, i as int, indent_level as nat));
        }
        assert(final(out)@ =~= old(out)@ + solids_text(self.solids@, self.solids.len() as int, indent_level as nat)
            + hidden_text(self.hidden@, self.hidden.len() as int, indent_level as nat));
    }
}

impl VmfSerializable for World {
    open spec fn vmf_text(&self, indent: nat) -> Seq<char> {
        world_text(*self, indent)
    }

    open spec fn vmf_depth(&self) -> nat {
        7
    }

    fn to_vmf_string(&self, indent_level: usize) -> (r: String) {
        let mut out = String::new();
        push_open(&mut out, indent_level, "world");
        crate::push_kv_lines(&mut out, &self.key_values, indent_level);
        self.write_solids(&mut out, indent_level + 1);
        if let Some(g) = &self.group {
            g.write(&mut out, indent_level + 1);
        }
        push_close(&mut out, indent_level);
        assert(out@ =~= world_text(*self, indent_level as nat));
        out
    }
}

} // verus!

verus! {

/// The pairs of a rows block: `row<N>` for each row `N`.
pub open spec fn rows_entries(rows: Seq<Seq<char>>) -> Seq<(Seq<char>, Seq<char>)> {
    Seq::new(rows.len(), |i: int| (row_key(i), rows[i]))
}

impl DispRows {
    /// The rows as a block named `name`, one `row<N>` pair per row.
    pub fn into_vmf_block(self, name: &str) -> (r: VmfBlock)
        ensures
            r.name@ == name@,
            r.blocks.len() == 0,
            kv_entries(r.key_values) == rows_entries(rows_view(self)),
    {
        let mut kv = crate::kv::kv_new();
        let ghost rows = self.rows@;
        let mut i: usize = 0;
        while i < self.rows.len()
            invariant
                i <= self.rows.len(),
                rows == self.rows@,
                kv_entries(kv).len() == i,
                forall|j: int| 0 <= j < i ==> #[trigger] kv_entries(kv)[j] == (row_key(j), rows[j]@),
            decreases self.rows.len() - i,
        {
            let mut key = "row".to_string();
            push_nat(&mut key, i as u64);
            proof {
                assert forall|j: int| 0 <= j < i implies kv_entries(kv)[j].0 != key@ by {
                    crate::laws::lemma_row_keys_differ(j, i as int);
                }
                crate::kv::lemma_absent(kv_entries(kv), key@);
            }
            crate::kv::push_entry(&mut kv, key.as_str(), self.rows[i].clone());
            i = i + 1;
        }
        assert(kv_entries(kv) =~= rows_entries(rows_view(self)));
        VmfBlock { name: name.to_string(), key_values: kv, blocks: Vec::new() }
    }
}

impl Group {
    /// The `group` block of this data: its `id` and its `editor` block.
    pub fn into_block(self) -> (r: VmfBlock)
        ensures
            r.name@ == "group"@,
            kv_entries(r.key_values) == seq![("id"@, int_text(self.id as int))],
            r.blocks.len() == 1,
            r.blocks[0].name@ == "editor"@,
            kv_entries(r.blocks[0].key_values) == crate::vmf::common::editor_entries(self.editor),
    {
        let mut kv = crate::kv::kv_new();
        proof { crate::kv::lemma_absent(kv_entries(kv), "id"@); }
        crate::kv::push_entry(&mut kv, "id", nat_string(self.id as u64));
        assert(kv_entries(kv) =~= seq![("id"@, int_text(self.id as int))]);
        let mut blocks: Vec<VmfBlock> = Vec::new();
        blocks.push(self.editor.into_block());
        VmfBlock { name: "group".to_string(), key_values: kv, blocks }
    }
}

impl Solid {
    /// The `solid` block of this data: its `id`, one `side` block per side,
    /// then its `editor` block.
    pub fn into_block(self) -> (r: VmfBlock)
        ensures
            r.name@ == "solid"@,
            kv_entries(r.key_values) == seq![("id"@, int_text(self.id as int))],
            r.blocks.len() == self.sides.len() + 1,
            forall|i: int| 0 <= i < self.sides.len() ==> (#[trigger] r.blocks[i]).name@ == "side"@
                && kv_entries(r.blocks[i].key_values) == side_entries(self.sides[i])
                && r.blocks[i].blocks.len() == if self.sides[i].dispinfo is Some { 1int } else { 0int },
            r.blocks[self.sides.len() as int].name@ == "editor"@,
            kv_entries(r.blocks[self.sides.len() as int].key_values) == crate::vmf::common::editor_entries(self.editor),
    {
        let Solid { id, sides, editor } = self;
        let n = sides.len();
        let ghost all = sides@;
        let mut sides = sides;
        let mut blocks: Vec<VmfBlock> = Vec::new();
        while sides.len() > 0
            invariant
                blocks.len() + sides.len() == n,
                n == all.len(),
                sides@ == all.subrange(blocks.len() as int, n as int),
                forall|j: int| 0 <= j < blocks.len() ==> (#[trigger] blocks[j]).name@ == "side"@
                    && kv_entries(blocks[j].key_values) == side_entries(all[j])
                    && blocks[j].blocks.len() == if all[j].dispinfo is Some { 1int } else { 0int },
            decreases sides.len(),
        {
            let sd = sides.remove(0);
            assert(sd == all[blocks.len() as int]);
            blocks.push(sd.into_block());
            assert(sides@ =~= all.subrange(blocks.len() as int, n as int));
        }
        blocks.push(editor.into_block());
        let mut kv = crate::kv::kv_new();
        proof { crate::kv::lemma_absent(kv_entries(kv), "id"@); }
        crate::kv::push_entry(&mut kv, "id", nat_string(id));
        assert(kv_entries(kv) =~= seq![("id"@, int_text(id as int))]);
        VmfBlock { name: "solid".to_string(), key_values: kv, blocks }
    }
}

/// The pairs of a `side` block, in the order they are written.
pub open spec fn side_entries(sd: Side) -> Seq<(Seq<char>, Seq<char>)> {
    seq![
        ("id"@, int_text(sd.id as int)),
        ("plane"@, sd.plane@),
        ("material"@, sd.material@),
        ("uaxis"@, sd.u_axis@),
        ("vaxis"@, sd.v_axis@),
    ] + (match sd.rotation {
        Some(r) => seq![("rotation"@, r@)],
        None => Seq::empty(),
    }) + seq![
        ("lightmapscale"@, int_text(sd.lightmap_scale as int)),
        ("smoothing_groups"@, int_text(sd.smoothing_groups as int)),
    ] + (match sd.flags {
        Some(f) => seq![("flags"@, int_text(f as int))],
        None => Seq::empty(),
    })
}

impl Side {
    /// The `side` block of this data: its pairs in the order they are
    /// written, and a `dispinfo` block when it has a displacement.
    pub fn into_block(self) -> (r: VmfBlock)
        ensures
            r.name@ == "side"@,
            kv_entries(r.key_values) == side_entries(self),
            r.blocks.len() == if self.dispinfo is Some { 1int } else { 0int },
            self.dispinfo is Some ==> r.blocks[0].name@ == "dispinfo"@,
    {
        proof {
            reveal_strlit("id");
            reveal_strlit("plane");
            reveal_strlit("material");
            reveal_strlit("uaxis");
            reveal_strlit("vaxis");
            reveal_strlit("rotation");
            reveal_strlit("lightmapscale");
            reveal_strlit("smoothing_groups");
            reveal_strlit("flags");
            assert("id"@.len() == 2);
            assert("plane"@.len() == 5);
            assert("material"@.len() == 8);
            assert("uaxis"@.len() == 5);
            assert("vaxis"@.len() == 5);
            assert("rotation"@.len() == 8);
            assert("lightmapscale"@.len() == 13);
            assert("smoothing_groups"@.len() == 16);
            assert("flags"@.len() == 5);
            assert("plane"@[0] != "uaxis"@[0] && "plane"@[0] != "vaxis"@[0] && "uaxis"@[0] != "vaxis"@[0]);
            assert("flags"@[0] != "plane"@[0] && "flags"@[0] != "uaxis"@[0] && "flags"@[0] != "vaxis"@[0]);
            assert("material"@[0] != "rotation"@[0]);
        }
        let ghost sd = self;
        let Side { id, plane, material, u_axis, v_axis, rotation, lightmap_scale, smoothing_groups, flags, dispinfo } = self;
        let mut kv = crate::kv::kv_new();
        proof { crate::kv::lemma_absent(kv_entries(kv), "id"@); }
        crate::kv::push_entry(&mut kv, "id", nat_string(id as u64));
        proof { crate::kv::lemma_absent(kv_entries(kv), "plane"@); }
        crate::kv::push_entry(&mut kv, "plane", plane);
        proof { crate::kv::lemma_absent(kv_entries(kv), "material"@); }
        crate::kv::push_entry(&mut kv, "material", material);
        proof { crate::kv::lemma_absent(kv_entries(kv), "uaxis"@); }
        crate::kv::push_entry(&mut kv, "uaxis", u_axis);
        proof { crate::kv::lemma_absent(kv_entries(kv), "vaxis"@); }
        crate::kv::push_entry(&mut kv, "vaxis", v_axis);
        if let Some(rot) = rotation {
            proof { crate::kv::lemma_absent(kv_entries(kv), "rotation"@); }
            crate::kv::push_entry(&mut kv, "rotation", rot);
        }
        proof { crate::kv::lemma_absent(kv_entries(kv), "lightmapscale"@); }
        crate::kv::push_entry(&mut kv, "lightmapscale", nat_string(lightmap_scale as u64));
        proof { crate::kv::lemma_absent(kv_entries(kv), "smoothing_groups"@); }
        crate::kv::push_entry(&mut kv, "smoothing_groups", crate::text::int_string(smoothing_groups as i64));
        if let Some(f) = flags {
            proof { crate::kv::lemma_absent(kv_entries(kv), "flags"@); }
            crate::kv::push_entry(&mut kv, "flags", nat_string(f as u64));
        }
        assert(kv_entries(kv) =~= side_entries(sd));
        let mut blocks: Vec<VmfBlock> = Vec::new();
        if let Some(d) = dispinfo {
            blocks.push(d.into_block());
        }
        VmfBlock { name: "side".to_string(), key_values: kv, blocks }
    }
}

impl DispInfo {
    /// The `dispinfo` block of this data: its pairs in the order they are
    /// written, then its six row blocks and its `allowed_verts` block.
    pub fn into_block(self) -> (r: VmfBlock)
        ensures
            r.name@ == "dispinfo"@,
            kv_entries(r.key_values) == seq![("power"@, int_text(self.power as int)), ("startposition"@, self.start_position@)]
                + (match self.flags {
                    Some(f) => seq![("flags"@, int_text(f as int))],
                    None => Seq::empty(),
                })
                + seq![("elevation"@, self.elevation@), ("subdiv"@, flag_text(self.subdiv))],
            r.blocks.len() == 7,
            kv_entries(r.blocks[0].key_values) == rows_entries(rows_view(self.normals)),
            kv_entries(r.blocks[1].key_values) == rows_entries(rows_view(self.distances)),
            kv_entries(r.blocks[2].key_values) == rows_entries(rows_view(self.offsets)),
            kv_entries(r.blocks[3].key_values) == rows_entries(rows_view(self.offset_normals)),
            kv_entries(r.blocks[4].key_values) == rows_entries(rows_view(self.alphas)),
            kv_entries(r.blocks[5].key_values) == rows_entries(rows_view(self.triangle_tags)),
            r.blocks[0].name@ == "normals"@,
            r.blocks[1].name@ == "distances"@,
            r.blocks[2].name@ == "offsets"@,
            r.blocks[3].name@ == "offset_normals"@,
            r.blocks[4].name@ == "alphas"@,
            r.blocks[5].name@ == "triangle_tags"@,
            r.blocks[6].name@ == "allowed_verts"@,
    {
        let DispInfo {
            power, start_position, flags, elevation, subdiv, normals, distances, offsets,
            offset_normals, alphas, triangle_tags, allowed_verts,
        } = self;
        proof {
            reveal_strlit("power");
            reveal_strlit("startposition");
            reveal_strlit("flags");
            reveal_strlit("elevation");
            reveal_strlit("subdiv");
            assert("power"@.len() == 5);
            assert("startposition"@.len() == 13);
            assert("flags"@.len() == 5);
            assert("elevation"@.len() == 9);
            assert("subdiv"@.len() == 6);
            assert("power"@[0] != "flags"@[0]);
        }
        let ghost (sp, el) = (start_position@, elevation@);
        let mut kv = crate::kv::kv_new();
        proof { crate::kv::lemma_absent(kv_entries(kv), "power"@); }
        crate::kv::push_entry(&mut kv, "power", nat_string(power as u64));
        proof { crate::kv::lemma_absent(kv_entries(kv), "startposition"@); }
        crate::kv::push_entry(&mut kv, "startposition", start_position);
        if let Some(f) = flags {
            proof { crate::kv::lemma_absent(kv_entries(kv), "flags"@); }
            crate::kv::push_entry(&mut kv, "flags", nat_string(f as u64));
        }
        proof { crate::kv::lemma_absent(kv_entries(kv), "elevation"@); }
        crate::kv::push_entry(&mut kv, "elevation", elevation);
        proof { crate::kv::lemma_absent(kv_entries(kv), "subdiv"@); }
        crate::kv::push_entry(&mut kv, "subdiv", crate::text::To01String::to_01_string(subdiv));
        assert(kv_entries(kv) =~= seq![("power"@, int_text(power as int)), ("startposition"@, sp)]
            + (match flags {
                Some(f) => seq![("flags"@, int_text(f as int))],
                None => Seq::empty(),
            })
            + seq![("elevation"@, el), ("subdiv"@, flag_text(subdiv))]);
        let mut av = crate::kv::kv_new();
        let n = list_len(&allowed_verts);
        let mut i: usize = 0;
        while i < n
            invariant
                i <= n,
                n == list_entries(allowed_verts).len(),
            decreases n - i,
        {
            let (k, vs) = list_get_index(&allowed_verts, i);
            let mut line = String::new();
            push_joined(&mut line, vs);
            crate::kv::kv_insert(&mut av, k.clone(), line);
            i = i + 1;
        }
        let mut blocks: Vec<VmfBlock> = Vec::new();
        blocks.push(normals.into_vmf_block("normals"));
        blocks.push(distances.into_vmf_block("distances"));
        blocks.push(offsets.into_vmf_block("offsets"));
        blocks.push(offset_normals.into_vmf_block("offset_normals"));
        blocks.push(alphas.into_vmf_block("alphas"));
        blocks.push(triangle_tags.into_vmf_block("triangle_tags"));
        blocks.push(VmfBlock { name: "allowed_verts".to_string(), key_values: av, blocks: Vec::new() });
        VmfBlock { name: "dispinfo".to_string(), key_values: kv, blocks }
    }
}

impl World {
    /// The `world` block of this data: its pairs, one `solid` block per
    /// solid, one `hidden` block wrapping each hidden solid, then the group.
    pub fn into_block(self) -> (r: VmfBlock)
        ensures
            r.name@ == "world"@,
            kv_entries(r.key_values) == kv_entries(self.key_values),
            r.blocks.len() == self.solids.len() + self.hidden.len() + if self.group is Some { 1int } else { 0int },
            forall|i: int| 0 <= i < self.solids.len() ==> (#[trigger] r.blocks[i]).name@ == "solid"@
                && kv_entries(r.blocks[i].key_values) == seq![("id"@, int_text(self.solids[i].id as int))]
                && r.blocks[i].blocks.len() == self.solids[i].sides.len() + 1,
            forall|i: int| 0 <= i < self.hidden.len() ==> {
                let h = #[trigger] r.blocks[self.solids.len() + i];
                &&& h.name@ == "hidden"@
                &&& kv_entries(h.key_values).len() == 0
                &&& h.blocks.len() == 1
                &&& h.blocks[0].name@ == "solid"@
                &&& kv_entries(h.blocks[0].key_values) == seq![("id"@, int_text(self.hidden[i].id as int))]
                &&& h.blocks[0].blocks.len() == self.hidden[i].sides.len() + 1
            },
            self.group is Some ==> ({
                let g = r.blocks[r.blocks.len() - 1];
                g.name@ == "group"@ && kv_entries(g.key_values) == seq![("id"@, int_text(self.group->0.id as int))]
            }),
    {
        let World { key_values, solids, hidden, group } = self;
        let ns = solids.len();
        let nh = hidden.len();
        let ghost all_s = solids@;
        let ghost all_h = hidden@;
        let mut solids = solids;
        let mut hidden = hidden;
        let mut blocks: Vec<VmfBlock> = Vec::new();
        while solids.len() > 0
            invariant
                blocks.len() + solids.len() == ns,
                ns == all_s.len(),
                solids@ == all_s.subrange(blocks.len() as int, ns as int),
                forall|j: int| 0 <= j < blocks.len() ==> (#[trigger] blocks[j]).name@ == "solid"@
                    && kv_entries(blocks[j].key_values) == seq![("id"@, int_text(all_s[j].id as int))]
                    && blocks[j].blocks.len() == all_s[j].sides.len() + 1,
            decreases solids.len(),
        {
            let so = solids.remove(0);
            assert(so == all_s[blocks.len() as int]);
            blocks.push(so.into_block());
            assert(solids@ =~= all_s.subrange(blocks.len() as int, ns as int));
        }
        while hidden.len() > 0
            invariant
                blocks.len() + hidden.len() == ns + nh,
                blocks.len() >= ns,
                ns == all_s.len(),
                nh == all_h.len(),
                hidden@ == all_h.subrange(blocks.len() - ns, nh as int),
                forall|j: int| 0 <= j < ns ==> (#[trigger] blocks[j]).name@ == "solid"@
                    && kv_entries(blocks[j].key_values) == seq![("id"@, int_text(all_s[j].id as int))]
                    && blocks[j].blocks.len() == all_s[j].sides.len() + 1,
                forall|i: int| 0 <= i < blocks.len() - ns ==> {
                    let h = #[trigger] blocks[ns + i];
                    &&& h.name@ == "hidden"@
                    &&& kv_entries(h.key_values).len() == 0
                    &&& h.blocks.len() == 1
                    &&& h.blocks[0].name@ == "solid"@
                    &&& kv_entries(h.blocks[0].key_values) == seq![("id"@, int_text(all_h[i].id as int))]
                    &&& h.blocks[0].blocks.len() == all_h[i].sides.len() + 1
                },
            decreases hidden.len(),
        {
            let so = hidden.remove(0);
            assert(so == all_h[blocks.len() - ns]);
            let mut inner: Vec<VmfBlock> = Vec::new();
            inner.push(so.into_block());
            let ghost before = blocks@;
            blocks.push(VmfBlock { name: "hidden".to_string(), key_values: crate::kv::kv_new(), blocks: inner });
            assert forall|i: int| 0 <= i < blocks.len() - ns - 1 implies #[trigger] blocks[ns + i] == before[ns + i] by {}
            assert(hidden@ =~= all_h.subrange(blocks.len() - ns, nh as int));
        }
        if let Some(g) = group {
            blocks.push(g.into_block());
        }
        VmfBlock { name: "world".to_string(), key_values, blocks }
    }
}

} // verus!
