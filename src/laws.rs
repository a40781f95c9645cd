//! Properties that relate several operations of the library.
use vstd::prelude::*;
use crate::kv::{key_index, kv_entries, lookup};
use crate::parser::{after_pair, joined, JOIN_CHAR};
use crate::text::{
    all_digits, digit_char, digit_value, digits_value, flag_text, int_in_range, int_text, is_digit,
    is_one, nat_text, numeral_value,
};
use crate::vmf::entities::connections_spec;
use crate::parser::{joined_parts, split_fold};
use crate::vmf::regions::{cordon_bounds, cordon_of, cordon_ok, Cordon};
use crate::vmf::metadata::{version_info_entries, version_info_spec, VersionInfo};
use crate::vmf_file::{
    blocks_ok, cordon_blocks, document_of, hidden_entities, kind_at, kind_of, last_of_kind,
    lower_of, of_kind, BlockKind, VmfFile,
};
use crate::kv::lemma_key_index;
use crate::VmfBlock;

verus! {

/// A flag written as text reads back as the same flag: `false` is written
/// `"0"` and `true` `"1"`, and only `"1"` reads as true.
pub proof fn lemma_flag_round_trip(b: bool)
    ensures
        is_one(flag_text(b)) == b,
        flag_text(false) == seq!['0'],
        flag_text(true) == seq!['1'],
{
    if !b {
        assert(flag_text(b) != seq!['1']) by {
            assert(flag_text(b)[0] == '0');
        }
    }
}

proof fn lemma_digit_char(d: int)
    requires
        0 <= d < 10,
    ensures
        is_digit(digit_char(d)),
        digit_value(digit_char(d)) == d,
{
    assert(((d + '0' as int) as u32) as int == d + 48);
}

/// The decimal text of a natural number is a run of digits denoting it.
pub proof fn lemma_nat_text(n: nat)
    ensures
        nat_text(n).len() > 0,
        all_digits(nat_text(n)),
        digits_value(nat_text(n)) == n,
    decreases n,
{
    if n < 10 {
        lemma_digit_char(n as int);
        let s = nat_text(n);
        assert(s.drop_last() =~= Seq::<char>::empty());
        assert(s.last() == digit_char(n as int));
        assert(digits_value(s) == digits_value(s.drop_last()) * 10 + digit_value(s.last()));
    } else {
        lemma_nat_text(n / 10);
        lemma_digit_char((n % 10) as int);
        let s = nat_text(n);
        assert(s.drop_last() =~= nat_text(n / 10));
        assert(all_digits(s)) by {
            assert forall|i: int| 0 <= i < s.len() implies is_digit(#[trigger] s[i]) by {
                if i < s.len() - 1 {
                    assert(s[i] == nat_text(n / 10)[i]);
                }
            }
        }
        assert(s.last() == digit_char((n % 10) as int));
        assert(digits_value(s) == digits_value(s.drop_last()) * 10 + digit_value(s.last()));
        assert((n / 10) * 10 + n % 10 == n) by (nonlinear_arith);
    }
}

/// Writing an integer in decimal and reading it back, into any type whose
/// range holds it, gives the integer again.
pub proof fn lemma_int_text_round_trip(n: int, lo: int, hi: int)
    requires
        lo <= n <= hi,
        lo < 0 || n >= 0,
    ensures
        int_in_range(int_text(n), lo, hi) == Some(n),
{
    if n < 0 {
        let m = (-n) as nat;
        lemma_nat_text(m);
        let s = int_text(n);
        assert(s.drop_first() =~= nat_text(m));
        assert(s[0] == '-');
        assert(numeral_value(s, lo < 0) == Some(n));
    } else {
        let m = n as nat;
        lemma_nat_text(m);
        let s = nat_text(m);
        assert(is_digit(s[0]));
        assert(numeral_value(s, lo < 0) == Some(n));
    }
}

/// Splitting `a`, the joining character, then `b` (neither holding that
/// character) at the joining character gives back `a` and `b`.
pub proof fn lemma_split_joined(a: Seq<char>, b: Seq<char>)
    requires
        !a.contains(JOIN_CHAR),
        !b.contains(JOIN_CHAR),
    ensures
        joined_parts(joined(a, b)) == seq![a, b],
{
    let v = joined(a, b);
    assert forall|i: int| 0 <= i < a.len() implies v[i] == a[i] by {
        assert(v[i] == a.push(JOIN_CHAR)[i]);
    }
    lemma_split_prefix(v, a, a.len() as int);
    assert(split_fold(v, a.len() + 1int) == (seq![a], Seq::<char>::empty())) by {
        assert(v[a.len() as int] == JOIN_CHAR);
        assert(a.subrange(0, a.len() as int) =~= a);
        assert(Seq::<Seq<char>>::empty().push(a) =~= seq![a]);
    }
    lemma_split_suffix(v, a, b, b.len() as int);
    assert(b.subrange(0, b.len() as int) =~= b);
    assert(seq![a].push(b) =~= seq![a, b]);
}

proof fn lemma_split_prefix(v: Seq<char>, a: Seq<char>, j: int)
    requires
        0 <= j <= a.len(),
        a.len() < v.len(),
        forall|i: int| 0 <= i < a.len() ==> v[i] == a[i],
        !a.contains(JOIN_CHAR),
    ensures
        split_fold(v, j) == (Seq::<Seq<char>>::empty(), a.subrange(0, j)),
    decreases j,
{
    if j > 0 {
        lemma_split_prefix(v, a, j - 1);
        assert(v[j - 1] != JOIN_CHAR) by {
            assert(a[j - 1] == v[j - 1]);
        }
        assert(a.subrange(0, j - 1).push(v[j - 1]) =~= a.subrange(0, j));
    } else {
        assert(a.subrange(0, 0) =~= Seq::<char>::empty());
    }
}

proof fn lemma_split_suffix(v: Seq<char>, a: Seq<char>, b: Seq<char>, j: int)
    requires
        v == joined(a, b),
        0 <= j <= b.len(),
        split_fold(v, a.len() + 1int) == (seq![a], Seq::<char>::empty()),
        !b.contains(JOIN_CHAR),
    ensures
        split_fold(v, a.len() + 1int + j) == (seq![a], b.subrange(0, j)),
    decreases j,
{
    if j > 0 {
        lemma_split_suffix(v, a, b, j - 1);
        let k = a.len() + j;
        assert(v[k] == b[j - 1]);
        assert(b[j - 1] != JOIN_CHAR);
        assert(b.subrange(0, j - 1).push(b[j - 1]) =~= b.subrange(0, j));
    } else {
        assert(b.subrange(0, 0) =~= Seq::<char>::empty());
    }
}

/// Reading two pairs with the same output name in a `connections` block
/// keeps two connections, in the order they were read.
pub proof fn lemma_repeated_output(k: Seq<char>, a: Seq<char>, b: Seq<char>)
    requires
        !a.contains(JOIN_CHAR),
        !b.contains(JOIN_CHAR),
    ensures
        ({
            let s = after_pair(after_pair(Seq::empty(), k, a), k, b);
            connections_spec(s, s.len() as int) == seq![(k, a), (k, b)]
        }),
{
    let s0 = Seq::<(Seq<char>, Seq<char>)>::empty();
    let s1 = after_pair(s0, k, a);
    assert(key_index(s0, k) == -1);
    assert(s1 == seq![(k, a)]) by {
        assert(s0.push((k, a)) =~= seq![(k, a)]);
    }
    assert(s1.drop_last() =~= s0);
    assert(key_index(s1, k) == 0);
    assert(lookup(s1, k) == Some(a));
    let s2 = after_pair(s1, k, b);
    assert(s2 =~= seq![(k, joined(a, b))]);
    lemma_split_joined(a, b);
    assert(connections_spec(s2, 0) =~= Seq::empty());
    let parts = joined_parts(joined(a, b));
    assert(parts.map_values(|p: Seq<char>| (s2[0].0, p)) =~= seq![(k, a), (k, b)]);
    assert(connections_spec(s2, 1) =~= seq![(k, a), (k, b)]);
}


/// A cordon whose bounds stand in a nested `box` block and one whose bounds
/// stand on the cordon block itself convert alike, when their names, flags
/// and bounds agree.
pub proof fn lemma_cordon_formats_agree(nested: VmfBlock, flat: VmfBlock, lo: Seq<char>, hi: Seq<char>)
    requires
        nested.blocks.len() > 0,
        nested.blocks[0].name@ == "box"@,
        lookup(kv_entries(nested.blocks[0].key_values), "mins"@) == Some(lo),
        lookup(kv_entries(nested.blocks[0].key_values), "maxs"@) == Some(hi),
        flat.blocks.len() == 0,
        lookup(kv_entries(flat.key_values), "mins"@) == Some(lo),
        lookup(kv_entries(flat.key_values), "maxs"@) == Some(hi),
        lookup(kv_entries(nested.key_values), "name"@) == lookup(kv_entries(flat.key_values), "name"@),
        lookup(kv_entries(nested.key_values), "active"@) == lookup(kv_entries(flat.key_values), "active"@),
    ensures
        cordon_bounds(nested) == cordon_bounds(flat),
        cordon_ok(nested) == cordon_ok(flat),
        forall|c: Cordon| cordon_of(nested, c) == cordon_of(flat, c),
{
    crate::lemma_first_named(nested.blocks@, "box"@);
    crate::lemma_first_named(flat.blocks@, "box"@);
}

proof fn lemma_last_of_kind_range(bs: Seq<VmfBlock>, k: BlockKind, m: int)
    requires
        0 <= m <= bs.len(),
    ensures
        -1 <= last_of_kind(bs, k, m) < m,
    decreases m,
{
    if m > 0 {
        lemma_last_of_kind_range(bs, k, m - 1);
    }
}

/// Version info written as pairs reads back as the same version info.
pub proof fn lemma_version_info_round_trip(v: VersionInfo)
    ensures
        version_info_spec(version_info_entries(v)) == Ok::<VersionInfo, crate::errors::ErrorView>(v),
{
    reveal_strlit("editorversion");
    reveal_strlit("editorbuild");
    reveal_strlit("mapversion");
    reveal_strlit("formatversion");
    reveal_strlit("prefab");
    let s = version_info_entries(v);
    assert("editorversion"@.len() == 13);
    assert("editorbuild"@.len() == 11);
    assert("mapversion"@.len() == 10);
    assert("formatversion"@.len() == 13);
    assert("prefab"@.len() == 6);
    assert("editorversion"@[0] != "formatversion"@[0]);
    lemma_lookup_at(s, 0);
    lemma_lookup_at(s, 1);
    lemma_lookup_at(s, 2);
    lemma_lookup_at(s, 3);
    lemma_lookup_at(s, 4);
    lemma_int_text_round_trip(v.editor_version as int, i32::MIN as int, i32::MAX as int);
    lemma_int_text_round_trip(v.editor_build as int, i32::MIN as int, i32::MAX as int);
    lemma_int_text_round_trip(v.map_version as int, i32::MIN as int, i32::MAX as int);
    lemma_int_text_round_trip(v.format_version as int, i32::MIN as int, i32::MAX as int);
    lemma_flag_round_trip(v.prefab);
}

/// In entries whose keys differ, the lookup of the key at `i` finds `i`.
proof fn lemma_lookup_at(s: Seq<(Seq<char>, Seq<char>)>, i: int)
    requires
        0 <= i < s.len(),
        forall|a: int, b: int| 0 <= a < b < s.len() ==> s[a].0 != s[b].0,
    ensures
        lookup(s, s[i].0) == Some(s[i].1),
{
    lemma_key_index(s, s[i].0);
}

} // verus!

verus! {

/// Row keys of different rows differ.
pub proof fn lemma_row_keys_differ(i: int, j: int)
    requires
        0 <= i < j,
    ensures
        crate::vmf::world::row_key(i) != crate::vmf::world::row_key(j),
{
    lemma_int_text_round_trip(i, 0, j);
    lemma_int_text_round_trip(j, 0, j);
    let a = crate::vmf::world::row_key(i);
    let b = crate::vmf::world::row_key(j);
    let p = "row"@;
    if a == b {
        assert(a.subrange(p.len() as int, a.len() as int) =~= int_text(i));
        assert(b.subrange(p.len() as int, b.len() as int) =~= int_text(j));
    }
}

} // verus!

verus! {

/// View settings written as pairs read back as the same view settings.
pub proof fn lemma_view_settings_round_trip(v: crate::vmf::metadata::ViewSettings)
    ensures
        crate::vmf::metadata::view_settings_spec(crate::vmf::metadata::view_settings_entries(v))
            == Ok::<crate::vmf::metadata::ViewSettings, crate::errors::ErrorView>(v),
{
    reveal_strlit("bSnapToGrid");
    reveal_strlit("bShowGrid");
    reveal_strlit("bShowLogicalGrid");
    reveal_strlit("nGridSpacing");
    reveal_strlit("bShow3DGrid");
    let s = crate::vmf::metadata::view_settings_entries(v);
    assert("bSnapToGrid"@.len() == 11);
    assert("bShowGrid"@.len() == 9);
    assert("bShowLogicalGrid"@.len() == 16);
    assert("nGridSpacing"@.len() == 12);
    assert("bShow3DGrid"@.len() == 11);
    assert("bSnapToGrid"@[2] != "bShow3DGrid"@[2]);
    lemma_lookup_at(s, 0);
    lemma_lookup_at(s, 1);
    lemma_lookup_at(s, 2);
    lemma_lookup_at(s, 3);
    lemma_lookup_at(s, 4);
    lemma_int_text_round_trip(v.grid_spacing as int, 0, u16::MAX as int);
    lemma_flag_round_trip(v.snap_to_grid);
    lemma_flag_round_trip(v.show_grid);
    lemma_flag_round_trip(v.show_logical_grid);
    lemma_flag_round_trip(v.show_3d_grid);
}

/// A camera written as a block reads back as the same camera.
pub proof fn lemma_camera_round_trip(b: VmfBlock, c: crate::vmf::regions::Camera)
    requires
        kv_entries(b.key_values) == crate::vmf::regions::camera_entries(c),
    ensures
        crate::vmf::regions::camera_ok(b),
        crate::vmf::regions::camera_of(b, c),
{
    reveal_strlit("position");
    reveal_strlit("look");
    assert("position"@.len() == 8);
    assert("look"@.len() == 4);
    let s = kv_entries(b.key_values);
    lemma_lookup_at(s, 0);
    lemma_lookup_at(s, 1);
}

} // verus!

verus! {

/// A decimal integer is written as one line.
proof fn lemma_int_plain(indent: nat, k: Seq<char>, n: int)
    ensures
        crate::pair_lines(indent, k, int_text(n)) == crate::text::kv_line(indent, k, int_text(n)),
{
    let m = if n < 0 { (-n) as nat } else { n as nat };
    lemma_nat_text(m);
    assert(!int_text(n).contains(JOIN_CHAR)) by {
        if int_text(n).contains(JOIN_CHAR) {
            let j = choose|j: int| 0 <= j < int_text(n).len() && int_text(n)[j] == JOIN_CHAR;
            if n < 0 {
                if j > 0 {
                    assert(int_text(n)[j] == nat_text(m)[j - 1]);
                    assert(is_digit(nat_text(m)[j - 1]));
                }
            } else {
                assert(is_digit(nat_text(m)[j]));
            }
        }
    }
    crate::lemma_pair_lines_plain(indent, k, int_text(n));
}

/// A flag is written as one line.
proof fn lemma_flag_plain(indent: nat, k: Seq<char>, b: bool)
    ensures
        crate::pair_lines(indent, k, flag_text(b)) == crate::text::kv_line(indent, k, flag_text(b)),
{
    assert(!flag_text(b).contains(JOIN_CHAR)) by {
        if flag_text(b).contains(JOIN_CHAR) {
            let j = choose|j: int| 0 <= j < flag_text(b).len() && flag_text(b)[j] == JOIN_CHAR;
        }
    }
    crate::lemma_pair_lines_plain(indent, k, flag_text(b));
}

/// Version info written directly and written through its generic block
/// give the same text.
pub proof fn lemma_version_info_paths_agree(v: VersionInfo, b: VmfBlock, indent: nat)
    requires
        b.name@ == "versioninfo"@,
        kv_entries(b.key_values) == version_info_entries(v),
        b.blocks.len() == 0,
    ensures
        crate::block_text(b, indent) == crate::vmf::metadata::version_info_text(v, indent),
{
    reveal_with_fuel(crate::kv_lines, 6);
    let s = version_info_entries(v);
    lemma_int_plain(indent, "editorversion"@, v.editor_version as int);
    lemma_int_plain(indent, "editorbuild"@, v.editor_build as int);
    lemma_int_plain(indent, "mapversion"@, v.map_version as int);
    lemma_int_plain(indent, "formatversion"@, v.format_version as int);
    lemma_flag_plain(indent, "prefab"@, v.prefab);
    assert(crate::children_text(b, 0, indent + 1) == Seq::<char>::empty());
    assert(crate::block_text(b, indent) =~= crate::vmf::metadata::version_info_text(v, indent));
}

/// View settings written directly and written through their generic block
/// give the same text.
pub proof fn lemma_view_settings_paths_agree(v: crate::vmf::metadata::ViewSettings, b: VmfBlock, indent: nat)
    requires
        b.name@ == "viewsettings"@,
        kv_entries(b.key_values) == crate::vmf::metadata::view_settings_entries(v),
        b.blocks.len() == 0,
    ensures
        crate::block_text(b, indent) == crate::vmf::metadata::view_settings_text(v, indent),
{
    reveal_with_fuel(crate::kv_lines, 6);
    lemma_flag_plain(indent, "bSnapToGrid"@, v.snap_to_grid);
    lemma_flag_plain(indent, "bShowGrid"@, v.show_grid);
    lemma_flag_plain(indent, "bShowLogicalGrid"@, v.show_logical_grid);
    lemma_int_plain(indent, "nGridSpacing"@, v.grid_spacing as int);
    lemma_flag_plain(indent, "bShow3DGrid"@, v.show_3d_grid);
    assert(crate::children_text(b, 0, indent + 1) == Seq::<char>::empty());
    assert(crate::block_text(b, indent) =~= crate::vmf::metadata::view_settings_text(v, indent));
}

/// A cordon written directly and written through its generic block (with
/// its bounds in a `box` child) give the same text.
pub proof fn lemma_cordon_paths_agree(c: Cordon, b: VmfBlock, indent: nat)
    requires
        b.name@ == "cordon"@,
        kv_entries(b.key_values) == seq![("name"@, c.name@), ("active"@, flag_text(c.active))],
        b.blocks.len() == 1,
        b.blocks[0].name@ == "box"@,
        kv_entries(b.blocks[0].key_values) == seq![("mins"@, c.min@), ("maxs"@, c.max@)],
        b.blocks[0].blocks.len() == 0,
        !c.name@.contains(JOIN_CHAR),
        !c.min@.contains(JOIN_CHAR),
        !c.max@.contains(JOIN_CHAR),
    ensures
        crate::block_text(b, indent) == crate::vmf::regions::cordon_text(c, indent),
{
    reveal_with_fuel(crate::kv_lines, 3);
    crate::lemma_pair_lines_plain(indent, "name"@, c.name@);
    lemma_flag_plain(indent, "active"@, c.active);
    crate::lemma_pair_lines_plain(indent + 1, "mins"@, c.min@);
    crate::lemma_pair_lines_plain(indent + 1, "maxs"@, c.max@);
    let bx = b.blocks[0];
    assert(crate::children_text(bx, 0, indent + 2) == Seq::<char>::empty());
    assert(crate::block_text(bx, indent + 1) =~= crate::text::open_lines(indent + 1, "box"@)
        + crate::text::kv_line(indent + 1, "mins"@, c.min@) + crate::text::kv_line(indent + 1, "maxs"@, c.max@)
        + crate::text::close_line(indent + 1));
    assert(crate::children_text(b, 0, indent + 1) == Seq::<char>::empty());
    assert(crate::children_text(b, 1, indent + 1) =~= crate::block_text(bx, indent + 1));
    assert(crate::block_text(b, indent) =~= crate::vmf::regions::cordon_text(c, indent));
}

} // verus!

verus! {

proof fn lemma_lookup_push(s: Seq<(Seq<char>, Seq<char>)>, e: (Seq<char>, Seq<char>), k: Seq<char>)
    ensures
        lookup(s.push(e), k) == match lookup(s, k) {
            Some(v) => Some(v),
            None => if e.0 == k {
                Some(e.1)
            } else {
                None
            },
        },
{
    assert(s.push(e).drop_last() =~= s);
    lemma_key_index(s, k);
}

/// A lookup in two runs of pairs finds the first run's value first.
proof fn lemma_lookup_concat(a: Seq<(Seq<char>, Seq<char>)>, b: Seq<(Seq<char>, Seq<char>)>, k: Seq<char>)
    ensures
        lookup(a + b, k) == match lookup(a, k) {
            Some(v) => Some(v),
            None => lookup(b, k),
        },
    decreases b.len(),
{
    if b.len() == 0 {
        assert(a + b =~= a);
        assert(key_index(b, k) == -1);
    } else {
        let b0 = b.drop_last();
        lemma_lookup_concat(a, b0, k);
        assert(a + b =~= (a + b0).push(b.last()));
        lemma_lookup_push(a + b0, b.last(), k);
        lemma_lookup_push(b0, b.last(), k);
        assert(b0.push(b.last()) =~= b);
    }
}

proof fn lemma_lookup_one(k: Seq<char>, v: Seq<char>, q: Seq<char>)
    ensures
        lookup(seq![(k, v)], q) == if k == q { Some(v) } else { None::<Seq<char>> },
{
    let e = Seq::<(Seq<char>, Seq<char>)>::empty();
    assert(seq![(k, v)] =~= e.push((k, v)));
    lemma_lookup_push(e, (k, v), q);
    assert(key_index(e, q) == -1);
}

proof fn lemma_lookup_opt(o: Option<Seq<char>>, k: Seq<char>, q: Seq<char>)
    ensures
        lookup(match o { Some(v) => seq![(k, v)], None => Seq::<(Seq<char>, Seq<char>)>::empty() }, q)
            == if k == q { o } else { None::<Seq<char>> },
{
    match o {
        Some(v) => lemma_lookup_one(k, v, q),
        None => {
            assert(key_index(Seq::<(Seq<char>, Seq<char>)>::empty(), q) == -1);
        },
    }
}

pub open spec fn first_of(x: Option<Seq<char>>, y: Option<Seq<char>>) -> Option<Seq<char>> {
    match x {
        Some(v) => Some(v),
        None => y,
    }
}

/// Editor data written as pairs reads back as the same editor data.
pub proof fn lemma_editor_round_trip(e: crate::vmf::common::Editor)
    ensures
        crate::vmf::common::editor_of(crate::vmf::common::editor_entries(e), e),
{
    reveal_strlit("color");
    reveal_strlit("visgroupid");
    reveal_strlit("groupid");
    reveal_strlit("visgroupshown");
    reveal_strlit("visgroupautoshown");
    reveal_strlit("comments");
    reveal_strlit("logicalpos");
    assert("color"@.len() == 5);
    assert("visgroupid"@.len() == 10);
    assert("groupid"@.len() == 7);
    assert("visgroupshown"@.len() == 13);
    assert("visgroupautoshown"@.len() == 17);
    assert("comments"@.len() == 8);
    assert("logicalpos"@.len() == 10);
    assert("visgroupid"@[0] != "logicalpos"@[0]);
    let ov = match e.visgroup_id { Some(n) => Some(int_text(n as int)), None => None::<Seq<char>> };
    let og = match e.group_id { Some(n) => Some(int_text(n as int)), None => None::<Seq<char>> };
    let oc = crate::vmf::common::opt_view(e.comments);
    let ol = crate::vmf::common::opt_view(e.logical_pos);
    let a = seq![("color"@, e.color@)];
    let b = match ov { Some(v) => seq![("visgroupid"@, v)], None => Seq::<(Seq<char>, Seq<char>)>::empty() };
    let c = match og { Some(v) => seq![("groupid"@, v)], None => Seq::<(Seq<char>, Seq<char>)>::empty() };
    let d1 = seq![("visgroupshown"@, flag_text(e.visgroup_shown))];
    let d2 = seq![("visgroupautoshown"@, flag_text(e.visgroup_auto_shown))];
    let f = match oc { Some(v) => seq![("comments"@, v)], None => Seq::<(Seq<char>, Seq<char>)>::empty() };
    let g = match ol { Some(v) => seq![("logicalpos"@, v)], None => Seq::<(Seq<char>, Seq<char>)>::empty() };
    let s = crate::vmf::common::editor_entries(e);
    assert(s =~= a + b + c + (d1 + d2) + f + g);
    assert(d1 + d2 =~= seq![("visgroupshown"@, flag_text(e.visgroup_shown)), ("visgroupautoshown"@, flag_text(e.visgroup_auto_shown))]);
    let keys = seq!["color"@, "visgroupid"@, "groupid"@, "visgroupshown"@, "visgroupautoshown"@, "comments"@, "logicalpos"@];
    assert forall|i: int| 0 <= i < keys.len() implies lookup(s, #[trigger] keys[i]) == first_of(lookup(a, keys[i]),
        first_of(lookup(b, keys[i]), first_of(lookup(c, keys[i]), first_of(lookup(d1, keys[i]),
        first_of(lookup(d2, keys[i]), first_of(lookup(f, keys[i]), lookup(g, keys[i]))))))) by {
        let k = keys[i];
        lemma_lookup_concat(a + b + c + (d1 + d2) + f, g, k);
        lemma_lookup_concat(a + b + c + (d1 + d2), f, k);
        lemma_lookup_concat(a + b + c, d1 + d2, k);
        lemma_lookup_concat(d1, d2, k);
        lemma_lookup_concat(a + b, c, k);
        lemma_lookup_concat(a, b, k);
    }
    assert forall|i: int| 0 <= i < keys.len() implies {
        let k = #[trigger] keys[i];
        &&& lookup(a, k) == if k == "color"@ { Some(e.color@) } else { None::<Seq<char>> }
        &&& lookup(b, k) == if k == "visgroupid"@ { ov } else { None::<Seq<char>> }
        &&& lookup(c, k) == if k == "groupid"@ { og } else { None::<Seq<char>> }
        &&& lookup(d1, k) == if k == "visgroupshown"@ { Some(flag_text(e.visgroup_shown)) } else { None::<Seq<char>> }
        &&& lookup(d2, k) == if k == "visgroupautoshown"@ { Some(flag_text(e.visgroup_auto_shown)) } else { None::<Seq<char>> }
        &&& lookup(f, k) == if k == "comments"@ { oc } else { None::<Seq<char>> }
        &&& lookup(g, k) == if k == "logicalpos"@ { ol } else { None::<Seq<char>> }
    } by {
        let k = keys[i];
        lemma_lookup_one("color"@, e.color@, k);
        lemma_lookup_opt(ov, "visgroupid"@, k);
        lemma_lookup_opt(og, "groupid"@, k);
        lemma_lookup_one("visgroupshown"@, flag_text(e.visgroup_shown), k);
        lemma_lookup_one("visgroupautoshown"@, flag_text(e.visgroup_auto_shown), k);
        lemma_lookup_opt(oc, "comments"@, k);
        lemma_lookup_opt(ol, "logicalpos"@, k);
    }
    assert(keys[0] == "color"@);
    assert(keys[1] == "visgroupid"@);
    assert(keys[2] == "groupid"@);
    assert(keys[3] == "visgroupshown"@);
    assert(keys[4] == "visgroupautoshown"@);
    assert(keys[5] == "comments"@);
    assert(keys[6] == "logicalpos"@);
    if let Some(n) = e.visgroup_id {
        lemma_int_text_round_trip(n as int, i32::MIN as int, i32::MAX as int);
    }
    if let Some(n) = e.group_id {
        lemma_int_text_round_trip(n as int, i32::MIN as int, i32::MAX as int);
    }
    lemma_flag_round_trip(e.visgroup_shown);
    lemma_flag_round_trip(e.visgroup_auto_shown);
}

} // verus!

verus! {

/// The position of a block of `s` once a block is inserted at `m`.
pub open spec fn shifted(x: int, m: int) -> int {
    if x < m { x } else { x + 1 }
}

/// `s` with `u` inserted at position `m`.
pub open spec fn with_block_at(s: Seq<VmfBlock>, m: int, u: VmfBlock) -> Seq<VmfBlock> {
    s.take(m).push(u) + s.skip(m)
}

proof fn lemma_with_block_at_index(s: Seq<VmfBlock>, m: int, u: VmfBlock)
    requires
        0 <= m <= s.len(),
    ensures
        with_block_at(s, m, u).len() == s.len() + 1,
        with_block_at(s, m, u)[m] == u,
        forall|j: int| 0 <= j < s.len() ==> #[trigger] with_block_at(s, m, u)[shifted(j, m)] == s[j],
{
    let t = with_block_at(s, m, u);
    assert forall|j: int| 0 <= j < s.len() implies #[trigger] t[shifted(j, m)] == s[j] by {
        if j < m {
            assert(t[j] == s.take(m).push(u)[j]);
        } else {
            assert(t[j + 1] == s.skip(m)[j - m]);
        }
    }
}

proof fn lemma_insert_before(s: Seq<VmfBlock>, m: int, u: VmfBlock, n: int, k: BlockKind)
    requires
        0 <= n <= m <= s.len(),
    ensures
        last_of_kind(with_block_at(s, m, u), k, n) == last_of_kind(s, k, n),
        of_kind(with_block_at(s, m, u), k, n) == of_kind(s, k, n),
        hidden_entities(with_block_at(s, m, u), n) == hidden_entities(s, n),
        cordon_blocks(with_block_at(s, m, u), n) == cordon_blocks(s, n),
    decreases n,
{
    let t = with_block_at(s, m, u);
    lemma_with_block_at_index(s, m, u);
    if n > 0 {
        lemma_insert_before(s, m, u, n - 1, k);
        assert(shifted(n - 1, m) == n - 1);
        assert(t[n - 1] == s[n - 1]);
        assert(kind_at(t, n - 1) == kind_at(s, n - 1));
    }
}

proof fn lemma_insert_kinds(s: Seq<VmfBlock>, m: int, u: VmfBlock, n: int, k: BlockKind)
    requires
        0 <= m <= n <= s.len(),
        kind_of(lower_of(u.name@)) == BlockKind::Unknown,
        k != BlockKind::Unknown,
    ensures
        last_of_kind(with_block_at(s, m, u), k, n + 1)
            == if last_of_kind(s, k, n) < 0 { -1 } else { shifted(last_of_kind(s, k, n), m) },
        of_kind(with_block_at(s, m, u), k, n + 1) == of_kind(s, k, n),
        hidden_entities(with_block_at(s, m, u), n + 1) == hidden_entities(s, n),
        cordon_blocks(with_block_at(s, m, u), n + 1) == cordon_blocks(s, n),
    decreases n,
{
    let t = with_block_at(s, m, u);
    lemma_with_block_at_index(s, m, u);
    if n == m {
        lemma_insert_before(s, m, u, m, k);
        lemma_last_of_kind_range(s, k, m);
        assert(kind_at(t, m) == BlockKind::Unknown);
    } else {
        lemma_insert_kinds(s, m, u, n - 1, k);
        lemma_last_of_kind_range(s, k, n - 1);
        assert(shifted(n - 1, m) == n);
        assert(t[n] == s[n - 1]);
        assert(kind_at(t, n) == kind_at(s, n - 1));
    }
}

proof fn lemma_last_shift(s: Seq<VmfBlock>, m: int, u: VmfBlock, k: BlockKind)
    requires
        0 <= m <= s.len(),
        kind_of(lower_of(u.name@)) == BlockKind::Unknown,
        k != BlockKind::Unknown,
    ensures
        ({
            let t = with_block_at(s, m, u);
            let v = last_of_kind(s, k, s.len() as int);
            let w = last_of_kind(t, k, s.len() + 1int);
            &&& v < 0 ==> w == -1
            &&& v >= 0 ==> w >= 0 && t[w] == s[v]
        }),
{
    let t = with_block_at(s, m, u);
    lemma_with_block_at_index(s, m, u);
    lemma_insert_kinds(s, m, u, s.len() as int, k);
    lemma_last_of_kind_range(s, k, s.len() as int);
    let v = last_of_kind(s, k, s.len() as int);
    if v >= 0 {
        assert(t[shifted(v, m)] == s[v]);
    }
}

/// A top-level block whose lower-cased name is none of the known ones,
/// inserted anywhere among the others, changes nothing: the blocks convert
/// exactly when they did without it, and describe the same document.
pub proof fn lemma_unknown_block_anywhere(s: Seq<VmfBlock>, m: int, u: VmfBlock, f: VmfFile)
    requires
        0 <= m <= s.len(),
        kind_of(lower_of(u.name@)) == BlockKind::Unknown,
    ensures
        blocks_ok(with_block_at(s, m, u), s.len() + 1int) == blocks_ok(s, s.len() as int),
        document_of(with_block_at(s, m, u), s.len() + 1int, f) == document_of(s, s.len() as int, f),
{
    let t = with_block_at(s, m, u);
    let n = s.len() as int;
    lemma_with_block_at_index(s, m, u);
    assert(kind_at(t, m) == BlockKind::Unknown);
    assert forall|k: BlockKind| k != BlockKind::Unknown implies
        last_of_kind(t, k, n + 1) == (if last_of_kind(s, k, n) < 0 { -1 } else { shifted(last_of_kind(s, k, n), m) })
        && of_kind(t, k, n + 1) == of_kind(s, k, n) by {
        lemma_insert_kinds(s, m, u, n, k);
    }
    lemma_insert_kinds(s, m, u, n, BlockKind::VersionInfo);
    assert(hidden_entities(t, n + 1) == hidden_entities(s, n));
    assert(cordon_blocks(t, n + 1) == cordon_blocks(s, n));
    assert forall|j: int| 0 <= j < n implies kind_at(t, #[trigger] shifted(j, m)) == kind_at(s, j) by {
        assert(t[shifted(j, m)] == s[j]);
    }
    assert(blocks_ok(t, n + 1) == blocks_ok(s, n)) by {
        if blocks_ok(s, n) {
            assert forall|i: int| 0 <= i < n + 1 implies #[trigger] crate::vmf_file::top_block_ok(t[i], kind_at(t, i)) by {
                if i != m {
                    let j = if i < m { i } else { i - 1 };
                    assert(shifted(j, m) == i);
                    assert(t[i] == s[j]);
                    assert(crate::vmf_file::top_block_ok(s[j], kind_at(s, j)));
                }
            }
        }
        if blocks_ok(t, n + 1) {
            assert forall|j: int| 0 <= j < n implies #[trigger] crate::vmf_file::top_block_ok(s[j], kind_at(s, j)) by {
                assert(t[shifted(j, m)] == s[j]);
                assert(crate::vmf_file::top_block_ok(t[shifted(j, m)], kind_at(t, shifted(j, m))));
            }
        }
    }
    lemma_last_shift(s, m, u, BlockKind::VersionInfo);
    lemma_last_shift(s, m, u, BlockKind::VisGroups);
    lemma_last_shift(s, m, u, BlockKind::ViewSettings);
    lemma_last_shift(s, m, u, BlockKind::World);
    lemma_last_shift(s, m, u, BlockKind::Cameras);
    lemma_last_shift(s, m, u, BlockKind::Cordons);
    lemma_insert_kinds(s, m, u, n, BlockKind::Entity);
    assert(document_of(t, n + 1, f) == document_of(s, n, f));
}

} // verus!

verus! {

proof fn lemma_split_fold_prefix(s: Seq<char>, t: Seq<char>, j: int)
    requires
        0 <= j <= s.len(),
        j <= t.len(),
        forall|i: int| 0 <= i < j ==> s[i] == t[i],
    ensures
        split_fold(s, j) == split_fold(t, j),
    decreases j,
{
    if j > 0 {
        lemma_split_fold_prefix(s, t, j - 1);
    }
}

proof fn lemma_split_fold_suffix(o: Seq<char>, v: Seq<char>, j: int)
    requires
        0 <= j <= v.len(),
    ensures
        split_fold(joined(o, v), o.len() + 1 + j)
            == (joined_parts(o) + split_fold(v, j).0, split_fold(v, j).1),
    decreases j,
{
    let w = joined(o, v);
    if j == 0 {
        assert forall|i: int| 0 <= i < o.len() implies w[i] == o[i] by {
            assert(w[i] == o.push(JOIN_CHAR)[i]);
        }
        lemma_split_fold_prefix(w, o, o.len() as int);
        assert(w[o.len() as int] == JOIN_CHAR);
        assert(joined_parts(o) + Seq::<Seq<char>>::empty() =~= joined_parts(o));
    } else {
        lemma_split_fold_suffix(o, v, j - 1);
        assert(w[o.len() + j] == v[j - 1]);
        let (ps, cur) = split_fold(v, j - 1);
        if v[j - 1] == JOIN_CHAR {
            assert((joined_parts(o) + ps).push(cur) =~= joined_parts(o) + ps.push(cur));
        }
    }
}

/// Splitting `o`, the joining character, then `v` gives the parts of `o`
/// followed by the parts of `v`.
pub proof fn lemma_joined_parts_concat(o: Seq<char>, v: Seq<char>)
    ensures
        joined_parts(joined(o, v)) == joined_parts(o) + joined_parts(v),
{
    lemma_split_fold_suffix(o, v, v.len() as int);
    let (ps, cur) = split_fold(v, v.len() as int);
    assert(joined(o, v).len() == o.len() + 1 + v.len());
    assert((joined_parts(o) + ps).push(cur) =~= joined_parts(o) + ps.push(cur));
}

} // verus!

verus! {

/// Two connections with the same output, written through the generic
/// `connections` block, give the same two lines as the entity writes: the
/// block joins them into one pair, and the pair is written once per part.
pub proof fn lemma_repeated_output_lines(k: Seq<char>, a: Seq<char>, b: Seq<char>, d: nat)
    requires
        !a.contains(JOIN_CHAR),
        !b.contains(JOIN_CHAR),
    ensures
        ({
            let cs = seq![(k, a), (k, b)];
            let jp = crate::vmf::entities::joined_pairs(cs, 2);
            &&& jp == seq![(k, joined(a, b))]
            &&& crate::kv_lines(jp, 1, d) == crate::vmf::entities::connection_lines(cs, 2, d)
        }),
{
    let cs = seq![(k, a), (k, b)];
    let e = Seq::<(Seq<char>, Seq<char>)>::empty();
    assert(crate::vmf::entities::joined_pairs(cs, 0) == e);
    assert(key_index(e, k) == -1);
    let j1 = crate::vmf::entities::joined_pairs(cs, 1);
    assert(j1 =~= seq![(k, a)]) by {
        assert(e.push((k, a)) =~= seq![(k, a)]);
    }
    assert(j1.drop_last() =~= e);
    assert(key_index(j1, k) == 0);
    let jp = crate::vmf::entities::joined_pairs(cs, 2);
    assert(jp =~= seq![(k, joined(a, b))]);
    lemma_joined_parts_concat(a, b);
    crate::parser::lemma_single_part(a);
    crate::parser::lemma_single_part(b);
    crate::lemma_pair_lines_plain(d, k, a);
    crate::lemma_pair_lines_plain(d, k, b);
    let ps = seq![a, b];
    assert(joined_parts(joined(a, b)) =~= ps);
    assert(ps.drop_last() =~= seq![a]);
    assert(seq![a].drop_last() =~= Seq::<Seq<char>>::empty());
    assert(crate::pair_lines(d, k, joined(a, b)) == crate::pair_lines(d, k, a) + crate::pair_lines(d, k, b)) by {
        assert(crate::part_lines(d, k, Seq::<Seq<char>>::empty()) == Seq::<char>::empty());
        assert(crate::part_lines(d, k, seq![a]) =~= crate::text::kv_line(d, k, a));
        assert(crate::part_lines(d, k, ps) =~= crate::text::kv_line(d, k, a) + crate::text::kv_line(d, k, b));
    }
    assert(crate::kv_lines(jp, 0, d) == Seq::<char>::empty());
    assert(crate::vmf::entities::connection_lines(cs, 0, d) == Seq::<char>::empty());
    assert(jp[0] == (k, joined(a, b)));
    assert(crate::kv_lines(jp, 1, d) == crate::kv_lines(jp, 0, d) + crate::pair_lines(d, k, joined(a, b)));
    assert(crate::vmf::entities::connection_lines(cs, 1, d)
        == crate::vmf::entities::connection_lines(cs, 0, d) + crate::pair_lines(d, k, a));
    assert(crate::vmf::entities::connection_lines(cs, 2, d)
        == crate::vmf::entities::connection_lines(cs, 1, d) + crate::pair_lines(d, k, b));
    assert(crate::kv_lines(jp, 1, d) =~= crate::vmf::entities::connection_lines(cs, 2, d));
}

} // verus!
