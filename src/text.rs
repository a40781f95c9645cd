//! Decimal numerals, the "0"/"1" encoding of flags, and the building blocks
//! of the tab-indented text form.
use vstd::prelude::*;

verus! {

/// Appends a string slice to a `String`: relies on `String::push_str`, which
/// appends the given slice onto the end.
pub assume_specification[ String::push_str ](s: &mut String, t: &str)
    ensures
        final(s)@ == old(s)@ + t@,
;

/// Appends one character: relies on `String::push`, which appends the given
/// `char` to the end.
pub assume_specification[ String::push ](s: &mut String, ch: char)
    ensures
        final(s)@ == old(s)@.push(ch),
;

pub open spec fn is_digit(c: char) -> bool {
    '0' <= c && c <= '9'
}

pub open spec fn digit_value(c: char) -> int {
    c as int - '0' as int
}

pub open spec fn all_digits(s: Seq<char>) -> bool {
    forall|i: int| 0 <= i < s.len() ==> is_digit(#[trigger] s[i])
}

/// The number that a run of decimal digits denotes.
pub open spec fn digits_value(s: Seq<char>) -> int
    decreases s.len(),
{
    if s.len() == 0 {
        0
    } else {
        digits_value(s.drop_last()) * 10 + digit_value(s.last())
    }
}

/// The value of a decimal numeral as `str::parse` reads it for an integer type:
/// an optional `+` (or `-` where `signed`), then one or more ASCII digits.
pub open spec fn numeral_value(s: Seq<char>, signed: bool) -> Option<int> {
    if s.len() > 0 && s[0] == '+' {
        let d = s.drop_first();
        if d.len() > 0 && all_digits(d) {
            Some(digits_value(d))
        } else {
            None
        }
    } else if signed && s.len() > 0 && s[0] == '-' {
        let d = s.drop_first();
        if d.len() > 0 && all_digits(d) {
            Some(-digits_value(d))
        } else {
            None
        }
    } else if s.len() > 0 && all_digits(s) {
        Some(digits_value(s))
    } else {
        None
    }
}

/// The integer that `s` denotes when read into a type with range `lo..=hi`;
/// `None` when the text is no numeral or the value falls outside the range.
pub open spec fn int_in_range(s: Seq<char>, lo: int, hi: int) -> Option<int> {
    match numeral_value(s, lo < 0) {
        Some(v) => if lo <= v && v <= hi {
            Some(v)
        } else {
            None
        },
        None => None,
    }
}

pub open spec fn digit_char(d: int) -> char {
    ((d + '0' as int) as u32) as char
}

/// The shortest decimal digits of a natural number.
pub open spec fn nat_text(n: nat) -> Seq<char>
    decreases n,
{
    if n < 10 {
        seq![digit_char(n as int)]
    } else {
        nat_text(n / 10).push(digit_char((n % 10) as int))
    }
}

/// The decimal text of an integer, with a leading `-` when negative.
pub open spec fn int_text(n: int) -> Seq<char> {
    if n < 0 {
        seq!['-'] + nat_text((-n) as nat)
    } else {
        nat_text(n as nat)
    }
}

/// The flag encoding of the format.
pub open spec fn flag_text(b: bool) -> Seq<char> {
    if b {
        seq!['1']
    } else {
        seq!['0']
    }
}

/// How the format reads a flag: only the text "1" is true.
pub open spec fn is_one(s: Seq<char>) -> bool {
    s == seq!['1']
}

/// `n` tab characters.
pub open spec fn tabs(n: nat) -> Seq<char>
    decreases n,
{
    if n == 0 {
        Seq::empty()
    } else {
        tabs((n - 1) as nat).push('\t')
    }
}

pub proof fn lemma_digits_value_nonneg(s: Seq<char>)
    requires
        all_digits(s),
    ensures
        digits_value(s) >= 0,
    decreases s.len(),
{
    if s.len() > 0 {
        assert(all_digits(s.drop_last()));
        lemma_digits_value_nonneg(s.drop_last());
        assert(is_digit(s[s.len() - 1]));
    }
}

/// Converts a boolean to the text "0" or "1".
pub trait To01String: Sized {
    /// The text that stands for the value.
    spec fn text_01(self) -> Seq<char>;

    fn to_01_string(self) -> (r: String)
        ensures
            r@ == self.text_01(),
    ;
}

impl To01String for bool {
    open spec fn text_01(self) -> Seq<char> {
        flag_text(self)
    }

    fn to_01_string(self) -> (r: String) {
        let mut r = String::new();
        if self {
            r.push('1');
        } else {
            r.push('0');
        }
        proof {
            assert(r@ =~= flag_text(self));
        }
        r
    }
}

/// Whether `s` is the text "1".
pub fn str_is_one(s: &str) -> (r: bool)
    ensures
        r == is_one(s@),
{
    let n = s.unicode_len();
    if n != 1 {
        return false;
    }
    let c = s.get_char(0);
    if c == '1' {
        assert(s@ =~= seq!['1']);
        true
    } else {
        false
    }
}

/// The characters of a string slice, in order.
pub fn chars_of(s: &str) -> (r: Vec<char>)
    ensures
        r@ == s@,
{
    let mut r: Vec<char> = Vec::new();
    for c in it: s.chars()
        invariant
            r@ == it.seq().take(it.index() as int),
            it.seq() == s@,
    {
        r.push(c);
    }
    assert(r@ =~= s@);
    r
}

/// Reads the digits of `s[start..]` as a number no larger than `max`.
fn digits_up_to(s: &Vec<char>, start: usize, max: u64) -> (r: Option<u64>)
    requires
        start <= s.len(),
    ensures
        ({
            let d = s@.subrange(start as int, s.len() as int);
            match r {
                Some(v) => d.len() > 0 && all_digits(d) && v == digits_value(d) && v <= max,
                None => !(d.len() > 0 && all_digits(d) && digits_value(d) <= max),
            }
        }),
{
    if start == s.len() {
        return None;
    }
    let mut v: u64 = 0;
    let mut over = false;
    let mut i = start;
    while i < s.len()
        invariant
            start <= i <= s.len(),
            all_digits(s@.subrange(start as int, i as int)),
            !over ==> v == digits_value(s@.subrange(start as int, i as int)) && v <= max,
            over ==> digits_value(s@.subrange(start as int, i as int)) > max,
        decreases s.len() - i,
    {
        let c = s[i];
        if !('0' <= c && c <= '9') {
            proof {
                let d = s@.subrange(start as int, s.len() as int);
                assert(d[i - start] == c);
            }
            return None;
        }
        let ghost pre = s@.subrange(start as int, i as int);
        let ghost post = s@.subrange(start as int, i + 1);
        proof {
            assert(post.drop_last() =~= pre);
            assert(post.last() == c);
            assert(all_digits(post));
            lemma_digits_value_nonneg(pre);
        }
        let d = (c as u32 - '0' as u32) as u64;
        if !over {
            if d > max || v > (max - d) / 10 {
                over = true;
                proof {
                    assert(digits_value(post) == v * 10 + d);
                    if d <= max {
                        assert(v * 10 + d > max) by (nonlinear_arith)
                            requires v > (max - d) / 10, d <= max;
                    }
                }
            } else {
                proof {
                    assert(v * 10 + d <= max) by (nonlinear_arith)
                        requires v <= (max - d) / 10, d <= 9;
                }
                v = v * 10 + d;
            }
        } else {
            assert(digits_value(post) == digits_value(pre) * 10 + d);
        }
        i = i + 1;
    }
    proof {
        assert(s@.subrange(start as int, s.len() as int) =~= s@.subrange(start as int, i as int));
    }
    if over {
        None
    } else {
        Some(v)
    }
}

/// Reads an unsigned decimal numeral no larger than `max`.
pub fn parse_unsigned(s: &str, max: u64) -> (r: Option<u64>)
    ensures
        match int_in_range(s@, 0, max as int) {
            Some(v) => r == Some(v as u64),
            None => r is None,
        },
{
    let cs = chars_of(s);
    if cs.len() > 0 && cs[0] == '+' {
        let r = digits_up_to(&cs, 1, max);
        proof {
            assert(cs@.subrange(1, cs@.len() as int) =~= s@.drop_first());
        }
        r
    } else {
        let r = digits_up_to(&cs, 0, max);
        proof {
            assert(cs@.subrange(0, cs@.len() as int) =~= s@);
            if r is Some {
                assert(cs@.len() > 0 && cs@[0] != '+');
            }
        }
        r
    }
}

/// Reads a signed decimal numeral within `min..=max`.
pub fn parse_signed(s: &str, min: i64, max: i64) -> (r: Option<i64>)
    requires
        min < 0 <= max,
        min > i64::MIN,
    ensures
        match int_in_range(s@, min as int, max as int) {
            Some(v) => r == Some(v as i64),
            None => r is None,
        },
{
    let cs = chars_of(s);
    if cs.len() > 0 && cs[0] == '-' {
        let bound = (0 - min) as u64;
        let r = digits_up_to(&cs, 1, bound);
        proof {
            assert(cs@.subrange(1, cs@.len() as int) =~= s@.drop_first());
        }
        match r {
            Some(m) => Some(0 - (m as i64)),
            None => None,
        }
    } else {
        let start: usize = if cs.len() > 0 && cs[0] == '+' { 1 } else { 0 };
        let r = digits_up_to(&cs, start, max as u64);
        proof {
            if start == 1 {
                assert(cs@.subrange(1, cs@.len() as int) =~= s@.drop_first());
            } else {
                assert(cs@.subrange(0, cs@.len() as int) =~= s@);
            }
        }
        match r {
            Some(m) => Some(m as i64),
            None => None,
        }
    }
}

/// Appends the decimal digits of `n`.
pub fn push_nat(out: &mut String, n: u64)
    ensures
        final(out)@ == old(out)@ + nat_text(n as nat),
    decreases n,
{
    if n >= 10 {
        push_nat(out, n / 10);
    }
    let d = (n % 10) as u32;
    let c = char_from_digit(d);
    out.push(c);
    proof {
        if n >= 10 {
            assert(nat_text(n as nat) == nat_text((n / 10) as nat).push(digit_char((n % 10) as int)));
        }
    }
    assert(final(out)@ =~= old(out)@ + nat_text(n as nat));
}

fn char_from_digit(d: u32) -> (c: char)
    requires
        d < 10,
    ensures
        c == digit_char(d as int),
{
    if d == 0 { '0' }
    else if d == 1 { '1' }
    else if d == 2 { '2' }
    else if d == 3 { '3' }
    else if d == 4 { '4' }
    else if d == 5 { '5' }
    else if d == 6 { '6' }
    else if d == 7 { '7' }
    else if d == 8 { '8' }
    else { '9' }
}

/// Appends the decimal text of a signed integer.
pub fn push_int(out: &mut String, n: i64)
    requires
        n > i64::MIN,
    ensures
        final(out)@ == old(out)@ + int_text(n as int),
{
    if n < 0 {
        out.push('-');
        push_nat(out, (0 - n) as u64);
        assert(final(out)@ =~= old(out)@ + int_text(n as int));
    } else {
        push_nat(out, n as u64);
    }
}

/// The decimal text of an unsigned integer.
pub fn nat_string(n: u64) -> (r: String)
    ensures
        r@ == nat_text(n as nat),
{
    let mut r = String::new();
    push_nat(&mut r, n);
    assert(r@ =~= nat_text(n as nat));
    r
}

/// The decimal text of a signed integer.
pub fn int_string(n: i64) -> (r: String)
    requires
        n > i64::MIN,
    ensures
        r@ == int_text(n as int),
{
    let mut r = String::new();
    push_int(&mut r, n);
    assert(r@ =~= int_text(n as int));
    r
}

/// Appends `n` tab characters.
pub fn push_tabs(out: &mut String, n: usize)
    ensures
        final(out)@ == old(out)@ + tabs(n as nat),
{
    let mut i: usize = 0;
    while i < n
        invariant
            i <= n,
            out@ == old(out)@ + tabs(i as nat),
        decreases n - i,
    {
        out.push('\t');
        i = i + 1;
        assert(out@ =~= old(out)@ + tabs(i as nat));
    }
}

} // verus!

verus! {

/// The line `"k" "v"` inside a block at depth `indent`.
#[verifier::opaque]
pub open spec fn kv_line(indent: nat, k: Seq<char>, v: Seq<char>) -> Seq<char> {
    tabs(indent) + "\t\""@ + k + "\" \""@ + v + "\"\n"@
}

/// The two lines that open a block named `name` at depth `indent`.
#[verifier::opaque]
pub open spec fn open_lines(indent: nat, name: Seq<char>) -> Seq<char> {
    tabs(indent) + name + "\n"@ + tabs(indent) + "{\n"@
}

/// The line that closes a block at depth `indent`.
#[verifier::opaque]
pub open spec fn close_line(indent: nat) -> Seq<char> {
    tabs(indent) + "}\n"@
}

/// Appends the line `"k" "v"` of a block at depth `indent`.
pub fn push_kv_line(out: &mut String, indent: usize, k: &str, v: &str)
    ensures
        final(out)@ == old(out)@ + kv_line(indent as nat, k@, v@),
{
    push_tabs(out, indent);
    out.push_str("\t\"");
    out.push_str(k);
    out.push_str("\" \"");
    out.push_str(v);
    out.push_str("\"\n");
    reveal(kv_line);
    assert(final(out)@ =~= old(out)@ + kv_line(indent as nat, k@, v@));
}

/// Appends the lines that open a block named `name` at depth `indent`.
pub fn push_open(out: &mut String, indent: usize, name: &str)
    ensures
        final(out)@ == old(out)@ + open_lines(indent as nat, name@),
{
    push_tabs(out, indent);
    out.push_str(name);
    out.push_str("\n");
    push_tabs(out, indent);
    out.push_str("{\n");
    reveal(open_lines);
    assert(final(out)@ =~= old(out)@ + open_lines(indent as nat, name@));
}

/// Appends the line that closes a block at depth `indent`.
pub fn push_close(out: &mut String, indent: usize)
    ensures
        final(out)@ == old(out)@ + close_line(indent as nat),
{
    push_tabs(out, indent);
    out.push_str("}\n");
    reveal(close_line);
    assert(final(out)@ =~= old(out)@ + close_line(indent as nat));
}

} // verus!

verus! {

/// The line of an optional value: nothing when absent.
pub open spec fn opt_line(indent: nat, k: Seq<char>, v: Option<Seq<char>>) -> Seq<char> {
    match v {
        Some(t) => kv_line(indent, k, t),
        None => Seq::empty(),
    }
}

/// Appends the line `"k" "n"` for a signed integer.
pub fn push_int_line(out: &mut String, indent: usize, k: &str, n: i64)
    requires
        n > i64::MIN,
    ensures
        final(out)@ == old(out)@ + kv_line(indent as nat, k@, int_text(n as int)),
{
    let t = int_string(n);
    push_kv_line(out, indent, k, t.as_str());
}

/// Appends the line `"k" "n"` for an unsigned integer.
pub fn push_nat_line(out: &mut String, indent: usize, k: &str, n: u64)
    ensures
        final(out)@ == old(out)@ + kv_line(indent as nat, k@, int_text(n as int)),
{
    let t = nat_string(n);
    push_kv_line(out, indent, k, t.as_str());
}

/// Appends the line `"k" "0"` or `"k" "1"` for a flag.
pub fn push_flag_line(out: &mut String, indent: usize, k: &str, b: bool)
    ensures
        final(out)@ == old(out)@ + kv_line(indent as nat, k@, flag_text(b)),
{
    let t = b.to_01_string();
    push_kv_line(out, indent, k, t.as_str());
}

} // verus!

verus! {

pub open spec fn is_exp_mark(c: char) -> bool {
    c == 'e' || c == 'E'
}

/// Digits with at most one decimal point, and at least one digit.
pub open spec fn is_mantissa(m: Seq<char>) -> bool {
    (m.len() > 0 && all_digits(m)) || exists|d: int|
        0 <= d < m.len() && m[d] == '.' && m.len() >= 2 && all_digits(#[trigger] m.subrange(0, d))
            && all_digits(m.subrange(d + 1, m.len() as int))
}

/// The part after the exponent mark: an optional sign, then digits.
pub open spec fn is_exponent(x: Seq<char>) -> bool {
    if x.len() > 0 && (x[0] == '+' || x[0] == '-') {
        x.len() > 1 && all_digits(x.drop_first())
    } else {
        x.len() > 0 && all_digits(x)
    }
}

/// A decimal number: a mantissa, optionally followed by an exponent.
pub open spec fn is_decimal(t: Seq<char>) -> bool {
    is_mantissa(t) || exists|e: int|
        0 <= e < t.len() && is_exp_mark(t[e]) && is_mantissa(#[trigger] t.subrange(0, e))
            && is_exponent(t.subrange(e + 1, t.len() as int))
}

/// `c` is the letter `w` or its ASCII capital.
pub open spec fn same_letter(c: char, w: char) -> bool {
    if 'A' <= c && c <= 'Z' {
        c as u32 + 32 == w as u32
    } else {
        c == w
    }
}

/// `t` spells `w` (given in lower case) in any mix of case.
pub open spec fn spells(t: Seq<char>, w: Seq<char>) -> bool {
    t.len() == w.len() && forall|i: int| 0 <= i < t.len() ==> same_letter(#[trigger] t[i], w[i])
}

/// Text that `str::parse` reads as a float: an optional sign, then a decimal
/// number, or `inf`, `infinity` or `nan` in any case.
pub open spec fn is_float_text(s: Seq<char>) -> bool {
    let t = if s.len() > 0 && (s[0] == '+' || s[0] == '-') {
        s.drop_first()
    } else {
        s
    };
    is_decimal(t) || spells(t, seq!['i', 'n', 'f']) || spells(t, seq!['i', 'n', 'f', 'i', 'n', 'i', 't', 'y'])
        || spells(t, seq!['n', 'a', 'n'])
}

fn digits_between(cs: &Vec<char>, lo: usize, hi: usize) -> (r: bool)
    requires
        lo <= hi <= cs.len(),
    ensures
        r == all_digits(cs@.subrange(lo as int, hi as int)),
{
    let mut i = lo;
    while i < hi
        invariant
            lo <= i <= hi <= cs.len(),
            all_digits(cs@.subrange(lo as int, i as int)),
        decreases hi - i,
    {
        let c = cs[i];
        if !('0' <= c && c <= '9') {
            assert(cs@.subrange(lo as int, hi as int)[i - lo] == c);
            return false;
        }
        assert(all_digits(cs@.subrange(lo as int, i + 1))) by {
            assert forall|k: int| 0 <= k < i + 1 - lo implies is_digit(#[trigger] cs@.subrange(lo as int, i + 1)[k]) by {
                if k < i - lo {
                    assert(cs@.subrange(lo as int, i + 1)[k] == cs@.subrange(lo as int, i as int)[k]);
                }
            }
        }
        i = i + 1;
    }
    true
}

/// Whether `cs[lo..hi]` is a mantissa.
fn mantissa_between(cs: &Vec<char>, lo: usize, hi: usize) -> (r: bool)
    requires
        lo <= hi <= cs.len(),
    ensures
        r == is_mantissa(cs@.subrange(lo as int, hi as int)),
{
    let ghost m = cs@.subrange(lo as int, hi as int);
    let mut d = lo;
    while d < hi && cs[d] != '.'
        invariant
            lo <= d <= hi <= cs.len(),
            forall|k: int| lo <= k < d ==> cs@[k] != '.',
        decreases hi - d,
    {
        d = d + 1;
    }
    if d == hi {
        let r = hi > lo && digits_between(cs, lo, hi);
        proof {
            assert forall|x: int| 0 <= x < m.len() && m[x] == '.' implies false by {
                assert(m[x] == cs@[lo + x]);
            }
        }
        r
    } else {
        let a = digits_between(cs, lo, d);
        let b = digits_between(cs, d + 1, hi);
        let r = a && b && hi - lo >= 2;
        proof {
            let dd = d - lo;
            assert(m.subrange(0, dd) =~= cs@.subrange(lo as int, d as int));
            assert(m.subrange(dd + 1, m.len() as int) =~= cs@.subrange(d + 1, hi as int));
            assert(m[dd] == '.');
            assert(!all_digits(m)) by {
                assert(!is_digit(m[dd]));
            }
            if r {
                assert(is_mantissa(m));
            } else {
                assert forall|x: int| 0 <= x < m.len() && m[x] == '.' && m.len() >= 2
                    && all_digits(#[trigger] m.subrange(0, x)) implies !all_digits(m.subrange(x + 1, m.len() as int)) by {
                    if x < dd {
                        assert(m.subrange(x + 1, m.len() as int)[dd - x - 1] == '.');
                    } else if x > dd {
                        assert(m.subrange(0, x)[dd] == '.');
                    }
                }
            }
        }
        r
    }
}

/// Whether `cs[lo..hi]` is an exponent part.
fn exponent_between(cs: &Vec<char>, lo: usize, hi: usize) -> (r: bool)
    requires
        lo <= hi <= cs.len(),
    ensures
        r == is_exponent(cs@.subrange(lo as int, hi as int)),
{
    let ghost x = cs@.subrange(lo as int, hi as int);
    if lo < hi && (cs[lo] == '+' || cs[lo] == '-') {
        assert(x.drop_first() =~= cs@.subrange(lo + 1, hi as int));
        hi > lo + 1 && digits_between(cs, lo + 1, hi)
    } else {
        hi > lo && digits_between(cs, lo, hi)
    }
}

/// Whether `cs[lo..hi]` spells `w` in any case.
pub fn spells_between(cs: &Vec<char>, lo: usize, hi: usize, w: &Vec<char>) -> (r: bool)
    requires
        lo <= hi <= cs.len(),
    ensures
        r == spells(cs@.subrange(lo as int, hi as int), w@),
{
    if hi - lo != w.len() {
        return false;
    }
    let mut i: usize = 0;
    while i < w.len()
        invariant
            hi - lo == w.len(),
            lo <= hi <= cs.len(),
            i <= w.len(),
            forall|k: int| 0 <= k < i ==> same_letter(#[trigger] cs@.subrange(lo as int, hi as int)[k], w@[k]),
        decreases w.len() - i,
    {
        let c = cs[lo + i];
        let ok = if 'A' <= c && c <= 'Z' { (c as u32) + 32 == (w[i] as u32) } else { c == w[i] };
        assert(cs@.subrange(lo as int, hi as int)[i as int] == c);
        if !ok {
            return false;
        }
        i = i + 1;
    }
    true
}

/// Whether `s` is text that reads as a float.
#[verifier::spinoff_prover]
#[verifier::rlimit(50)]
pub fn is_float(s: &str) -> (r: bool)
    ensures
        r == is_float_text(s@),
{
    let cs = chars_of(s);
    let n = cs.len();
    let lo: usize = if n > 0 && (cs[0] == '+' || cs[0] == '-') { 1 } else { 0 };
    let ghost t = cs@.subrange(lo as int, n as int);
    proof {
        if lo == 1 {
            assert(t =~= s@.drop_first());
        } else {
            assert(t =~= s@);
        }
    }
    let inf = vec!['i', 'n', 'f'];
    let infinity = vec!['i', 'n', 'f', 'i', 'n', 'i', 't', 'y'];
    let nan = vec!['n', 'a', 'n'];
    proof {
        assert(inf@ =~= seq!['i', 'n', 'f']);
        assert(infinity@ =~= seq!['i', 'n', 'f', 'i', 'n', 'i', 't', 'y']);
        assert(nan@ =~= seq!['n', 'a', 'n']);
    }
    if spells_between(&cs, lo, n, &inf) || spells_between(&cs, lo, n, &infinity) || spells_between(&cs, lo, n, &nan) {
        return true;
    }
    let mut e = lo;
    while e < n && cs[e] != 'e' && cs[e] != 'E'
        invariant
            lo <= e <= n == cs.len(),
            forall|k: int| lo <= k < e ==> !is_exp_mark(cs@[k]),
        decreases n - e,
    {
        e = e + 1;
    }
    if e == n {
        let r = mantissa_between(&cs, lo, n);
        proof {
            assert forall|x: int| 0 <= x < t.len() && is_exp_mark(t[x]) implies false by {
                assert(t[x] == cs@[lo + x]);
            }
        }
        r
    } else {
        let ee = e - lo;
        let m = mantissa_between(&cs, lo, e);
        let x = exponent_between(&cs, e + 1, n);
        proof {
            assert(t.subrange(0, ee as int) =~= cs@.subrange(lo as int, e as int));
            assert(t.subrange(ee + 1, t.len() as int) =~= cs@.subrange(e + 1, n as int));
            assert(is_exp_mark(t[ee as int]));
            assert(!is_mantissa(t)) by {
                assert(!is_digit(t[ee as int]) && t[ee as int] != '.');
                if t.len() > 0 && all_digits(t) {
                    assert(is_digit(t[ee as int]));
                }
                assert forall|d: int| 0 <= d < t.len() && t[d] == '.' && t.len() >= 2
                    && all_digits(#[trigger] t.subrange(0, d)) implies !all_digits(t.subrange(d + 1, t.len() as int)) by {
                    if d < ee {
                        assert(t.subrange(d + 1, t.len() as int)[ee - d - 1] == t[ee as int]);
                    } else {
                        assert(t.subrange(0, d)[ee as int] == t[ee as int]);
                    }
                }
            }
            if !(m && x) {
                assert forall|y: int| 0 <= y < t.len() && is_exp_mark(t[y])
                    && is_mantissa(#[trigger] t.subrange(0, y)) implies !is_exponent(t.subrange(y + 1, t.len() as int)) by {
                    if y > ee {
                        let p = t.subrange(0, y);
                        assert(p[ee as int] == t[ee as int]);
                        assert(!is_digit(p[ee as int]) && p[ee as int] != '.');
                        if p.len() > 0 && all_digits(p) {
                            assert(is_digit(p[ee as int]));
                        }
                        assert forall|d: int| 0 <= d < p.len() && p[d] == '.' && p.len() >= 2
                            && all_digits(#[trigger] p.subrange(0, d)) implies !all_digits(p.subrange(d + 1, p.len() as int)) by {
                            if d < ee {
                                assert(p.subrange(d + 1, p.len() as int)[ee - d - 1] == p[ee as int]);
                            } else {
                                assert(p.subrange(0, d)[ee as int] == p[ee as int]);
                            }
                        }
                    } else if y < ee {
                        assert(t[y] == cs@[lo + y]);
                    }
                }
            }
        }
        m && x
    }
}

} // verus!
