use vstd::prelude::*;

use crate::keys::{descriptor_text, string_of_chars};
use crate::text::{
    decimal, decimal_digit, hex8, hex_digit_spec, hex_width, path_text_spec, path_wf, step_text,
    ChildStep, MAX_STEP_INDEX,
};

verus! {

/// A descriptor read back into its parts.
#[derive(Debug)]
pub struct DescriptorParts {
    pub fingerprint: u32,
    pub path: Vec<ChildStep>,
    pub key: String,
}

/// The value of a lower-case hexadecimal digit, -1 for any other character.
pub open spec fn hex_char_value(c: char) -> int {
    if c == '0' { 0 }
    else if c == '1' { 1 }
    else if c == '2' { 2 }
    else if c == '3' { 3 }
    else if c == '4' { 4 }
    else if c == '5' { 5 }
    else if c == '6' { 6 }
    else if c == '7' { 7 }
    else if c == '8' { 8 }
    else if c == '9' { 9 }
    else if c == 'a' { 10 }
    else if c == 'b' { 11 }
    else if c == 'c' { 12 }
    else if c == 'd' { 13 }
    else if c == 'e' { 14 }
    else if c == 'f' { 15 }
    else { -1 }
}

pub open spec fn all_decimal(s: Seq<char>) -> bool {
    forall|i: int| 0 <= i < s.len() ==> 0 <= #[trigger] hex_char_value(s[i]) < 10
}

pub open spec fn all_hex(s: Seq<char>) -> bool {
    forall|i: int| 0 <= i < s.len() ==> 0 <= #[trigger] hex_char_value(s[i])
}

pub open spec fn digits_value(s: Seq<char>, base: int) -> int
    decreases s.len(),
{
    if s.len() == 0 {
        0
    } else {
        digits_value(s.drop_last(), base) * base + hex_char_value(s.last())
    }
}

/// The characters a key's base58 text is made of.
pub open spec fn is_key_char(c: char) -> bool {
    ('0' <= c && c <= '9') || ('a' <= c && c <= 'z') || ('A' <= c && c <= 'Z')
}

pub open spec fn key_ok(k: Seq<char>) -> bool {
    k.len() > 0 && forall|i: int| 0 <= i < k.len() ==> is_key_char(#[trigger] k[i])
}

pub open spec fn last_index(m: Seq<char>, c: char) -> int
    decreases m.len(),
{
    if m.len() == 0 {
        -1
    } else if m.last() == c {
        m.len() - 1
    } else {
        last_index(m.drop_last(), c)
    }
}

/// `84'` or `0`: decimal digits without a leading zero, then `'` if hardened.
pub open spec fn parse_step(t: Seq<char>) -> Option<ChildStep> {
    let hard = t.len() > 0 && t.last() == '\'';
    let ds = if hard { t.drop_last() } else { t };
    if ds.len() > 0 && all_decimal(ds) && (ds.len() == 1 || ds[0] != '0') && digits_value(ds, 10)
        <= MAX_STEP_INDEX {
        Some(ChildStep { index: digits_value(ds, 10) as u32, hardened: hard })
    } else {
        None
    }
}

pub open spec fn parse_path(m: Seq<char>) -> Option<Seq<ChildStep>>
    decreases m.len(),
{
    if m.len() == 0 {
        Some(seq![])
    } else {
        let j = last_index(m, '/');
        if j < 0 || j >= m.len() {
            None
        } else {
            match (parse_path(m.take(j)), parse_step(m.skip(j + 1))) {
                (Some(p), Some(st)) => Some(p.push(st)),
                _ => None,
            }
        }
    }
}

pub open spec fn descriptor_prefix() -> Seq<char> {
    seq!['w', 'p', 'k', 'h', '(', '[']
}

pub open spec fn descriptor_suffix() -> Seq<char> {
    seq!['/', '*', ')']
}

/// Reads `wpkh([<8 hex digits><path>]<key>/*)` into fingerprint, path and key.
pub open spec fn parse_spec(s: Seq<char>) -> Option<(u32, Seq<ChildStep>, Seq<char>)> {
    if s.len() < 18 || s.take(6) != descriptor_prefix() || s.skip(s.len() - 3)
        != descriptor_suffix() {
        None
    } else {
        let h = s.subrange(6, 14);
        let body = s.subrange(14, s.len() - 3);
        let c = last_index(body, ']');
        if !all_hex(h) || c < 0 {
            None
        } else {
            match parse_path(body.take(c)) {
                Some(p) => if key_ok(body.skip(c + 1)) {
                    Some((digits_value(h, 16) as u32, p, body.skip(c + 1)))
                } else {
                    None
                },
                None => None,
            }
        }
    }
}

proof fn lemma_last_index_after(a: Seq<char>, b: Seq<char>, c: char)
    requires
        forall|i: int| 0 <= i < b.len() ==> b[i] != c,
    ensures
        last_index(a + seq![c] + b, c) == a.len(),
    decreases b.len(),
{
    if b.len() > 0 {
        assert((a + seq![c] + b).drop_last() =~= a + seq![c] + b.drop_last());
        lemma_last_index_after(a, b.drop_last(), c);
    }
}

proof fn lemma_decimal(n: nat)
    ensures
        decimal(n).len() > 0,
        all_decimal(decimal(n)),
        digits_value(decimal(n), 10) == n,
        decimal(n).len() == 1 || decimal(n)[0] != '0',
        decimal(n)[0] == '0' ==> n == 0,
    decreases n,
{
    if n < 10 {
        assert(hex_char_value(decimal_digit(n as int)) == n);
        let d = decimal(n);
        assert(d.drop_last() =~= seq![]);
        assert(digits_value(d.drop_last(), 10) == 0);
        assert(digits_value(d, 10) == digits_value(d.drop_last(), 10) * 10 + hex_char_value(d.last()));
    } else {
        lemma_decimal(n / 10);
        let d = decimal(n);
        let x = (n % 10) as int;
        assert(hex_char_value(decimal_digit(x)) == x);
        assert(d.drop_last() =~= decimal(n / 10));
        assert(d[0] == decimal(n / 10)[0]);
        assert(digits_value(d, 10) == digits_value(decimal(n / 10), 10) * 10 + x);
        assert((n / 10) * 10 + x == n);
        assert forall|i: int| 0 <= i < d.len() implies 0 <= #[trigger] hex_char_value(d[i]) < 10 by {
            if i < d.len() - 1 {
                assert(d[i] == decimal(n / 10)[i]);
            }
        }
    }
}

proof fn lemma_step(s: ChildStep)
    requires
        s.wf(),
    ensures
        parse_step(decimal(s.index as nat) + if s.hardened { seq!['\''] } else { seq![] }) == Some(
            s,
        ),
        forall|i: int|
            0 <= i < step_text(s).len() - 1 ==> (#[trigger] step_text(s)[i + 1]) != '/' && step_text(
                s,
            )[i + 1] != ']',
{
    lemma_decimal(s.index as nat);
    let d = decimal(s.index as nat);
    let t = d + if s.hardened { seq!['\''] } else { seq![] };
    if s.hardened {
        assert(t.drop_last() =~= d);
    } else {
        assert(t =~= d);
        assert(hex_char_value(d.last()) >= 0);
    }
    assert forall|i: int| 0 <= i < step_text(s).len() - 1 implies (#[trigger] step_text(s)[i
        + 1]) != '/' && step_text(s)[i + 1] != ']' by {
        assert(step_text(s)[i + 1] == t[i]);
        if i < d.len() {
            assert(hex_char_value(d[i]) >= 0);
        }
    }
}

proof fn lemma_path_no_bracket(p: Seq<ChildStep>)
    requires
        path_wf(p),
    ensures
        forall|i: int|
            0 <= i < path_text_spec(p).len() ==> (#[trigger] path_text_spec(p)[i]) != ']',
    decreases p.len(),
{
    if p.len() > 0 {
        let q = p.drop_last();
        let s = p.last();
        assert(p[p.len() - 1] == s);
        lemma_path_no_bracket(q);
        lemma_step(s);
        let a = path_text_spec(q);
        let st = step_text(s);
        let m = path_text_spec(p);
        assert(m == a + st);
        assert forall|i: int| 0 <= i < m.len() implies (#[trigger] m[i]) != ']' by {
            if i < a.len() {
                assert(m[i] == a[i]);
            } else if i > a.len() {
                assert(m[i] == st[(i - a.len() - 1) + 1]);
            } else {
                assert(m[i] == st[0]);
            }
        }
    }
}

proof fn lemma_path(p: Seq<ChildStep>)
    requires
        path_wf(p),
    ensures
        parse_path(path_text_spec(p)) == Some(p),
    decreases p.len(),
{
    if p.len() > 0 {
        let q = p.drop_last();
        let s = p.last();
        assert(p[p.len() - 1] == s);
        lemma_path(q);
        lemma_step(s);
        let a = path_text_spec(q);
        let st = step_text(s);
        let b = st.skip(1);
        assert(st =~= seq!['/'] + b);
        assert(path_text_spec(p) =~= a + seq!['/'] + b);
        assert forall|i: int| 0 <= i < b.len() implies b[i] != '/' by {
            assert(b[i] == st[i + 1]);
        }
        lemma_last_index_after(a, b, '/');
        let m = path_text_spec(p);
        assert(m.take(a.len() as int) =~= a);
        assert(m.skip(a.len() as int + 1) =~= b);
        assert(b =~= decimal(s.index as nat) + if s.hardened { seq!['\''] } else { seq![] });
        assert(p =~= q.push(s));
    }
}

proof fn lemma_hex_canonical(h: Seq<char>)
    requires
        all_hex(h),
    ensures
        0 <= digits_value(h, 16),
        hex_width(digits_value(h, 16) as nat, h.len()) == h,
        h.len() == 8 ==> digits_value(h, 16) < 0x1_0000_0000,
        h.len() < 8 ==> digits_value(h, 16) < 0x1000_0000,
        h.len() < 7 ==> digits_value(h, 16) < 0x100_0000,
        h.len() < 6 ==> digits_value(h, 16) < 0x10_0000,
        h.len() < 5 ==> digits_value(h, 16) < 0x1_0000,
        h.len() < 4 ==> digits_value(h, 16) < 0x1000,
        h.len() < 3 ==> digits_value(h, 16) < 0x100,
        h.len() < 2 ==> digits_value(h, 16) < 0x10,
        h.len() < 1 ==> digits_value(h, 16) < 1,
    decreases h.len(),
{
    if h.len() > 0 {
        let t = h.drop_last();
        assert forall|i: int| 0 <= i < t.len() implies 0 <= #[trigger] hex_char_value(t[i]) by {
            assert(t[i] == h[i]);
        }
        lemma_hex_canonical(t);
        let a = digits_value(t, 16);
        let x = hex_char_value(h.last());
        assert(0 <= hex_char_value(h[h.len() - 1]));
        let v = a * 16 + x;
        assert(v / 16 == a && v % 16 == x) by {
            vstd::arithmetic::div_mod::lemma_fundamental_div_mod_converse(v, 16, a, x);
        }
        assert(hex_digit_spec(x) == h.last());
        assert(h =~= t.push(h.last()));
    }
}

/// Parsing a descriptor this library wrote, then writing the parts again, gives
/// back the same text; the path and key come back unchanged.
pub proof fn descriptor_round_trip(fingerprint: u32, path: Seq<ChildStep>, key: Seq<char>)
    requires
        path_wf(path),
        key_ok(key),
    ensures
        parse_spec(descriptor_text(fingerprint, path, key)) matches Some(d) && d.1 == path && d.2
            == key && descriptor_text(d.0, d.1, d.2) == descriptor_text(fingerprint, path, key),
{
    let s = descriptor_text(fingerprint, path, key);
    let h = hex8(fingerprint);
    let pt = path_text_spec(path);
    lemma_path(path);
    lemma_path_no_bracket(path);
    assert(h.len() == 8) by {
        reveal_with_fuel(hex_width, 9);
    }
    assert(s =~= descriptor_prefix() + h + (pt + seq![']'] + key) + descriptor_suffix());
    let body = s.subrange(14, s.len() - 3);
    assert(body =~= pt + seq![']'] + key);
    assert(s.take(6) =~= descriptor_prefix());
    assert(s.skip(s.len() - 3) =~= descriptor_suffix());
    assert(s.subrange(6, 14) =~= h);
    assert forall|i: int| 0 <= i < key.len() implies key[i] != ']' by {
        assert(is_key_char(key[i]));
    }
    lemma_last_index_after(pt, key, ']');
    assert(body.take(pt.len() as int) =~= pt);
    assert(body.skip(pt.len() as int + 1) =~= key);
    lemma_hex_width_digits(fingerprint as nat, 8);
    lemma_hex_canonical(h);
    assert(hex8(digits_value(h, 16) as u32) == h);
}

proof fn lemma_hex_width_digits(n: nat, w: nat)
    ensures
        hex_width(n, w).len() == w,
        all_hex(hex_width(n, w)),
    decreases w,
{
    if w > 0 {
        lemma_hex_width_digits(n / 16, (w - 1) as nat);
        let t = hex_width(n / 16, (w - 1) as nat);
        let h = hex_width(n, w);
        assert forall|i: int| 0 <= i < h.len() implies 0 <= #[trigger] hex_char_value(h[i]) by {
            if i < t.len() {
                assert(h[i] == t[i]);
            }
        }
    }
}

fn hex_char_val(c: char) -> (r: Option<u64>)
    ensures
        r is None <==> hex_char_value(c) < 0,
        r matches Some(d) ==> d == hex_char_value(c),
{
    match c {
        '0' => Some(0),
        '1' => Some(1),
        '2' => Some(2),
        '3' => Some(3),
        '4' => Some(4),
        '5' => Some(5),
        '6' => Some(6),
        '7' => Some(7),
        '8' => Some(8),
        '9' => Some(9),
        'a' => Some(10),
        'b' => Some(11),
        'c' => Some(12),
        'd' => Some(13),
        'e' => Some(14),
        'f' => Some(15),
        _ => None,
    }
}

fn find_last(v: &Vec<char>, lo: usize, hi: usize, c: char) -> (r: Option<usize>)
    requires
        lo <= hi <= v@.len(),
    ensures
        r is None ==> last_index(v@.subrange(lo as int, hi as int), c) < 0,
        r matches Some(j) ==> lo <= j < hi && j - lo == last_index(
            v@.subrange(lo as int, hi as int),
            c,
        ),
{
    let mut k: usize = hi;
    while k > lo
        invariant
            lo <= k <= hi <= v@.len(),
            last_index(v@.subrange(lo as int, hi as int), c) == last_index(
                v@.subrange(lo as int, k as int),
                c,
            ),
        decreases k - lo,
    {
        if v[k - 1] == c {
            return Some(k - 1);
        }
        assert(v@.subrange(lo as int, k as int).drop_last() =~= v@.subrange(lo as int, k - 1));
        k = k - 1;
    }
    None
}

proof fn lemma_digits_prefix(s: Seq<char>, k: int)
    requires
        all_decimal(s),
        0 <= k <= s.len(),
    ensures
        0 <= digits_value(s.take(k), 10) <= digits_value(s, 10),
    decreases s.len(),
{
    if k < s.len() {
        let t = s.drop_last();
        assert(t.take(k) =~= s.take(k));
        assert forall|i: int| 0 <= i < t.len() implies 0 <= #[trigger] hex_char_value(t[i]) < 10 by {
            assert(t[i] == s[i]);
        }
        lemma_digits_prefix(t, k);
        assert(0 <= hex_char_value(s[s.len() - 1]));
    } else {
        assert(s.take(k) =~= s);
        if s.len() > 0 {
            let t = s.drop_last();
            assert forall|i: int| 0 <= i < t.len() implies 0 <= #[trigger] hex_char_value(t[i]) < 10 by {
                assert(t[i] == s[i]);
            }
            lemma_digits_prefix(t, t.len() as int);
            assert(t.take(t.len() as int) =~= t);
            assert(0 <= hex_char_value(s[s.len() - 1]));
        }
    }
}

fn parse_step_at(v: &Vec<char>, lo: usize, hi: usize) -> (r: Option<ChildStep>)
    requires
        lo <= hi <= v@.len(),
    ensures
        r == parse_step(v@.subrange(lo as int, hi as int)),
{
    let ghost t = v@.subrange(lo as int, hi as int);
    let hard = hi > lo && v[hi - 1] == '\'';
    let end: usize = if hard { hi - 1 } else { hi };
    let ghost ds = v@.subrange(lo as int, end as int);
    assert(hard == (t.len() > 0 && t.last() == '\''));
    assert(ds =~= if hard { t.drop_last() } else { t });
    if end == lo {
        return None;
    }
    if end - lo > 1 && v[lo] == '0' {
        assert(ds[0] == '0');
        return None;
    }
    let mut acc: u64 = 0;
    let mut k: usize = lo;
    while k < end
        invariant
            lo <= k <= end <= hi <= v@.len(),
            ds == v@.subrange(lo as int, end as int),
            t == v@.subrange(lo as int, hi as int),
            hard == (t.len() > 0 && t.last() == '\''),
            ds == if hard { t.drop_last() } else { t },
            end - lo > 1 ==> ds[0] != '0',
            end > lo,
            all_decimal(v@.subrange(lo as int, k as int)),
            acc == digits_value(v@.subrange(lo as int, k as int), 10),
            acc <= MAX_STEP_INDEX,
        decreases end - k,
    {
        let ghost pre = v@.subrange(lo as int, k + 1);
        assert(pre.drop_last() =~= v@.subrange(lo as int, k as int));
        assert(pre =~= ds.take(k + 1 - lo));
        assert(ds[k - lo] == v@[k as int]);
        let d = match hex_char_val(v[k]) {
            Some(d) => d,
            None => {
                assert(!(0 <= hex_char_value(ds[k - lo])));
                return None;
            },
        };
        if d >= 10 {
            assert(!(hex_char_value(ds[k - lo]) < 10));
            return None;
        }
        let next = acc * 10 + d;
        assert forall|i: int| 0 <= i < pre.len() implies 0 <= #[trigger] hex_char_value(pre[i]) < 10 by {
            if i < pre.len() - 1 {
                assert(pre[i] == v@.subrange(lo as int, k as int)[i]);
            }
        }
        if next > MAX_STEP_INDEX as u64 {
            proof {
                if all_decimal(ds) {
                    lemma_digits_prefix(ds, k + 1 - lo);
                }
            }
            return None;
        }
        acc = next;
        k = k + 1;
    }
    Some(ChildStep { index: acc as u32, hardened: hard })
}

fn parse_path_at(v: &Vec<char>, lo: usize, hi: usize) -> (r: Option<Vec<ChildStep>>)
    requires
        lo <= hi <= v@.len(),
    ensures
        r is None ==> parse_path(v@.subrange(lo as int, hi as int)) is None,
        r matches Some(p) ==> parse_path(v@.subrange(lo as int, hi as int)) == Some(p@),
    decreases hi - lo,
{
    let ghost m = v@.subrange(lo as int, hi as int);
    if lo == hi {
        assert(m.len() == 0);
        return Some(Vec::new());
    }
    match find_last(v, lo, hi, '/') {
        None => None,
        Some(j) => {
            assert(m.take(j - lo) =~= v@.subrange(lo as int, j as int));
            assert(m.skip(j - lo + 1) =~= v@.subrange(j + 1, hi as int));
            let st = match parse_step_at(v, j + 1, hi) {
                Some(st) => st,
                None => return None,
            };
            match parse_path_at(v, lo, j) {
                Some(p) => {
                    let mut p = p;
                    p.push(st);
                    Some(p)
                },
                None => None,
            }
        },
    }
}

pub(crate) fn matches_at(v: &Vec<char>, lo: usize, pat: &Vec<char>) -> (r: bool)
    requires
        lo + pat@.len() <= v@.len(),
    ensures
        r == (v@.subrange(lo as int, lo + pat@.len()) == pat@),
{
    let vn = v.len();
    let mut i: usize = 0;
    while i < pat.len()
        invariant
            vn == v@.len(),
            i <= pat@.len(),
            lo + pat@.len() <= v@.len(),
            v@.subrange(lo as int, lo + i) == pat@.take(i as int),
        decreases pat@.len() - i,
    {
        if v[lo + i] != pat[i] {
            assert(v@.subrange(lo as int, lo + pat@.len())[i as int] != pat@[i as int]);
            return false;
        }
        i = i + 1;
        assert(v@.subrange(lo as int, lo + i) =~= pat@.take(i as int));
    }
    assert(pat@.take(i as int) =~= pat@);
    true
}

pub(crate) fn chars_of(s: &str) -> (r: Vec<char>)
    ensures
        r@ == s@,
{
    let n = s.unicode_len();
    let mut r: Vec<char> = Vec::new();
    let mut i: usize = 0;
    while i < n
        invariant
            n == s@.len(),
            i <= n,
            r@ =~= s@.take(i as int),
        decreases n - i,
    {
        r.push(s.get_char(i));
        i = i + 1;
    }
    assert(s@.take(i as int) =~= s@);
    r
}

fn is_key_char_exec(c: char) -> (r: bool)
    ensures
        r == is_key_char(c),
{
    ('0' <= c && c <= '9') || ('a' <= c && c <= 'z') || ('A' <= c && c <= 'Z')
}

/// The key text between `lo` and `hi`, if it is one.
fn key_at(v: &Vec<char>, lo: usize, hi: usize) -> (r: Option<String>)
    requires
        lo <= hi <= v@.len(),
    ensures
        r is Some <==> key_ok(v@.subrange(lo as int, hi as int)),
        r matches Some(k) ==> k@ == v@.subrange(lo as int, hi as int),
{
    let ghost k = v@.subrange(lo as int, hi as int);
    if lo == hi {
        return None;
    }
    let mut out: Vec<char> = Vec::new();
    let mut i: usize = lo;
    while i < hi
        invariant
            lo <= i <= hi <= v@.len(),
            k == v@.subrange(lo as int, hi as int),
            out@ =~= k.take(i - lo),
            forall|j: int| 0 <= j < i - lo ==> is_key_char(#[trigger] k[j]),
        decreases hi - i,
    {
        if !is_key_char_exec(v[i]) {
            assert(!is_key_char(k[i - lo]));
            return None;
        }
        out.push(v[i]);
        i = i + 1;
    }
    assert(k.take(i - lo) =~= k);
    Some(string_of_chars(&out))
}

/// Reads a descriptor of the form this library writes back into its parts.
pub fn parse_descriptor(s: &str) -> (r: Option<DescriptorParts>)
    ensures
        r is None ==> parse_spec(s@) is None,
        r matches Some(d) ==> parse_spec(s@) == Some((d.fingerprint, d.path@, d.key@)),
{
    let v = chars_of(s);
    let n = v.len();
    if n < 18 {
        return None;
    }
    let prefix: Vec<char> = vec!['w', 'p', 'k', 'h', '(', '['];
    let suffix: Vec<char> = vec!['/', '*', ')'];
    assert(prefix@ =~= descriptor_prefix());
    assert(suffix@ =~= descriptor_suffix());
    assert(v@.subrange(0, 6) =~= v@.take(6));
    assert(v@.subrange(n - 3, n as int) =~= v@.skip(n - 3));
    if !matches_at(&v, 0, &prefix) || !matches_at(&v, n - 3, &suffix) {
        return None;
    }
    let ghost h = v@.subrange(6, 14);
    let mut fp: u64 = 0;
    let mut k: usize = 6;
    while k < 14
        invariant
            6 <= k <= 14 <= n == v@.len(),
            h == v@.subrange(6, 14),
            v@ == s@,
            v@.take(6) == descriptor_prefix(),
            v@.skip(n - 3) == descriptor_suffix(),
            all_hex(v@.subrange(6, k as int)),
            fp == digits_value(v@.subrange(6, k as int), 16),
            fp < 0x1000_0000_0000,
        decreases 14 - k,
    {
        let ghost pre = v@.subrange(6, k + 1);
        assert(pre.drop_last() =~= v@.subrange(6, k as int));
        assert(h[k - 6] == v@[k as int]);
        let d = match hex_char_val(v[k]) {
            Some(d) => d,
            None => {
                assert(!(0 <= hex_char_value(h[k - 6])));
                return None;
            },
        };
        assert forall|i: int| 0 <= i < pre.len() implies 0 <= #[trigger] hex_char_value(pre[i]) by {
            if i < pre.len() - 1 {
                assert(pre[i] == v@.subrange(6, k as int)[i]);
            }
        }
        proof {
            lemma_hex_canonical(pre);
        }
        fp = fp * 16 + d;
        k = k + 1;
    }
    proof {
        lemma_hex_canonical(h);
    }
    let ghost body = v@.subrange(14, n - 3);
    let close = match find_last(&v, 14, n - 3, ']') {
        Some(c) => c,
        None => return None,
    };
    assert(body.take(close - 14) =~= v@.subrange(14, close as int));
    assert(body.skip(close - 14 + 1) =~= v@.subrange(close + 1, n - 3));
    let path = match parse_path_at(&v, 14, close) {
        Some(p) => p,
        None => return None,
    };
    let key = match key_at(&v, close + 1, n - 3) {
        Some(k) => k,
        None => return None,
    };
    Some(DescriptorParts { fingerprint: fp as u32, path, key })
}

} // verus!
