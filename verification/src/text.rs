//! Byte-level text helpers: trimming, splitting, searching, and numeric
//! parsing and rendering. Source text is handled as byte sequences; every
//! helper has an exact functional specification.

use vstd::prelude::*;

verus! {

// ---------------------------------------------------------------------------
// Character classes
// ---------------------------------------------------------------------------

/// Whitespace inside a line: space, tab, carriage return.
pub open spec fn is_space(b: u8) -> bool {
    b == 32 || b == 9 || b == 13
}

pub fn byte_is_space(b: u8) -> (r: bool)
    ensures
        r == is_space(b),
{
    b == 32 || b == 9 || b == 13
}

pub open spec fn is_digit(b: u8) -> bool {
    48 <= b <= 57
}

/// The numeric value of a decimal digit byte; 0 for anything else.
pub open spec fn digit_val(b: u8) -> nat {
    if is_digit(b) {
        (b - 48) as nat
    } else {
        0
    }
}

/// The view of an ASCII string literal as a byte sequence.
pub open spec fn ascii_bytes(s: Seq<char>) -> Seq<u8> {
    Seq::new(s.len(), |i: int| s[i] as u8)
}

// ---------------------------------------------------------------------------
// Equality, prefixes, suffixes
// ---------------------------------------------------------------------------

pub fn bytes_eq(a: &[u8], b: &[u8]) -> (r: bool)
    ensures
        r == (a@ == b@),
{
    if a.len() != b.len() {
        return false;
    }
    let mut i: usize = 0;
    while i < a.len()
        invariant
            a@.len() == b@.len(),
            i <= a@.len(),
            forall|k: int| 0 <= k < i ==> a@[k] == b@[k],
        decreases a@.len() - i,
    {
        if a[i] != b[i] {
            return false;
        }
        i += 1;
    }
    proof {
        assert(a@ =~= b@);
    }
    true
}

/// Copies an ASCII string into a byte vector.
pub fn str_to_bytes(s: &str) -> (r: Vec<u8>)
    requires
        s.is_ascii(),
    ensures
        r@ == ascii_bytes(s@),
{
    broadcast use vstd::string::is_ascii_spec_bytes;

    let r = vstd::string::StrSliceExecFns::as_bytes_vec(s);
    proof {
        assert(r@ =~= ascii_bytes(s@));
    }
    r
}

/// Does the token equal the ASCII pattern?
pub fn is_tok(t: &[u8], pat: &str) -> (r: bool)
    requires
        pat.is_ascii(),
    ensures
        r == (t@ == ascii_bytes(pat@)),
{
    let p = str_to_bytes(pat);
    bytes_eq(t, p.as_slice())
}

pub open spec fn spec_has_prefix(s: Seq<u8>, p: Seq<u8>) -> bool {
    p.len() <= s.len() && s.subrange(0, p.len() as int) == p
}

pub open spec fn spec_has_suffix(s: Seq<u8>, p: Seq<u8>) -> bool {
    p.len() <= s.len() && s.subrange(s.len() - p.len(), s.len() as int) == p
}

pub fn has_prefix(t: &[u8], pat: &str) -> (r: bool)
    requires
        pat.is_ascii(),
    ensures
        r == spec_has_prefix(t@, ascii_bytes(pat@)),
{
    let p = str_to_bytes(pat);
    if p.len() > t.len() {
        return false;
    }
    let head = vstd::slice::slice_subrange(t, 0, p.len());
    bytes_eq(head, p.as_slice())
}

pub fn has_suffix(t: &[u8], pat: &str) -> (r: bool)
    requires
        pat.is_ascii(),
    ensures
        r == spec_has_suffix(t@, ascii_bytes(pat@)),
{
    let p = str_to_bytes(pat);
    if p.len() > t.len() {
        return false;
    }
    let tail = vstd::slice::slice_subrange(t, t.len() - p.len(), t.len());
    bytes_eq(tail, p.as_slice())
}

// ---------------------------------------------------------------------------
// Searching
// ---------------------------------------------------------------------------

/// The index of the first occurrence of `b` in `s`, if any.
pub open spec fn first_pos(s: Seq<u8>, b: u8) -> Option<nat>
    decreases s.len(),
{
    if s.len() == 0 {
        None
    } else if s[0] == b {
        Some(0nat)
    } else {
        match first_pos(s.drop_first(), b) {
            Some(i) => Some((i + 1) as nat),
            None => None,
        }
    }
}

pub proof fn lemma_first_pos(s: Seq<u8>, b: u8)
    ensures
        match first_pos(s, b) {
            Some(i) => i < s.len() && s[i as int] == b && forall|k: int| 0 <= k < i ==> s[k] != b,
            None => forall|k: int| 0 <= k < s.len() ==> s[k] != b,
        },
    decreases s.len(),
{
    if s.len() > 0 && s[0] != b {
        let t = s.drop_first();
        lemma_first_pos(t, b);
        match first_pos(t, b) {
            Some(i) => {
                assert(s[i as int + 1] == b) by {
                    assert(t[i as int] == s[i as int + 1]);
                }
                assert forall|k: int| 0 <= k < i + 1 implies s[k] != b by {
                    if k > 0 {
                        assert(t[k - 1] == s[k]);
                    }
                }
            },
            None => {
                assert forall|k: int| 0 <= k < s.len() implies s[k] != b by {
                    if k > 0 {
                        assert(t[k - 1] == s[k]);
                    }
                }
            },
        }
    }
}

pub fn find_byte(v: &[u8], b: u8) -> (r: Option<usize>)
    ensures
        match r {
            Some(i) => first_pos(v@, b) == Some(i as nat),
            None => first_pos(v@, b) is None,
        },
{
    let mut i: usize = 0;
    while i < v.len()
        invariant
            i <= v@.len(),
            forall|k: int| 0 <= k < i ==> v@[k] != b,
        decreases v@.len() - i,
    {
        if v[i] == b {
            proof {
                lemma_first_pos(v@, b);
                if first_pos(v@, b) is None {
                    assert(false);
                }
            }
            return Some(i);
        }
        i += 1;
    }
    proof {
        lemma_first_pos(v@, b);
        if first_pos(v@, b) is Some {
            assert(false);
        }
    }
    None
}

// ---------------------------------------------------------------------------
// Trimming
// ---------------------------------------------------------------------------

/// How many whitespace bytes `s` begins with.
pub open spec fn ws_prefix_len(s: Seq<u8>) -> nat
    decreases s.len(),
{
    if s.len() == 0 || !is_space(s[0]) {
        0
    } else {
        1 + ws_prefix_len(s.drop_first())
    }
}

/// How many whitespace bytes `s` ends with.
pub open spec fn ws_suffix_len(s: Seq<u8>) -> nat
    decreases s.len(),
{
    if s.len() == 0 || !is_space(s.last()) {
        0
    } else {
        1 + ws_suffix_len(s.drop_last())
    }
}

/// `s` with leading and trailing whitespace removed.
pub open spec fn spec_trim(s: Seq<u8>) -> Seq<u8> {
    if ws_prefix_len(s) == s.len() {
        Seq::empty()
    } else {
        s.subrange(ws_prefix_len(s) as int, s.len() - ws_suffix_len(s))
    }
}

pub proof fn lemma_ws_prefix(s: Seq<u8>, i: nat)
    requires
        i <= s.len(),
        forall|k: int| 0 <= k < i ==> is_space(s[k]),
        i < s.len() ==> !is_space(s[i as int]),
    ensures
        ws_prefix_len(s) == i,
    decreases s.len(),
{
    if s.len() == 0 {
    } else if i == 0 {
    } else {
        assert(is_space(s[0]));
        assert(forall|k: int| 0 <= k < i - 1 ==> is_space(s.drop_first()[k]));
        lemma_ws_prefix(s.drop_first(), (i - 1) as nat);
    }
}

pub proof fn lemma_ws_suffix(s: Seq<u8>, j: nat)
    requires
        j <= s.len(),
        forall|k: int| s.len() - j <= k < s.len() ==> is_space(s[k]),
        j < s.len() ==> !is_space(s[s.len() - j - 1]),
    ensures
        ws_suffix_len(s) == j,
    decreases s.len(),
{
    if s.len() == 0 {
    } else if j == 0 {
    } else {
        assert(is_space(s.last()));
        assert(forall|k: int|
            s.drop_last().len() - (j - 1) <= k < s.drop_last().len() ==> is_space(
                s.drop_last()[k],
            ));
        lemma_ws_suffix(s.drop_last(), (j - 1) as nat);
    }
}

pub fn trim(v: &[u8]) -> (r: Vec<u8>)
    ensures
        r@ == spec_trim(v@),
{
    let mut start: usize = 0;
    while start < v.len() && byte_is_space(v[start])
        invariant
            start <= v@.len(),
            forall|k: int| 0 <= k < start ==> is_space(v@[k]),
        decreases v@.len() - start,
    {
        start += 1;
    }
    proof {
        lemma_ws_prefix(v@, start as nat);
    }
    if start == v.len() {
        return Vec::new();
    }
    let mut end: usize = v.len();
    while end > start && byte_is_space(v[end - 1])
        invariant
            start <= end <= v@.len(),
            start < v@.len(),
            !is_space(v@[start as int]),
            forall|k: int| end <= k < v@.len() ==> is_space(v@[k]),
        decreases end,
    {
        end -= 1;
    }
    proof {
        if end == start {
            assert(is_space(v@[start as int]));
        }
        lemma_ws_suffix(v@, (v@.len() - end) as nat);
    }
    let mut r: Vec<u8> = Vec::new();
    let mut k: usize = start;
    while k < end
        invariant
            start <= k <= end <= v@.len(),
            r@ == v@.subrange(start as int, k as int),
        decreases end - k,
    {
        r.push(v[k]);
        proof {
            assert(r@ =~= v@.subrange(start as int, k as int + 1));
        }
        k += 1;
    }
    r
}

// ---------------------------------------------------------------------------
// Tab replacement, comment stripping, line cleaning
// ---------------------------------------------------------------------------

/// Every tab replaced by a space.
pub open spec fn spec_untab(s: Seq<u8>) -> Seq<u8> {
    s.map_values(|b: u8| if b == 9 { 32u8 } else { b })
}

pub fn untab(v: &[u8]) -> (r: Vec<u8>)
    ensures
        r@ == spec_untab(v@),
{
    let mut r: Vec<u8> = Vec::new();
    let mut i: usize = 0;
    while i < v.len()
        invariant
            i <= v@.len(),
            r@ == spec_untab(v@.take(i as int)),
        decreases v@.len() - i,
    {
        let b = v[i];
        r.push(if b == 9 { 32 } else { b });
        proof {
            assert(r@ =~= spec_untab(v@.take(i as int + 1)));
        }
        i += 1;
    }
    proof {
        assert(v@.take(v@.len() as int) =~= v@);
    }
    r
}

/// A source line cleaned as the assembler sees it: trimmed, tabs replaced by
/// spaces, everything from the first `#` removed, and trimmed again.
pub open spec fn spec_clean_line(l: Seq<u8>) -> Seq<u8> {
    let t = spec_untab(spec_trim(l));
    let u = match first_pos(t, 35) {
        Some(i) => t.take(i as int),
        None => t,
    };
    spec_trim(u)
}

pub fn clean_line(l: &[u8]) -> (r: Vec<u8>)
    ensures
        r@ == spec_clean_line(l@),
{
    let t0 = trim(l);
    let mut t = untab(t0.as_slice());
    match find_byte(t.as_slice(), 35) {
        Some(i) => {
            proof {
                lemma_first_pos(t@, 35);
            }
            t.truncate(i);
        },
        None => {},
    }
    trim(t.as_slice())
}

// ---------------------------------------------------------------------------
// Splitting
// ---------------------------------------------------------------------------

/// The views of a sequence of byte vectors.
pub open spec fn views_of(s: Seq<Vec<u8>>) -> Seq<Seq<u8>> {
    s.map_values(|x: Vec<u8>| x@)
}

/// `s` split on `sep`; always at least one part, separators not kept.
pub open spec fn spec_split(s: Seq<u8>, sep: u8) -> Seq<Seq<u8>>
    decreases s.len(),
{
    if s.len() == 0 {
        seq![Seq::<u8>::empty()]
    } else if s[0] == sep {
        seq![Seq::<u8>::empty()] + spec_split(s.drop_first(), sep)
    } else {
        let r = spec_split(s.drop_first(), sep);
        r.update(0, seq![s[0]] + r[0])
    }
}

pub proof fn lemma_split_len(s: Seq<u8>, sep: u8)
    ensures
        spec_split(s, sep).len() >= 1,
    decreases s.len(),
{
    if s.len() > 0 {
        lemma_split_len(s.drop_first(), sep);
    }
}

/// How a split grows when one byte is appended to the input.
pub proof fn lemma_split_push(s: Seq<u8>, sep: u8, c: u8)
    ensures
        c == sep ==> spec_split(s.push(c), sep) == spec_split(s, sep).push(Seq::<u8>::empty()),
        c != sep ==> spec_split(s.push(c), sep) == spec_split(s, sep).update(
            spec_split(s, sep).len() - 1,
            spec_split(s, sep).last().push(c),
        ),
    decreases s.len(),
{
    lemma_split_len(s, sep);
    if s.len() == 0 {
        assert(s.push(c)[0] == c);
        assert(s.push(c).drop_first() =~= Seq::<u8>::empty());
        assert(spec_split(Seq::<u8>::empty(), sep) == seq![Seq::<u8>::empty()]);
        if c == sep {
            assert(spec_split(s.push(c), sep) == seq![Seq::<u8>::empty()] + spec_split(
                s.push(c).drop_first(),
                sep,
            ));
            assert(spec_split(s.push(c), sep) =~= spec_split(s, sep).push(Seq::<u8>::empty()));
        } else {
            assert(seq![s.push(c)[0]] + spec_split(Seq::<u8>::empty(), sep)[0] =~= seq![
                Seq::<u8>::empty(),
            ].last().push(c));
            assert(spec_split(s.push(c), sep) =~= spec_split(s, sep).update(
                spec_split(s, sep).len() - 1,
                spec_split(s, sep).last().push(c),
            ));
        }
    } else {
        let t = s.drop_first();
        lemma_split_len(t, sep);
        assert(s.push(c)[0] == s[0]);
        assert(s.push(c).drop_first() =~= t.push(c));
        lemma_split_push(t, sep, c);
        if c == sep {
            if s[0] == sep {
                assert(spec_split(s.push(c), sep) =~= spec_split(s, sep).push(
                    Seq::<u8>::empty(),
                ));
            } else {
                let r = spec_split(t, sep);
                assert(r.push(Seq::<u8>::empty())[0] == r[0]);
                assert(spec_split(s.push(c), sep) =~= spec_split(s, sep).push(
                    Seq::<u8>::empty(),
                ));
            }
        } else {
            if s[0] == sep {
                assert(spec_split(s.push(c), sep) =~= spec_split(s, sep).update(
                    spec_split(s, sep).len() - 1,
                    spec_split(s, sep).last().push(c),
                ));
            } else {
                let r = spec_split(t, sep);
                let r2 = r.update(r.len() - 1, r.last().push(c));
                assert(r2[0] == if r.len() == 1 {
                    r[0].push(c)
                } else {
                    r[0]
                });
                if r.len() == 1 {
                    assert(seq![s[0]] + r[0].push(c) =~= (seq![s[0]] + r[0]).push(c));
                }
                assert(spec_split(s.push(c), sep) =~= spec_split(s, sep).update(
                    spec_split(s, sep).len() - 1,
                    spec_split(s, sep).last().push(c),
                ));
            }
        }
    }
}

pub fn split_bytes(v: &[u8], sep: u8) -> (r: Vec<Vec<u8>>)
    ensures
        views_of(r@) == spec_split(v@, sep),
        r@.len() >= 1,
{
    let mut parts: Vec<Vec<u8>> = Vec::new();
    let mut cur: Vec<u8> = Vec::new();
    let mut i: usize = 0;
    while i < v.len()
        invariant
            i <= v@.len(),
            views_of(parts@).push(cur@) == spec_split(v@.take(i as int), sep),
        decreases v@.len() - i,
    {
        let b = v[i];
        proof {
            assert(v@.take(i as int + 1) =~= v@.take(i as int).push(v@[i as int]));
            lemma_split_push(v@.take(i as int), sep, v@[i as int]);
            lemma_split_len(v@.take(i as int), sep);
        }
        if b == sep {
            parts.push(cur);
            cur = Vec::new();
            proof {
                assert(views_of(parts@).push(cur@) =~= spec_split(v@.take(i as int), sep).push(
                    Seq::<u8>::empty(),
                ));
            }
        } else {
            cur.push(b);
            proof {
                let old_split = spec_split(v@.take(i as int), sep);
                assert(views_of(parts@).push(cur@) =~= old_split.update(
                    old_split.len() - 1,
                    old_split.last().push(b),
                ));
            }
        }
        i += 1;
    }
    proof {
        assert(v@.take(v@.len() as int) =~= v@);
        lemma_split_len(v@, sep);
    }
    let ghost final_split = spec_split(v@, sep);
    parts.push(cur);
    proof {
        assert(views_of(parts@) =~= final_split);
    }
    parts
}

// ---------------------------------------------------------------------------
// Decimal integers
// ---------------------------------------------------------------------------

pub open spec fn all_digits(s: Seq<u8>) -> bool {
    forall|k: int| 0 <= k < s.len() ==> is_digit(s[k])
}

/// The value of a string of decimal digits.
pub open spec fn dec_nat(s: Seq<u8>) -> nat
    decreases s.len(),
{
    if s.len() == 0 {
        0
    } else {
        dec_nat(s.drop_last()) * 10 + digit_val(s.last())
    }
}

pub proof fn lemma_dec_nat_mono(s: Seq<u8>, i: int, j: int)
    requires
        0 <= i <= j <= s.len(),
    ensures
        dec_nat(s.take(i)) <= dec_nat(s.take(j)),
    decreases j - i,
{
    if i < j {
        lemma_dec_nat_mono(s, i, j - 1);
        assert(s.take(j).drop_last() =~= s.take(j - 1));
    }
}

/// A decimal integer with optional sign, rejected when outside `i64`.
pub open spec fn spec_parse_int(s: Seq<u8>) -> Option<i64> {
    let neg = s.len() > 0 && s[0] == 45;
    let ds = if s.len() > 0 && (s[0] == 45 || s[0] == 43) {
        s.drop_first()
    } else {
        s
    };
    if ds.len() == 0 || !all_digits(ds) {
        None
    } else if neg {
        if dec_nat(ds) <= 0x8000_0000_0000_0000 {
            Some((-(dec_nat(ds) as int)) as i64)
        } else {
            None
        }
    } else {
        if dec_nat(ds) <= 0x7fff_ffff_ffff_ffff {
            Some(dec_nat(ds) as i64)
        } else {
            None
        }
    }
}

pub fn parse_int(v: &[u8]) -> (r: Option<i64>)
    ensures
        r == spec_parse_int(v@),
{
    let neg: bool;
    let mut k: usize;
    if v.len() > 0 && v[0] == 45 {
        neg = true;
        k = 1;
    } else if v.len() > 0 && v[0] == 43 {
        neg = false;
        k = 1;
    } else {
        neg = false;
        k = 0;
    }
    let ghost ds = if v@.len() > 0 && (v@[0] == 45 || v@[0] == 43) {
        v@.drop_first()
    } else {
        v@
    };
    proof {
        assert(ds =~= v@.subrange(k as int, v@.len() as int));
    }
    let start: usize = k;
    if k >= v.len() {
        return None;
    }
    let limit: u128 = if neg {
        0x8000_0000_0000_0000
    } else {
        0x7fff_ffff_ffff_ffff
    };
    let mut acc: u128 = 0;
    while k < v.len()
        invariant
            start <= k <= v@.len(),
            neg == (v@.len() > 0 && v@[0] == 45),
            start == if v@.len() > 0 && (v@[0] == 45 || v@[0] == 43) {
                1int
            } else {
                0int
            },
            ds == (if v@.len() > 0 && (v@[0] == 45 || v@[0] == 43) {
                v@.drop_first()
            } else {
                v@
            }),
            ds == v@.subrange(start as int, v@.len() as int),
            ds.len() > 0,
            limit == if neg {
                0x8000_0000_0000_0000u128
            } else {
                0x7fff_ffff_ffff_ffffu128
            },
            acc == dec_nat(ds.take(k - start)),
            acc <= limit,
            all_digits(ds.take(k - start)),
        decreases v@.len() - k,
    {
        let b = v[k];
        proof {
            assert(ds[k - start] == v@[k as int]);
        }
        if !(48 <= b && b <= 57) {
            proof {
                assert(!is_digit(ds[k - start]));
            }
            return None;
        }
        proof {
            assert(ds.take(k - start + 1).drop_last() =~= ds.take(k - start));
            assert(ds.take(k - start + 1).last() == ds[k - start]);
            assert(all_digits(ds.take(k - start + 1)));
        }
        acc = acc * 10 + (b - 48) as u128;
        if acc > limit {
            proof {
                lemma_dec_nat_mono(ds, k - start + 1, ds.len() as int);
                assert(ds.take(ds.len() as int) =~= ds);
                if all_digits(ds) {
                    assert(dec_nat(ds) > limit);
                }
            }
            return None;
        }
        k += 1;
    }
    proof {
        assert(ds.take(k - start) =~= ds);
    }
    if neg {
        if acc == 0x8000_0000_0000_0000 {
            Some(i64::MIN)
        } else {
            Some(-(acc as i64))
        }
    } else {
        Some(acc as i64)
    }
}

// ---------------------------------------------------------------------------
// Hexadecimal integers
// ---------------------------------------------------------------------------

/// Lowercase hexadecimal digits only, as the assembler accepts them.
pub open spec fn is_hex_digit(b: u8) -> bool {
    is_digit(b) || (97 <= b <= 102)
}

pub open spec fn hex_val(b: u8) -> nat {
    if is_digit(b) {
        digit_val(b)
    } else if 97 <= b <= 102 {
        (b - 87) as nat
    } else {
        0
    }
}

pub open spec fn all_hex(s: Seq<u8>) -> bool {
    forall|k: int| 0 <= k < s.len() ==> is_hex_digit(s[k])
}

pub open spec fn hex_nat(s: Seq<u8>) -> nat
    decreases s.len(),
{
    if s.len() == 0 {
        0
    } else {
        hex_nat(s.drop_last()) * 16 + hex_val(s.last())
    }
}

pub open spec fn pow16(n: nat) -> nat
    decreases n,
{
    if n == 0 {
        1
    } else {
        16 * pow16((n - 1) as nat)
    }
}

pub proof fn lemma_pow16_mono(a: nat, b: nat)
    requires
        a <= b,
    ensures
        pow16(a) <= pow16(b),
    decreases b,
{
    if a < b {
        lemma_pow16_mono(a, (b - 1) as nat);
        assert(pow16((b - 1) as nat) >= 1) by {
            lemma_pow16_mono(0, (b - 1) as nat);
        }
    }
}

pub proof fn lemma_hex_nat_bound(s: Seq<u8>)
    ensures
        hex_nat(s) < pow16(s.len()),
    decreases s.len(),
{
    if s.len() > 0 {
        lemma_hex_nat_bound(s.drop_last());
        assert(hex_val(s.last()) < 16);
    }
}

/// The digits after a `0x` prefix: lowercase hex, at most 16 digits; the
/// accumulated bits reinterpreted as a signed 64-bit value. An empty digit
/// string is accepted and parses as zero.
pub open spec fn spec_parse_hex_digits(s: Seq<u8>) -> Option<i64> {
    if all_hex(s) && s.len() <= 16 {
        Some((hex_nat(s) as u64) as i64)
    } else {
        None
    }
}

pub fn parse_hex_digits(v: &[u8]) -> (r: Option<i64>)
    ensures
        r == spec_parse_hex_digits(v@),
{
    if v.len() > 16 {
        return None;
    }
    let mut acc: u64 = 0;
    let mut k: usize = 0;
    while k < v.len()
        invariant
            k <= v@.len() <= 16,
            acc == hex_nat(v@.take(k as int)),
            acc < pow16(k as nat),
            all_hex(v@.take(k as int)),
        decreases v@.len() - k,
    {
        let b = v[k];
        let d: u64;
        if 48 <= b && b <= 57 {
            d = (b - 48) as u64;
        } else if 97 <= b && b <= 102 {
            d = (b - 87) as u64;
        } else {
            proof {
                assert(!is_hex_digit(v@[k as int]));
            }
            return None;
        }
        proof {
            assert(v@.take(k as int + 1).drop_last() =~= v@.take(k as int));
            assert(v@.take(k as int + 1).last() == v@[k as int]);
            assert(d == hex_val(v@[k as int]));
            lemma_pow16_mono((k + 1) as nat, 16nat);
            assert(pow16(16) == 0x1_0000_0000_0000_0000) by {
                reveal_with_fuel(pow16, 17);
            }
        }
        acc = acc * 16 + d;
        k += 1;
    }
    proof {
        assert(v@.take(v@.len() as int) =~= v@);
        lemma_hex_nat_bound(v@);
        lemma_pow16_mono(v@.len() as nat, 16nat);
        assert(pow16(16) == 0x1_0000_0000_0000_0000) by {
            reveal_with_fuel(pow16, 17);
        }
    }
    Some(acc as i64)
}

/// A numeric immediate: `0x`-prefixed lowercase hexadecimal, or decimal.
pub open spec fn spec_parse_immediate(s: Seq<u8>) -> Option<i64> {
    if s.len() >= 2 && s[0] == 48 && s[1] == 120 {
        spec_parse_hex_digits(s.skip(2))
    } else {
        spec_parse_int(s)
    }
}

pub fn parse_immediate(v: &[u8]) -> (r: Option<i64>)
    ensures
        r == spec_parse_immediate(v@),
{
    if v.len() >= 2 && v[0] == 48 && v[1] == 120 {
        let digits = vstd::slice::slice_subrange(v, 2, v.len());
        proof {
            assert(digits@ =~= v@.skip(2));
        }
        parse_hex_digits(digits)
    } else {
        parse_int(v)
    }
}

// ---------------------------------------------------------------------------
// Decimal rendering
// ---------------------------------------------------------------------------

/// The decimal digits of `n`, most significant first.
pub open spec fn dec_digits(n: nat) -> Seq<u8>
    decreases n,
{
    if n < 10 {
        seq![(48 + n) as u8]
    } else {
        dec_digits(n / 10).push((48 + n % 10) as u8)
    }
}

pub fn render_dec(n: usize) -> (r: Vec<u8>)
    ensures
        r@ == dec_digits(n as nat),
    decreases n,
{
    if n < 10 {
        let mut v: Vec<u8> = Vec::new();
        v.push(48 + n as u8);
        v
    } else {
        let mut v = render_dec(n / 10);
        v.push(48 + (n % 10) as u8);
        v
    }
}

} // verus!
