//! Verified text utilities: comparison, search, and number formatting.

use vstd::prelude::*;

verus! {

/// Character-wise string equality, proved against the views.
pub fn str_eq(a: &str, b: &str) -> (r: bool)
    ensures
        r == (a@ == b@),
{
    let an = a.unicode_len();
    let bn = b.unicode_len();
    if an != bn {
        return false;
    }
    let mut i: usize = 0;
    while i < an
        invariant
            an == a@.len(),
            bn == b@.len(),
            an == bn,
            i <= an,
            forall|j: int| 0 <= j < i ==> a@[j] == b@[j],
        decreases an - i,
    {
        if a.get_char(i) != b.get_char(i) {
            return false;
        }
        i = i + 1;
    }
    proof {
        assert(a@ =~= b@);
    }
    true
}

/// The decimal digit character for a value in `0..=9`.
pub open spec fn dec_digit(d: int) -> char {
    if d == 0 {
        '0'
    } else if d == 1 {
        '1'
    } else if d == 2 {
        '2'
    } else if d == 3 {
        '3'
    } else if d == 4 {
        '4'
    } else if d == 5 {
        '5'
    } else if d == 6 {
        '6'
    } else if d == 7 {
        '7'
    } else if d == 8 {
        '8'
    } else {
        '9'
    }
}

/// The decimal rendering of a non-negative integer, most significant
/// digit first.
pub open spec fn dec_str(n: int) -> Seq<char>
    decreases n,
{
    if n < 10 {
        seq![dec_digit(n)]
    } else {
        dec_str(n / 10).push(dec_digit(n % 10))
    }
}

/// One-character string for a decimal digit.
fn digit_str(d: u64) -> (s: &'static str)
    requires
        d < 10,
    ensures
        s@ =~= seq![dec_digit(d as int)],
{
    proof {
        reveal_strlit("0");
        reveal_strlit("1");
        reveal_strlit("2");
        reveal_strlit("3");
        reveal_strlit("4");
        reveal_strlit("5");
        reveal_strlit("6");
        reveal_strlit("7");
        reveal_strlit("8");
        reveal_strlit("9");
    }
    if d == 0 {
        "0"
    } else if d == 1 {
        "1"
    } else if d == 2 {
        "2"
    } else if d == 3 {
        "3"
    } else if d == 4 {
        "4"
    } else if d == 5 {
        "5"
    } else if d == 6 {
        "6"
    } else if d == 7 {
        "7"
    } else if d == 8 {
        "8"
    } else {
        "9"
    }
}

/// Render an unsigned number in decimal.
pub fn u64_to_dec(n: u64) -> (s: String)
    ensures
        s@ == dec_str(n as int),
    decreases n,
{
    if n < 10 {
        let mut s = String::new();
        s.append(digit_str(n));
        proof {
            assert(s@ =~= dec_str(n as int));
        }
        s
    } else {
        let mut s = u64_to_dec(n / 10);
        s.append(digit_str(n % 10));
        proof {
            assert(s@ =~= dec_str(n as int));
        }
        s
    }
}

/// Decimal rendering left-padded with zeros to two places.
pub open spec fn pad2_str(n: int) -> Seq<char> {
    if n < 10 {
        seq!['0'] + dec_str(n)
    } else {
        dec_str(n)
    }
}

/// Render a number to at least two places, as minutes and seconds are.
pub fn u64_to_pad2(n: u64) -> (s: String)
    ensures
        s@ == pad2_str(n as int),
{
    if n < 10 {
        let mut s = String::new();
        s.append("0");
        let d = u64_to_dec(n);
        s.append(d.as_str());
        proof {
            reveal_strlit("0");
            assert(s@ =~= pad2_str(n as int));
        }
        s
    } else {
        u64_to_dec(n)
    }
}

/// Decimal rendering left-padded with zeros to four places.
pub open spec fn pad4_str(n: int) -> Seq<char> {
    if n < 10 {
        seq!['0', '0', '0'] + dec_str(n)
    } else if n < 100 {
        seq!['0', '0'] + dec_str(n)
    } else if n < 1000 {
        seq!['0'] + dec_str(n)
    } else {
        dec_str(n)
    }
}

/// Render a number to at least four places, as years are.
pub fn u64_to_pad4(n: u64) -> (s: String)
    ensures
        s@ == pad4_str(n as int),
{
    let mut s = String::new();
    if n < 10 {
        s.append("000");
    } else if n < 100 {
        s.append("00");
    } else if n < 1000 {
        s.append("0");
    }
    let d = u64_to_dec(n);
    s.append(d.as_str());
    proof {
        reveal_strlit("000");
        reveal_strlit("00");
        reveal_strlit("0");
        assert(s@ =~= pad4_str(n as int));
    }
    s
}

/// The human-readable byte-count label: `B` below 1 KiB, then one
/// fractional digit of KiB or MiB, then two fractional digits of GiB.
/// Fractions are truncated, not rounded.
pub open spec fn format_bytes_view(b: u64) -> Seq<char> {
    if b < 1024 {
        dec_str(b as int) + "B"@
    } else if b < 1048576 {
        let v = b * 10 / 1024;
        dec_str(v / 10) + "."@ + dec_str(v % 10) + "KB"@
    } else if b < 1073741824 {
        let v = b * 10 / 1048576;
        dec_str(v / 10) + "."@ + dec_str(v % 10) + "MB"@
    } else {
        let v = b * 100 / 1073741824;
        dec_str(v / 100) + "."@ + pad2_str(v % 100) + "GB"@
    }
}

/// Render a byte count for display, scaled to B, KB, MB or GB.
pub fn format_bytes(b: u64) -> (s: String)
    ensures
        s@ == format_bytes_view(b),
{
    let mut s = String::new();
    if b < 1024 {
        let d = u64_to_dec(b);
        s.append(d.as_str());
        s.append("B");
    } else if b < 1048576 {
        let v: u64 = b * 10 / 1024;
        let d1 = u64_to_dec(v / 10);
        s.append(d1.as_str());
        s.append(".");
        let d2 = u64_to_dec(v % 10);
        s.append(d2.as_str());
        s.append("KB");
    } else if b < 1073741824 {
        let v: u64 = ((b as u128) * 10 / 1048576) as u64;
        proof {
            assert(b as int * 10 / 1048576 <= u64::MAX) by (nonlinear_arith)
                requires
                    b <= u64::MAX,
            ;
        }
        let d1 = u64_to_dec(v / 10);
        s.append(d1.as_str());
        s.append(".");
        let d2 = u64_to_dec(v % 10);
        s.append(d2.as_str());
        s.append("MB");
    } else {
        let v: u64 = ((b as u128) * 100 / 1073741824) as u64;
        proof {
            assert(b as int * 100 / 1073741824 <= u64::MAX) by (nonlinear_arith)
                requires
                    b <= u64::MAX,
            ;
        }
        let d1 = u64_to_dec(v / 100);
        s.append(d1.as_str());
        s.append(".");
        let d2 = u64_to_pad2(v % 100);
        s.append(d2.as_str());
        s.append("GB");
    }
    proof {
        assert(s@ =~= format_bytes_view(b));
    }
    s
}

/// A decimal digit's character test.
pub open spec fn is_dec_digit_char(c: char) -> bool {
    48 <= c as int <= 57
}

/// The value of a string of decimal digits, most significant first.
pub open spec fn dec_val(s: Seq<char>) -> int
    decreases s.len(),
{
    if s.len() == 0 {
        0
    } else {
        dec_val(s.drop_last()) * 10 + (s.last() as int - 48)
    }
}

pub open spec fn all_dec_digits(s: Seq<char>) -> bool {
    forall|i: int| 0 <= i < s.len() ==> is_dec_digit_char(#[trigger] s[i])
}

/// The value of a digit string is non-negative.
proof fn lemma_dec_val_nonneg(s: Seq<char>)
    requires
        all_dec_digits(s),
    ensures
        dec_val(s) >= 0,
    decreases s.len(),
{
    if s.len() > 0 {
        assert(all_dec_digits(s.drop_last()));
        lemma_dec_val_nonneg(s.drop_last());
    }
}

/// A prefix of a digit string never exceeds the whole string's value.
proof fn lemma_dec_val_prefix_le(s: Seq<char>, n: int)
    requires
        all_dec_digits(s),
        0 <= n <= s.len(),
    ensures
        dec_val(s.subrange(0, n)) <= dec_val(s),
    decreases s.len(),
{
    if n == s.len() {
        assert(s.subrange(0, n) =~= s);
    } else {
        assert(all_dec_digits(s.drop_last()));
        lemma_dec_val_prefix_le(s.drop_last(), n);
        assert(s.drop_last().subrange(0, n) =~= s.subrange(0, n));
        lemma_dec_val_nonneg(s.drop_last());
    }
}

/// What parsing an unsigned decimal returns: the value of the digits
/// after an optional leading `+`, if there is at least one digit, they
/// are all digits, and the value fits.
pub open spec fn parse_u64_spec(s: Seq<char>) -> Option<u64> {
    let t = if s.len() > 0 && s[0] == '+' {
        s.drop_first()
    } else {
        s
    };
    if t.len() > 0 && all_dec_digits(t) && dec_val(t) <= u64::MAX {
        Option::Some(dec_val(t) as u64)
    } else {
        Option::None
    }
}

/// Parse an unsigned decimal number, rejecting any other text and any
/// value that does not fit.
pub fn parse_u64(s: &str) -> (r: Option<u64>)
    ensures
        r == parse_u64_spec(s@),
{
    let n = s.unicode_len();
    let start: usize = if n > 0 && s.get_char(0) == '+' {
        1
    } else {
        0
    };
    let ghost t = if s@.len() > 0 && s@[0] == '+' {
        s@.drop_first()
    } else {
        s@
    };
    proof {
        assert(t =~= s@.subrange(start as int, n as int));
    }
    if n == start {
        return Option::None;
    }
    let mut acc: u64 = 0;
    let mut i: usize = start;
    while i < n
        invariant
            n == s@.len(),
            start <= i <= n,
            start <= 1,
            t == s@.subrange(start as int, n as int),
            t == (if s@.len() > 0 && s@[0] == '+' {
                s@.drop_first()
            } else {
                s@
            }),
            all_dec_digits(s@.subrange(start as int, i as int)),
            acc == dec_val(s@.subrange(start as int, i as int)),
        decreases n - i,
    {
        let c = s.get_char(i) as u32;
        if !(48 <= c && c <= 57) {
            proof {
                assert(t[i - start] == s@[i as int]);
                assert(!is_dec_digit_char(t[i - start]));
                assert(!all_dec_digits(t));
            }
            return Option::None;
        }
        let d = (c - 48) as u64;
        let ghost pre = s@.subrange(start as int, i as int);
        let ghost post = s@.subrange(start as int, i + 1);
        proof {
            assert(post.drop_last() =~= pre);
            assert(post.last() == s@[i as int]);
            assert(all_dec_digits(post));
        }
        let step = match acc.checked_mul(10) {
            Option::Some(m) => m.checked_add(d),
            Option::None => Option::None,
        };
        match step {
            Option::Some(v) => {
                acc = v;
            },
            Option::None => {
                proof {
                    assert(dec_val(post) > u64::MAX);
                    if all_dec_digits(t) {
                        lemma_dec_val_prefix_le(t, i + 1 - start);
                        assert(t.subrange(0, i + 1 - start) =~= post);
                        assert(dec_val(t) > u64::MAX);
                    }
                }
                return Option::None;
            },
        }
        i = i + 1;
    }
    proof {
        assert(s@.subrange(start as int, n as int) =~= t);
    }
    Option::Some(acc)
}

/// The decimal rendering of a signed integer.
pub open spec fn i64_dec_str(n: int) -> Seq<char> {
    if n < 0 {
        seq!['-'] + dec_str(-n)
    } else {
        dec_str(n)
    }
}

/// Render a signed number in decimal.
pub fn i64_to_dec(n: i64) -> (s: String)
    ensures
        s@ == i64_dec_str(n as int),
{
    if n >= 0 {
        u64_to_dec(n as u64)
    } else {
        let mag: u64 = (-(n as i128)) as u64;
        proof {
            assert(mag == -(n as int));
        }
        let mut s = String::new();
        s.append("-");
        let d = u64_to_dec(mag);
        s.append(d.as_str());
        proof {
            reveal_strlit("-");
            assert(s@ =~= i64_dec_str(n as int));
        }
        s
    }
}

/// Whether a character occurs in a string.
pub fn contains_char(s: &str, c: char) -> (r: bool)
    ensures
        r == s@.contains(c),
{
    let n = s.unicode_len();
    let mut i: usize = 0;
    while i < n
        invariant
            n == s@.len(),
            i <= n,
            forall|j: int| 0 <= j < i ==> s@[j] != c,
        decreases n - i,
    {
        if s.get_char(i) == c {
            return true;
        }
        i = i + 1;
    }
    false
}

/// The byte needle occurs at position `i` of the byte haystack.
pub open spec fn bmatch_at(hay: Seq<u8>, needle: Seq<u8>, i: int) -> bool {
    0 <= i && i + needle.len() <= hay.len() && hay.subrange(i, i + needle.len()) == needle
}

/// The byte needle occurs somewhere in the byte haystack.
pub open spec fn bcontains(hay: Seq<u8>, needle: Seq<u8>) -> bool {
    exists|i: int| bmatch_at(hay, needle, i)
}

/// Whether the byte needle occurs at position `i`.
fn bcheck_at(hay: &[u8], needle: &[u8], i: usize) -> (r: bool)
    requires
        i + needle@.len() <= hay@.len(),
        hay@.len() <= usize::MAX,
    ensures
        r == bmatch_at(hay@, needle@, i as int),
{
    let nn = needle.len();
    let mut j: usize = 0;
    while j < nn
        invariant
            nn == needle@.len(),
            i + nn <= hay@.len(),
            hay@.len() <= usize::MAX,
            j <= nn,
            forall|k: int| 0 <= k < j ==> hay@[i + k] == needle@[k],
        decreases nn - j,
    {
        if hay[i + j] != needle[j] {
            proof {
                if bmatch_at(hay@, needle@, i as int) {
                    assert(hay@.subrange(i as int, i + nn)[j as int] == hay@[i + j]);
                }
            }
            return false;
        }
        j = j + 1;
    }
    proof {
        assert(hay@.subrange(i as int, i + nn) =~= needle@);
    }
    true
}

/// First position of the byte needle in the haystack, if any.
pub fn bfind_first(hay: &[u8], needle: &[u8]) -> (r: Option<usize>)
    ensures
        match r {
            Option::Some(i) => bmatch_at(hay@, needle@, i as int) && forall|j: int|
                0 <= j < i ==> !bmatch_at(hay@, needle@, j),
            Option::None => !bcontains(hay@, needle@),
        },
{
    let hn = hay.len();
    let nn = needle.len();
    if nn > hn {
        proof {
            if bcontains(hay@, needle@) {
                let i = choose|i: int| bmatch_at(hay@, needle@, i);
            }
        }
        return Option::None;
    }
    if nn == 0 {
        proof {
            assert(hay@.subrange(0, 0) =~= needle@);
        }
        return Option::Some(0);
    }
    let mut i: usize = 0;
    while i <= hn - nn
        invariant
            hn == hay@.len(),
            nn == needle@.len(),
            0 < nn <= hn,
            i <= hn - nn + 1,
            forall|k: int| 0 <= k < i ==> !bmatch_at(hay@, needle@, k),
        decreases hn + 1 - nn - i,
    {
        if bcheck_at(hay, needle, i) {
            return Option::Some(i);
        }
        i = i + 1;
    }
    proof {
        if bcontains(hay@, needle@) {
            let k = choose|k: int| bmatch_at(hay@, needle@, k);
        }
    }
    Option::None
}

/// Last position of the byte needle that starts within `[from, to)` and
/// fits before `to`, if any.
pub fn brfind_within(hay: &[u8], needle: &[u8], from: usize, to: usize) -> (r: Option<usize>)
    requires
        from <= to <= hay@.len(),
        needle@.len() >= 1,
    ensures
        match r {
            Option::Some(i) => from <= i && i + needle@.len() <= to && bmatch_at(
                hay@,
                needle@,
                i as int,
            ) && forall|j: int|
                i < j && from <= j && j + needle@.len() <= to ==> !bmatch_at(hay@, needle@, j),
            Option::None => forall|j: int|
                from <= j && j + needle@.len() <= to ==> !bmatch_at(hay@, needle@, j),
        },
{
    let hn = hay.len();
    proof {
        assert(hay@.len() == hn);
    }
    let nn = needle.len();
    if to - from < nn {
        return Option::None;
    }
    let mut i: usize = to - nn;
    loop
        invariant
            from <= i <= to - nn,
            nn == needle@.len(),
            1 <= nn,
            to <= hay@.len(),
            hay@.len() <= usize::MAX,
            forall|j: int|
                i < j && from <= j && j + nn <= to ==> !bmatch_at(hay@, needle@, j),
        ensures
            from <= i && i + nn <= to,
            bmatch_at(hay@, needle@, i as int),
            forall|j: int| i < j && from <= j && j + nn <= to ==> !bmatch_at(hay@, needle@, j),
        decreases i,
    {
        if bcheck_at(hay, needle, i) {
            break ;
        }
        if i == from {
            return Option::None;
        }
        i = i - 1;
    }
    Option::Some(i)
}

/// The needle occurs at position `i` of the haystack.
pub open spec fn match_at(hay: Seq<char>, needle: Seq<char>, i: int) -> bool {
    0 <= i && i + needle.len() <= hay.len() && hay.subrange(i, i + needle.len()) == needle
}

/// The needle occurs somewhere in the haystack.
pub open spec fn contains_seq(hay: Seq<char>, needle: Seq<char>) -> bool {
    exists|i: int| match_at(hay, needle, i)
}

/// Whether the needle occurs at position `i`.
fn check_match_at(hay: &str, needle: &str, i: usize) -> (r: bool)
    requires
        i + needle@.len() <= hay@.len(),
        hay@.len() <= usize::MAX,
    ensures
        r == match_at(hay@, needle@, i as int),
{
    let nn = needle.unicode_len();
    let mut j: usize = 0;
    while j < nn
        invariant
            nn == needle@.len(),
            i + nn <= hay@.len(),
            hay@.len() <= usize::MAX,
            j <= nn,
            forall|k: int| 0 <= k < j ==> hay@[i + k] == needle@[k],
        decreases nn - j,
    {
        if hay.get_char(i + j) != needle.get_char(j) {
            proof {
                if match_at(hay@, needle@, i as int) {
                    assert(hay@.subrange(i as int, i + nn)[j as int] == hay@[i + j]);
                }
            }
            return false;
        }
        j = j + 1;
    }
    proof {
        assert(hay@.subrange(i as int, i + nn) =~= needle@);
    }
    true
}

/// Substring search, character-wise.
pub fn contains_sub(hay: &str, needle: &str) -> (r: bool)
    ensures
        r == contains_seq(hay@, needle@),
{
    let hn = hay.unicode_len();
    let nn = needle.unicode_len();
    if nn > hn {
        proof {
            if contains_seq(hay@, needle@) {
                let i = choose|i: int| match_at(hay@, needle@, i);
            }
        }
        return false;
    }
    if nn == 0 {
        proof {
            assert(hay@.subrange(0, 0) =~= needle@);
            assert(match_at(hay@, needle@, 0));
        }
        return true;
    }
    let mut i: usize = 0;
    while i <= hn - nn
        invariant
            hn == hay@.len(),
            nn == needle@.len(),
            0 < nn <= hn,
            i <= hn - nn + 1,
            forall|k: int| 0 <= k < i ==> !match_at(hay@, needle@, k),
        decreases hn + 1 - nn - i,
    {
        if check_match_at(hay, needle, i) {
            return true;
        }
        i = i + 1;
    }
    proof {
        if contains_seq(hay@, needle@) {
            let k = choose|k: int| match_at(hay@, needle@, k);
        }
    }
    false
}

} // verus!
