//! Verified helpers on strings and character sequences: decimal rendering,
//! scanning, searching and template substitution.
use vstd::prelude::*;

verus! {

// ---------------------------------------------------------------------------
// Characters and digits
// ---------------------------------------------------------------------------

/// A decimal digit in the ASCII range.
pub open spec fn is_digit_char(c: char) -> bool {
    '0' <= c && c <= '9'
}

/// Numeric value of a decimal digit character.
pub open spec fn digit_val(c: char) -> int {
    c as int - '0' as int
}

/// The digit character for a value in 0..=9.
pub open spec fn digit_char(d: int) -> char {
    if d == 0 {
        '0'
    } else if d == 1 {
        '1'
    } else if d == 2 {
        '2'
    } else if d == 3 {
        '3'
    } else if d == 4 {
        '4'
    } else if d == 5 {
        '5'
    } else if d == 6 {
        '6'
    } else if d == 7 {
        '7'
    } else if d == 8 {
        '8'
    } else {
        '9'
    }
}

/// Decimal digit sequence of a natural number, most significant digit first.
pub open spec fn spec_nat_digits(n: nat) -> Seq<char>
    decreases n,
{
    if n < 10 {
        seq![digit_char(n as int)]
    } else {
        spec_nat_digits(n / 10) + seq![digit_char((n % 10) as int)]
    }
}

/// Decimal rendering of an integer, with a leading minus sign when negative.
pub open spec fn spec_int_digits(n: int) -> Seq<char> {
    if n >= 0 {
        spec_nat_digits(n as nat)
    } else {
        seq!['-'] + spec_nat_digits((-n) as nat)
    }
}

fn exec_digit_str(d: u8) -> (r: &'static str)
    requires
        d <= 9,
    ensures
        r@ =~= seq![digit_char(d as int)],
{
    proof {
        reveal_strlit("0");
        reveal_strlit("1");
        reveal_strlit("2");
        reveal_strlit("3");
        reveal_strlit("4");
        reveal_strlit("5");
        reveal_strlit("6");
        reveal_strlit("7");
        reveal_strlit("8");
        reveal_strlit("9");
    }
    match d {
        0 => "0",
        1 => "1",
        2 => "2",
        3 => "3",
        4 => "4",
        5 => "5",
        6 => "6",
        7 => "7",
        8 => "8",
        _ => "9",
    }
}

/// Decimal rendering of a `u32`.
pub fn u32_string(n: u32) -> (r: String)
    ensures
        r@ == spec_nat_digits(n as nat),
    decreases n,
{
    if n < 10 {
        let s = exec_digit_str(n as u8);
        let r = String::from_str(s);
        proof {
            assert(r@ =~= spec_nat_digits(n as nat));
        }
        r
    } else {
        let mut head = u32_string(n / 10);
        let tail = exec_digit_str((n % 10) as u8);
        head.append(tail);
        proof {
            assert(head@ =~= spec_nat_digits(n as nat));
        }
        head
    }
}

/// Decimal rendering of an `i32`, with a minus sign when negative.
pub fn i32_string(n: i32) -> (r: String)
    requires
        n != i32::MIN,
    ensures
        r@ == spec_int_digits(n as int),
{
    if n >= 0 {
        u32_string(n as u32)
    } else {
        let mut r = String::from_str("-");
        let tail = u32_string((-n) as u32);
        r.append(tail.as_str());
        proof {
            reveal_strlit("-");
            assert(r@ =~= spec_int_digits(n as int));
        }
        r
    }
}

/// Decimal rendering of a `usize`.
pub fn usize_string(n: usize) -> (r: String)
    ensures
        r@ == spec_nat_digits(n as nat),
    decreases n,
{
    if n < 10 {
        let s = exec_digit_str(n as u8);
        let r = String::from_str(s);
        proof {
            assert(r@ =~= spec_nat_digits(n as nat));
        }
        r
    } else {
        let mut head = usize_string(n / 10);
        let tail = exec_digit_str((n % 10) as u8);
        head.append(tail);
        proof {
            assert(head@ =~= spec_nat_digits(n as nat));
        }
        head
    }
}

// ---------------------------------------------------------------------------
// Parsing digit runs
// ---------------------------------------------------------------------------

/// Value of a sequence of decimal digits, most significant first.
pub open spec fn spec_digits_val(s: Seq<char>) -> int
    decreases s.len(),
{
    if s.len() == 0 {
        0
    } else {
        spec_digits_val(s.drop_last()) * 10 + digit_val(s.last())
    }
}

pub open spec fn all_digits(s: Seq<char>) -> bool {
    forall|i: int| 0 <= i < s.len() ==> is_digit_char(#[trigger] s[i])
}

/// Powers of ten, for bounding digit runs.
pub open spec fn pow10(n: nat) -> int
    decreases n,
{
    if n == 0 {
        1
    } else {
        10 * pow10((n - 1) as nat)
    }
}

proof fn lemma_pow10_pos(n: nat)
    ensures
        pow10(n) >= 1,
    decreases n,
{
    if n > 0 {
        lemma_pow10_pos((n - 1) as nat);
    }
}

proof fn lemma_pow10_mono(a: nat, b: nat)
    requires
        a <= b,
    ensures
        pow10(a) <= pow10(b),
    decreases b,
{
    if a < b {
        lemma_pow10_mono(a, (b - 1) as nat);
        lemma_pow10_pos((b - 1) as nat);
    }
}

proof fn lemma_digits_val_bound(s: Seq<char>)
    requires
        all_digits(s),
    ensures
        0 <= spec_digits_val(s) < pow10(s.len()),
    decreases s.len(),
{
    if s.len() > 0 {
        lemma_digits_val_bound(s.drop_last());
    }
}

/// Reads the value of the digit run `s[from..to]`.
pub fn parse_digits(s: &str, from: usize, to: usize) -> (r: u32)
    requires
        from <= to <= s@.len(),
        to - from <= 5,
        all_digits(s@.subrange(from as int, to as int)),
    ensures
        r == spec_digits_val(s@.subrange(from as int, to as int)),
        r < 100000,
        r < pow10((to - from) as nat),
{
    let mut i: usize = from;
    let mut acc: u32 = 0;
    proof {
        assert(s@.subrange(from as int, from as int) =~= Seq::<char>::empty());
        assert(pow10(0) == 1);
        assert(pow10(1) == 10);
        assert(pow10(2) == 100);
        assert(pow10(3) == 1000);
        assert(pow10(4) == 10000);
        assert(pow10(5) == 100000);
    }
    while i < to
        invariant
            from <= i <= to <= s@.len(),
            to - from <= 5,
            all_digits(s@.subrange(from as int, to as int)),
            acc == spec_digits_val(s@.subrange(from as int, i as int)),
            acc < pow10((i - from) as nat),
            pow10(0) == 1,
            pow10(1) == 10,
            pow10(2) == 100,
            pow10(3) == 1000,
            pow10(4) == 10000,
            pow10(5) == 100000,
        decreases to - i,
    {
        let c = s.get_char(i);
        proof {
            assert(s@.subrange(from as int, to as int)[i - from] == s@[i as int]);
            assert(s@.subrange(from as int, i + 1 as int).drop_last() =~= s@.subrange(
                from as int,
                i as int,
            ));
            assert(s@.subrange(from as int, i + 1 as int).last() == s@[i as int]);
            lemma_digits_val_bound(s@.subrange(from as int, i + 1 as int));
            lemma_pow10_mono((i + 1 - from) as nat, 5);
        }
        acc = acc * 10 + (c as u32 - '0' as u32);
        i = i + 1;
    }
    proof {
        lemma_pow10_mono((to - from) as nat, 5);
        lemma_digits_val_bound(s@.subrange(from as int, to as int));
    }
    acc
}

// ---------------------------------------------------------------------------
// Scanning
// ---------------------------------------------------------------------------

/// Index of the first occurrence of `c` at or after `i`, or the length of `s`
/// when there is none.
pub open spec fn spec_find_from(s: Seq<char>, i: nat, c: char) -> nat
    decreases s.len() - i,
{
    if i >= s.len() {
        s.len()
    } else if s[i as int] == c {
        i
    } else {
        spec_find_from(s, i + 1, c)
    }
}

pub proof fn lemma_find_from(s: Seq<char>, i: nat, c: char)
    requires
        i <= s.len(),
    ensures
        i <= spec_find_from(s, i, c) <= s.len(),
        spec_find_from(s, i, c) < s.len() ==> s[spec_find_from(s, i, c) as int] == c,
        forall|j: int| i <= j < spec_find_from(s, i, c) ==> s[j] != c,
    decreases s.len() - i,
{
    if i < s.len() && s[i as int] != c {
        lemma_find_from(s, i + 1, c);
    }
}

/// Finds the first occurrence of `c` in `s` at or after `i`.
pub fn find_from(s: &str, i: usize, c: char) -> (r: usize)
    requires
        i <= s@.len(),
    ensures
        r == spec_find_from(s@, i as nat, c),
    decreases s@.len() - i,
{
    if i >= s.unicode_len() {
        s.unicode_len()
    } else if s.get_char(i) == c {
        i
    } else {
        find_from(s, i + 1, c)
    }
}

/// Index of the first character at or after `i` that is not a space, or the
/// length of `s` when all are spaces.
pub open spec fn spec_skip_spaces(s: Seq<char>, i: nat) -> nat
    decreases s.len() - i,
{
    if i >= s.len() {
        s.len()
    } else if s[i as int] == ' ' {
        spec_skip_spaces(s, i + 1)
    } else {
        i
    }
}

pub proof fn lemma_skip_spaces(s: Seq<char>, i: nat)
    requires
        i <= s.len(),
    ensures
        i <= spec_skip_spaces(s, i) <= s.len(),
        spec_skip_spaces(s, i) < s.len() ==> s[spec_skip_spaces(s, i) as int] != ' ',
        forall|j: int| i <= j < spec_skip_spaces(s, i) ==> s[j] == ' ',
    decreases s.len() - i,
{
    if i < s.len() && s[i as int] == ' ' {
        lemma_skip_spaces(s, i + 1);
    }
}

/// Skips spaces in `s` starting at `i`.
pub fn skip_spaces(s: &str, i: usize) -> (r: usize)
    requires
        i <= s@.len(),
    ensures
        r == spec_skip_spaces(s@, i as nat),
    decreases s@.len() - i,
{
    if i >= s.unicode_len() {
        s.unicode_len()
    } else if s.get_char(i) == ' ' {
        skip_spaces(s, i + 1)
    } else {
        i
    }
}

/// Index of the end of the digit run starting at `i`.
pub open spec fn spec_scan_digits(s: Seq<char>, i: nat) -> nat
    decreases s.len() - i,
{
    if i >= s.len() {
        s.len()
    } else if is_digit_char(s[i as int]) {
        spec_scan_digits(s, i + 1)
    } else {
        i
    }
}

pub proof fn lemma_scan_digits(s: Seq<char>, i: nat)
    requires
        i <= s.len(),
    ensures
        i <= spec_scan_digits(s, i) <= s.len(),
        spec_scan_digits(s, i) < s.len() ==> !is_digit_char(s[spec_scan_digits(s, i) as int]),
        forall|j: int| i <= j < spec_scan_digits(s, i) ==> is_digit_char(s[j]),
    decreases s.len() - i,
{
    if i < s.len() && is_digit_char(s[i as int]) {
        lemma_scan_digits(s, i + 1);
    }
}

/// Scans past decimal digits in `s` starting at `i`.
pub fn scan_digits(s: &str, i: usize) -> (r: usize)
    requires
        i <= s@.len(),
    ensures
        r == spec_scan_digits(s@, i as nat),
    decreases s@.len() - i,
{
    if i >= s.unicode_len() {
        s.unicode_len()
    } else {
        let c = s.get_char(i);
        if '0' <= c && c <= '9' {
            scan_digits(s, i + 1)
        } else {
            i
        }
    }
}

/// End of the token starting at `i`: the first position at or after `i`, up
/// to `limit`, holding a space.
pub open spec fn spec_scan_token(s: Seq<char>, i: nat, limit: nat) -> nat
    decreases limit - i,
{
    if i >= limit {
        limit
    } else if s[i as int] == ' ' {
        i
    } else {
        spec_scan_token(s, i + 1, limit)
    }
}

pub proof fn lemma_scan_token(s: Seq<char>, i: nat, limit: nat)
    requires
        i <= limit <= s.len(),
    ensures
        i <= spec_scan_token(s, i, limit) <= limit,
    decreases limit - i,
{
    if i < limit && s[i as int] != ' ' {
        lemma_scan_token(s, i + 1, limit);
    }
}

/// Scans to the end of the token starting at `i`, not crossing `limit`.
pub fn scan_token(s: &str, i: usize, limit: usize) -> (r: usize)
    requires
        i <= limit <= s@.len(),
    ensures
        r == spec_scan_token(s@, i as nat, limit as nat),
        i <= r <= limit,
    decreases limit - i,
{
    proof {
        lemma_scan_token(s@, i as nat, limit as nat);
    }
    if i >= limit {
        limit
    } else if s.get_char(i) == ' ' {
        i
    } else {
        scan_token(s, i + 1, limit)
    }
}

// ---------------------------------------------------------------------------
// Comparison and search
// ---------------------------------------------------------------------------

/// Character-for-character equality of two string slices.
pub fn str_eq(a: &str, b: &str) -> (r: bool)
    ensures
        r == (a@ == b@),
{
    let alen = a.unicode_len();
    let blen = b.unicode_len();
    if alen != blen {
        proof {
            assert(a@ != b@);
        }
        return false;
    }
    let mut i: usize = 0;
    while i < alen
        invariant
            alen == a@.len() == b@.len(),
            i <= alen,
            forall|j: int| 0 <= j < i ==> a@[j] == b@[j],
        decreases alen - i,
    {
        if a.get_char(i) != b.get_char(i) {
            proof {
                assert(a@[i as int] != b@[i as int]);
            }
            return false;
        }
        i = i + 1;
    }
    proof {
        assert(a@ =~= b@);
    }
    true
}

/// `needle` occurs in `hay` starting at position `i`.
pub open spec fn matches_at(hay: Seq<char>, i: int, needle: Seq<char>) -> bool {
    0 <= i && i + needle.len() <= hay.len() && hay.subrange(i, i + needle.len()) == needle
}

/// `needle` occurs somewhere in `hay`.
pub open spec fn spec_contains(hay: Seq<char>, needle: Seq<char>) -> bool {
    exists|i: int| matches_at(hay, i, needle)
}

/// Substring search, reported as containment of the needle's characters.
pub fn str_contains(hay: &str, needle: &str) -> (r: bool)
    ensures
        r == spec_contains(hay@, needle@),
{
    let hlen = hay.unicode_len();
    let nlen = needle.unicode_len();
    if nlen > hlen {
        proof {
            assert(forall|i: int| !matches_at(hay@, i, needle@));
        }
        return false;
    }
    let mut i: usize = 0;
    while i <= hlen - nlen
        invariant
            nlen <= hlen,
            hlen == hay@.len(),
            nlen == needle@.len(),
            i <= hlen - nlen + 1,
            forall|k: int| 0 <= k < i ==> !matches_at(hay@, k, needle@),
        decreases hlen - nlen + 1 - i,
    {
        let mut j: usize = 0;
        let mut all_eq = true;
        while j < nlen
            invariant
                nlen <= hlen,
                hlen == hay@.len(),
                nlen == needle@.len(),
                i + nlen <= hlen,
                j <= nlen,
                all_eq ==> forall|k: int| 0 <= k < j ==> hay@[i + k] == needle@[k],
                !all_eq ==> !(forall|k: int| 0 <= k < nlen ==> hay@[i + k] == needle@[k]),
            decreases nlen - j,
        {
            let hc = hay.get_char(i + j);
            let nc = needle.get_char(j);
            if hc != nc {
                proof {
                    assert(hay@[i + j] != needle@[j as int]);
                    assert(!(forall|k: int| 0 <= k < nlen ==> hay@[i + k] == needle@[k]));
                }
                all_eq = false;
                j = nlen;
            } else {
                proof {
                    assert(hay@[i + j] == needle@[j as int]);
                    if all_eq {
                        assert(forall|k: int| 0 <= k < j + 1 ==> hay@[i + k] == needle@[k]);
                    }
                }
                j = j + 1;
            }
        }
        if all_eq {
            proof {
                assert(hay@.subrange(i as int, i + needle@.len()) =~= needle@);
                assert(matches_at(hay@, i as int, needle@));
            }
            return true;
        }
        proof {
            if matches_at(hay@, i as int, needle@) {
                assert(forall|k: int|
                    0 <= k < nlen ==> #[trigger] hay@.subrange(i as int, i + needle@.len())[k]
                        == hay@[i + k]);
                assert(forall|k: int| 0 <= k < nlen ==> hay@[i + k] == needle@[k]);
            }
        }
        i = i + 1;
    }
    proof {
        assert(forall|k: int| matches_at(hay@, k, needle@) ==> 0 <= k <= hlen - nlen);
    }
    false
}

// ---------------------------------------------------------------------------
// Building
// ---------------------------------------------------------------------------

/// A run of `n` spaces.
pub open spec fn spec_spaces(n: nat) -> Seq<char> {
    Seq::new(n, |i: int| ' ')
}

/// Builds a string of `n` spaces.
pub fn spaces(n: usize) -> (r: String)
    ensures
        r@ == spec_spaces(n as nat),
{
    let mut r = String::new();
    let mut i: usize = 0;
    while i < n
        invariant
            i <= n,
            r@ =~= spec_spaces(i as nat),
        decreases n - i,
    {
        r.append(" ");
        proof {
            reveal_strlit(" ");
            assert(r@ =~= spec_spaces((i + 1) as nat));
        }
        i = i + 1;
    }
    r
}

/// Result of replacing each occurrence of the two-character pattern `'\\'`
/// followed by `marker`, scanning left to right without rescanning
/// replacements.
pub open spec fn spec_replace_marker(s: Seq<char>, marker: char, rep: Seq<char>) -> Seq<char>
    decreases s.len(),
{
    if s.len() < 2 {
        s
    } else if s[0] == '\\' && s[1] == marker {
        rep + spec_replace_marker(s.skip(2), marker, rep)
    } else {
        seq![s[0]] + spec_replace_marker(s.skip(1), marker, rep)
    }
}

fn replace_marker_from(s: &str, i: usize, marker: char, rep: &str) -> (r: String)
    requires
        i <= s@.len(),
    ensures
        r@ == spec_replace_marker(s@.skip(i as int), marker, rep@),
    decreases s@.len() - i,
{
    let len = s.unicode_len();
    if len - i < 2 {
        let r = String::from_str(s.substring_char(i, len));
        proof {
            assert(s@.skip(i as int) =~= s@.subrange(i as int, len as int));
            assert(s@.skip(i as int).len() < 2);
        }
        r
    } else if s.get_char(i) == '\\' && s.get_char(i + 1) == marker {
        let rest = replace_marker_from(s, i + 2, marker, rep);
        let mut r = String::from_str(rep);
        r.append(rest.as_str());
        proof {
            assert(s@.skip(i as int)[0] == s@[i as int]);
            assert(s@.skip(i as int)[1] == s@[i + 1]);
            assert(s@.skip(i as int).skip(2) =~= s@.skip(i + 2));
            assert(r@ =~= spec_replace_marker(s@.skip(i as int), marker, rep@));
        }
        r
    } else {
        let rest = replace_marker_from(s, i + 1, marker, rep);
        let mut r = String::from_str(s.substring_char(i, i + 1));
        r.append(rest.as_str());
        proof {
            assert(s@.skip(i as int)[0] == s@[i as int]);
            assert(s@.skip(i as int)[1] == s@[i + 1]);
            assert(s@.skip(i as int).skip(1) =~= s@.skip(i + 1));
            assert(s@.subrange(i as int, i + 1) =~= seq![s@[i as int]]);
            assert(r@ =~= spec_replace_marker(s@.skip(i as int), marker, rep@));
        }
        r
    }
}

/// Replaces each occurrence of `'\\'` followed by `marker` with `rep`.
pub fn replace_marker(s: &str, marker: char, rep: &str) -> (r: String)
    ensures
        r@ == spec_replace_marker(s@, marker, rep@),
{
    let r = replace_marker_from(s, 0, marker, rep);
    proof {
        assert(s@.skip(0) =~= s@);
    }
    r
}

} // verus!
