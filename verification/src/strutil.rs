use vstd::prelude::*;
use vstd::string::StrSliceExecFns;
use vstd::string::StringExecFns;

verus! {

// ---------------------------------------------------------------------------
// Specification-level string predicates
// ---------------------------------------------------------------------------

/// `p` occurs in `s` starting at position `i`.
pub open spec fn matches_at(s: Seq<char>, p: Seq<char>, i: int) -> bool {
    0 <= i && i + p.len() <= s.len() && (forall|j: int| 0 <= j < p.len() ==> s[i + j] == p[j])
}

/// `s` begins with `p`.
pub open spec fn starts_with_seq(s: Seq<char>, p: Seq<char>) -> bool {
    matches_at(s, p, 0)
}

/// `s` ends with `p`.
pub open spec fn ends_with_seq(s: Seq<char>, p: Seq<char>) -> bool {
    p.len() <= s.len() && matches_at(s, p, s.len() - p.len())
}

/// `p` occurs somewhere in `s`.
pub open spec fn contains_seq(s: Seq<char>, p: Seq<char>) -> bool {
    exists|i: int| matches_at(s, p, i)
}

/// ASCII decimal digit.
pub open spec fn is_digit(c: char) -> bool {
    48 <= (c as int) <= 57
}

/// ASCII whitespace, as trimmed from label values.
pub open spec fn is_space(c: char) -> bool {
    c == ' ' || c == '\t' || c == '\n' || c == '\r'
}

/// Every character of `s` is an ASCII digit.
pub open spec fn all_digits(s: Seq<char>) -> bool {
    forall|i: int| 0 <= i < s.len() ==> is_digit(s[i])
}

/// Numeric value of one digit character.
pub open spec fn digit_val(c: char) -> int {
    (c as int) - 48
}

/// Numeric value of a digit string, most significant digit first.
pub open spec fn digits_val(s: Seq<char>) -> int
    decreases s.len(),
{
    if s.len() == 0 {
        0
    } else {
        digits_val(s.drop_last()) * 10 + digit_val(s.last())
    }
}

/// The ASCII digits of `s`, in order, with everything else dropped.
pub open spec fn digit_filter(s: Seq<char>) -> Seq<char> {
    s.filter(|c: char| is_digit(c))
}

/// ASCII lowercase folding of one character. Case-insensitive comparison
/// throughout the library folds `A`-`Z` only; characters outside ASCII
/// compare verbatim.
pub open spec fn lower_char(c: char) -> char {
    if 65 <= (c as int) <= 90 {
        ((c as int) + 32) as char
    } else {
        c
    }
}

/// ASCII lowercase folding of a string.
pub open spec fn lower_seq(s: Seq<char>) -> Seq<char> {
    s.map_values(|c: char| lower_char(c))
}

/// `s` without leading whitespace.
pub open spec fn trim_front(s: Seq<char>) -> Seq<char>
    decreases s.len(),
{
    if s.len() > 0 && is_space(s[0]) {
        trim_front(s.drop_first())
    } else {
        s
    }
}

/// `s` without trailing whitespace.
pub open spec fn trim_back(s: Seq<char>) -> Seq<char>
    decreases s.len(),
{
    if s.len() > 0 && is_space(s.last()) {
        trim_back(s.drop_last())
    } else {
        s
    }
}

/// `s` without leading or trailing whitespace.
pub open spec fn trim_seq(s: Seq<char>) -> Seq<char> {
    trim_back(trim_front(s))
}

/// The decimal digit character for `d` in `0..10`.
pub open spec fn digit_char(d: int) -> char {
    (d + 48) as char
}

/// Decimal representation of `n >= 0`, most significant digit first.
pub open spec fn dec_of(n: int) -> Seq<char>
    decreases n,
{
    if n < 10 {
        seq![digit_char(n)]
    } else {
        dec_of(n / 10).push(digit_char(n % 10))
    }
}

/// A port is valid when it parses as a decimal integer in `1..=65535`.
pub open spec fn parse_port_spec(s: Seq<char>) -> Option<u16> {
    if s.len() > 0 && all_digits(s) && 1 <= digits_val(s) <= 65535 {
        Option::Some(digits_val(s) as u16)
    } else {
        Option::None
    }
}

// ---------------------------------------------------------------------------
// Executable helpers
// ---------------------------------------------------------------------------

/// Character equality of two string slices.
pub fn str_eq(a: &str, b: &str) -> (r: bool)
    ensures
        r == (a@ == b@),
{
    let alen = a.unicode_len();
    let blen = b.unicode_len();
    if alen != blen {
        proof {
            assert(a@.len() != b@.len());
        }
        return false;
    }
    let mut i: usize = 0;
    while i < alen
        invariant
            i <= alen,
            alen == a@.len(),
            alen == b@.len(),
            forall|j: int| 0 <= j < i ==> a@[j] == b@[j],
        decreases alen - i,
    {
        if a.get_char(i) != b.get_char(i) {
            return false;
        }
        i += 1;
    }
    proof {
        assert(a@ =~= b@);
    }
    true
}

/// Whether `s` begins with `p`, by characters.
pub fn starts_with_str(s: &str, p: &str) -> (r: bool)
    ensures
        r == starts_with_seq(s@, p@),
{
    let slen = s.unicode_len();
    let plen = p.unicode_len();
    if plen > slen {
        return false;
    }
    let mut i: usize = 0;
    while i < plen
        invariant
            i <= plen,
            plen <= slen,
            slen == s@.len(),
            plen == p@.len(),
            forall|j: int| 0 <= j < i ==> s@[j] == p@[j],
        decreases plen - i,
    {
        if s.get_char(i) != p.get_char(i) {
            return false;
        }
        i += 1;
    }
    true
}

/// Whether `s` ends with `p`, by characters.
pub fn ends_with_str(s: &str, p: &str) -> (r: bool)
    ensures
        r == ends_with_seq(s@, p@),
{
    let slen = s.unicode_len();
    let plen = p.unicode_len();
    if plen > slen {
        return false;
    }
    let off = slen - plen;
    let mut i: usize = 0;
    while i < plen
        invariant
            i <= plen,
            plen <= slen,
            slen == s@.len(),
            plen == p@.len(),
            off == slen - plen,
            forall|j: int| 0 <= j < i ==> s@[off + j] == p@[j],
        decreases plen - i,
    {
        if s.get_char(off + i) != p.get_char(i) {
            return false;
        }
        i += 1;
    }
    true
}

/// Whether `p` occurs anywhere in `s`, by characters.
pub fn contains_str(s: &str, p: &str) -> (r: bool)
    ensures
        r == contains_seq(s@, p@),
{
    let slen = s.unicode_len();
    let plen = p.unicode_len();
    if plen == 0 {
        proof {
            assert(matches_at(s@, p@, 0));
        }
        return true;
    }
    if plen > slen {
        proof {
            assert(forall|i: int| !matches_at(s@, p@, i));
        }
        return false;
    }
    let mut start: usize = 0;
    while start <= slen - plen
        invariant
            1 <= plen <= slen,
            slen == s@.len(),
            plen == p@.len(),
            start <= slen - plen + 1,
            forall|i: int| 0 <= i < start ==> !matches_at(s@, p@, i),
        decreases slen + 1 - plen - start,
    {
        let mut j: usize = 0;
        let mut hit = true;
        while j < plen
            invariant
                j <= plen,
                plen <= slen,
                slen == s@.len(),
                plen == p@.len(),
                start + plen <= slen,
                hit ==> forall|k: int| 0 <= k < j ==> s@[start + k] == p@[k],
                !hit ==> !matches_at(s@, p@, start as int),
            decreases plen - j,
        {
            if s.get_char(start + j) != p.get_char(j) {
                hit = false;
                proof {
                    assert(!matches_at(s@, p@, start as int));
                }
                j = plen;
            } else {
                j += 1;
            }
        }
        if hit {
            proof {
                assert(matches_at(s@, p@, start as int));
            }
            return true;
        }
        start += 1;
    }
    proof {
        assert(forall|i: int| start <= i ==> !matches_at(s@, p@, i));
    }
    false
}

/// ASCII lowercase folding of one character.
pub fn lower_char_exec(c: char) -> (r: char)
    ensures
        r == lower_char(c),
{
    match c {
        'A' => 'a',
        'B' => 'b',
        'C' => 'c',
        'D' => 'd',
        'E' => 'e',
        'F' => 'f',
        'G' => 'g',
        'H' => 'h',
        'I' => 'i',
        'J' => 'j',
        'K' => 'k',
        'L' => 'l',
        'M' => 'm',
        'N' => 'n',
        'O' => 'o',
        'P' => 'p',
        'Q' => 'q',
        'R' => 'r',
        'S' => 's',
        'T' => 't',
        'U' => 'u',
        'V' => 'v',
        'W' => 'w',
        'X' => 'x',
        'Y' => 'y',
        'Z' => 'z',
        _ => c,
    }
}

/// Whether the lowercase folding of `s` contains the (already lowercase)
/// pattern `p`.
pub fn contains_ci(s: &str, p: &str) -> (r: bool)
    ensures
        r == contains_seq(lower_seq(s@), p@),
{
    let slen = s.unicode_len();
    let plen = p.unicode_len();
    proof {
        assert(lower_seq(s@).len() == s@.len());
    }
    if plen == 0 {
        proof {
            assert(matches_at(lower_seq(s@), p@, 0));
        }
        return true;
    }
    if plen > slen {
        proof {
            assert(forall|i: int| !matches_at(lower_seq(s@), p@, i));
        }
        return false;
    }
    let mut start: usize = 0;
    while start <= slen - plen
        invariant
            1 <= plen <= slen,
            slen == s@.len(),
            plen == p@.len(),
            lower_seq(s@).len() == s@.len(),
            start <= slen - plen + 1,
            forall|i: int| 0 <= i < start ==> !matches_at(lower_seq(s@), p@, i),
        decreases slen + 1 - plen - start,
    {
        let mut j: usize = 0;
        let mut hit = true;
        while j < plen
            invariant
                j <= plen,
                plen <= slen,
                slen == s@.len(),
                plen == p@.len(),
                lower_seq(s@).len() == s@.len(),
                start + plen <= slen,
                hit ==> forall|k: int| 0 <= k < j ==> lower_seq(s@)[start + k] == p@[k],
                !hit ==> !matches_at(lower_seq(s@), p@, start as int),
            decreases plen - j,
        {
            if lower_char_exec(s.get_char(start + j)) != p.get_char(j) {
                hit = false;
                proof {
                    assert(lower_seq(s@)[start + j] == lower_char(s@[start + j]));
                    assert(!matches_at(lower_seq(s@), p@, start as int));
                }
                j = plen;
            } else {
                proof {
                    assert(lower_seq(s@)[start + j] == lower_char(s@[start + j]));
                }
                j += 1;
            }
        }
        if hit {
            proof {
                assert(matches_at(lower_seq(s@), p@, start as int));
            }
            return true;
        }
        start += 1;
    }
    proof {
        assert(forall|i: int| start <= i ==> !matches_at(lower_seq(s@), p@, i));
    }
    false
}


/// `s` with every trailing `:` removed.
pub open spec fn strip_colons_back(s: Seq<char>) -> Seq<char>
    decreases s.len(),
{
    if s.len() > 0 && s.last() == ':' {
        strip_colons_back(s.drop_last())
    } else {
        s
    }
}

/// The part of `t` after its last `:`, or all of `t` when it has none.
pub open spec fn after_last_colon(t: Seq<char>) -> Seq<char>
    decreases t.len(),
{
    if t.len() == 0 {
        t
    } else if t.last() == ':' {
        Seq::empty()
    } else {
        after_last_colon(t.drop_last()).push(t.last())
    }
}

/// The final non-empty `:`-separated segment of `s`, or empty when `s` holds
/// nothing but colons.
pub open spec fn last_segment(s: Seq<char>) -> Seq<char> {
    after_last_colon(strip_colons_back(s))
}

/// `s` with every leading `/` removed.
pub open spec fn strip_slashes(s: Seq<char>) -> Seq<char>
    decreases s.len(),
{
    if s.len() > 0 && s[0] == '/' {
        strip_slashes(s.drop_first())
    } else {
        s
    }
}

// ---------------------------------------------------------------------------
// Lemmas about the recursive specifications
// ---------------------------------------------------------------------------

/// A digit string has a non-negative value.
pub proof fn lemma_digits_val_nonneg(s: Seq<char>)
    requires
        all_digits(s),
    ensures
        digits_val(s) >= 0,
    decreases s.len(),
{
    if s.len() > 0 {
        assert(all_digits(s.drop_last())) by {
            assert(forall|i: int| 0 <= i < s.len() - 1 ==> s.drop_last()[i] == s[i]);
        }
        lemma_digits_val_nonneg(s.drop_last());
    }
}

/// Dropping characters from the end of a digit string cannot increase its value.
pub proof fn lemma_digits_val_take_le(s: Seq<char>, i: int)
    requires
        all_digits(s),
        0 <= i <= s.len(),
    ensures
        0 <= digits_val(s.take(i)) <= digits_val(s),
    decreases s.len() - i,
{
    assert(all_digits(s.take(i))) by {
        assert(forall|j: int| 0 <= j < i ==> s.take(i)[j] == s[j]);
    }
    lemma_digits_val_nonneg(s.take(i));
    if i < s.len() {
        assert(s.take(i + 1).drop_last() =~= s.take(i));
        assert(s.take(i + 1).last() == s[i]);
        assert(digits_val(s.take(i + 1)) == digits_val(s.take(i)) * 10 + digit_val(s[i]));
        lemma_digits_val_take_le(s, i + 1);
    } else {
        assert(s.take(i) =~= s);
    }
}

/// The filtered digits of a prefix are worth no more than those of the whole.
pub proof fn lemma_digit_filter_take_le(s: Seq<char>, i: int)
    requires
        0 <= i <= s.len(),
    ensures
        0 <= digits_val(digit_filter(s.take(i))) <= digits_val(digit_filter(s)),
    decreases s.len() - i,
{
    assert forall|j: int| 0 <= j < digit_filter(s.take(i)).len() implies is_digit(
        digit_filter(s.take(i))[j],
    ) by {
        s.take(i).lemma_filter_pred(|c: char| is_digit(c), j);
    }
    assert(all_digits(digit_filter(s.take(i))));
    lemma_digits_val_nonneg(digit_filter(s.take(i)));
    if i < s.len() {
        reveal(Seq::filter);
        assert(s.take(i + 1).drop_last() =~= s.take(i));
        assert(s.take(i + 1).last() == s[i]);
        if is_digit(s[i]) {
            assert(digit_filter(s.take(i + 1)) == digit_filter(s.take(i)).push(s[i]));
            assert(digit_filter(s.take(i + 1)).drop_last() =~= digit_filter(s.take(i)));
            assert(digits_val(digit_filter(s.take(i + 1))) == digits_val(digit_filter(s.take(i)))
                * 10 + digit_val(s[i]));
        } else {
            assert(digit_filter(s.take(i + 1)) == digit_filter(s.take(i)));
        }
        lemma_digit_filter_take_le(s, i + 1);
    } else {
        assert(s.take(i) =~= s);
    }
}

/// The decimal representation of `n` is all digits and reads back as `n`.
pub proof fn lemma_dec_of_val(n: int)
    requires
        0 <= n,
    ensures
        all_digits(dec_of(n)),
        digits_val(dec_of(n)) == n,
        dec_of(n).len() >= 1,
    decreases n,
{
    if n < 10 {
        assert(dec_of(n) == seq![digit_char(n)]);
        assert((digit_char(n) as int) == n + 48);
        let e = dec_of(n).drop_last();
        assert(e =~= Seq::<char>::empty());
        assert(digits_val(e) == 0);
        assert(dec_of(n).last() == digit_char(n));
        assert(digits_val(dec_of(n)) == digits_val(e) * 10 + digit_val(digit_char(n)));
    } else {
        lemma_dec_of_val(n / 10);
        assert((digit_char(n % 10) as int) == n % 10 + 48);
        assert(dec_of(n).drop_last() =~= dec_of(n / 10));
        assert(dec_of(n).last() == digit_char(n % 10));
        assert(digits_val(dec_of(n)) == digits_val(dec_of(n / 10)) * 10 + digit_val(
            digit_char(n % 10),
        ));
        assert(digits_val(dec_of(n)) == (n / 10) * 10 + n % 10);
        assert((n / 10) * 10 + n % 10 == n);
        assert forall|i: int| 0 <= i < dec_of(n).len() implies is_digit(dec_of(n)[i]) by {
            if i < dec_of(n).len() - 1 {
                assert(dec_of(n)[i] == dec_of(n / 10)[i]);
            }
        }
    }
}

// ---------------------------------------------------------------------------
// Executable character classes, trimming, and numbers
// ---------------------------------------------------------------------------

/// ASCII whitespace test.
pub fn is_space_exec(c: char) -> (r: bool)
    ensures
        r == is_space(c),
{
    c == ' ' || c == '\t' || c == '\n' || c == '\r'
}

/// ASCII digit test.
pub fn is_digit_exec(c: char) -> (r: bool)
    ensures
        r == is_digit(c),
{
    let u = c as u32;
    48 <= u && u <= 57
}

/// `trim_front` is the suffix from the first non-space position.
proof fn lemma_trim_front_skip(s: Seq<char>, b: int)
    requires
        0 <= b <= s.len(),
        forall|j: int| 0 <= j < b ==> is_space(s[j]),
        b == s.len() || !is_space(s[b]),
    ensures
        trim_front(s) == s.skip(b),
    decreases b,
{
    if b == 0 {
        assert(s.skip(0) =~= s);
    } else {
        assert(is_space(s[0]));
        let t = s.drop_first();
        assert(forall|j: int| 0 <= j < b - 1 ==> t[j] == s[j + 1]);
        lemma_trim_front_skip(t, b - 1);
        assert(t.skip(b - 1) =~= s.skip(b));
    }
}

/// `trim_back` is the prefix up to the last non-space position.
proof fn lemma_trim_back_take(s: Seq<char>, e: int)
    requires
        0 <= e <= s.len(),
        forall|j: int| e <= j < s.len() ==> is_space(s[j]),
        e == 0 || !is_space(s[e - 1]),
    ensures
        trim_back(s) == s.take(e),
    decreases s.len() - e,
{
    if e == s.len() {
        assert(s.take(e) =~= s);
    } else {
        assert(is_space(s.last()));
        let t = s.drop_last();
        lemma_trim_back_take(t, e);
        assert(t.take(e) =~= s.take(e));
    }
}

/// `s` without leading or trailing ASCII whitespace.
pub fn trim_str<'a>(s: &'a str) -> (r: &'a str)
    ensures
        r@ == trim_seq(s@),
{
    let len = s.unicode_len();
    let mut b: usize = 0;
    while b < len && is_space_exec(s.get_char(b))
        invariant
            b <= len,
            len == s@.len(),
            forall|j: int| 0 <= j < b ==> is_space(s@[j]),
        decreases len - b,
    {
        b += 1;
    }
    let mut e: usize = len;
    while e > b && is_space_exec(s.get_char(e - 1))
        invariant
            b <= e <= len,
            len == s@.len(),
            forall|j: int| e <= j < len ==> is_space(s@[j]),
        decreases e,
    {
        e -= 1;
    }
    let r = s.substring_char(b, e);
    proof {
        lemma_trim_front_skip(s@, b as int);
        let t = s@.skip(b as int);
        assert(forall|j: int| e - b <= j < t.len() ==> is_space(t[j]));
        assert(e - b == 0 || !is_space(t[e - b - 1]));
        lemma_trim_back_take(t, e - b);
        assert(t.take(e - b) =~= s@.subrange(b as int, e as int));
    }
    r
}

/// Parse a whole string of digits as a port in `1..=65535`.
pub fn parse_port(s: &str) -> (r: Option<u16>)
    ensures
        r == parse_port_spec(s@),
{
    let len = s.unicode_len();
    if len == 0 {
        return Option::None;
    }
    let mut i: usize = 0;
    let mut acc: u32 = 0;
    while i < len
        invariant
            i <= len,
            len == s@.len(),
            acc <= 65535,
            forall|j: int| 0 <= j < i ==> is_digit(s@[j]),
            acc == digits_val(s@.take(i as int)),
        decreases len - i,
    {
        let c = s.get_char(i);
        if !is_digit_exec(c) {
            return Option::None;
        }
        let d = (c as u32) - 48;
        proof {
            assert(s@.take(i + 1).drop_last() =~= s@.take(i as int));
            assert(s@.take(i + 1).last() == s@[i as int]);
        }
        acc = acc * 10 + d;
        i += 1;
        if acc > 65535 {
            proof {
                assert(all_digits(s@.take(i as int)));
                if all_digits(s@) {
                    assert(s@.take(s@.len() as int) =~= s@);
                    lemma_digits_val_take_le(s@, i as int);
                }
            }
            return Option::None;
        }
    }
    proof {
        assert(s@.take(len as int) =~= s@);
    }
    if acc == 0 {
        Option::None
    } else {
        Option::Some(acc as u16)
    }
}

/// Read the port encoded by the ASCII digits scattered through `s`, as in an
/// `{{upstreams 3000}}` label value.
pub fn parse_scattered_digits_port(s: &str) -> (r: Option<u16>)
    ensures
        r == parse_port_spec(digit_filter(s@)),
{
    let len = s.unicode_len();
    let mut i: usize = 0;
    let mut acc: u32 = 0;
    let mut seen = false;
    proof {
        assert(s@.take(0) =~= Seq::<char>::empty());
        reveal(Seq::filter);
    }
    while i < len
        invariant
            i <= len,
            len == s@.len(),
            acc <= 65535,
            seen == (digit_filter(s@.take(i as int)).len() > 0),
            acc == digits_val(digit_filter(s@.take(i as int))),
        decreases len - i,
    {
        let c = s.get_char(i);
        proof {
            reveal(Seq::filter);
            assert(s@.take(i + 1).drop_last() =~= s@.take(i as int));
            assert(s@.take(i + 1).last() == s@[i as int]);
        }
        if is_digit_exec(c) {
            let d = (c as u32) - 48;
            proof {
                assert(digit_filter(s@.take(i + 1)) == digit_filter(s@.take(i as int)).push(
                    s@[i as int],
                ));
                assert(digit_filter(s@.take(i + 1)).drop_last() =~= digit_filter(
                    s@.take(i as int),
                ));
            }
            acc = acc * 10 + d;
            seen = true;
            i += 1;
            if acc > 65535 {
                proof {
                    lemma_digit_filter_take_le(s@, i as int);
                }
                return Option::None;
            }
        } else {
            proof {
                assert(digit_filter(s@.take(i + 1)) == digit_filter(s@.take(i as int)));
            }
            i += 1;
        }
    }
    proof {
        assert(s@.take(len as int) =~= s@);
        assert forall|j: int| 0 <= j < digit_filter(s@).len() implies is_digit(
            digit_filter(s@)[j],
        ) by {
            s@.lemma_filter_pred(|c: char| is_digit(c), j);
        }
        assert(all_digits(digit_filter(s@)));
        lemma_digits_val_nonneg(digit_filter(s@));
    }
    if !seen {
        Option::None
    } else if acc == 0 {
        Option::None
    } else {
        Option::Some(acc as u16)
    }
}

/// The decimal digit as a one-character string slice.
pub fn digit_str(d: u16) -> (r: &'static str)
    requires
        d < 10,
    ensures
        r@ == seq![digit_char(d as int)],
{
    if d == 0 {
        proof {
            reveal_strlit("0");
            assert("0"@ =~= seq![digit_char(0)]);
        }
        "0"
    } else if d == 1 {
        proof {
            reveal_strlit("1");
            assert("1"@ =~= seq![digit_char(1)]);
        }
        "1"
    } else if d == 2 {
        proof {
            reveal_strlit("2");
            assert("2"@ =~= seq![digit_char(2)]);
        }
        "2"
    } else if d == 3 {
        proof {
            reveal_strlit("3");
            assert("3"@ =~= seq![digit_char(3)]);
        }
        "3"
    } else if d == 4 {
        proof {
            reveal_strlit("4");
            assert("4"@ =~= seq![digit_char(4)]);
        }
        "4"
    } else if d == 5 {
        proof {
            reveal_strlit("5");
            assert("5"@ =~= seq![digit_char(5)]);
        }
        "5"
    } else if d == 6 {
        proof {
            reveal_strlit("6");
            assert("6"@ =~= seq![digit_char(6)]);
        }
        "6"
    } else if d == 7 {
        proof {
            reveal_strlit("7");
            assert("7"@ =~= seq![digit_char(7)]);
        }
        "7"
    } else if d == 8 {
        proof {
            reveal_strlit("8");
            assert("8"@ =~= seq![digit_char(8)]);
        }
        "8"
    } else {
        proof {
            reveal_strlit("9");
            assert("9"@ =~= seq![digit_char(9)]);
        }
        "9"
    }
}

/// The decimal representation of `n`, most significant digit first.
pub fn u16_to_string(n: u16) -> (r: String)
    ensures
        r@ == dec_of(n as int),
    decreases n,
{
    if n < 10 {
        String::from_str(digit_str(n))
    } else {
        let mut s = u16_to_string(n / 10);
        s.append(digit_str(n % 10));
        proof {
            assert(s@ =~= dec_of(n as int));
        }
        s
    }
}


/// `strip_colons_back` is the prefix up to the last non-colon position.
proof fn lemma_strip_colons_take(s: Seq<char>, e: int)
    requires
        0 <= e <= s.len(),
        forall|j: int| e <= j < s.len() ==> s[j] == ':',
        e == 0 || s[e - 1] != ':',
    ensures
        strip_colons_back(s) == s.take(e),
    decreases s.len() - e,
{
    if e == s.len() {
        assert(s.take(e) =~= s);
    } else {
        assert(s.last() == ':');
        let t = s.drop_last();
        lemma_strip_colons_take(t, e);
        assert(t.take(e) =~= s.take(e));
    }
}

/// `after_last_colon` is the suffix from the position after the last colon.
proof fn lemma_after_last_colon_skip(t: Seq<char>, b: int)
    requires
        0 <= b <= t.len(),
        forall|j: int| b <= j < t.len() ==> t[j] != ':',
        b == 0 || t[b - 1] == ':',
    ensures
        after_last_colon(t) == t.skip(b),
    decreases t.len(),
{
    if t.len() == 0 {
        assert(t.skip(b) =~= t);
    } else if b == t.len() {
        assert(t.last() == ':');
        assert(t.skip(b) =~= Seq::<char>::empty());
    } else {
        assert(t.last() != ':');
        let u = t.drop_last();
        assert(forall|j: int| b <= j < u.len() ==> u[j] == t[j]);
        lemma_after_last_colon_skip(u, b);
        assert(u.skip(b).push(t.last()) =~= t.skip(b));
    }
}

/// The final non-empty `:`-separated segment of `s` (empty when there is none).
pub fn last_segment_str<'a>(s: &'a str) -> (r: &'a str)
    ensures
        r@ == last_segment(s@),
{
    let len = s.unicode_len();
    let mut e: usize = len;
    while e > 0 && s.get_char(e - 1) == ':'
        invariant
            e <= len,
            len == s@.len(),
            forall|j: int| e <= j < len ==> s@[j] == ':',
        decreases e,
    {
        e -= 1;
    }
    let mut b: usize = e;
    while b > 0 && s.get_char(b - 1) != ':'
        invariant
            b <= e <= len,
            len == s@.len(),
            forall|j: int| b <= j < e ==> s@[j] != ':',
        decreases b,
    {
        b -= 1;
    }
    let r = s.substring_char(b, e);
    proof {
        lemma_strip_colons_take(s@, e as int);
        let t = s@.take(e as int);
        assert(forall|j: int| b <= j < t.len() ==> t[j] != ':');
        lemma_after_last_colon_skip(t, b as int);
        assert(t.skip(b as int) =~= s@.subrange(b as int, e as int));
    }
    r
}

/// `strip_slashes` is the suffix from the first non-slash position.
proof fn lemma_strip_slashes_skip(s: Seq<char>, b: int)
    requires
        0 <= b <= s.len(),
        forall|j: int| 0 <= j < b ==> s[j] == '/',
        b == s.len() || s[b] != '/',
    ensures
        strip_slashes(s) == s.skip(b),
    decreases b,
{
    if b == 0 {
        assert(s.skip(0) =~= s);
    } else {
        assert(s[0] == '/');
        let t = s.drop_first();
        assert(forall|j: int| 0 <= j < b - 1 ==> t[j] == s[j + 1]);
        lemma_strip_slashes_skip(t, b - 1);
        assert(t.skip(b - 1) =~= s.skip(b));
    }
}

/// `s` without leading `/` characters, as container names are reported.
pub fn strip_slashes_str<'a>(s: &'a str) -> (r: &'a str)
    ensures
        r@ == strip_slashes(s@),
{
    let len = s.unicode_len();
    let mut b: usize = 0;
    while b < len && s.get_char(b) == '/'
        invariant
            b <= len,
            len == s@.len(),
            forall|j: int| 0 <= j < b ==> s@[j] == '/',
        decreases len - b,
    {
        b += 1;
    }
    let r = s.substring_char(b, len);
    proof {
        lemma_strip_slashes_skip(s@, b as int);
        assert(s@.skip(b as int) =~= s@.subrange(b as int, len as int));
    }
    r
}

/// Case-insensitive character equality of two strings, by ASCII folding.
pub fn str_eq_ci(a: &str, b: &str) -> (r: bool)
    ensures
        r == (lower_seq(a@) == lower_seq(b@)),
{
    let alen = a.unicode_len();
    let blen = b.unicode_len();
    proof {
        assert(lower_seq(a@).len() == a@.len());
        assert(lower_seq(b@).len() == b@.len());
    }
    if alen != blen {
        return false;
    }
    let mut i: usize = 0;
    while i < alen
        invariant
            i <= alen,
            alen == a@.len(),
            alen == b@.len(),
            lower_seq(a@).len() == a@.len(),
            lower_seq(b@).len() == b@.len(),
            forall|j: int| 0 <= j < i ==> lower_seq(a@)[j] == lower_seq(b@)[j],
        decreases alen - i,
    {
        let ca = lower_char_exec(a.get_char(i));
        let cb = lower_char_exec(b.get_char(i));
        proof {
            assert(lower_seq(a@)[i as int] == lower_char(a@[i as int]));
            assert(lower_seq(b@)[i as int] == lower_char(b@[i as int]));
        }
        if ca != cb {
            return false;
        }
        i += 1;
    }
    proof {
        assert(lower_seq(a@) =~= lower_seq(b@));
    }
    true
}


/// The part of `s` before the first occurrence of `c`, or all of `s`.
pub open spec fn before_char(s: Seq<char>, c: char) -> Seq<char>
    decreases s.len(),
{
    if s.len() == 0 {
        s
    } else if s[0] == c {
        Seq::empty()
    } else {
        seq![s[0]] + before_char(s.drop_first(), c)
    }
}

/// The part of `s` after the last occurrence of `c`, or all of `s`.
pub open spec fn after_last(s: Seq<char>, c: char) -> Seq<char>
    decreases s.len(),
{
    if s.len() == 0 {
        s
    } else if s.last() == c {
        Seq::empty()
    } else {
        after_last(s.drop_last(), c).push(s.last())
    }
}

/// The part of `s` before the last occurrence of `c`, or empty.
pub open spec fn before_last(s: Seq<char>, c: char) -> Seq<char>
    decreases s.len(),
{
    if s.len() == 0 {
        s
    } else if s.last() == c {
        s.drop_last()
    } else {
        before_last(s.drop_last(), c)
    }
}

/// Whether `c` occurs in `s`.
pub open spec fn has_char(s: Seq<char>, c: char) -> bool {
    exists|i: int| 0 <= i < s.len() && s[i] == c
}

/// `before_char` is the prefix up to the first occurrence.
proof fn lemma_before_char_take(s: Seq<char>, c: char, i: int)
    requires
        0 <= i <= s.len(),
        forall|j: int| 0 <= j < i ==> s[j] != c,
        i == s.len() || s[i] == c,
    ensures
        before_char(s, c) == s.take(i),
    decreases i,
{
    if s.len() == 0 {
        assert(s.take(0) =~= s);
    } else if i == 0 {
        if s[0] == c {
            assert(s.take(0) =~= Seq::<char>::empty());
        } else {
            assert(s.take(0) =~= Seq::<char>::empty());
        }
    } else {
        assert(s[0] != c);
        let t = s.drop_first();
        assert(forall|j: int| 0 <= j < i - 1 ==> t[j] == s[j + 1]);
        lemma_before_char_take(t, c, i - 1);
        assert(seq![s[0]] + t.take(i - 1) =~= s.take(i));
    }
}

/// The prefix of `s` before the first `c`.
pub fn before_char_str<'a>(s: &'a str, c: char) -> (r: &'a str)
    ensures
        r@ == before_char(s@, c),
{
    let len = s.unicode_len();
    let mut i: usize = 0;
    while i < len && s.get_char(i) != c
        invariant
            i <= len,
            len == s@.len(),
            forall|j: int| 0 <= j < i ==> s@[j] != c,
        decreases len - i,
    {
        i += 1;
    }
    let r = s.substring_char(0, i);
    proof {
        lemma_before_char_take(s@, c, i as int);
        assert(s@.take(i as int) =~= s@.subrange(0, i as int));
    }
    r
}

/// `after_last` is the suffix from the position after the last occurrence.
proof fn lemma_after_last_skip(s: Seq<char>, c: char, b: int)
    requires
        0 <= b <= s.len(),
        forall|j: int| b <= j < s.len() ==> s[j] != c,
        b == 0 || s[b - 1] == c,
    ensures
        after_last(s, c) == s.skip(b),
    decreases s.len(),
{
    if s.len() == 0 {
        assert(s.skip(b) =~= s);
    } else if b == s.len() {
        assert(s.last() == c);
        assert(s.skip(b) =~= Seq::<char>::empty());
    } else {
        assert(s.last() != c);
        let u = s.drop_last();
        assert(forall|j: int| b <= j < u.len() ==> u[j] == s[j]);
        lemma_after_last_skip(u, c, b);
        assert(u.skip(b).push(s.last()) =~= s.skip(b));
    }
}

/// The suffix of `s` after its last `c`, or all of `s` when it has none.
pub fn after_last_str<'a>(s: &'a str, c: char) -> (r: &'a str)
    ensures
        r@ == after_last(s@, c),
{
    let len = s.unicode_len();
    let mut b: usize = len;
    while b > 0 && s.get_char(b - 1) != c
        invariant
            b <= len,
            len == s@.len(),
            forall|j: int| b <= j < len ==> s@[j] != c,
        decreases b,
    {
        b -= 1;
    }
    let r = s.substring_char(b, len);
    proof {
        lemma_after_last_skip(s@, c, b as int);
        assert(s@.skip(b as int) =~= s@.subrange(b as int, len as int));
    }
    r
}

/// `before_last` is the prefix up to the last occurrence, or empty.
proof fn lemma_before_last_take(s: Seq<char>, c: char, b: int)
    requires
        0 <= b <= s.len(),
        forall|j: int| b <= j < s.len() ==> s[j] != c,
        b == 0 || s[b - 1] == c,
    ensures
        b > 0 ==> before_last(s, c) == s.take(b - 1),
        b == 0 && !has_char(s, c) ==> before_last(s, c) == Seq::<char>::empty(),
    decreases s.len(),
{
    if s.len() == 0 {
        assert(s.take(0) =~= s);
    } else if b == s.len() {
        assert(s.last() == c);
        assert(s.drop_last() =~= s.take(b - 1));
    } else {
        assert(s.last() != c);
        let u = s.drop_last();
        assert(forall|j: int| b <= j < u.len() ==> u[j] == s[j]);
        lemma_before_last_take(u, c, b);
        if b > 0 {
            assert(u.take(b - 1) =~= s.take(b - 1));
        } else {
            assert(!has_char(s, c) ==> !has_char(u, c)) by {
                if has_char(u, c) {
                    let k = choose|k: int| 0 <= k < u.len() && u[k] == c;
                    assert(s[k] == c);
                }
            }
        }
    }
}

/// The prefix of `s` before its last `c`, or nothing when it has none; the
/// second component says whether `c` occurred at all.
pub fn before_last_str<'a>(s: &'a str, c: char) -> (r: (&'a str, bool))
    ensures
        r.1 == has_char(s@, c),
        r.1 ==> r.0@ == before_last(s@, c),
{
    let len = s.unicode_len();
    let mut b: usize = len;
    while b > 0 && s.get_char(b - 1) != c
        invariant
            b <= len,
            len == s@.len(),
            forall|j: int| b <= j < len ==> s@[j] != c,
        decreases b,
    {
        b -= 1;
    }
    if b == 0 {
        proof {
            assert(!has_char(s@, c));
        }
        ("", false)
    } else {
        let r = s.substring_char(0, b - 1);
        proof {
            assert(s@[b - 1] == c);
            assert(has_char(s@, c));
            lemma_before_last_take(s@, c, b as int);
            assert(s@.take(b - 1) =~= s@.subrange(0, b - 1));
        }
        (r, true)
    }
}

} // verus!
