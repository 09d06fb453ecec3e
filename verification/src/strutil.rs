//! Executable helpers over `&str` and `String`, with contracts over the
//! character-sequence views: equality, substring search, replacement,
//! trimming, and decimal conversion in both directions.

use vstd::prelude::*;
use vstd::string::*;

verus! {

/// Character-for-character equality of two string slices.
pub fn str_eq(a: &str, b: &str) -> (r: bool)
    ensures
        r == (a@ == b@),
{
    let alen = a.unicode_len();
    let blen = b.unicode_len();
    if alen != blen {
        return false;
    }
    let mut i: usize = 0;
    while i < alen
        invariant
            alen == a@.len(),
            blen == b@.len(),
            alen == blen,
            i <= alen,
            forall|j: int| 0 <= j < i ==> a@[j] == b@[j],
        decreases alen - i,
    {
        if a.get_char(i) != b.get_char(i) {
            return false;
        }
        i += 1;
    }
    proof {
        assert(a@ =~= b@);
    }
    true
}

/// The pattern `pat` occurs in `h` starting at position `i`.
pub open spec fn occurs_at(h: Seq<char>, pat: Seq<char>, i: int) -> bool {
    0 <= i && i + pat.len() <= h.len() && h.subrange(i, i + pat.len()) == pat
}

/// The pattern `pat` occurs somewhere in `h`.
pub open spec fn has_sub(h: Seq<char>, pat: Seq<char>) -> bool {
    exists|i: int| occurs_at(h, pat, i)
}

/// Whether `pat` occurs in `s` at position `i`.
pub fn match_at(s: &str, pat: &str, i: usize) -> (r: bool)
    ensures
        r == occurs_at(s@, pat@, i as int),
{
    let slen = s.unicode_len();
    let plen = pat.unicode_len();
    if i > slen || plen > slen - i {
        return false;
    }
    let mut j: usize = 0;
    while j < plen
        invariant
            slen == s@.len(),
            plen == pat@.len(),
            i + plen <= slen,
            j <= plen,
            forall|k: int| 0 <= k < j ==> s@[i + k] == pat@[k],
        decreases plen - j,
    {
        if s.get_char(i + j) != pat.get_char(j) {
            proof {
                assert(s@.subrange(i as int, i + pat@.len())[j as int] == s@[i + j]);
            }
            return false;
        }
        j += 1;
    }
    proof {
        assert(s@.subrange(i as int, i + pat@.len()) =~= pat@);
    }
    true
}

/// Whether `pat` occurs anywhere in `s`.
pub fn contains_sub(s: &str, pat: &str) -> (r: bool)
    ensures
        r == has_sub(s@, pat@),
{
    let slen = s.unicode_len();
    let plen = pat.unicode_len();
    if plen > slen {
        proof {
            assert(forall|i: int| !occurs_at(s@, pat@, i));
        }
        return false;
    }
    if plen == 0 {
        proof {
            assert(s@.subrange(0, 0) =~= pat@);
            assert(occurs_at(s@, pat@, 0));
        }
        return true;
    }
    let mut i: usize = 0;
    while i <= slen - plen
        invariant
            slen == s@.len(),
            plen == pat@.len(),
            0 < plen <= slen,
            i <= slen - plen + 1,
            forall|k: int| 0 <= k < i ==> !occurs_at(s@, pat@, k),
        decreases slen - plen + 1 - i,
    {
        if match_at(s, pat, i) {
            return true;
        }
        i += 1;
    }
    proof {
        assert(forall|k: int| occurs_at(s@, pat@, k) ==> 0 <= k <= slen - plen);
    }
    false
}

/// Leftmost occurrence of `pat` in `s` at a position `>= from`, if any.
pub fn find_sub_from(s: &str, pat: &str, from: usize) -> (r: Option<usize>)
    ensures
        match r {
            Some(i) => from <= i && occurs_at(s@, pat@, i as int) && forall|k: int|
                from <= k < i ==> !occurs_at(s@, pat@, k),
            None => forall|k: int| from <= k ==> !occurs_at(s@, pat@, k),
        },
{
    let slen = s.unicode_len();
    let plen = pat.unicode_len();
    if plen > slen || from > slen - plen {
        proof {
            assert(forall|k: int| occurs_at(s@, pat@, k) ==> k + pat@.len() <= s@.len());
        }
        return None;
    }
    if plen == 0 {
        proof {
            assert(s@.subrange(from as int, from as int) =~= pat@);
            assert(occurs_at(s@, pat@, from as int));
        }
        return Some(from);
    }
    let mut i: usize = from;
    while i <= slen - plen
        invariant
            slen == s@.len(),
            plen == pat@.len(),
            0 < plen <= slen,
            from <= i <= slen - plen + 1,
            forall|k: int| from <= k < i ==> !occurs_at(s@, pat@, k),
        decreases slen - plen + 1 - i,
    {
        if match_at(s, pat, i) {
            return Some(i);
        }
        i += 1;
    }
    proof {
        assert(forall|k: int| occurs_at(s@, pat@, k) ==> k + pat@.len() <= s@.len());
    }
    None
}

/// Position of the first occurrence of `pat` in `s` at or after `from`;
/// negative when there is none.
pub open spec fn first_sub(s: Seq<char>, pat: Seq<char>, from: int) -> int
    decreases s.len() - from + 1,
{
    if from < 0 || from + pat.len() > s.len() {
        -1
    } else if occurs_at(s, pat, from) {
        from
    } else {
        first_sub(s, pat, from + 1)
    }
}


/// What `first_sub` returns: either no occurrence lies at or after `from`,
/// or the index points at the first one.
pub proof fn lemma_first_sub(s: Seq<char>, pat: Seq<char>, from: int)
    requires
        0 <= from,
    ensures
        first_sub(s, pat, from) == -1 ==> forall|j: int| from <= j ==> !occurs_at(s, pat, j),
        first_sub(s, pat, from) != -1 ==> {
            let i = first_sub(s, pat, from);
            from <= i && occurs_at(s, pat, i) && forall|j: int| from <= j < i ==> !occurs_at(
                s,
                pat,
                j,
            )
        },
    decreases s.len() - from + 1,
{
    if from + pat.len() > s.len() {
        assert forall|j: int| from <= j implies !occurs_at(s, pat, j) by {}
    } else if !occurs_at(s, pat, from) {
        lemma_first_sub(s, pat, from + 1);
    }
}

/// When a witness occurrence is given and nothing earlier matches, the
/// first-occurrence function returns exactly that witness.
pub proof fn lemma_first_sub_is(s: Seq<char>, pat: Seq<char>, from: int, i: int)
    requires
        0 <= from <= i,
        occurs_at(s, pat, i),
        forall|j: int| from <= j < i ==> !occurs_at(s, pat, j),
    ensures
        first_sub(s, pat, from) == i,
    decreases i - from,
{
    if from < i {
        lemma_first_sub_is(s, pat, from + 1, i);
    }
}

/// Left-to-right, non-overlapping replacement of `pat` by `rep`, as
/// `str::replace` performs it. An empty pattern leaves the string unchanged.
pub open spec fn spec_replace(s: Seq<char>, pat: Seq<char>, rep: Seq<char>) -> Seq<char>
    decreases s.len(),
{
    if pat.len() == 0 || s.len() < pat.len() {
        s
    } else if s.subrange(0, pat.len() as int) == pat {
        rep + spec_replace(s.subrange(pat.len() as int, s.len() as int), pat, rep)
    } else {
        seq![s[0]] + spec_replace(s.subrange(1, s.len() as int), pat, rep)
    }
}

proof fn lemma_replace_step_match(s: Seq<char>, pat: Seq<char>, rep: Seq<char>, i: int)
    requires
        0 < pat.len(),
        occurs_at(s, pat, i),
    ensures
        spec_replace(s.subrange(i, s.len() as int), pat, rep) == rep + spec_replace(
            s.subrange(i + pat.len(), s.len() as int),
            pat,
            rep,
        ),
{
    let tail = s.subrange(i, s.len() as int);
    assert(tail.subrange(0, pat.len() as int) =~= s.subrange(i, i + pat.len()));
    assert(tail.subrange(pat.len() as int, tail.len() as int) =~= s.subrange(
        i + pat.len(),
        s.len() as int,
    ));
}

proof fn lemma_replace_step_char(s: Seq<char>, pat: Seq<char>, rep: Seq<char>, i: int)
    requires
        0 < pat.len(),
        0 <= i < s.len(),
        !occurs_at(s, pat, i),
    ensures
        spec_replace(s.subrange(i, s.len() as int), pat, rep) == seq![s[i]] + spec_replace(
            s.subrange(i + 1, s.len() as int),
            pat,
            rep,
        ),
{
    let tail = s.subrange(i, s.len() as int);
    if tail.len() >= pat.len() {
        assert(tail.subrange(0, pat.len() as int) =~= s.subrange(i, i + pat.len()));
        assert(tail.subrange(0, pat.len() as int) != pat);
        assert(tail.subrange(1, tail.len() as int) =~= s.subrange(i + 1, s.len() as int));
        assert(seq![tail[0]] =~= seq![s[i]]);
    } else {
        // The tail is shorter than the pattern: both sides are the tail itself.
        assert(tail =~= seq![s[i]] + s.subrange(i + 1, s.len() as int));
        let shorter = s.subrange(i + 1, s.len() as int);
        assert(shorter.len() < pat.len());
        assert(spec_replace(shorter, pat, rep) == shorter);
    }
}

/// Replace every non-overlapping occurrence of `pat` in `s` by `rep`,
/// scanning left to right.
pub fn replace_all(s: &str, pat: &str, rep: &str) -> (r: String)
    ensures
        r@ == spec_replace(s@, pat@, rep@),
{
    let slen = s.unicode_len();
    let plen = pat.unicode_len();
    if plen == 0 {
        return s.to_owned();
    }
    let mut out = String::new();
    proof {
        assert(s@.subrange(0, slen as int) =~= s@);
        assert(out@ + spec_replace(s@, pat@, rep@) =~= spec_replace(s@, pat@, rep@));
    }
    let mut i: usize = 0;
    while i < slen
        invariant
            slen == s@.len(),
            plen == pat@.len(),
            plen > 0,
            i <= slen,
            out@ + spec_replace(s@.subrange(i as int, slen as int), pat@, rep@) == spec_replace(
                s@,
                pat@,
                rep@,
            ),
        decreases slen - i,
    {
        if match_at(s, pat, i) {
            proof {
                lemma_replace_step_match(s@, pat@, rep@, i as int);
            }
            out.append(rep);
            i += plen;
        } else {
            proof {
                lemma_replace_step_char(s@, pat@, rep@, i as int);
            }
            let piece = s.substring_char(i, i + 1);
            proof {
                assert(piece@ =~= seq![s@[i as int]]);
            }
            out.append(piece);
            i += 1;
        }
    }
    proof {
        assert(s@.subrange(slen as int, slen as int) =~= Seq::<char>::empty());
        assert(spec_replace(Seq::<char>::empty(), pat@, rep@) == Seq::<char>::empty());
        assert(out@ + Seq::<char>::empty() =~= out@);
    }
    out
}

/// ASCII whitespace, as the inputs of this library use it.
pub open spec fn is_space(c: char) -> bool {
    c == ' ' || c == '\t' || c == '\n' || c == '\r'
}

/// `s` with leading and trailing whitespace removed.
pub open spec fn spec_trim(s: Seq<char>) -> Seq<char>
    decreases s.len(),
{
    if s.len() > 0 && is_space(s[0]) {
        spec_trim(s.subrange(1, s.len() as int))
    } else if s.len() > 0 && is_space(s[s.len() - 1]) {
        spec_trim(s.subrange(0, s.len() - 1))
    } else {
        s
    }
}

/// Remove leading and trailing ASCII whitespace.
pub fn trim_str(s: &str) -> (r: String)
    ensures
        r@ == spec_trim(s@),
    decreases s@.len(),
{
    let len = s.unicode_len();
    if len > 0 {
        let first = s.get_char(0);
        if first == ' ' || first == '\t' || first == '\n' || first == '\r' {
            return trim_str(s.substring_char(1, len));
        }
        let last = s.get_char(len - 1);
        if last == ' ' || last == '\t' || last == '\n' || last == '\r' {
            return trim_str(s.substring_char(0, len - 1));
        }
    }
    s.to_owned()
}

/// The decimal digit character for a value below ten.
pub open spec fn digit_char(d: int) -> char {
    if d == 0 {
        '0'
    } else if d == 1 {
        '1'
    } else if d == 2 {
        '2'
    } else if d == 3 {
        '3'
    } else if d == 4 {
        '4'
    } else if d == 5 {
        '5'
    } else if d == 6 {
        '6'
    } else if d == 7 {
        '7'
    } else if d == 8 {
        '8'
    } else {
        '9'
    }
}

/// Decimal digit sequence of a non-negative integer, most significant first.
pub open spec fn spec_dec_nat(n: nat) -> Seq<char>
    decreases n,
{
    if n < 10 {
        seq![digit_char(n as int)]
    } else {
        spec_dec_nat(n / 10) + seq![digit_char((n % 10) as int)]
    }
}

/// Decimal rendering of a signed integer, with a leading minus when negative.
pub open spec fn spec_dec_int(n: int) -> Seq<char> {
    if n >= 0 {
        spec_dec_nat(n as nat)
    } else {
        seq!['-'] + spec_dec_nat((-n) as nat)
    }
}

/// The digit character of `d`, as a one-character string slice.
fn digit_str(d: u64) -> (r: &'static str)
    requires
        d < 10,
    ensures
        r@ =~= seq![digit_char(d as int)],
{
    proof {
        reveal_strlit("0");
        reveal_strlit("1");
        reveal_strlit("2");
        reveal_strlit("3");
        reveal_strlit("4");
        reveal_strlit("5");
        reveal_strlit("6");
        reveal_strlit("7");
        reveal_strlit("8");
        reveal_strlit("9");
    }
    if d == 0 {
        "0"
    } else if d == 1 {
        "1"
    } else if d == 2 {
        "2"
    } else if d == 3 {
        "3"
    } else if d == 4 {
        "4"
    } else if d == 5 {
        "5"
    } else if d == 6 {
        "6"
    } else if d == 7 {
        "7"
    } else if d == 8 {
        "8"
    } else {
        "9"
    }
}

/// Decimal rendering of an unsigned integer.
pub fn u64_to_dec(n: u64) -> (r: String)
    ensures
        r@ == spec_dec_nat(n as nat),
    decreases n,
{
    if n < 10 {
        digit_str(n).to_owned()
    } else {
        let mut head = u64_to_dec(n / 10);
        head.append(digit_str(n % 10));
        head
    }
}

/// Decimal rendering of a signed integer.
pub fn i64_to_dec(n: i64) -> (r: String)
    ensures
        r@ == spec_dec_int(n as int),
{
    if n >= 0 {
        u64_to_dec(n as u64)
    } else {
        proof {
            reveal_strlit("-");
        }
        let mag = (0i128 - (n as i128)) as u64;
        let mut out = String::new();
        out.append("-");
        let digits = u64_to_dec(mag);
        out.append(digits.as_str());
        out
    }
}

/// Rendering of an integer padded with leading zeros to at least two
/// characters, as `{:02}` formats it.
pub open spec fn spec_pad2_int(n: int) -> Seq<char> {
    if spec_dec_int(n).len() >= 2 {
        spec_dec_int(n)
    } else {
        seq!['0'] + spec_dec_int(n)
    }
}

/// Render `n` in decimal, zero-padded to at least two characters.
pub fn i64_pad2(n: i64) -> (r: String)
    ensures
        r@ == spec_pad2_int(n as int),
{
    if n >= 0 && n < 10 {
        proof {
            reveal_strlit("0");
        }
        let mut out = String::new();
        out.append("0");
        out.append(digit_str(n as u64));
        proof {
            assert("0"@ =~= seq!['0']);
        }
        out
    } else {
        let r = i64_to_dec(n);
        proof {
            if n as int >= 10 {
                assert(spec_dec_nat(n as nat) == spec_dec_nat((n as nat) / 10) + seq![
                    digit_char(((n as nat) % 10) as int),
                ]);
                assert(spec_dec_nat(n as nat).len() >= 2);
            }
            if n < 0 {
                assert(spec_dec_int(n as int).len() >= 2);
            }
        }
        r
    }
}

/// Whether `c` is an ASCII decimal digit.
pub open spec fn is_digit(c: char) -> bool {
    '0' <= c && c <= '9'
}

/// Numeric value of a digit character.
pub open spec fn digit_val(c: char) -> int {
    c as int - '0' as int
}

/// Value of a digit sequence read in base ten, most significant first.
pub open spec fn spec_digits_value(s: Seq<char>) -> int
    decreases s.len(),
{
    if s.len() == 0 {
        0
    } else {
        spec_digits_value(s.drop_last()) * 10 + digit_val(s.last())
    }
}

/// All characters of `s` are decimal digits.
pub open spec fn all_digits(s: Seq<char>) -> bool {
    forall|i: int| 0 <= i < s.len() ==> is_digit(s[i])
}

/// The value of a digit string is never negative.
pub proof fn lemma_digits_value_nonneg(s: Seq<char>)
    requires
        all_digits(s),
    ensures
        spec_digits_value(s) >= 0,
    decreases s.len(),
{
    if s.len() > 0 {
        assert(all_digits(s.drop_last()));
        lemma_digits_value_nonneg(s.drop_last());
    }
}

/// The decimal rendering of a non-negative integer consists of digits and
/// reads back as the same value.
pub proof fn lemma_dec_nat_digits(n: nat)
    ensures
        all_digits(spec_dec_nat(n)),
        spec_digits_value(spec_dec_nat(n)) == n,
        spec_dec_nat(n).len() >= 1,
    decreases n,
{
    if n < 10 {
        assert(spec_digits_value(seq![digit_char(n as int)].drop_last()) == 0) by {
            assert(seq![digit_char(n as int)].drop_last() =~= Seq::<char>::empty());
        };
    } else {
        lemma_dec_nat_digits(n / 10);
        let whole = spec_dec_nat(n / 10) + seq![digit_char((n % 10) as int)];
        assert(whole.drop_last() =~= spec_dec_nat(n / 10));
        assert(spec_digits_value(whole) == spec_digits_value(spec_dec_nat(n / 10)) * 10 + digit_val(
            whole.last(),
        ));
        assert(digit_val(digit_char((n % 10) as int)) == n % 10);
        assert((n / 10) * 10 + n % 10 == n) by {
            vstd::arithmetic::div_mod::lemma_fundamental_div_mod(n as int, 10);
        };
    }
}

/// A leading zero does not change the value of a digit string.
pub proof fn lemma_prepend_zero_digit(s: Seq<char>)
    ensures
        spec_digits_value(seq!['0'] + s) == spec_digits_value(s),
    decreases s.len(),
{
    if s.len() == 0 {
        assert(seq!['0'] + s =~= seq!['0']);
        assert(spec_digits_value(seq!['0']) == spec_digits_value(seq!['0'].drop_last()) * 10
            + digit_val('0'));
        assert(seq!['0'].drop_last() =~= Seq::<char>::empty());
    } else {
        lemma_prepend_zero_digit(s.drop_last());
        let whole = seq!['0'] + s;
        assert(whole.drop_last() =~= seq!['0'] + s.drop_last());
        assert(whole.last() == s.last());
    }
}

/// When a witness occurrence is given and nothing earlier matches, the
/// first-index function returns exactly that witness.
pub proof fn lemma_first_idx_is(s: Seq<char>, c: char, from: int, i: int)
    requires
        0 <= from <= i < s.len(),
        s[i] == c,
        forall|j: int| from <= j < i ==> s[j] != c,
    ensures
        first_idx_from(s, c, from) == i,
    decreases i - from,
{
    if from < i {
        lemma_first_idx_is(s, c, from + 1, i);
    }
}

/// The shape of a decimal integer as `i64::from_str` accepts it: an
/// optional sign followed by one or more digits.
pub open spec fn int_shape(s: Seq<char>) -> bool {
    if s.len() == 0 {
        false
    } else if s[0] == '+' || s[0] == '-' {
        s.len() > 1 && all_digits(s.subrange(1, s.len() as int))
    } else {
        all_digits(s)
    }
}

/// The mathematical value of a decimal integer string of valid shape.
pub open spec fn int_str_value(s: Seq<char>) -> int
    recommends
        int_shape(s),
{
    if s.len() > 0 && s[0] == '-' {
        -spec_digits_value(s.subrange(1, s.len() as int))
    } else if s.len() > 0 && s[0] == '+' {
        spec_digits_value(s.subrange(1, s.len() as int))
    } else {
        spec_digits_value(s)
    }
}

/// What `str::parse::<i64>` returns: the value when the string has a valid
/// shape and the value fits, nothing otherwise.
pub open spec fn spec_parse_i64(s: Seq<char>) -> Option<int> {
    if int_shape(s) && i64::MIN <= int_str_value(s) <= i64::MAX {
        Some(int_str_value(s))
    } else {
        None
    }
}

/// Parse a decimal integer, accepting an optional leading sign, exactly
/// as `str::parse::<i64>` does.
#[verifier::loop_isolation(false)]
pub fn parse_i64_str(s: &str) -> (r: Option<i64>)
    ensures
        match r {
            Some(v) => spec_parse_i64(s@) == Some(v as int),
            None => spec_parse_i64(s@) is None,
        },
{
    let len = s.unicode_len();
    if len == 0 {
        return None;
    }
    let first = s.get_char(0);
    let neg = first == '-';
    let signed = neg || first == '+';
    let start: usize = if signed {
        1
    } else {
        0
    };
    if start >= len {
        return None;
    }
    // The magnitude may not exceed this bound: 2^63 for a negative value,
    // 2^63 - 1 otherwise.
    let bound: u64 = if neg {
        9223372036854775808u64
    } else {
        9223372036854775807u64
    };
    let ghost digits = s@.subrange(start as int, len as int);
    let mut acc: u64 = 0;
    let mut too_big = false;
    let mut i: usize = start;
    while i < len
        invariant
            len == s@.len(),
            start <= i <= len,
            start < len,
            digits == s@.subrange(start as int, len as int),
            forall|j: int| start <= j < i ==> is_digit(s@[j]),
            !too_big ==> acc as int == spec_digits_value(s@.subrange(start as int, i as int))
                && acc <= bound,
            too_big ==> all_digits(s@.subrange(start as int, i as int)) && spec_digits_value(
                s@.subrange(start as int, i as int),
            ) > bound,
        decreases len - i,
    {
        let c = s.get_char(i);
        if c < '0' || c > '9' {
            proof {
                assert(!is_digit(s@[i as int]));
                assert(digits[i - start] == s@[i as int]);
                assert(!all_digits(digits));
                if !signed {
                    assert(digits =~= s@);
                }
                assert(!int_shape(s@));
            }
            return None;
        }
        let d: u64 = (c as u32 as u64) - 48;
        proof {
            assert(is_digit(s@[i as int]));
            assert(d as int == digit_val(s@[i as int]));
            let p = s@.subrange(start as int, i as int);
            let q = s@.subrange(start as int, i + 1);
            assert(q.drop_last() =~= p);
            assert(q.last() == s@[i as int]);
            assert(spec_digits_value(q) == spec_digits_value(p) * 10 + digit_val(s@[i as int]));
            if !too_big {
                lemma_digits_value_nonneg(p);
            } else {
                lemma_digits_value_nonneg(p);
                assert(spec_digits_value(q) >= spec_digits_value(p) * 10) by {
                    assert(digit_val(s@[i as int]) >= 0);
                };
                assert(spec_digits_value(p) * 10 >= spec_digits_value(p)) by {
                    assert(spec_digits_value(p) >= 0);
                };
            }
        }
        if !too_big {
            if acc > (bound - d) / 10 {
                too_big = true;
                proof {
                    let p = s@.subrange(start as int, i as int);
                    let q = s@.subrange(start as int, i + 1);
                    assert(spec_digits_value(q) == acc as int * 10 + d as int);
                    assert(acc as int * 10 + d as int > bound as int) by (nonlinear_arith)
                        requires
                            acc as int > ((bound - d) as int) / 10,
                            0 <= d <= 9,
                            d <= bound,
                    ;
                }
            } else {
                proof {
                    assert(acc as int * 10 + d as int <= bound as int) by (nonlinear_arith)
                        requires
                            acc as int <= ((bound - d) as int) / 10,
                            0 <= d <= 9,
                            d <= bound,
                    ;
                }
                acc = acc * 10 + d;
            }
        }
        i += 1;
    }
    proof {
        assert(s@.subrange(start as int, len as int) =~= digits);
        assert(all_digits(digits));
        if signed {
            assert(int_shape(s@));
        } else {
            assert(digits =~= s@);
            assert(int_shape(s@));
        }
    }
    if too_big {
        proof {
            if neg {
                assert(int_str_value(s@) < i64::MIN);
            } else {
                assert(int_str_value(s@) > i64::MAX);
            }
        }
        return None;
    }
    if neg {
        proof {
            lemma_digits_value_nonneg(digits);
        }
        let v = (0i128 - (acc as i128)) as i64;
        Some(v)
    } else {
        Some(acc as i64)
    }
}

/// Index of the first occurrence of `c` in `s` at or after `from`;
/// negative when there is none.
pub open spec fn first_idx_from(s: Seq<char>, c: char, from: int) -> int
    decreases s.len() - from,
{
    if from < 0 || from >= s.len() {
        -1
    } else if s[from] == c {
        from
    } else {
        first_idx_from(s, c, from + 1)
    }
}

/// What `first_idx_from` returns: either there is no occurrence, or the
/// index points at the first one.
pub proof fn lemma_first_idx_from(s: Seq<char>, c: char, from: int)
    requires
        0 <= from,
    ensures
        first_idx_from(s, c, from) == -1 ==> forall|j: int| from <= j < s.len() ==> s[j] != c,
        first_idx_from(s, c, from) != -1 ==> {
            let i = first_idx_from(s, c, from);
            from <= i < s.len() && s[i] == c && forall|j: int| from <= j < i ==> s[j] != c
        },
    decreases s.len() - from,
{
    if from < s.len() && s[from] != c {
        lemma_first_idx_from(s, c, from + 1);
    }
}

/// Find the first occurrence of character `c` at or after position `from`.
pub fn find_char_from(s: &str, c: char, from: usize) -> (r: Option<usize>)
    ensures
        match r {
            Some(i) => first_idx_from(s@, c, from as int) == i as int,
            None => first_idx_from(s@, c, from as int) == -1,
        },
{
    let len = s.unicode_len();
    let mut i: usize = from;
    while i < len
        invariant
            len == s@.len(),
            from <= i,
            first_idx_from(s@, c, from as int) == first_idx_from(s@, c, i as int),
        decreases len - i,
    {
        if s.get_char(i) == c {
            return Some(i);
        }
        i += 1;
    }
    None
}

} // verus!
