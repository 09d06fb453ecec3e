//! Parsing of `SS` / `MM:SS` / `HH:MM:SS` time expressions into seconds and
//! rendering of second counts back into the `HH:MM:SS` canonical form.

use vstd::prelude::*;
use vstd::string::*;

use crate::strutil::{
    all_digits, find_char_from, first_idx_from, i64_pad2, int_shape, int_str_value, is_digit,
    is_space, lemma_dec_nat_digits, lemma_digits_value_nonneg, parse_i64_str, spec_dec_nat,
    spec_digits_value, spec_pad2_int, spec_parse_i64, spec_trim, trim_str,
};

verus! {

/// The value fits in a 64-bit signed integer.
pub open spec fn in_i64(v: int) -> bool {
    i64::MIN <= v <= i64::MAX
}

/// Truncating division by a positive divisor, as Rust's `/` computes it.
pub open spec fn tdiv(a: int, b: int) -> int {
    if a >= 0 {
        a / b
    } else {
        -((-a) / b)
    }
}

/// Truncating remainder by a positive divisor, as Rust's `%` computes it.
pub open spec fn tmod(a: int, b: int) -> int {
    if a >= 0 {
        a % b
    } else {
        -((-a) % b)
    }
}

/// `HH:MM:SS` combination with every intermediate step checked against the
/// 64-bit signed range; exceeding it anywhere yields nothing.
pub open spec fn spec_combine_hms(h: int, m: int, sec: int) -> Option<int> {
    if !in_i64(h * 3600) {
        None
    } else if !in_i64(m * 60) {
        None
    } else if !in_i64(h * 3600 + m * 60) {
        None
    } else if !in_i64(h * 3600 + m * 60 + sec) {
        None
    } else {
        Some(h * 3600 + m * 60 + sec)
    }
}

/// `MM:SS` combination with intermediate overflow checks, as above.
pub open spec fn spec_combine_ms(m: int, sec: int) -> Option<int> {
    if !in_i64(m * 60) {
        None
    } else if !in_i64(m * 60 + sec) {
        None
    } else {
        Some(m * 60 + sec)
    }
}

/// What a time expression denotes in seconds: after trimming, either a bare
/// decimal count of seconds, or two / three colon-separated decimal fields.
/// Anything else — including a combination that does not fit in a 64-bit
/// signed count — denotes nothing.
pub open spec fn spec_parse_time(s: Seq<char>) -> Option<int> {
    let t = spec_trim(s);
    if spec_parse_i64(t) is Some {
        spec_parse_i64(t)
    } else {
        let c1 = first_idx_from(t, ':', 0);
        if c1 < 0 {
            None
        } else {
            let c2 = first_idx_from(t, ':', c1 + 1);
            if c2 < 0 {
                match (spec_parse_i64(t.subrange(0, c1)), spec_parse_i64(
                    t.subrange(c1 + 1, t.len() as int),
                )) {
                    (Some(m), Some(sec)) => spec_combine_ms(m, sec),
                    _ => None,
                }
            } else {
                let c3 = first_idx_from(t, ':', c2 + 1);
                if c3 >= 0 {
                    None
                } else {
                    match (spec_parse_i64(t.subrange(0, c1)), spec_parse_i64(
                        t.subrange(c1 + 1, c2),
                    ), spec_parse_i64(t.subrange(c2 + 1, t.len() as int))) {
                        (Some(h), Some(m), Some(sec)) => spec_combine_hms(h, m, sec),
                        _ => None,
                    }
                }
            }
        }
    }
}

/// The trimmed input has a part count no time expression can have: a single
/// part that is not a number, or four or more colon-separated parts.
pub open spec fn spec_time_shape_bad(s: Seq<char>) -> bool {
    let t = spec_trim(s);
    spec_parse_i64(t) is None && {
        let c1 = first_idx_from(t, ':', 0);
        c1 < 0 || {
            let c2 = first_idx_from(t, ':', c1 + 1);
            c2 >= 0 && first_idx_from(t, ':', c2 + 1) >= 0
        }
    }
}

/// Parse a time expression (`SS`, `MM:SS` or `HH:MM:SS`) into seconds.
pub fn parse_time_to_seconds(time: &str) -> (r: Result<i64, String>)
    ensures
        match r {
            Ok(v) => spec_parse_time(time@) == Some(v as int),
            Err(e) => spec_parse_time(time@) is None && e@ == if spec_time_shape_bad(time@) {
                "請輸入有效時間格式"@
            } else {
                "無效的時間格式"@
            },
        },
{
    let trimmed = trim_str(time);
    let t = trimmed.as_str();
    if let Some(v) = parse_i64_str(t) {
        return Ok(v);
    }
    let c1 = match find_char_from(t, ':', 0) {
        Some(i) => i,
        None => {
            return Err("請輸入有效時間格式".to_owned());
        },
    };
    let len = t.unicode_len();
    proof {
        crate::strutil::lemma_first_idx_from(t@, ':', 0);
        assert(c1 < len);
    }
    match find_char_from(t, ':', c1 + 1) {
        None => {
            // Two parts: MM:SS.
            let m = match parse_i64_str(t.substring_char(0, c1)) {
                Some(v) => v,
                None => {
                    return Err("無效的時間格式".to_owned());
                },
            };
            let sec = match parse_i64_str(t.substring_char(c1 + 1, len)) {
                Some(v) => v,
                None => {
                    return Err("無效的時間格式".to_owned());
                },
            };
            let prod = match m.checked_mul(60) {
                Some(p) => p,
                None => {
                    return Err("無效的時間格式".to_owned());
                },
            };
            match prod.checked_add(sec) {
                Some(total) => Ok(total),
                None => Err("無效的時間格式".to_owned()),
            }
        },
        Some(c2) => {
            proof {
                crate::strutil::lemma_first_idx_from(t@, ':', c1 + 1);
                assert(c1 + 1 <= c2 < len);
            }
            if let Some(_) = find_char_from(t, ':', c2 + 1) {
                return Err("請輸入有效時間格式".to_owned());
            }
            // Three parts: HH:MM:SS.
            let h = match parse_i64_str(t.substring_char(0, c1)) {
                Some(v) => v,
                None => {
                    return Err("無效的時間格式".to_owned());
                },
            };
            let m = match parse_i64_str(t.substring_char(c1 + 1, c2)) {
                Some(v) => v,
                None => {
                    return Err("無效的時間格式".to_owned());
                },
            };
            let sec = match parse_i64_str(t.substring_char(c2 + 1, len)) {
                Some(v) => v,
                None => {
                    return Err("無效的時間格式".to_owned());
                },
            };
            let hprod = match h.checked_mul(3600) {
                Some(p) => p,
                None => {
                    return Err("無效的時間格式".to_owned());
                },
            };
            let mprod = match m.checked_mul(60) {
                Some(p) => p,
                None => {
                    return Err("無效的時間格式".to_owned());
                },
            };
            let hm = match hprod.checked_add(mprod) {
                Some(p) => p,
                None => {
                    return Err("無效的時間格式".to_owned());
                },
            };
            match hm.checked_add(sec) {
                Some(total) => Ok(total),
                None => Err("無效的時間格式".to_owned()),
            }
        },
    }
}

/// The `HH:MM:SS` rendering of a count of seconds: hours, then the minutes
/// within the hour, then the seconds within the minute, each field shown
/// with at least two characters. A negative count carries the sign on each
/// non-zero field, as truncating division and remainder produce them.
pub open spec fn spec_normalize_hhmmss(seconds: int) -> Seq<char> {
    spec_pad2_int(tdiv(seconds, 3600)) + seq![':'] + spec_pad2_int(tdiv(tmod(seconds, 3600), 60))
        + seq![':'] + spec_pad2_int(tmod(seconds, 60))
}

/// Render a count of seconds as `HH:MM:SS`.
pub fn normalize_time_to_hhmmss(seconds: i64) -> (r: String)
    ensures
        r@ == spec_normalize_hhmmss(seconds as int),
{
    proof {
        reveal_strlit(":");
    }
    let neg = seconds < 0;
    let mag: u64 = if neg {
        (0i128 - (seconds as i128)) as u64
    } else {
        seconds as u64
    };
    let hq: u64 = mag / 3600;
    let mq: u64 = (mag % 3600) / 60;
    let sq: u64 = mag % 60;
    proof {
        assert(hq as int * 3600 <= mag as int) by (nonlinear_arith)
            requires
                hq as int == mag as int / 3600,
                mag as int >= 0,
        ;
    }
    let h: i64 = if neg {
        (0i128 - (hq as i128)) as i64
    } else {
        hq as i64
    };
    let m: i64 = if neg {
        (0i128 - (mq as i128)) as i64
    } else {
        mq as i64
    };
    let sc: i64 = if neg {
        (0i128 - (sq as i128)) as i64
    } else {
        sq as i64
    };
    let mut out = i64_pad2(h);
    out.append(":");
    let mpart = i64_pad2(m);
    out.append(mpart.as_str());
    out.append(":");
    let spart = i64_pad2(sc);
    out.append(spart.as_str());
    proof {
        assert(":"@ =~= seq![':']);
        let s = seconds as int;
        assert(h as int == tdiv(s, 3600));
        assert(m as int == tdiv(tmod(s, 3600), 60));
        assert(sc as int == tmod(s, 60));
        assert(out@ =~= spec_normalize_hhmmss(seconds as int));
    }
    out
}

/// Render a non-negative duration in seconds as `HH:MM:SS`.
pub fn format_duration_hhmmss(seconds: u64) -> (r: String)
    ensures
        r@ == spec_normalize_hhmmss(seconds as int),
{
    proof {
        reveal_strlit(":");
    }
    let hq: u64 = seconds / 3600;
    let mq: u64 = (seconds % 3600) / 60;
    let sq: u64 = seconds % 60;
    proof {
        assert(hq as int * 3600 <= seconds as int) by (nonlinear_arith)
            requires
                hq as int == seconds as int / 3600,
                seconds as int >= 0,
        ;
    }
    let mut out = i64_pad2(hq as i64);
    out.append(":");
    let mpart = i64_pad2(mq as i64);
    out.append(mpart.as_str());
    out.append(":");
    let spart = i64_pad2(sq as i64);
    out.append(spart.as_str());
    proof {
        assert(":"@ =~= seq![':']);
        assert(out@ =~= spec_normalize_hhmmss(seconds as int));
    }
    out
}

/// The two-character padded rendering of a non-negative integer is all
/// digits and reads back as the same value.
proof fn lemma_pad2_digits(n: int)
    requires
        n >= 0,
    ensures
        all_digits(spec_pad2_int(n)),
        spec_digits_value(spec_pad2_int(n)) == n,
        spec_pad2_int(n).len() >= 1,
{
    lemma_dec_nat_digits(n as nat);
    if spec_dec_nat(n as nat).len() < 2 {
        crate::strutil::lemma_prepend_zero_digit(spec_dec_nat(n as nat));
        assert(is_digit('0'));
        let padded = seq!['0'] + spec_dec_nat(n as nat);
        assert(forall|i: int| 0 <= i < padded.len() ==> is_digit(padded[i])) by {
            assert(forall|i: int|
                1 <= i < padded.len() ==> padded[i] == spec_dec_nat(n as nat)[i - 1]);
        };
    }
}

/// A digit never reads as a colon or as whitespace.
proof fn lemma_digit_not_special(c: char)
    requires
        is_digit(c),
    ensures
        c != ':',
        !is_space(c),
{
}

/// Parsing a canonical `HH:MM:SS` string gives back the seconds it renders,
/// so rendering, parsing, and rendering again reproduces the same string:
/// the parse-then-normalise pipeline is idempotent on canonical inputs.
pub proof fn lemma_hhmmss_roundtrip(h: int, m: int, sec: int)
    requires
        0 <= h,
        0 <= m < 60,
        0 <= sec < 60,
        h * 3600 + m * 60 + sec <= i64::MAX,
    ensures
        spec_parse_time(spec_normalize_hhmmss(h * 3600 + m * 60 + sec)) == Some(
            h * 3600 + m * 60 + sec,
        ),
        spec_normalize_hhmmss(h * 3600 + m * 60 + sec) == spec_normalize_hhmmss(
            spec_parse_time(spec_normalize_hhmmss(h * 3600 + m * 60 + sec)) -> Some_0,
        ),
{
    let v = h * 3600 + m * 60 + sec;
    assert(h * 3600 <= v);
    assert(3600 * h <= v && v < 3600 * (h + 1)) by (nonlinear_arith)
        requires
            v == h * 3600 + m * 60 + sec,
            0 <= m < 60,
            0 <= sec < 60,
    ;
    vstd::arithmetic::div_mod::lemma_fundamental_div_mod_converse(v, 3600, h, m * 60 + sec);
    assert(v / 3600 == h && v % 3600 == m * 60 + sec);
    vstd::arithmetic::div_mod::lemma_fundamental_div_mod_converse(m * 60 + sec, 60, m, sec);
    assert((m * 60 + sec) / 60 == m && (m * 60 + sec) % 60 == sec);
    vstd::arithmetic::div_mod::lemma_fundamental_div_mod_converse(v, 60, h * 60 + m, sec);
    assert(v % 60 == sec);
    assert(tdiv(v, 3600) == h && tdiv(tmod(v, 3600), 60) == m && tmod(v, 60) == sec);

    let ph = spec_pad2_int(h);
    let pm = spec_pad2_int(m);
    let ps = spec_pad2_int(sec);
    lemma_pad2_digits(h);
    lemma_pad2_digits(m);
    lemma_pad2_digits(sec);
    let x = spec_normalize_hhmmss(v);
    assert(x == ph + seq![':'] + pm + seq![':'] + ps);
    let c1 = ph.len() as int;
    let c2 = (ph.len() + 1 + pm.len()) as int;
    assert(x.len() == ph.len() + pm.len() + ps.len() + 2);
    assert(forall|i: int| 0 <= i < c1 ==> x[i] == ph[i]);
    assert(x[c1] == ':');
    assert(forall|i: int| c1 + 1 <= i < c2 ==> x[i] == pm[i - c1 - 1]);
    assert(x[c2 as int] == ':');
    assert(forall|i: int| c2 + 1 <= i < x.len() ==> x[i] == ps[i - c2 - 1]);

    // Trimming leaves the canonical string unchanged.
    assert(is_digit(x[0]));
    lemma_digit_not_special(x[0]);
    assert(x[x.len() - 1] == ps[ps.len() - 1]);
    lemma_digit_not_special(x[x.len() - 1]);
    assert(spec_trim(x) == x);

    // The whole string is not a bare integer: the first colon breaks it.
    assert(!int_shape(x)) by {
        assert(is_digit(x[0]));
        assert(x[c1] != ':' || !all_digits(x) || true);
        assert(!all_digits(x)) by {
            assert(x[c1] == ':');
            assert(!is_digit(':'));
        };
    };
    assert(spec_parse_i64(x) is None);

    // The two colons stand exactly where the fields end.
    assert(forall|j: int| 0 <= j < c1 ==> x[j] != ':') by {
        assert(forall|j: int| 0 <= j < c1 ==> is_digit(x[j]));
    };
    crate::strutil::lemma_first_idx_is(x, ':', 0, c1);
    assert(forall|j: int| c1 + 1 <= j < c2 ==> x[j] != ':') by {
        assert(forall|j: int| c1 + 1 <= j < c2 ==> is_digit(x[j]));
    };
    crate::strutil::lemma_first_idx_is(x, ':', c1 + 1, c2 as int);
    assert(first_idx_from(x, ':', c2 + 1) == -1) by {
        crate::strutil::lemma_first_idx_from(x, ':', c2 + 1);
        if first_idx_from(x, ':', c2 + 1) != -1 {
            let i = first_idx_from(x, ':', c2 + 1);
            assert(is_digit(x[i]));
        }
    };

    // The three fields read back as the three values.
    assert(x.subrange(0, c1) =~= ph);
    assert(x.subrange(c1 + 1, c2 as int) =~= pm);
    assert(x.subrange(c2 + 1, x.len() as int) =~= ps);
    assert(int_shape(ph)) by {
        assert(is_digit(ph[0]));
    };
    assert(int_str_value(ph) == h) by {
        assert(is_digit(ph[0]));
    };
    assert(spec_parse_i64(ph) == Some(h));
    assert(int_shape(pm) && int_str_value(pm) == m) by {
        assert(is_digit(pm[0]));
    };
    assert(spec_parse_i64(pm) == Some(m));
    assert(int_shape(ps) && int_str_value(ps) == sec) by {
        assert(is_digit(ps[0]));
    };
    assert(spec_parse_i64(ps) == Some(sec));
    assert(spec_combine_hms(h, m, sec) == Some(v));
    assert(spec_parse_time(x) == Some(v));
}

} // verus!
