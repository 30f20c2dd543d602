//! A verified parser for the WKT subset the metadata store uses:
//! `POINT(lng lat)` and `POLYGON((lng lat, lng lat, ...))`.
//!
//! Coordinates are plain signed decimals and parse to microdegrees; the
//! fraction is read to six places.  Exponent notation, SRID prefixes and
//! polygon holes are outside the subset and yield `None`, as does any
//! malformed text.

use vstd::prelude::*;
use vstd::string::StringExecFns;
use vstd::string::StrSliceExecFns;
use crate::game::GameBounds;
use crate::strutil::{
    all_digits,
    digit_val,
    digits_val,
    has_prefix,
    has_suffix,
    is_digit,
    parse_u64_dec,
    str_has_prefix,
    str_has_suffix,
};

verus! {

/// The first position of a character in a sequence, or -1.
pub open spec fn find_sep(s: Seq<char>, sep: char) -> int
    decreases s.len(),
{
    if s.len() == 0 {
        -1
    } else if s[0] == sep {
        0
    } else {
        let r = find_sep(s.drop_first(), sep);
        if r == -1 {
            -1
        } else {
            r + 1
        }
    }
}

pub proof fn lemma_find_sep_bounds(s: Seq<char>, sep: char)
    ensures
        find_sep(s, sep) == -1 || (0 <= find_sep(s, sep) < s.len() && s[find_sep(s, sep)] == sep),
        find_sep(s, sep) == -1 ==> forall|i: int| 0 <= i < s.len() ==> s[i] != sep,
        forall|i: int| 0 <= i < find_sep(s, sep) ==> s[i] != sep,
    decreases s.len(),
{
    if s.len() > 0 && s[0] != sep {
        lemma_find_sep_bounds(s.drop_first(), sep);
        let t = s.drop_first();
        let r = find_sep(t, sep);
        if r == -1 {
            assert forall|i: int| 0 <= i < s.len() implies s[i] != sep by {
                if i > 0 {
                    assert(t[i - 1] != sep);
                }
            }
        } else {
            assert(s[r + 1] == t[r]);
            assert forall|i: int| 0 <= i < find_sep(s, sep) implies s[i] != sep by {
                if i > 0 {
                    assert(t[i - 1] != sep);
                }
            }
        }
    }
}

/// A prefix free of the separator, followed by the separator or the end,
/// pins the separator's first position.
pub proof fn lemma_find_sep_at(s: Seq<char>, sep: char, f: int)
    requires
        0 <= f <= s.len(),
        forall|i: int| 0 <= i < f ==> s[i] != sep,
        f < s.len() ==> s[f] == sep,
    ensures
        find_sep(s, sep) == (if f == s.len() {
            -1int
        } else {
            f
        }),
    decreases f,
{
    if f == 0 {
        if s.len() > 0 && s[0] != sep {
            lemma_find_sep_bounds(s.drop_first(), sep);
            assert(forall|i: int|
                0 <= i < s.drop_first().len() ==> s.drop_first()[i] == s[i + 1]);
        }
    } else {
        assert(s[0] != sep);
        lemma_find_sep_at(s.drop_first(), sep, f - 1);
    }
}

/// The segments of a sequence between occurrences of a separator; one
/// segment more than there are separators, in order.
pub open spec fn spec_split(s: Seq<char>, sep: char) -> Seq<Seq<char>>
    decreases s.len(),
{
    let f = find_sep(s, sep);
    if f == -1 {
        seq![s]
    } else if 0 <= f < s.len() {
        seq![s.take(f)] + spec_split(s.skip(f + 1), sep)
    } else {
        seq![s]
    }
}

/// Splits a string on one separator character.
pub fn split_char(s: &str, sep: char) -> (r: Vec<String>)
    ensures
        r@.len() == spec_split(s@, sep).len(),
        forall|i: int| 0 <= i < r@.len() ==> (#[trigger] r@[i])@ == spec_split(s@, sep)[i],
{
    let n = s.unicode_len();
    let mut parts: Vec<String> = Vec::new();
    let mut start: usize = 0;
    let ghost whole = s@;
    loop
        invariant
            n == s@.len(),
            whole == s@,
            start <= n,
            spec_split(whole, sep) =~= parts@.map_values(|p: String| p@) + spec_split(
                whole.skip(start as int),
                sep,
            ) || (start == 0 && parts@.len() == 0),
            start == 0 ==> parts@.len() == 0,
            start > 0 ==> spec_split(whole, sep) =~= parts@.map_values(|p: String| p@)
                + spec_split(whole.skip(start as int), sep),
        decreases n + 1 - start,
    {
        let mut j: usize = start;
        while j < n && s.get_char(j) != sep
            invariant
                n == s@.len(),
                whole == s@,
                start <= j <= n,
                forall|k: int| start <= k < j ==> whole[k] != sep,
            decreases n - j,
        {
            j = j + 1;
        }
        let piece_str = s.substring_char(start, j);
        let piece = String::from_str(piece_str);
        proof {
            let rest = whole.skip(start as int);
            assert forall|k: int| 0 <= k < j - start implies rest[k] != sep by {
                assert(rest[k] == whole[k + start]);
            }
            if j < n {
                assert(rest[j - start] == whole[j as int] && whole[j as int] == sep);
            }
            lemma_find_sep_at(rest, sep, j - start);
            if j < n {
                assert(spec_split(rest, sep) == seq![rest.take(j - start)] + spec_split(
                    rest.skip(j - start + 1),
                    sep,
                ));
                assert(rest.take(j - start) =~= whole.subrange(start as int, j as int));
                assert(rest.skip(j - start + 1) =~= whole.skip(j as int + 1));
            } else {
                assert(spec_split(rest, sep) =~= seq![rest]);
                assert(rest =~= whole.subrange(start as int, n as int));
            }
        }
        if j < n {
            parts.push(piece);
            proof {
                assert(parts@.map_values(|p: String| p@) =~= parts@.drop_last().map_values(
                    |p: String| p@,
                ).push(piece@));
                if start == 0 {
                    assert(whole.skip(0) =~= whole);
                }
            }
            start = j + 1;
        } else {
            parts.push(piece);
            proof {
                assert(parts@.map_values(|p: String| p@) =~= parts@.drop_last().map_values(
                    |p: String| p@,
                ).push(piece@));
                if start == 0 {
                    assert(whole.skip(0) =~= whole);
                }
                assert(spec_split(whole, sep) =~= parts@.map_values(|p: String| p@));
            }
            return parts;
        }
    }
}

/// The non-empty segments, in order.
pub open spec fn spec_nonempty(parts: Seq<Seq<char>>) -> Seq<Seq<char>>
    decreases parts.len(),
{
    if parts.len() == 0 {
        Seq::empty()
    } else if parts[0].len() > 0 {
        seq![parts[0]] + spec_nonempty(parts.drop_first())
    } else {
        spec_nonempty(parts.drop_first())
    }
}

proof fn lemma_nonempty_push(parts: Seq<Seq<char>>, p: Seq<char>)
    ensures
        spec_nonempty(parts.push(p)) == (if p.len() > 0 {
            spec_nonempty(parts).push(p)
        } else {
            spec_nonempty(parts)
        }),
    decreases parts.len(),
{
    if parts.len() == 0 {
        assert(parts.push(p)[0] == p);
        assert(parts.push(p).drop_first() =~= Seq::<Seq<char>>::empty());
        assert(spec_nonempty(Seq::<Seq<char>>::empty()) =~= Seq::<Seq<char>>::empty());
        if p.len() > 0 {
            assert(spec_nonempty(parts.push(p)) =~= seq![p] + Seq::<Seq<char>>::empty());
            assert(seq![p] + Seq::<Seq<char>>::empty() =~= seq![p]);
            assert(spec_nonempty(parts) =~= Seq::<Seq<char>>::empty());
            assert(spec_nonempty(parts).push(p) =~= seq![p]);
            assert(spec_nonempty(parts.push(p)) == spec_nonempty(parts).push(p));
        } else {
            assert(spec_nonempty(parts.push(p)) =~= Seq::<Seq<char>>::empty());
            assert(spec_nonempty(parts) =~= Seq::<Seq<char>>::empty());
        }
    } else {
        assert(parts.push(p)[0] == parts[0]);
        assert(parts.push(p).drop_first() =~= parts.drop_first().push(p));
        lemma_nonempty_push(parts.drop_first(), p);
        if parts[0].len() > 0 {
            if p.len() > 0 {
                assert(seq![parts[0]] + spec_nonempty(parts.drop_first()).push(p)
                    =~= (seq![parts[0]] + spec_nonempty(parts.drop_first())).push(p));
            }
        }
    }
}

/// Keeps the non-empty strings of a list.
pub fn filter_nonempty(parts: &Vec<String>) -> (r: Vec<String>)
    ensures
        r@.map_values(|p: String| p@) == spec_nonempty(parts@.map_values(|p: String| p@)),
{
    let mut out: Vec<String> = Vec::new();
    let mut i: usize = 0;
    let n = parts.len();
    proof {
        assert(parts@.map_values(|p: String| p@).take(0) =~= Seq::<Seq<char>>::empty());
        assert(spec_nonempty(Seq::<Seq<char>>::empty()) =~= Seq::<Seq<char>>::empty());
        assert(out@.map_values(|p: String| p@) =~= Seq::<Seq<char>>::empty());
    }
    while i < n
        invariant
            n == parts@.len(),
            i <= n,
            out@.map_values(|p: String| p@) == spec_nonempty(
                parts@.map_values(|p: String| p@).take(i as int),
            ),
        decreases n - i,
    {
        let ghost mapped = parts@.map_values(|p: String| p@);
        proof {
            assert(mapped.take(i as int + 1) =~= mapped.take(i as int).push(mapped[i as int]));
            lemma_nonempty_push(mapped.take(i as int), mapped[i as int]);
        }
        if parts[i].unicode_len() > 0 {
            let copy = parts[i].clone();
            out.push(copy);
            proof {
                assert(out@.map_values(|p: String| p@) =~= out@.drop_last().map_values(
                    |p: String| p@,
                ).push(parts@[i as int]@));
            }
        }
        i = i + 1;
    }
    proof {
        assert(parts@.map_values(|p: String| p@).take(n as int) =~= parts@.map_values(
            |p: String| p@,
        ));
    }
    out
}

/// Ten to the given power.
pub open spec fn pow10(n: nat) -> nat
    decreases n,
{
    if n == 0 {
        1
    } else {
        10 * pow10((n - 1) as nat)
    }
}


proof fn lemma_pow10_vals()
    ensures
        pow10(0) == 1,
        pow10(1) == 10,
        pow10(2) == 100,
        pow10(3) == 1000,
        pow10(4) == 10000,
        pow10(5) == 100000,
        pow10(6) == 1000000,
        pow10(7) == 10000000,
        pow10(8) == 100000000,
        pow10(9) == 1000000000,
        pow10(10) == 10000000000,
        pow10(11) == 100000000000,
        pow10(12) == 1000000000000,
{
    assert(pow10(0) == 1);
    assert(pow10(1) == 10);
    assert(pow10(2) == 100);
    assert(pow10(3) == 1000);
    assert(pow10(4) == 10000);
    assert(pow10(5) == 100000);
    assert(pow10(6) == 1000000);
    assert(pow10(7) == 10000000);
    assert(pow10(8) == 100000000);
    assert(pow10(9) == 1000000000);
    assert(pow10(10) == 10000000000);
    assert(pow10(11) == 100000000000);
    assert(pow10(12) == 1000000000000);
}

proof fn lemma_frac_udeg_empty()
    ensures
        frac_udeg(Seq::<char>::empty()) == 0,
{
    assert(digits_val(Seq::<char>::empty()) == 0);
    assert(0 * pow10(6) == 0) by (nonlinear_arith);
}

/// The microdegree value of a fraction: its first six digits, padded with
/// zeros.
pub open spec fn frac_udeg(fp: Seq<char>) -> nat {
    if fp.len() >= 6 {
        digits_val(fp.take(6))
    } else {
        digits_val(fp) * pow10((6 - fp.len()) as nat)
    }
}

/// What a plain signed decimal parses to, in microdegrees: an optional
/// minus sign, at most twelve integer digits, and an optional point with
/// any run of fraction digits, of which the first six count.
pub open spec fn spec_parse_udeg(t: Seq<char>) -> Option<i64> {
    let neg = t.len() > 0 && t[0] == '-';
    let body = if neg {
        t.drop_first()
    } else {
        t
    };
    let dot = find_sep(body, '.');
    let ip = if dot == -1 {
        body
    } else {
        body.take(dot)
    };
    let fp = if dot == -1 {
        Seq::<char>::empty()
    } else {
        body.skip(dot + 1)
    };
    if 1 <= ip.len() <= 12 && all_digits(ip) && all_digits(fp) {
        let v = digits_val(ip) * 1000000 + frac_udeg(fp);
        Some(
            (if neg {
                -(v as int)
            } else {
                v as int
            }) as i64,
        )
    } else {
        None
    }
}

proof fn lemma_digits_val_bound(s: Seq<char>)
    requires
        all_digits(s),
    ensures
        digits_val(s) < pow10(s.len()),
    decreases s.len(),
{
    if s.len() == 0 {
    } else {
        assert(all_digits(s.drop_last())) by {
            assert(forall|i: int| 0 <= i < s.len() - 1 ==> s.drop_last()[i] == s[i]);
        }
        lemma_digits_val_bound(s.drop_last());
        assert(digit_val_le9(s));
        assert(digits_val(s) == digits_val(s.drop_last()) * 10 + digit_val(s.last()));
        assert(digits_val(s.drop_last()) * 10 + 9 < pow10(s.len())) by (nonlinear_arith)
            requires
                digits_val(s.drop_last()) < pow10((s.len() - 1) as nat),
                pow10(s.len()) == 10 * pow10((s.len() - 1) as nat),
        ;
    }
}

spec fn digit_val_le9(s: Seq<char>) -> bool {
    s.len() == 0 || digit_val(s.last()) <= 9
}

proof fn lemma_pow10_le(a: nat, b: nat)
    requires
        a <= b,
    ensures
        pow10(a) <= pow10(b),
    decreases b,
{
    if a < b {
        lemma_pow10_le(a, (b - 1) as nat);
        assert(pow10(b) == 10 * pow10((b - 1) as nat));
    }
}

fn pow10_exec(n: u32) -> (r: u64)
    requires
        n <= 6,
    ensures
        r == pow10(n as nat),
{
    let mut r: u64 = 1;
    let mut i: u32 = 0;
    while i < n
        invariant
            i <= n <= 6,
            r == pow10(i as nat),
            r <= 1000000,
        decreases n - i,
    {
        proof {
            lemma_pow10_le(i as nat + 1, 6);
            lemma_pow10_vals();
        }
        r = r * 10;
        i = i + 1;
    }
    r
}

fn check_all_digits(s: &str, from: usize, to: usize) -> (r: bool)
    requires
        from <= to <= s@.len(),
    ensures
        r == all_digits(s@.subrange(from as int, to as int)),
{
    let mut i: usize = from;
    while i < to
        invariant
            from <= i <= to <= s@.len(),
            forall|j: int| from <= j < i ==> is_digit(#[trigger] s@[j]),
        decreases to - i,
    {
        let u = s.get_char(i) as u32;
        if u < 48 || u > 57 {
            proof {
                assert(!is_digit(s@.subrange(from as int, to as int)[i - from]));
            }
            return false;
        }
        i = i + 1;
    }
    proof {
        assert forall|j: int|
            0 <= j < to - from implies is_digit(
            #[trigger] s@.subrange(from as int, to as int)[j],
        ) by {
            assert(s@.subrange(from as int, to as int)[j] == s@[j + from]);
        }
    }
    true
}

/// Parses one signed decimal coordinate to microdegrees.
pub fn parse_udeg(t: &str) -> (r: Option<i64>)
    ensures
        r == spec_parse_udeg(t@),
{
    let n = t.unicode_len();
    let neg = n > 0 && t.get_char(0) == '-';
    let start: usize = if neg {
        1
    } else {
        0
    };
    let ghost body = if neg {
        t@.drop_first()
    } else {
        t@
    };
    proof {
        assert(body =~= t@.subrange(start as int, n as int));
    }
    // find the decimal point in the body
    let mut dot: usize = start;
    while dot < n && t.get_char(dot) != '.'
        invariant
            start <= dot <= n,
            n == t@.len(),
            forall|k: int| start <= k < dot ==> t@[k] != '.',
        decreases n - dot,
    {
        dot = dot + 1;
    }
    proof {
        assert forall|k: int| 0 <= k < dot - start implies body[k] != '.' by {
            assert(body[k] == t@[k + start]);
        }
        if dot < n {
            assert(body[dot - start] == t@[dot as int] && t@[dot as int] == '.');
        }
        lemma_find_sep_at(body, '.', dot - start);
    }
    // integer part: t[start..dot]
    let ip_len = dot - start;
    if ip_len == 0 || ip_len > 12 {
        proof {
            let gdot = find_sep(body, '.');
            let ip = if gdot == -1 {
                body
            } else {
                body.take(gdot)
            };
            assert(ip.len() == ip_len);
        }
        return None;
    }
    if !check_all_digits(t, start, dot) {
        proof {
            let gdot = find_sep(body, '.');
            let ip = if gdot == -1 {
                body
            } else {
                body.take(gdot)
            };
            assert(ip =~= t@.subrange(start as int, dot as int));
        }
        return None;
    }
    let ip_str = t.substring_char(start, dot);
    let ghost gdot = find_sep(body, '.');
    let ghost gip = if gdot == -1 {
        body
    } else {
        body.take(gdot)
    };
    proof {
        assert(gip =~= ip_str@);
    }
    let ip_val = match parse_u64_dec(ip_str) {
        Some(v) => v,
        None => {
            proof {
                // twelve digits always parse
                assert(all_digits(ip_str@));
                lemma_digits_val_bound(ip_str@);
                lemma_pow10_le(ip_str@.len(), 12);
                lemma_pow10_vals();
                assert(false);
            }
            return None;
        },
    };
    proof {
        assert(all_digits(ip_str@));
        lemma_digits_val_bound(ip_str@);
        lemma_pow10_le(ip_str@.len(), 12);
        lemma_pow10_vals();
    }
    // fraction part: t[dot+1..n] when a point is present
    let frac_val: u64 = if dot < n {
        if !check_all_digits(t, dot + 1, n) {
            proof {
                let fp = body.skip((dot - start) + 1);
                assert(fp =~= t@.subrange(dot as int + 1, n as int));
            }
            return None;
        }
        let fp_len = n - (dot + 1);
        let ghost fp = body.skip((dot - start) + 1);
        proof {
            assert(fp =~= t@.subrange(dot as int + 1, n as int));
        }
        if fp_len >= 6 {
            let f6 = t.substring_char(dot + 1, dot + 7);
            proof {
                assert(f6@ =~= fp.take(6));
                assert(all_digits(f6@)) by {
                    assert(forall|j: int| 0 <= j < 6 ==> f6@[j] == fp[j]);
                }
                lemma_digits_val_bound(f6@);
                lemma_pow10_le(6, 12);
            }
            match parse_u64_dec(f6) {
                Some(v) => v,
                None => {
                    // six digits always parse
                    proof {
                        assert(false);
                    }
                    0
                },
            }
        } else {
            let fs = t.substring_char(dot + 1, n);
            proof {
                assert(fs@ =~= fp);
                lemma_digits_val_bound(fs@);
                lemma_pow10_le(fs@.len(), 6);
            }
            let scale = pow10_exec(6 - (fp_len as u32));
            if fp_len == 0 {
                proof {
                    assert(fp =~= Seq::<char>::empty());
                    lemma_frac_udeg_empty();
                }
                0
            } else {
                let v = match parse_u64_dec(fs) {
                    Some(v) => v,
                    None => {
                        // fewer than six digits always parse
                        proof {
                            assert(false);
                        }
                        0
                    },
                };
                proof {
                    lemma_pow10_mul(fp.len(), (6 - fp.len()) as nat);
                    lemma_pow10_vals();
                    assert(v * scale < 1000000) by (nonlinear_arith)
                        requires
                            0 <= v < pow10(fp.len()),
                            scale == pow10((6 - fp.len()) as nat),
                            pow10(fp.len()) * pow10((6 - fp.len()) as nat) == 1000000,
                            scale >= 1,
                    ;
                }
                v * scale
            }
        }
    } else {
        proof {
            assert(find_sep(body, '.') == -1);
            lemma_frac_udeg_empty();
        }
        0
    };
    proof {
        assert(frac_udeg(
            if find_sep(body, '.') == -1 {
                Seq::<char>::empty()
            } else {
                body.skip(find_sep(body, '.') + 1)
            },
        ) == frac_val);
    }
    proof {
        assert(ip_val < 1000000000000);
        assert(ip_val * 1000000 <= 999999999999 * 1000000) by (nonlinear_arith)
            requires
                0 <= ip_val <= 999999999999,
        ;
    }
    let v: u64 = ip_val * 1000000 + frac_val;
    if neg {
        Some(-(v as i64))
    } else {
        Some(v as i64)
    }
}

proof fn lemma_pow10_mul(a: nat, b: nat)
    ensures
        pow10(a) * pow10(b) == pow10(a + b),
    decreases a,
{
    if a == 0 {
        assert(pow10(0) == 1);
    } else {
        lemma_pow10_mul((a - 1) as nat, b);
        assert(pow10(a) == 10 * pow10((a - 1) as nat));
        assert((10 * pow10((a - 1) as nat)) * pow10(b) == 10 * (pow10((a - 1) as nat) * pow10(b)))
            by (nonlinear_arith);
        assert(pow10(a + b) == 10 * pow10((a + b - 1) as nat));
    }
}


/// What a `POINT(lng lat)` text parses to: longitude and latitude in
/// microdegrees.
pub open spec fn spec_parse_point(w: Seq<char>) -> Option<(i64, i64)> {
    if has_prefix(w, "POINT("@) && has_suffix(w, ")"@) && w.len() >= 7 {
        let mid = w.subrange(6, w.len() - 1);
        let toks = spec_nonempty(spec_split(mid, ' '));
        if toks.len() == 2 {
            match (spec_parse_udeg(toks[0]), spec_parse_udeg(toks[1])) {
                (Some(lng), Some(lat)) => Some((lng, lat)),
                _ => None,
            }
        } else {
            None
        }
    } else {
        None
    }
}

/// Parses a `POINT(lng lat)` text.
pub fn parse_point(w: &str) -> (r: Option<(i64, i64)>)
    ensures
        r == spec_parse_point(w@),
{
    let n = w.unicode_len();
    if !str_has_prefix(w, "POINT(") || !str_has_suffix(w, ")") || n < 7 {
        return None;
    }
    proof {
        reveal_strlit("POINT(");
        reveal_strlit(")");
    }
    let mid = w.substring_char(6, n - 1);
    let raw = split_char(mid, ' ');
    let toks = filter_nonempty(&raw);
    proof {
        assert(raw@.map_values(|p: String| p@) =~= spec_split(mid@, ' '));
    }
    if toks.len() != 2 {
        return None;
    }
    let lng = match parse_udeg(toks[0].as_str()) {
        Some(v) => v,
        None => {
            return None;
        },
    };
    let lat = match parse_udeg(toks[1].as_str()) {
        Some(v) => v,
        None => {
            return None;
        },
    };
    Some((lng, lat))
}

/// Running bounds over scanned points: west, east, south, north.
pub open spec fn spec_merge_point(
    st: Option<(i64, i64, i64, i64)>,
    lng: i64,
    lat: i64,
) -> Option<(i64, i64, i64, i64)> {
    match st {
        None => Some((lng, lng, lat, lat)),
        Some((w, e, s, n)) => Some(
            (
                if lng < w {
                    lng
                } else {
                    w
                },
                if lng > e {
                    lng
                } else {
                    e
                },
                if lat < s {
                    lat
                } else {
                    s
                },
                if lat > n {
                    lat
                } else {
                    n
                },
            ),
        ),
    }
}

/// One polygon vertex's effect on the running bounds: a vertex that does
/// not read as two coordinates is skipped.
pub open spec fn spec_scan_step(
    st: Option<(i64, i64, i64, i64)>,
    point: Seq<char>,
) -> Option<(i64, i64, i64, i64)> {
    let toks = spec_nonempty(spec_split(point, ' '));
    if toks.len() == 2 {
        match (spec_parse_udeg(toks[0]), spec_parse_udeg(toks[1])) {
            (Some(lng), Some(lat)) => spec_merge_point(st, lng, lat),
            _ => st,
        }
    } else {
        st
    }
}

/// The bounds of a list of polygon vertices, scanned in order.
pub open spec fn spec_scan_points(
    points: Seq<Seq<char>>,
    st: Option<(i64, i64, i64, i64)>,
) -> Option<(i64, i64, i64, i64)>
    decreases points.len(),
{
    if points.len() == 0 {
        st
    } else {
        spec_scan_points(points.drop_first(), spec_scan_step(st, points[0]))
    }
}

proof fn lemma_scan_points_push(
    points: Seq<Seq<char>>,
    p: Seq<char>,
    st: Option<(i64, i64, i64, i64)>,
)
    ensures
        spec_scan_points(points.push(p), st) == spec_scan_step(
            spec_scan_points(points, st),
            p,
        ),
    decreases points.len(),
{
    if points.len() == 0 {
        assert(points.push(p)[0] == p);
        assert(points.push(p).drop_first() =~= Seq::<Seq<char>>::empty());
        assert(spec_scan_points(points.push(p), st) == spec_scan_points(
            Seq::<Seq<char>>::empty(),
            spec_scan_step(st, p),
        ));
    } else {
        assert(points.push(p)[0] == points[0]);
        assert(points.push(p).drop_first() =~= points.drop_first().push(p));
        lemma_scan_points_push(points.drop_first(), p, spec_scan_step(st, points[0]));
    }
}

/// What a `POLYGON((lng lat, ...))` text parses to: the axis-aligned
/// bounds of its listed vertices.  A polygon with fewer than four listed
/// vertices, or one in which no vertex reads as two coordinates, yields
/// nothing.
pub open spec fn spec_parse_bounds(w: Seq<char>) -> Option<GameBounds> {
    if has_prefix(w, "POLYGON(("@) && has_suffix(w, "))"@) && w.len() >= 11 {
        let mid = w.subrange(9, w.len() - 2);
        let points = spec_split(mid, ',');
        if points.len() < 4 {
            None
        } else {
            match spec_scan_points(points, None) {
                Some((west, east, south, north)) => Some(
                    GameBounds {
                        north_udeg: north,
                        south_udeg: south,
                        east_udeg: east,
                        west_udeg: west,
                    },
                ),
                None => None,
            }
        }
    } else {
        None
    }
}

/// Parses the bounds of a `POLYGON((...))` text.
pub fn parse_bounds_from_wkt(w: &str) -> (r: Option<GameBounds>)
    ensures
        r == spec_parse_bounds(w@),
{
    let n = w.unicode_len();
    if !str_has_prefix(w, "POLYGON((") || !str_has_suffix(w, "))") || n < 11 {
        return None;
    }
    proof {
        reveal_strlit("POLYGON((");
        reveal_strlit("))");
    }
    let mid = w.substring_char(9, n - 2);
    let points = split_char(mid, ',');
    proof {
        assert(points@.map_values(|p: String| p@) =~= spec_split(mid@, ','));
    }
    if points.len() < 4 {
        return None;
    }
    let ghost gpoints = spec_split(mid@, ',');
    let mut st: Option<(i64, i64, i64, i64)> = None;
    let mut i: usize = 0;
    let np = points.len();
    proof {
        assert(gpoints.take(0) =~= Seq::<Seq<char>>::empty());
    }
    while i < np
        invariant
            np == points@.len(),
            np == gpoints.len(),
            forall|k: int| 0 <= k < np ==> (#[trigger] points@[k])@ == gpoints[k],
            i <= np,
            st == spec_scan_points(gpoints.take(i as int), None::<(i64, i64, i64, i64)>),
        decreases np - i,
    {
        let raw = split_char(points[i].as_str(), ' ');
        let toks = filter_nonempty(&raw);
        proof {
            assert(raw@.map_values(|p: String| p@) =~= spec_split(gpoints[i as int], ' '));
            assert(gpoints.take(i as int + 1) =~= gpoints.take(i as int).push(gpoints[i as int]));
            lemma_scan_points_push(gpoints.take(i as int), gpoints[i as int], None);
        }
        if toks.len() == 2 {
            let lng_opt = parse_udeg(toks[0].as_str());
            let lat_opt = parse_udeg(toks[1].as_str());
            match (lng_opt, lat_opt) {
                (Some(lng), Some(lat)) => {
                    st = match st {
                        None => Some((lng, lng, lat, lat)),
                        Some((cw, ce, cs, cn)) => Some(
                            (
                                if lng < cw {
                                    lng
                                } else {
                                    cw
                                },
                                if lng > ce {
                                    lng
                                } else {
                                    ce
                                },
                                if lat < cs {
                                    lat
                                } else {
                                    cs
                                },
                                if lat > cn {
                                    lat
                                } else {
                                    cn
                                },
                            ),
                        ),
                    };
                },
                _ => {},
            }
        }
        i = i + 1;
    }
    proof {
        assert(gpoints.take(np as int) =~= gpoints);
    }
    match st {
        Some((west, east, south, north)) => Some(
            GameBounds { north_udeg: north, south_udeg: south, east_udeg: east, west_udeg: west },
        ),
        None => None,
    }
}

} // verus!
