//! Small verified helpers for building and inspecting strings.

use vstd::prelude::*;

verus! {

/// The character for one decimal digit (`0 <= d < 10`).
pub open spec fn dec_digit(d: int) -> char {
    "0123456789"@[d]
}

/// Decimal representation of a natural number, most significant digit first,
/// with no leading zeros (except for the number zero itself).
pub open spec fn dec_rep(n: nat) -> Seq<char>
    decreases n,
{
    if n < 10 {
        seq![dec_digit(n as int)]
    } else {
        dec_rep(n / 10).push(dec_digit((n % 10) as int))
    }
}

/// The digits accumulated while peeling a number from the least significant
/// end, read back most significant digit first.
spec fn chars_of_rev(digits: Seq<u64>) -> Seq<char> {
    Seq::new(digits.len(), |j: int| dec_digit(digits[digits.len() - 1 - j] as int))
}

/// Render a number in decimal, as `format!("{}", n)` would.
pub fn u64_to_string(n: u64) -> (r: String)
    ensures
        r@ == dec_rep(n as nat),
{
    let digits = "0123456789";
    proof {
        reveal_strlit("0123456789");
    }
    let mut rev: Vec<u64> = Vec::new();
    let mut m: u64 = n;
    loop
        invariant_except_break
            dec_rep(n as nat) == dec_rep(m as nat) + chars_of_rev(rev@),
        invariant
            digits@.len() == 10,
            forall|k: int| 0 <= k < rev@.len() ==> rev@[k] < 10,
        ensures
            dec_rep(n as nat) == chars_of_rev(rev@),
        decreases m,
    {
        let d: u64 = m % 10;
        rev.push(d);
        if m < 10 {
            proof {
                assert(dec_rep(m as nat) =~= seq![dec_digit(d as int)]);
                assert(chars_of_rev(rev@) =~= seq![dec_digit(d as int)] + chars_of_rev(
                    rev@.drop_last(),
                ));
                assert(dec_rep(n as nat) =~= chars_of_rev(rev@));
            }
            break;
        }
        proof {
            assert(dec_rep(m as nat) == dec_rep((m as nat) / 10).push(dec_digit(d as int)));
            assert(chars_of_rev(rev@) =~= seq![dec_digit(d as int)] + chars_of_rev(
                rev@.drop_last(),
            ));
            assert(dec_rep((m as nat) / 10) + chars_of_rev(rev@) =~= dec_rep(m as nat)
                + chars_of_rev(rev@.drop_last()));
        }
        m = m / 10;
    }
    let ghost all: Seq<u64> = rev@;
    let mut r = String::new();
    let mut i: usize = rev.len();
    while i > 0
        invariant
            digits@ == "0123456789"@,
            digits@.len() == 10,
            rev@ == all,
            i <= rev.len(),
            forall|k: int| 0 <= k < rev@.len() ==> rev@[k] < 10,
            r@ == chars_of_rev(all).take(all.len() - i),
        decreases i,
    {
        i = i - 1;
        let d = rev[i];
        let piece = digits.substring_char(d as usize, d as usize + 1);
        proof {
            reveal_strlit("0123456789");
            assert(piece@ =~= digits@.subrange(d as int, d as int + 1));
            assert(piece@ =~= seq![dec_digit(d as int)]);
            assert(chars_of_rev(all).take(all.len() - i) =~= chars_of_rev(all).take(
                all.len() - (i + 1),
            ) + seq![dec_digit(all[i as int] as int)]);
        }
        r.append(piece);
    }
    proof {
        assert(chars_of_rev(all).take(all.len() - 0) =~= chars_of_rev(all));
        assert(r@ == dec_rep(n as nat));
    }
    r
}

/// The code point of `c` with an ASCII capital letter folded to lower case.
pub open spec fn lower_code(c: char) -> int {
    if 65 <= c as int <= 90 {
        c as int + 32
    } else {
        c as int
    }
}

/// Whether two characters match ignoring ASCII case.
pub open spec fn chars_eqi(a: char, b: char) -> bool {
    lower_code(a) == lower_code(b)
}

/// Whether two character sequences match ignoring ASCII case.
pub open spec fn seq_eqi(a: Seq<char>, b: Seq<char>) -> bool {
    a.len() == b.len() && forall|i: int| 0 <= i < a.len() ==> chars_eqi(a[i], b[i])
}

/// Whether `hay` holds a substring matching `needle` ignoring ASCII case.
pub open spec fn contains_ci(hay: Seq<char>, needle: Seq<char>) -> bool {
    exists|k: int|
        0 <= k && k + needle.len() <= hay.len() && #[trigger] seq_eqi(
            hay.subrange(k, k + needle.len() as int),
            needle,
        )
}

/// Whether two characters match ignoring ASCII case.
fn chars_eq_ci(a: char, b: char) -> (r: bool)
    ensures
        r == chars_eqi(a, b),
{
    let x = a as u32;
    let y = b as u32;
    let lx: u32 = if 65 <= x && x <= 90 {
        x + 32
    } else {
        x
    };
    let ly: u32 = if 65 <= y && y <= 90 {
        y + 32
    } else {
        y
    };
    lx == ly
}

/// The characters of `s`, in order.
pub fn str_to_chars(s: &str) -> (r: Vec<char>)
    ensures
        r@ == s@,
{
    let n = s.unicode_len();
    let mut r: Vec<char> = Vec::new();
    let mut i: usize = 0;
    while i < n
        invariant
            n == s@.len(),
            i <= n,
            r@ == s@.take(i as int),
        decreases n - i,
    {
        let c = s.get_char(i);
        r.push(c);
        proof {
            assert(s@.take(i as int + 1) =~= s@.take(i as int).push(s@[i as int]));
        }
        i = i + 1;
    }
    proof {
        assert(s@.take(n as int) =~= s@);
    }
    r
}

/// Whether the characters of `hay` starting at `k` match `needle` ignoring
/// ASCII case.
fn eqi_at(hay: &Vec<char>, needle: &Vec<char>, k: usize) -> (r: bool)
    requires
        k + needle@.len() <= hay@.len(),
    ensures
        r == seq_eqi(hay@.subrange(k as int, k as int + needle@.len() as int), needle@),
{
    let ghost window = hay@.subrange(k as int, k as int + needle@.len() as int);
    let hl = hay.len();
    let nl = needle.len();
    let mut j: usize = 0;
    while j < nl
        invariant
            hl == hay@.len(),
            nl == needle@.len(),
            k + nl <= hl,
            j <= nl,
            window == hay@.subrange(k as int, k as int + needle@.len() as int),
            forall|t: int| 0 <= t < j ==> chars_eqi(hay@[k + t], needle@[t]),
        decreases nl - j,
    {
        if !chars_eq_ci(hay[k + j], needle[j]) {
            proof {
                assert(window[j as int] == hay@[k + j]);
                assert(!chars_eqi(window[j as int], needle@[j as int]));
            }
            return false;
        }
        j = j + 1;
    }
    proof {
        assert forall|t: int| 0 <= t < window.len() implies chars_eqi(window[t], needle@[t]) by {
            assert(window[t] == hay@[k + t]);
        }
    }
    true
}

/// Whether `hay` holds a substring matching `needle` ignoring ASCII case.
pub fn contains_ci_chars(hay: &Vec<char>, needle: &Vec<char>) -> (r: bool)
    ensures
        r == contains_ci(hay@, needle@),
{
    if needle.len() > hay.len() {
        return false;
    }
    let stop = hay.len() - needle.len();
    let mut k: usize = 0;
    loop
        invariant
            needle@.len() <= hay@.len(),
            stop == hay@.len() - needle@.len(),
            k <= stop,
            forall|t: int|
                0 <= t < k ==> !(#[trigger] seq_eqi(
                    hay@.subrange(t, t + needle@.len() as int),
                    needle@,
                )),
        ensures
            forall|t: int|
                0 <= t <= stop ==> !(#[trigger] seq_eqi(
                    hay@.subrange(t, t + needle@.len() as int),
                    needle@,
                )),
        decreases stop - k,
    {
        if eqi_at(hay, needle, k) {
            return true;
        }
        if k == stop {
            break;
        }
        k = k + 1;
    }
    false
}

/// Whether two strings match ignoring ASCII case.
pub fn str_eq_ci(a: &str, b: &str) -> (r: bool)
    ensures
        r == seq_eqi(a@, b@),
{
    let ac = str_to_chars(a);
    let bc = str_to_chars(b);
    if ac.len() != bc.len() {
        return false;
    }
    let r = eqi_at(&ac, &bc, 0);
    proof {
        assert(ac@.subrange(0, bc@.len() as int) =~= ac@);
    }
    r
}

/// Whether `a` starts with `prefix`, ignoring ASCII case.
pub fn str_starts_with_ci(a: &str, prefix: &str) -> (r: bool)
    ensures
        r == (a@.len() >= prefix@.len() && seq_eqi(a@.take(prefix@.len() as int), prefix@)),
{
    let ac = str_to_chars(a);
    let pc = str_to_chars(prefix);
    if pc.len() > ac.len() {
        return false;
    }
    let r = eqi_at(&ac, &pc, 0);
    proof {
        assert(ac@.subrange(0, pc@.len() as int) =~= ac@.take(pc@.len() as int));
    }
    r
}

/// The fractional part of a duration's seconds, as milliseconds are
/// printed: three digits with leading zeros kept and trailing zeros
/// dropped.
pub open spec fn frac_rep(f: nat) -> Seq<char> {
    let d1 = dec_digit((f / 100) as int);
    let d2 = dec_digit(((f / 10) % 10) as int);
    let d3 = dec_digit((f % 10) as int);
    if f % 10 != 0 {
        seq![d1, d2, d3]
    } else if (f / 10) % 10 != 0 {
        seq![d1, d2]
    } else {
        seq![d1]
    }
}

/// A duration of `ms` milliseconds in the form its debug output takes:
/// whole seconds as `3s`, fractional seconds as `2.5s`, and sub-second
/// durations as `250ms`.
pub open spec fn duration_rep(ms: nat) -> Seq<char> {
    if ms >= 1000 {
        if ms % 1000 == 0 {
            dec_rep(ms / 1000) + "s"@
        } else {
            dec_rep(ms / 1000) + "."@ + frac_rep(ms % 1000) + "s"@
        }
    } else {
        dec_rep(ms) + "ms"@
    }
}

/// Render a duration given in milliseconds, as `format!("{:?}", d)` would
/// for a millisecond-precision duration.
pub fn duration_to_string(ms: u64) -> (r: String)
    ensures
        r@ == duration_rep(ms as nat),
{
    if ms >= 1000 {
        let secs = u64_to_string(ms / 1000);
        let f = ms % 1000;
        if f == 0 {
            secs.concat("s")
        } else {
            let digits = "0123456789";
            proof {
                reveal_strlit("0123456789");
            }
            let mut m = secs;
            m.append(".");
            let d1 = (f / 100) as usize;
            let d2 = ((f / 10) % 10) as usize;
            let d3 = (f % 10) as usize;
            m.append(digits.substring_char(d1, d1 + 1));
            if f % 10 != 0 {
                m.append(digits.substring_char(d2, d2 + 1));
                m.append(digits.substring_char(d3, d3 + 1));
            } else if d2 != 0 {
                m.append(digits.substring_char(d2, d2 + 1));
            }
            proof {
                assert(digits@.subrange(d1 as int, d1 as int + 1) =~= seq![dec_digit(d1 as int)]);
                assert(digits@.subrange(d2 as int, d2 as int + 1) =~= seq![dec_digit(d2 as int)]);
                assert(digits@.subrange(d3 as int, d3 as int + 1) =~= seq![dec_digit(d3 as int)]);
                assert(m@ =~= dec_rep((ms / 1000) as nat) + "."@ + frac_rep((ms % 1000) as nat));
            }
            m.concat("s")
        }
    } else {
        u64_to_string(ms).concat("ms")
    }
}

} // verus!
