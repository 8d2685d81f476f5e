//! Byte-size literals such as `4096`, `2k`, `1m` or `12.4k`.
use vstd::prelude::*;

use crate::attachment::ascii_lower;
use crate::text::{chars_of, is_ws, lead_ws, push_range, push_str, trail_ws, trim, trim_bounds};

verus! {

pub open spec fn is_digit(c: char) -> bool {
    48 <= (c as u32) <= 57
}

pub open spec fn is_ascii_alpha(c: char) -> bool {
    (65 <= (c as u32) <= 90) || (97 <= (c as u32) <= 122)
}

pub open spec fn all_digits(s: Seq<char>) -> bool {
    forall|i: int| 0 <= i < s.len() ==> is_digit(#[trigger] s[i])
}

/// The decimal value of a digit string.
pub open spec fn digits_value(s: Seq<char>) -> nat
    decreases s.len(),
{
    if s.len() == 0 {
        0
    } else {
        digits_value(s.drop_last()) * 10 + ((s.last() as u32 - 48) as nat)
    }
}

pub open spec fn pow10(n: nat) -> nat
    decreases n,
{
    if n == 0 {
        1
    } else {
        10 * pow10((n - 1) as nat)
    }
}

/// Index of the first character satisfying `p`, or the length.
pub open spec fn first_where(s: Seq<char>, p: spec_fn(char) -> bool) -> nat
    decreases s.len(),
{
    if s.len() == 0 || p(s[0]) {
        0
    } else {
        1 + first_where(s.drop_first(), p)
    }
}

pub proof fn lemma_first_where(s: Seq<char>, p: spec_fn(char) -> bool, n: int)
    requires
        0 <= n <= s.len(),
        forall|j: int| 0 <= j < n ==> !p(#[trigger] s[j]),
        n == s.len() || p(s[n]),
    ensures
        first_where(s, p) == n,
    decreases s.len(),
{
    if n > 0 {
        assert forall|j: int| 0 <= j < n - 1 implies !p(#[trigger] s.drop_first()[j]) by {
            assert(s.drop_first()[j] == s[j + 1]);
        }
        if n < s.len() {
            assert(s.drop_first()[n - 1] == s[n]);
        }
        lemma_first_where(s.drop_first(), p, n - 1);
    }
}

/// The multiplier a (case-insensitive) suffix stands for.
pub open spec fn suffix_multiplier(suffix: Seq<char>) -> Option<nat> {
    if suffix.len() == 0 {
        Some(1)
    } else if suffix.len() == 1 && (suffix[0] == 'b' || suffix[0] == 'B') {
        Some(1)
    } else if suffix.len() == 1 && (suffix[0] == 'k' || suffix[0] == 'K') {
        Some(1024)
    } else if suffix.len() == 1 && (suffix[0] == 'm' || suffix[0] == 'M') {
        Some(1048576)
    } else {
        None
    }
}

/// The whole part, the fraction part, and whether the split is well formed.
pub open spec fn split_decimal(number: Seq<char>) -> (Seq<char>, Seq<char>, bool) {
    let d = first_where(number, |c: char| c == '.');
    if d < number.len() {
        (number.take(d as int), number.skip(d + 1 as int), number.len() > d + 1)
    } else {
        (number, Seq::<char>::empty(), true)
    }
}

/// The number of bytes a literal denotes, or `None` when it is rejected: the decimal value
/// times the suffix multiplier, rounded up to a whole byte, with every intermediate step
/// fitting in 128 bits and the result fitting in `usize`.
pub open spec fn byte_size_value(input: Seq<char>) -> Option<nat> {
    let t = trim(input);
    let k = first_where(t, |c: char| is_ascii_alpha(c));
    let number = t.take(k as int);
    let suffix = t.skip(k as int);
    let (whole, fraction, split_ok) = split_decimal(number);
    match suffix_multiplier(suffix) {
        None => None,
        Some(m) => {
            if !split_ok || whole.len() == 0 || !all_digits(whole) || !all_digits(fraction) {
                None
            } else {
                let scale = pow10(fraction.len());
                let w = digits_value(whole);
                let f = digits_value(fraction);
                let scaled = w * scale + f;
                if scale > u128::MAX || w > u128::MAX || scaled > u128::MAX || scaled * m
                    > u128::MAX || scaled * m + (scale - 1) > u128::MAX {
                    None
                } else {
                    let rounded = (scaled * m + (scale - 1)) as nat / scale;
                    if rounded > usize::MAX {
                        None
                    } else {
                        Some(rounded)
                    }
                }
            }
        },
    }
}

/// The message returned for a rejected literal (quoting the trimmed input).
pub open spec fn byte_size_error(input: Seq<char>) -> Seq<char> {
    "invalid byte size '"@ + trim(input)
        + "'; expected bytes or b, k, m suffixes, such as 4096, 2k, 1m, or 12.4k"@
}

proof fn lemma_digits_prefix_le(s: Seq<char>, i: int)
    requires
        0 <= i <= s.len(),
        all_digits(s),
    ensures
        digits_value(s.take(i)) <= digits_value(s),
    decreases s.len(),
{
    if i < s.len() {
        assert(s.drop_last().take(i) =~= s.take(i));
        lemma_digits_prefix_le(s.drop_last(), i);
    } else {
        assert(s.take(i) =~= s);
    }
}

proof fn lemma_pow10_pos(n: nat)
    ensures
        pow10(n) >= 1,
    decreases n,
{
    if n > 0 {
        lemma_pow10_pos((n - 1) as nat);
    }
}

/// Parses digits `s[from..to]` into a `u128`, or `None` when the value does not fit.
fn parse_digits(s: &Vec<char>, from: usize, to: usize) -> (r: Option<u128>)
    requires
        from <= to <= s.len(),
        all_digits(s@.subrange(from as int, to as int)),
    ensures
        r matches Some(v) ==> v == digits_value(s@.subrange(from as int, to as int)),
        r is None ==> digits_value(s@.subrange(from as int, to as int)) > u128::MAX,
{
    let ghost whole = s@.subrange(from as int, to as int);
    let mut v: u128 = 0;
    let mut i = from;
    while i < to
        invariant
            from <= i <= to <= s.len(),
            whole == s@.subrange(from as int, to as int),
            all_digits(whole),
            v == digits_value(whole.take(i - from)),
        decreases to - i,
    {
        let ghost prefix = whole.take(i - from + 1);
        assert(prefix.drop_last() =~= whole.take(i - from));
        assert(prefix.last() == s@[i as int]);
        assert(is_digit(whole[i - from]));
        let d = (s[i] as u32 - 48) as u128;
        match v.checked_mul(10) {
            None => {
                proof { lemma_digits_prefix_le(whole, i - from + 1); }
                return None;
            },
            Some(t) => match t.checked_add(d) {
                None => {
                    proof { lemma_digits_prefix_le(whole, i - from + 1); }
                    return None;
                },
                Some(u) => {
                    v = u;
                },
            },
        }
        i += 1;
    }
    assert(whole.take(to - from) =~= whole);
    Some(v)
}

/// Parses a byte-size literal: a decimal number (optionally with a fraction) followed by an
/// optional `b`, `k` or `m` suffix in either case, rounding partial bytes up.
#[verifier::spinoff_prover]
#[verifier::rlimit(40)]
pub fn parse_byte_size(input: &str) -> (r: Result<usize, String>)
    ensures
        r matches Ok(v) ==> byte_size_value(input@) == Some(v as nat),
        r is Err ==> byte_size_value(input@) is None,
        r matches Err(msg) ==> msg@ == byte_size_error(input@),
{
    let all = chars_of(input);
    let (a, b) = trim_bounds(&all, 0, all.len());
    let ghost t = trim(input@);
    assert(all@.subrange(0, all.len() as int) =~= all@);
    let mut message = String::new();
    push_str(&mut message, "invalid byte size '");
    push_range(&mut message, &all, a, b);
    push_str(&mut message, "'; expected bytes or b, k, m suffixes, such as 4096, 2k, 1m, or 12.4k");
    // Start of the suffix: the first ASCII letter.
    let mut k = a;
    while k < b && !is_ascii_letter(all[k])
        invariant
            a <= k <= b <= all.len(),
            forall|j: int| a <= j < k ==> !is_ascii_alpha(#[trigger] all@[j]),
        decreases b - k,
    {
        k += 1;
    }
    proof {
        assert(t =~= all@.subrange(a as int, b as int));
        assert forall|j: int| 0 <= j < k - a implies !(|c: char| is_ascii_alpha(c))(
            #[trigger] t[j],
        ) by {
            assert(t[j] == all@[a + j]);
        }
        if k < b {
            assert(t[k - a] == all@[k as int]);
        }
        lemma_first_where(t, |c: char| is_ascii_alpha(c), k - a);
    }
    let ghost number = t.take(k - a);
    let ghost suffix = t.skip(k - a);
    assert(number =~= all@.subrange(a as int, k as int));
    assert(suffix =~= all@.subrange(k as int, b as int));
    let multiplier: u128 = if k == b {
        1
    } else if k + 1 == b && (all[k] == 'b' || all[k] == 'B') {
        1
    } else if k + 1 == b && (all[k] == 'k' || all[k] == 'K') {
        1024
    } else if k + 1 == b && (all[k] == 'm' || all[k] == 'M') {
        1048576
    } else {
        return Err(message);
    };
    assert(suffix_multiplier(suffix) == Some(multiplier as nat));
    // The decimal point, if any.
    let mut d = a;
    while d < k && all[d] != '.'
        invariant
            a <= d <= k,
            k <= all.len(),
            forall|j: int| a <= j < d ==> all@[j] != '.',
        decreases k - d,
    {
        d += 1;
    }
    proof {
        assert forall|j: int| 0 <= j < d - a implies !(|c: char| c == '.')(#[trigger] number[j]) by {
            assert(number[j] == all@[a + j]);
        }
        if d < k {
            assert(number[d - a] == all@[d as int]);
        }
        lemma_first_where(number, |c: char| c == '.', d - a);
    }
    let (frac_start, frac_end) = if d < k {
        if d + 1 == k {
            return Err(message);
        }
        (d + 1, k)
    } else {
        (k, k)
    };
    let ghost whole = all@.subrange(a as int, d as int);
    let ghost fraction = all@.subrange(frac_start as int, frac_end as int);
    proof {
        let (w, f, ok) = split_decimal(number);
        assert(w =~= whole);
        assert(f =~= fraction);
        assert(ok);
    }
    if d == a || !digits_only(&all, a, d) || !digits_only(&all, frac_start, frac_end) {
        return Err(message);
    }
    let scale = match checked_pow10(frac_end - frac_start) {
        Some(v) => v,
        None => return Err(message),
    };
    proof { lemma_pow10_pos(fraction.len()); }
    let w = match parse_digits(&all, a, d) {
        Some(w) => w,
        None => return Err(message),
    };
    let f = match parse_digits(&all, frac_start, frac_end) {
        Some(f) => f,
        None => {
            proof {
                lemma_fraction_below_scale(fraction);
            }
            return Err(message);
        },
    };
    let scaled = match w.checked_mul(scale) {
        Some(x) => match x.checked_add(f) {
            Some(y) => y,
            None => return Err(message),
        },
        None => {
            assert(w as nat * scale as nat + f as nat >= w as nat * scale as nat);
            return Err(message);
        },
    };
    let bytes = match scaled.checked_mul(multiplier) {
        Some(x) => x,
        None => return Err(message),
    };
    let rounded = match bytes.checked_add(scale - 1) {
        Some(x) => x / scale,
        None => return Err(message),
    };
    if rounded > usize::MAX as u128 {
        return Err(message);
    }
    Ok(rounded as usize)
}

proof fn lemma_pow10_mono(i: nat, j: nat)
    requires
        i <= j,
    ensures
        pow10(i) <= pow10(j),
    decreases j,
{
    if i < j {
        lemma_pow10_mono(i, (j - 1) as nat);
        lemma_pow10_pos((j - 1) as nat);
    }
}

/// A digit string is smaller than ten to the power of its length.
proof fn lemma_fraction_below_scale(s: Seq<char>)
    requires
        all_digits(s),
    ensures
        digits_value(s) < pow10(s.len()),
    decreases s.len(),
{
    if s.len() > 0 {
        assert(all_digits(s.drop_last())) by {
            assert forall|i: int| 0 <= i < s.drop_last().len() implies is_digit(
                #[trigger] s.drop_last()[i],
            ) by {
                assert(s.drop_last()[i] == s[i]);
            }
        }
        lemma_fraction_below_scale(s.drop_last());
        assert(is_digit(s[s.len() - 1]));
    }
}

/// Whether `s[from..to]` consists of ASCII digits only.
fn digits_only(s: &Vec<char>, from: usize, to: usize) -> (b: bool)
    requires
        from <= to <= s.len(),
    ensures
        b == all_digits(s@.subrange(from as int, to as int)),
{
    let ghost sub = s@.subrange(from as int, to as int);
    let mut i = from;
    while i < to
        invariant
            from <= i <= to <= s.len(),
            sub == s@.subrange(from as int, to as int),
            forall|j: int| from <= j < i ==> is_digit(#[trigger] s@[j]),
        decreases to - i,
    {
        if !is_ascii_digit(s[i]) {
            assert(sub[i - from] == s@[i as int]);
            return false;
        }
        i += 1;
    }
    assert forall|j: int| 0 <= j < sub.len() implies is_digit(#[trigger] sub[j]) by {
        assert(sub[j] == s@[from + j]);
    }
    true
}

/// Ten to the power `n`, or `None` when it does not fit in 128 bits.
fn checked_pow10(n: usize) -> (r: Option<u128>)
    ensures
        r matches Some(v) ==> v == pow10(n as nat),
        r is None ==> pow10(n as nat) > u128::MAX,
{
    let mut scale: u128 = 1;
    let mut e: usize = 0;
    while e < n
        invariant
            e <= n,
            scale == pow10(e as nat),
        decreases n - e,
    {
        match scale.checked_mul(10) {
            None => {
                proof { lemma_pow10_mono((e + 1) as nat, n as nat); }
                return None;
            },
            Some(s) => {
                scale = s;
            },
        }
        e += 1;
    }
    Some(scale)
}

fn is_ascii_letter(c: char) -> (b: bool)
    ensures
        b == is_ascii_alpha(c),
{
    let v = c as u32;
    (65 <= v && v <= 90) || (97 <= v && v <= 122)
}

fn is_ascii_digit(c: char) -> (b: bool)
    ensures
        b == is_digit(c),
{
    let v = c as u32;
    48 <= v && v <= 57
}

/// A character in ASCII lower case (other characters unchanged), as `ascii_lower` maps each.
pub open spec fn lower_char(c: char) -> char {
    if 'A' <= c <= 'Z' {
        ((c as u32) + 32) as char
    } else {
        c
    }
}

proof fn lemma_lower_char(c: char)
    ensures
        is_ws(lower_char(c)) == is_ws(c),
        is_ascii_alpha(lower_char(c)) == is_ascii_alpha(c),
        !is_ascii_alpha(c) ==> lower_char(c) == c,
        (lower_char(c) == 'b') == (c == 'b' || c == 'B'),
        (lower_char(c) == 'k') == (c == 'k' || c == 'K'),
        (lower_char(c) == 'm') == (c == 'm' || c == 'M'),
{
    if 'A' <= c <= 'Z' {
        let d = ((c as u32) + 32) as char;
        assert(d as u32 == (c as u32) + 32);
    }
}

proof fn lemma_lower_seq(s: Seq<char>)
    ensures
        ascii_lower(s).len() == s.len(),
        forall|i: int| 0 <= i < s.len() ==> #[trigger] ascii_lower(s)[i] == lower_char(s[i]),
{
}

proof fn lemma_lead_ws_lower(s: Seq<char>)
    ensures
        lead_ws(ascii_lower(s)) == lead_ws(s),
    decreases s.len(),
{
    lemma_lower_seq(s);
    if s.len() > 0 {
        lemma_lower_char(s[0]);
        assert(ascii_lower(s).drop_first() =~= ascii_lower(s.drop_first()));
        lemma_lead_ws_lower(s.drop_first());
    }
}

proof fn lemma_trail_ws_lower(s: Seq<char>)
    ensures
        trail_ws(ascii_lower(s)) == trail_ws(s),
    decreases s.len(),
{
    lemma_lower_seq(s);
    if s.len() > 0 {
        lemma_lower_char(s.last());
        assert(ascii_lower(s).drop_last() =~= ascii_lower(s.drop_last()));
        lemma_trail_ws_lower(s.drop_last());
    }
}

proof fn lemma_trim_lower(s: Seq<char>)
    ensures
        trim(ascii_lower(s)) == ascii_lower(trim(s)),
{
    lemma_lead_ws_lower(s);
    crate::text::lemma_lead_ws_bound(s);
    let a = s.skip(lead_ws(s) as int);
    assert(ascii_lower(s).skip(lead_ws(s) as int) =~= ascii_lower(a));
    lemma_trail_ws_lower(a);
    crate::text::lemma_trail_ws_bound(a);
    assert(ascii_lower(a).take(a.len() - trail_ws(a)) =~= ascii_lower(a.take(a.len() - trail_ws(a))));
}

proof fn lemma_first_where_props(s: Seq<char>, p: spec_fn(char) -> bool)
    ensures
        first_where(s, p) <= s.len(),
        forall|j: int| 0 <= j < first_where(s, p) ==> !p(#[trigger] s[j]),
        first_where(s, p) == s.len() || p(s[first_where(s, p) as int]),
    decreases s.len(),
{
    if s.len() > 0 && !p(s[0]) {
        lemma_first_where_props(s.drop_first(), p);
        assert forall|j: int| 0 <= j < first_where(s, p) implies !p(#[trigger] s[j]) by {
            if j > 0 {
                assert(s[j] == s.drop_first()[j - 1]);
            }
        }
        if first_where(s, p) < s.len() {
            assert(s[first_where(s, p) as int] == s.drop_first()[first_where(s, p) - 1]);
        }
    }
}

/// Suffixes are read in either case: a literal denotes the same number of bytes (or is refused
/// alike) when its ASCII letters are lowered.
pub proof fn byte_size_case_insensitive(input: Seq<char>)
    ensures
        byte_size_value(ascii_lower(input)) == byte_size_value(input),
{
    let alpha = |c: char| is_ascii_alpha(c);
    let t = trim(input);
    let lt = trim(ascii_lower(input));
    lemma_trim_lower(input);
    lemma_lower_seq(t);
    assert forall|i: int| 0 <= i < t.len() implies alpha(#[trigger] lt[i]) == alpha(t[i]) by {
        lemma_lower_char(t[i]);
    }
    lemma_first_where_props(t, alpha);
    let k = first_where(t, alpha) as int;
    assert forall|j: int| 0 <= j < k implies !alpha(#[trigger] lt[j]) by {
        lemma_lower_char(t[j]);
    }
    if k < t.len() {
        lemma_lower_char(t[k]);
    }
    lemma_first_where(lt, alpha, k);
    assert(lt.take(k) =~= t.take(k)) by {
        assert forall|j: int| 0 <= j < k implies lt[j] == t[j] by {
            lemma_lower_char(t[j]);
        }
    }
    let suffix = t.skip(k);
    let ls = lt.skip(k);
    assert(ls =~= ascii_lower(suffix));
    if suffix.len() == 1 {
        lemma_lower_char(suffix[0]);
        assert(ls[0] == lower_char(suffix[0]));
    }
    assert(suffix_multiplier(ls) == suffix_multiplier(suffix));
}

/// The multiplier of a suffix, by its meaning: none or `b` for bytes, `k` for KiB, `m` for MiB.
pub open spec fn unit_of(suffix: Seq<char>) -> nat {
    if suffix == "k"@ {
        1024
    } else if suffix == "m"@ {
        1024 * 1024
    } else {
        1
    }
}

proof fn lemma_no_lead_ws(s: Seq<char>)
    requires
        s.len() > 0,
        !is_ws(s[0]),
    ensures
        lead_ws(s) == 0,
{
}

proof fn lemma_no_trail_ws(s: Seq<char>)
    requires
        s.len() > 0,
        !is_ws(s.last()),
    ensures
        trail_ws(s) == 0,
{
}

/// A whole number of digits followed by no suffix, `b`, `k` or `m` denotes that many bytes,
/// KiB or MiB, whenever the result fits in `usize`.
pub proof fn byte_size_units(digits: Seq<char>, suffix: Seq<char>)
    requires
        digits.len() > 0,
        all_digits(digits),
        suffix == Seq::<char>::empty() || suffix == "b"@ || suffix == "k"@ || suffix == "m"@,
        digits_value(digits) * unit_of(suffix) <= usize::MAX,
    ensures
        byte_size_value(digits + suffix) == Some(digits_value(digits) * unit_of(suffix)),
{
    reveal_strlit("b");
    reveal_strlit("k");
    reveal_strlit("m");
    let s = digits + suffix;
    assert(is_digit(digits[0]));
    assert(s[0] == digits[0]);
    lemma_no_lead_ws(s);
    assert(s.skip(0) =~= s);
    assert(!is_ws(s.last())) by {
        if suffix.len() > 0 {
            assert(s.last() == suffix[0]);
        } else {
            assert(s.last() == digits.last());
            assert(is_digit(digits[digits.len() - 1]));
        }
    }
    lemma_no_trail_ws(s);
    assert(s.take(s.len() as int) =~= s);
    assert(trim(s) == s);
    let alpha = |c: char| is_ascii_alpha(c);
    assert forall|j: int| 0 <= j < digits.len() implies !alpha(#[trigger] s[j]) by {
        assert(s[j] == digits[j]);
        assert(is_digit(digits[j]));
    }
    if suffix.len() > 0 {
        assert(s[digits.len() as int] == suffix[0]);
    }
    lemma_first_where(s, alpha, digits.len() as int);
    assert(s.take(digits.len() as int) =~= digits);
    assert(s.skip(digits.len() as int) =~= suffix);
    let dot = |c: char| c == '.';
    assert forall|j: int| 0 <= j < digits.len() implies !dot(#[trigger] digits[j]) by {
        assert(is_digit(digits[j]));
    }
    lemma_first_where(digits, dot, digits.len() as int);
    assert(all_digits(Seq::<char>::empty()));
    assert(digits_value(Seq::<char>::empty()) == 0);
    assert(pow10(0) == 1);
    let w = digits_value(digits);
    let m = unit_of(suffix);
    assert(suffix_multiplier(suffix) == Some(m));
    assert(w * 1 + 0 == w);
    assert(w <= w * m) by (nonlinear_arith)
        requires
            m >= 1,
    ;
    assert((w * m + 0) as nat / 1 == w * m);
}

} // verus!
