use vstd::prelude::*;

verus! {

/// Readings are held in micro-units: millionths of a degree or of a percent.
pub const MICRO: i64 = 1_000_000;

/// Largest whole part that a reading may have.
pub const MAX_WHOLE: u64 = 1_000_000_000_000;

/// Floor of `v / MICRO` (division by a positive number rounds down).
pub open spec fn floor_of(v: int) -> int {
    v / (MICRO as int)
}

/// Ceiling of `v / MICRO`.
pub open spec fn ceil_of(v: int) -> int {
    -((-v) / (MICRO as int))
}

pub proof fn lemma_unit_bounds(v: int)
    ensures
        floor_of(v) * MICRO <= v < floor_of(v) * MICRO + MICRO,
        ceil_of(v) * MICRO - MICRO < v <= ceil_of(v) * MICRO,
        v >= i64::MIN ==> floor_of(v) >= i64::MIN / 1_000_000 - 1,
        v <= i64::MAX ==> floor_of(v) <= i64::MAX / 1_000_000,
        v >= i64::MIN ==> ceil_of(v) >= i64::MIN / 1_000_000,
        v <= i64::MAX ==> ceil_of(v) <= i64::MAX / 1_000_000 + 1,
{
    let m = MICRO as int;
    vstd::arithmetic::div_mod::lemma_fundamental_div_mod(v, m);
    vstd::arithmetic::div_mod::lemma_fundamental_div_mod(-v, m);
    assert(0 <= v % m < m);
    assert(0 <= (-v) % m < m);
    assert(floor_of(v) * MICRO <= v < floor_of(v) * MICRO + MICRO) by (nonlinear_arith)
        requires v == m * (v / m) + v % m, 0 <= v % m < m, m == 1_000_000, floor_of(v) == v / m;
    assert(ceil_of(v) * MICRO - MICRO < v <= ceil_of(v) * MICRO) by (nonlinear_arith)
        requires -v == m * ((-v) / m) + (-v) % m, 0 <= (-v) % m < m, m == 1_000_000,
            ceil_of(v) == -((-v) / m);
}

/// `floor_of(v)`, computed without overflow.
pub fn floor_units(v: i64) -> (r: i64)
    ensures
        r == floor_of(v as int),
{
    proof {
        lemma_unit_bounds(v as int);
    }
    floor_units_wide(v as i128) as i64
}

/// `ceil_of(v)`, computed without overflow.
pub fn ceil_units(v: i64) -> (r: i64)
    ensures
        r == ceil_of(v as int),
{
    proof {
        lemma_unit_bounds(v as int);
    }
    let w = -(v as i128);
    let f = floor_units_wide(w);
    -f as i64
}

fn floor_units_wide(w: i128) -> (r: i128)
    requires
        -0x8000_0000_0000_0000 - 1 <= w <= 0x8000_0000_0000_0000,
    ensures
        r == floor_of(w as int),
{
    let q: i128 = if w >= 0 {
        w / 1_000_000
    } else {
        -((-w - 1) / 1_000_000) - 1
    };
    proof {
        let m = 1_000_000int;
        if w < 0 {
            vstd::arithmetic::div_mod::lemma_fundamental_div_mod(-w - 1, m);
            let a = (-w - 1) / m;
            assert(w as int == (-a - 1) * m + (m - 1 - (-w - 1) % m)) by (nonlinear_arith)
                requires (-w - 1) as int == m * a + (-w - 1) % m, m == 1_000_000;
            vstd::arithmetic::div_mod::lemma_fundamental_div_mod_converse(w as int, m, -a - 1, m - 1 - (-w - 1) % m);
        }
    }
    q
}

pub open spec fn is_digit(c: char) -> bool {
    '0' <= c <= '9'
}

pub open spec fn digit_of(c: char) -> int {
    c as int - '0' as int
}

pub open spec fn all_digits(s: Seq<char>) -> bool {
    forall|i: int| 0 <= i < s.len() ==> is_digit(#[trigger] s[i])
}

/// The number that a run of decimal digits spells.
pub open spec fn digits_value(s: Seq<char>) -> int
    decreases s.len(),
{
    if s.len() == 0 {
        0
    } else {
        digits_value(s.drop_last()) * 10 + digit_of(s.last())
    }
}

pub open spec fn pow10(n: nat) -> int
    decreases n,
{
    if n == 0 {
        1
    } else {
        10 * pow10((n - 1) as nat)
    }
}

/// Micro-units spelled by the digits after a decimal point; digits past the
/// sixth are dropped.
pub open spec fn frac_micro(f: Seq<char>) -> int {
    if f.len() >= 6 {
        digits_value(f.take(6))
    } else {
        digits_value(f) * pow10((6 - f.len()) as nat)
    }
}

/// Length of the run of digits that starts `s`.
pub open spec fn digit_run(s: Seq<char>) -> nat
    decreases s.len(),
{
    if s.len() > 0 && is_digit(s[0]) {
        1 + digit_run(s.skip(1))
    } else {
        0
    }
}

/// The value, in micro-units, of a decimal number written `-?D+(.D+)?`, its
/// fraction cut after six digits (towards zero). `None` for any other text, and
/// for a whole part above `MAX_WHOLE`.
pub open spec fn plain_micro(s: Seq<char>) -> Option<int> {
    let neg = s.len() > 0 && s[0] == '-';
    let body = if neg { s.skip(1) } else { s };
    let k = digit_run(body) as int;
    let whole = body.take(k);
    let frac = body.skip(k + 1);
    let has_frac = k < body.len();
    if k == 0 || digits_value(whole) > MAX_WHOLE
        || (has_frac && (body[k] != '.' || frac.len() == 0 || !all_digits(frac))) {
        None
    } else {
        let m = digits_value(whole) * MICRO + if has_frac { frac_micro(frac) } else { 0 };
        Some(if neg { -m } else { m })
    }
}

proof fn lemma_digit_run(s: Seq<char>, k: int)
    requires
        0 <= k <= s.len(),
        all_digits(s.take(k)),
        k == s.len() || !is_digit(s[k]),
    ensures
        digit_run(s) == k,
    decreases k,
{
    if k > 0 {
        assert(is_digit(s.take(k)[0]));
        assert(s.skip(1).take(k - 1) =~= s.take(k).skip(1));
        assert forall|i: int| 0 <= i < k - 1 implies is_digit(#[trigger] s.skip(1).take(k - 1)[i]) by {
            assert(s.take(k)[i + 1] == s.skip(1).take(k - 1)[i]);
        }
        if k < s.len() {
            assert(s.skip(1)[k - 1] == s[k]);
        }
        lemma_digit_run(s.skip(1), k - 1);
    }
}

proof fn lemma_digits_nonneg(s: Seq<char>)
    requires
        all_digits(s),
    ensures
        0 <= digits_value(s) < pow10(s.len()),
    decreases s.len(),
{
    if s.len() > 0 {
        assert(s.drop_last() =~= s.take(s.len() - 1));
        assert(all_digits(s.drop_last()));
        lemma_digits_nonneg(s.drop_last());
        assert(is_digit(s[s.len() - 1]));
    }
}

proof fn lemma_digit_run_prefix(s: Seq<char>)
    ensures
        digit_run(s) <= s.len(),
        all_digits(s.take(digit_run(s) as int)),
        digit_run(s) < s.len() ==> !is_digit(s[digit_run(s) as int]),
    decreases s.len(),
{
    if s.len() > 0 && is_digit(s[0]) {
        lemma_digit_run_prefix(s.skip(1));
        let r = digit_run(s) as int;
        assert forall|i: int| 0 <= i < r implies is_digit(#[trigger] s.take(r)[i]) by {
            if i > 0 {
                assert(s.take(r)[i] == s.skip(1).take(r - 1)[i - 1]);
            }
        }
        if r < s.len() {
            assert(s[r] == s.skip(1)[r - 1]);
        }
    }
}

proof fn lemma_digits_prefix_mono(s: Seq<char>, a: int, k: int)
    requires
        0 <= a <= k <= s.len(),
        all_digits(s.take(k)),
    ensures
        digits_value(s.take(a)) <= digits_value(s.take(k)),
    decreases k - a,
{
    if a < k {
        assert(s.take(k).drop_last() =~= s.take(k - 1));
        assert forall|i: int| 0 <= i < k - 1 implies is_digit(#[trigger] s.take(k - 1)[i]) by {
            assert(s.take(k - 1)[i] == s.take(k)[i]);
        }
        lemma_digits_prefix_mono(s, a, k - 1);
        lemma_digits_nonneg(s.take(k - 1));
        assert(is_digit(s.take(k)[k - 1]));
    }
}

proof fn lemma_pow10_le6(n: nat)
    ensures
        n <= 6 ==> pow10(n) <= 1_000_000,
        n < 6 ==> pow10(n) <= 100_000,
        n == 6 ==> pow10(n) == 1_000_000,
{
    reveal_with_fuel(pow10, 7);
}

/// Decimal digit of `c`, if it is one.
fn digit(c: char) -> (r: Option<u64>)
    ensures
        is_digit(c) <==> r.is_some(),
        r matches Some(d) ==> d == digit_of(c) && d < 10,
{
    if '0' <= c && c <= '9' {
        Some(((c as u32) - ('0' as u32)) as u64)
    } else {
        None
    }
}

/// Scans the digits of `text` from `start` on: the index where they stop and
/// the number they spell, or `None` when that number exceeds `MAX_WHOLE`.
fn scan_whole(text: &str, start: usize) -> (r: Option<(usize, u64)>)
    requires
        start <= text@.len(),
    ensures
        r matches Some((e, w)) ==> {
            &&& start <= e <= text@.len()
            &&& e - start == digit_run(text@.skip(start as int))
            &&& w == digits_value(text@.skip(start as int).take(e - start))
            &&& w <= MAX_WHOLE
        },
        r is None ==> digits_value(
            text@.skip(start as int).take(digit_run(text@.skip(start as int)) as int),
        ) > MAX_WHOLE,
{
    let n = text.unicode_len();
    let ghost body = text@.skip(start as int);
    let mut i: usize = start;
    let mut whole: u64 = 0;
    while i < n
        invariant
            start <= i <= n,
            n == text@.len(),
            body == text@.skip(start as int),
            all_digits(body.take(i - start)),
            whole == digits_value(body.take(i - start)),
            whole <= MAX_WHOLE,
        decreases n - i,
    {
        assert(body[i - start] == text@[i as int]);
        match digit(text.get_char(i)) {
            None => {
                proof {
                    lemma_digit_run(body, (i - start) as int);
                }
                return Some((i, whole));
            },
            Some(d) => {
                assert(body.take(i - start + 1).drop_last() =~= body.take(i - start));
                if whole * 10 + d > MAX_WHOLE {
                    proof {
                        let a = (i - start + 1) as int;
                        assert forall|j: int| 0 <= j < a implies is_digit(#[trigger] body.take(a)[j]) by {
                            if j < a - 1 {
                                assert(body.take(a)[j] == body.take(a - 1)[j]);
                            }
                        }
                        lemma_digit_run_prefix(body);
                        let k = digit_run(body) as int;
                        if k < a {
                            assert(body.take(a)[k] == body[k]);
                        }
                        lemma_digits_prefix_mono(body, a, k);
                    }
                    return None;
                }
                assert forall|j: int| 0 <= j < i - start + 1 implies is_digit(#[trigger] body.take(i - start + 1)[j]) by {
                    if j < i - start {
                        assert(body.take(i - start + 1)[j] == body.take(i - start)[j]);
                    }
                }
                whole = whole * 10 + d;
                i = i + 1;
            },
        }
    }
    proof {
        lemma_digit_run(body, (i - start) as int);
    }
    Some((i, whole))
}

/// `f * 10^(6 - taken)`.
fn pad_micro(f: u64, taken: usize) -> (r: u64)
    requires
        taken <= 6,
        f < pow10(taken as nat),
    ensures
        r == f * pow10((6 - taken) as nat),
        r < 1_000_000,
    decreases 6 - taken,
{
    proof {
        lemma_pow10_le6(taken as nat);
        lemma_pow10_le6(6);
    }
    if taken == 6 {
        f
    } else {
        proof {
            lemma_pow10_le6((taken + 1) as nat);
            let a = pow10((5 - taken) as nat);
            assert(pow10((6 - taken) as nat) == 10 * a);
            assert(f * pow10((6 - taken) as nat) == (f * 10) * a) by (nonlinear_arith)
                requires pow10((6 - taken) as nat) == 10 * a;
        }
        pad_micro(f * 10, taken + 1)
    }
}

/// Micro-units spelled by the digits of `text` from `start` on, or `None` if
/// anything but digits stands there.
fn scan_frac(text: &str, start: usize) -> (r: Option<u64>)
    requires
        start <= text@.len(),
    ensures
        r matches Some(f) ==> all_digits(text@.skip(start as int)) && f == frac_micro(text@.skip(start as int)),
        r is None ==> !all_digits(text@.skip(start as int)),
        r matches Some(f) ==> f < 1_000_000,
{
    let n = text.unicode_len();
    let ghost fr = text@.skip(start as int);
    let mut j: usize = start;
    let mut frac: u64 = 0;
    while j < n
        invariant
            start <= j <= n,
            n == text@.len(),
            fr == text@.skip(start as int),
            all_digits(fr.take(j - start)),
            j - start <= 6 ==> frac == digits_value(fr.take(j - start)),
            j - start > 6 ==> frac == digits_value(fr.take(6)),
            j - start <= 6 ==> frac < pow10((j - start) as nat),
            frac < 1_000_000,
        decreases n - j,
    {
        assert(fr[j - start] == text@[j as int]);
        match digit(text.get_char(j)) {
            None => {
                return None;
            },
            Some(d) => {
                proof {
                    let a = (j - start + 1) as int;
                    assert(fr.take(a).drop_last() =~= fr.take(a - 1));
                    assert forall|x: int| 0 <= x < a implies is_digit(#[trigger] fr.take(a)[x]) by {
                        if x < a - 1 {
                            assert(fr.take(a)[x] == fr.take(a - 1)[x]);
                        }
                    }
                    if a <= 6 {
                        lemma_digits_nonneg(fr.take(a));
                        lemma_pow10_le6(a as nat);
                    }
                }
                if j - start < 6 {
                    frac = frac * 10 + d;
                }
                j = j + 1;
            },
        }
    }
    assert(fr.take(j - start) =~= fr);
    if j - start < 6 {
        Some(pad_micro(frac, j - start))
    } else {
        Some(frac)
    }
}

/// Reads a decimal number without exponent, such as `"20.5"` or `"-1.7"`,
/// into micro-units.
fn parse_plain(text: &str) -> (r: Option<i64>)
    ensures
        r matches Some(v) ==> plain_micro(text@) == Some(v as int),
        r is None ==> plain_micro(text@) is None,
        r matches Some(v) ==> -1_000_001_000_000_000_000 <= v <= 1_000_001_000_000_000_000,
{
    let n = text.unicode_len();
    let neg = n > 0 && text.get_char(0) == '-';
    let start: usize = if neg { 1 } else { 0 };
    let ghost body = if neg { text@.skip(1) } else { text@ };
    assert(body =~= text@.skip(start as int));
    let (i, whole) = match scan_whole(text, start) {
        None => return None,
        Some(p) => p,
    };
    let k = i - start;
    if k == 0 {
        return None;
    }
    let mut frac: u64 = 0;
    if i < n {
        assert(body[k as int] == text@[i as int]);
        if text.get_char(i) != '.' || i + 1 == n {
            return None;
        }
        assert(body.skip(k + 1) =~= text@.skip(i + 1));
        match scan_frac(text, i + 1) {
            None => return None,
            Some(f) => frac = f,
        }
    }
    assert(whole * 1_000_000 + frac < 0x7fff_ffff_ffff_ffff);
    let m = (whole * 1_000_000 + frac) as i64;
    if neg { Some(-m) } else { Some(m) }
}

/// `v / p`, rounded towards zero.
pub open spec fn trunc_div(v: int, p: int) -> int {
    if v >= 0 { v / p } else { -((-v) / p) }
}

/// Length of the run of characters other than `e` and `E` that starts `s`.
pub open spec fn mantissa_len(s: Seq<char>) -> nat
    decreases s.len(),
{
    if s.len() > 0 && s[0] != 'e' && s[0] != 'E' {
        1 + mantissa_len(s.skip(1))
    } else {
        0
    }
}

/// The value, in micro-units and cut towards zero, of a number written as
/// `plain_micro` reads it, or of such a mantissa followed by a negative
/// exponent (`e-7`, `E-12`). A positive exponent is refused: serde_json writes
/// one only for magnitudes of 1e16 and more, which are out of reach anyway.
pub open spec fn decimal_micro(s: Seq<char>) -> Option<int> {
    let i = mantissa_len(s) as int;
    let ex = s.skip(i + 1);
    if i == s.len() {
        plain_micro(s)
    } else if ex.len() >= 2 && ex[0] == '-' && all_digits(ex.skip(1)) {
        match plain_micro(s.take(i)) {
            Some(v) => Some(trunc_div(v, pow10(digits_value(ex.skip(1)) as nat))),
            None => None,
        }
    } else {
        None
    }
}

proof fn lemma_mantissa_len(s: Seq<char>, k: int)
    requires
        0 <= k <= s.len(),
        forall|j: int| 0 <= j < k ==> #[trigger] s[j] != 'e' && s[j] != 'E',
        k == s.len() || s[k] == 'e' || s[k] == 'E',
    ensures
        mantissa_len(s) == k,
    decreases k,
{
    if k > 0 {
        assert(s[0] != 'e');
        assert forall|j: int| 0 <= j < k - 1 implies #[trigger] s.skip(1)[j] != 'e' && s.skip(1)[j] != 'E' by {
            assert(s.skip(1)[j] == s[j + 1]);
        }
        if k < s.len() {
            assert(s.skip(1)[k - 1] == s[k]);
        }
        lemma_mantissa_len(s.skip(1), k - 1);
    }
}

proof fn lemma_trunc_div_small(v: int, p: int)
    requires
        -p < v < p,
    ensures
        trunc_div(v, p) == 0,
{
    if v >= 0 {
        vstd::arithmetic::div_mod::lemma_basic_div(v, p);
    } else {
        vstd::arithmetic::div_mod::lemma_basic_div(-v, p);
    }
}

proof fn lemma_pow10_mono(a: nat, b: nat)
    requires
        a <= b,
    ensures
        pow10(a) <= pow10(b),
    decreases b,
{
    if a < b {
        lemma_pow10_mono(a, (b - 1) as nat);
        lemma_pow10_pos((b - 1) as nat);
    }
}

proof fn lemma_pow10_pos(n: nat)
    ensures
        pow10(n) >= 1,
    decreases n,
{
    if n > 0 {
        lemma_pow10_pos((n - 1) as nat);
    }
}

/// Index of the first `e` or `E` of `text`, or its length.
fn exponent_index(text: &str) -> (r: usize)
    ensures
        r == mantissa_len(text@),
        r <= text@.len(),
{
    let n = text.unicode_len();
    let mut i: usize = 0;
    while i < n
        invariant
            i <= n,
            n == text@.len(),
            forall|j: int| 0 <= j < i ==> #[trigger] text@[j] != 'e' && text@[j] != 'E',
        decreases n - i,
    {
        let c = text.get_char(i);
        if c == 'e' || c == 'E' {
            proof {
                lemma_mantissa_len(text@, i as int);
            }
            return i;
        }
        i = i + 1;
    }
    proof {
        lemma_mantissa_len(text@, i as int);
    }
    i
}

/// The number spelled by the digits of `text` from `start` on, capped at 19;
/// `None` if anything but digits stands there.
fn scan_exponent(text: &str, start: usize) -> (r: Option<u64>)
    requires
        start <= text@.len(),
    ensures
        r is None ==> !all_digits(text@.skip(start as int)),
        r matches Some(k) ==> {
            &&& all_digits(text@.skip(start as int))
            &&& k <= 19
            &&& k < 19 ==> k == digits_value(text@.skip(start as int))
            &&& k == 19 ==> digits_value(text@.skip(start as int)) >= 19
        },
{
    let n = text.unicode_len();
    let ghost ds = text@.skip(start as int);
    let mut j: usize = start;
    let mut k: u64 = 0;
    while j < n
        invariant
            start <= j <= n,
            n == text@.len(),
            ds == text@.skip(start as int),
            all_digits(ds.take(j - start)),
            k <= 19,
            k < 19 ==> k == digits_value(ds.take(j - start)),
            k == 19 ==> digits_value(ds.take(j - start)) >= 19,
        decreases n - j,
    {
        assert(ds[j - start] == text@[j as int]);
        match digit(text.get_char(j)) {
            None => {
                return None;
            },
            Some(d) => {
                proof {
                    let a = (j - start + 1) as int;
                    assert(ds.take(a).drop_last() =~= ds.take(a - 1));
                    assert forall|x: int| 0 <= x < a implies is_digit(#[trigger] ds.take(a)[x]) by {
                        if x < a - 1 {
                            assert(ds.take(a)[x] == ds.take(a - 1)[x]);
                        }
                    }
                    lemma_digits_nonneg(ds.take(a - 1));
                }
                if k < 19 && k * 10 + d < 19 {
                    k = k * 10 + d;
                } else {
                    k = 19;
                }
                j = j + 1;
            },
        }
    }
    assert(ds.take(j - start) =~= ds);
    Some(k)
}

/// `10^k`.
fn pow10_u64(k: u64) -> (r: u64)
    requires
        k <= 19,
    ensures
        r == pow10(k as nat),
    decreases k,
{
    proof {
        reveal_with_fuel(pow10, 20);
        lemma_pow10_mono(k as nat, 19);
    }
    if k == 0 {
        1
    } else {
        let p = pow10_u64(k - 1);
        proof {
            lemma_pow10_mono((k - 1) as nat, 18);
        }
        p * 10
    }
}

/// Reads a reading's numeric text, such as `"20.5"`, `"-1.7"` or `"1.5e-7"`,
/// into micro-units (see `decimal_micro`).
pub fn parse_measurement(text: &str) -> (r: Option<i64>)
    ensures
        r matches Some(v) ==> decimal_micro(text@) == Some(v as int),
        r is None ==> decimal_micro(text@) is None,
{
    let n = text.unicode_len();
    let i = exponent_index(text);
    if i == n {
        return parse_plain(text);
    }
    let ghost ex = text@.skip(i + 1);
    if n - i < 3 || text.get_char(i + 1) != '-' {
        assert(ex.len() >= 2 ==> ex[0] == text@[i + 1]);
        return None;
    }
    assert(ex[0] == text@[i + 1]);
    assert(ex.skip(1) =~= text@.skip(i + 2));
    assert(text@.subrange(0, i as int) =~= text@.take(i as int));
    let m = match parse_plain(text.substring_char(0, i)) {
        None => return None,
        Some(m) => m,
    };
    let k = match scan_exponent(text, i + 2) {
        None => return None,
        Some(k) => k,
    };
    let p = pow10_u64(k);
    proof {
        lemma_pow10_pos(k as nat);
        let e = digits_value(ex.skip(1));
        lemma_digits_nonneg(ex.skip(1));
        if k == 19 {
            lemma_pow10_mono(19, e as nat);
            reveal_with_fuel(pow10, 20);
            assert(-2_000_000_000_000_000_000 < m < 2_000_000_000_000_000_000);
            lemma_trunc_div_small(m as int, pow10(e as nat));
            lemma_trunc_div_small(m as int, p as int);
        }
    }
    let q: i64 = if m >= 0 {
        ((m as u64) / p) as i64
    } else {
        -((((-(m as i128)) as u64) / p) as i64)
    };
    assert(q == trunc_div(m as int, p as int));
    Some(q)
}

} // verus!
