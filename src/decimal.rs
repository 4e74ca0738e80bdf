//! Exact decimal numbers, as the file format writes its non-integer fields.
use vstd::prelude::*;
use vstd::slice::slice_subrange;
use crate::text::{all_digits, digit_val, digits_value, find_char, first_index, is_digit, nat_text, push_nat};

verus! {

pub open spec fn pow10(n: nat) -> int
    decreases n,
{
    if n == 0 {
        1
    } else {
        10 * pow10((n - 1) as nat)
    }
}

/// Largest number of digits after the point.
pub const MAX_SCALE: u32 = 18;

/// Mantissas stay strictly below this in magnitude.
pub const MANTISSA_BOUND: u64 = 1_000_000_000_000_000_000;

/// An exact decimal number `mantissa / 10^scale`, in lowest terms.
#[derive(Clone, Copy, Debug, PartialEq, Eq, Structural)]
pub struct Decimal {
    pub mantissa: i64,
    pub scale: u32,
}

/// The mantissa and scale of `m / 10^s` once trailing zeros are divided out.
pub open spec fn reduce(m: nat, s: nat) -> (nat, nat)
    decreases s,
{
    if s > 0 && m % 10 == 0 {
        reduce(m / 10, (s - 1) as nat)
    } else {
        (m, s)
    }
}

pub open spec fn make_decimal(neg: bool, m: nat, s: nat) -> Decimal {
    let (rm, rs) = reduce(m, s);
    Decimal { mantissa: (if neg { -rm } else { rm as int }) as i64, scale: rs as u32 }
}

/// Sign, digits before the point and digits after it, of a text made of an
/// optional `+` or `-`, one or more digits, and optionally a `.` followed by
/// one or more digits.
pub open spec fn decimal_parts(s: Seq<char>) -> Option<(bool, Seq<char>, Seq<char>)> {
    let signed = s.len() > 0 && (s[0] == '-' || s[0] == '+');
    let neg = s.len() > 0 && s[0] == '-';
    let body = if signed { s.drop_first() } else { s };
    let p = first_index(body, '.');
    if p < 0 {
        if body.len() > 0 && all_digits(body) {
            Some((neg, body, Seq::<char>::empty()))
        } else {
            None
        }
    } else {
        let a = body.take(p);
        let b = body.skip(p + 1);
        if a.len() > 0 && b.len() > 0 && all_digits(a) && all_digits(b) {
            Some((neg, a, b))
        } else {
            None
        }
    }
}

/// The number a decimal text denotes, where its digits, read as one integer,
/// stay under `MANTISSA_BOUND` and it has at most `MAX_SCALE` digits after the point.
pub open spec fn decimal_value(s: Seq<char>) -> Option<Decimal> {
    match decimal_parts(s) {
        Some((neg, a, b)) => {
            let m = digits_value(a + b);
            if 0 <= m < MANTISSA_BOUND && b.len() <= MAX_SCALE {
                Some(make_decimal(neg, m as nat, b.len()))
            } else {
                None
            }
        },
        None => None,
    }
}

pub open spec fn zeros(n: int) -> Seq<char> {
    Seq::new(if n > 0 { n as nat } else { 0 }, |i: int| '0')
}

pub open spec fn magnitude(m: i64) -> nat {
    (if m < 0 { -m } else { m as int }) as nat
}

/// Text of a decimal: its digits with a point `scale` places from the right,
/// a `0` before the point where there are no digits left of it.
pub open spec fn decimal_text(d: Decimal) -> Seq<char> {
    let t = nat_text(magnitude(d.mantissa));
    let sign = if d.mantissa < 0 { seq!['-'] } else { Seq::<char>::empty() };
    let s = d.scale as int;
    if s == 0 {
        sign + t
    } else if t.len() > s {
        sign + t.take(t.len() - s) + seq!['.'] + t.skip(t.len() - s)
    } else {
        sign + seq!['0', '.'] + zeros(s - t.len()) + t
    }
}

pub proof fn lemma_pow10_pos(n: nat)
    ensures
        pow10(n) >= 1,
    decreases n,
{
    if n > 0 {
        lemma_pow10_pos((n - 1) as nat);
    }
}

pub proof fn lemma_digits_push(x: Seq<char>, c: char)
    requires
        is_digit(c),
    ensures
        digits_value(x.push(c)) == digits_value(x) * 10 + digit_val(c),
        digits_value(x.push(c)) >= digits_value(x) * 10,
{
    assert(x.push(c).drop_last() =~= x);
}

impl Decimal {
    /// In lowest terms and within the bounds that the text form allows.
    pub open spec fn wf(self) -> bool {
        &&& self.scale <= MAX_SCALE
        &&& -(MANTISSA_BOUND as int) < self.mantissa < MANTISSA_BOUND
        &&& self.scale > 0 ==> self.mantissa % 10 != 0
    }

    /// The value in units of `10^-MAX_SCALE`.
    pub open spec fn fixed(self) -> int {
        self.mantissa * pow10((MAX_SCALE - self.scale) as nat)
    }

    pub open spec fn zero() -> Decimal {
        Decimal { mantissa: 0, scale: 0 }
    }

    /// Whether the decimal is in lowest terms and within bounds.
    pub fn is_wf(&self) -> (r: bool)
        ensures
            r == self.wf(),
    {
        self.scale <= MAX_SCALE && -(MANTISSA_BOUND as i64) < self.mantissa && self.mantissa < MANTISSA_BOUND as i64
            && (self.scale == 0 || self.mantissa % 10 != 0)
    }

    /// The whole number `v`.
    pub fn from_int(v: i32) -> (r: Decimal)
        ensures
            r.wf(),
            r.mantissa == v as i64,
            r.scale == 0,
    {
        Decimal { mantissa: v as i64, scale: 0 }
    }

    /// The value in units of `10^-MAX_SCALE`, which orders decimals as numbers.
    pub fn fixed_value(&self) -> (r: i128)
        requires
            self.wf(),
        ensures
            r == self.fixed(),
            -1_000_000_000_000_000_000_000_000_000_000_000_000 < r < 1_000_000_000_000_000_000_000_000_000_000_000_000,
    {
        let mut f: i128 = self.mantissa as i128;
        let mut k: u32 = self.scale;
        assert(pow10(0) == 1);
        proof {
            lemma_pow10_le(0, 18);
            assert((k - self.scale) as nat == 0);
            assert(self.mantissa * pow10(0) == self.mantissa);
        }
        while k < MAX_SCALE
            invariant
                self.scale <= k <= MAX_SCALE,
                self.wf(),
                f == self.mantissa * pow10((k - self.scale) as nat),
                -(MANTISSA_BOUND as int) * pow10((k - self.scale) as nat) < f < MANTISSA_BOUND * pow10((k - self.scale) as nat),
                pow10((k - self.scale) as nat) <= pow10(18),
            decreases MAX_SCALE - k,
        {
            proof {
                lemma_pow10_le((k + 1 - self.scale) as nat, 18);
                assert(pow10((k + 1 - self.scale) as nat) == 10 * pow10((k - self.scale) as nat));
                lemma_pow10_18();
            }
            assert(self.mantissa * pow10((k + 1 - self.scale) as nat) == 10 * (self.mantissa * pow10((k - self.scale) as nat))) by (nonlinear_arith)
                requires pow10((k + 1 - self.scale) as nat) == 10 * pow10((k - self.scale) as nat);
            assert(-(MANTISSA_BOUND as int) * pow10((k + 1 - self.scale) as nat) < 10 * f < MANTISSA_BOUND * pow10((k + 1 - self.scale) as nat)) by (nonlinear_arith)
                requires pow10((k + 1 - self.scale) as nat) == 10 * pow10((k - self.scale) as nat),
                    -(MANTISSA_BOUND as int) * pow10((k - self.scale) as nat) < f < MANTISSA_BOUND * pow10((k - self.scale) as nat);
            assert(MANTISSA_BOUND * pow10((k + 1 - self.scale) as nat) <= MANTISSA_BOUND * pow10(18)) by (nonlinear_arith)
                requires pow10((k + 1 - self.scale) as nat) <= pow10(18), pow10(18) == 1_000_000_000_000_000_000;
            assert(-(MANTISSA_BOUND as int) * pow10((k + 1 - self.scale) as nat) >= -(MANTISSA_BOUND as int) * pow10(18)) by (nonlinear_arith)
                requires pow10((k + 1 - self.scale) as nat) <= pow10(18);
            assert(MANTISSA_BOUND * pow10(18) == 1_000_000_000_000_000_000_000_000_000_000_000_000int);
            f = f * 10;
            k = k + 1;
        }
        assert((MAX_SCALE - self.scale) as nat == (k - self.scale) as nat);
        proof {
            lemma_pow10_18();
        }
        assert(MANTISSA_BOUND * pow10((k - self.scale) as nat) <= MANTISSA_BOUND * pow10(18)) by (nonlinear_arith)
            requires pow10((k - self.scale) as nat) <= pow10(18);
        assert(-(MANTISSA_BOUND as int) * pow10((k - self.scale) as nat) >= -(MANTISSA_BOUND as int) * pow10(18)) by (nonlinear_arith)
            requires pow10((k - self.scale) as nat) <= pow10(18);
        f
    }
}

pub proof fn lemma_digits_mono(x: Seq<char>, y: Seq<char>)
    requires
        all_digits(x + y),
    ensures
        digits_value(x + y) >= digits_value(x),
    decreases y.len(),
{
    if y.len() > 0 {
        let xy = x + y;
        assert(xy.drop_last() =~= x + y.drop_last());
        assert(all_digits(x + y.drop_last())) by {
            assert forall|i: int| 0 <= i < (x + y.drop_last()).len() implies is_digit(#[trigger] (x + y.drop_last())[i]) by {
                assert((x + y.drop_last())[i] == xy[i]);
            }
        }
        lemma_digits_mono(x, y.drop_last());
        crate::text::lemma_digits_nonneg(x + y.drop_last());
        assert(is_digit(xy[xy.len() - 1]));
    }
}

/// Continues reading digits after `pre`, whose value is `acc0`: the value of
/// `pre + t` where `t` is all digits and the value stays under `MANTISSA_BOUND`.
fn digits_after(t: &[char], acc0: u64, Ghost(pre): Ghost<Seq<char>>) -> (r: Option<u64>)
    requires
        acc0 as int == digits_value(pre),
        acc0 < MANTISSA_BOUND,
        all_digits(pre),
    ensures
        match r {
            Some(v) => all_digits(t@) && v as int == digits_value(pre + t@) && v < MANTISSA_BOUND,
            None => !all_digits(t@) || digits_value(pre + t@) >= MANTISSA_BOUND,
        },
{
    let mut acc = acc0;
    let mut i: usize = 0;
    assert(pre + t@.take(0) =~= pre);
    while i < t.len()
        invariant
            i <= t@.len(),
            all_digits(pre + t@.take(i as int)),
            acc as int == digits_value(pre + t@.take(i as int)),
            acc < MANTISSA_BOUND,
        decreases t@.len() - i,
    {
        let c = t[i];
        if !('0' <= c && c <= '9') {
            assert(!is_digit(t@[i as int]));
            return None;
        }
        let ghost x = pre + t@.take(i as int);
        assert(pre + t@.take(i + 1) =~= x.push(c));
        proof {
            lemma_digits_push(x, c);
        }
        let dv = (c as u64) - ('0' as u64);
        if acc > (MANTISSA_BOUND - 1 - dv) / 10 {
            if i + 1 < t.len() {
                proof {
                    let y = t@.skip(i + 1);
                    assert(pre + t@ =~= x.push(c) + y);
                    if all_digits(pre + t@) {
                        lemma_digits_mono(x.push(c), y);
                    }
                }
            } else {
                assert(t@.take(i + 1) =~= t@);
            }
            return None;
        }
        acc = acc * 10 + dv;
        i = i + 1;
        assert(all_digits(pre + t@.take(i as int))) by {
            assert forall|k: int| 0 <= k < (pre + t@.take(i as int)).len() implies is_digit(#[trigger] (pre + t@.take(i as int))[k]) by {
                if k < x.len() {
                    assert((pre + t@.take(i as int))[k] == x[k]);
                }
            }
        }
    }
    assert(t@.take(i as int) =~= t@);
    assert forall|k: int| 0 <= k < t@.len() implies is_digit(#[trigger] t@[k]) by {
        assert(t@[k] == (pre + t@)[pre.len() + k]);
    }
    Some(acc)
}

/// Divides trailing zeros out of `m / 10^s`.
fn reduce_exec(m: u64, s: u32) -> (r: (u64, u32))
    ensures
        r.0 as nat == reduce(m as nat, s as nat).0,
        r.1 as nat == reduce(m as nat, s as nat).1,
        r.0 <= m,
        r.1 <= s,
        r.1 > 0 ==> r.0 % 10 != 0,
{
    let mut cm = m;
    let mut cs = s;
    while cs > 0 && cm % 10 == 0
        invariant
            reduce(cm as nat, cs as nat) == reduce(m as nat, s as nat),
            cm <= m,
            cs <= s,
        decreases cs,
    {
        cm = cm / 10;
        cs = cs - 1;
    }
    (cm, cs)
}

/// Reads a whole token as a decimal number.
pub fn parse_decimal(s: &[char]) -> (r: Option<Decimal>)
    ensures
        r == decimal_value(s@),
        r matches Some(d) ==> d.wf(),
{
    let n = s.len();
    if n == 0 {
        return None;
    }
    let signed = s[0] == '-' || s[0] == '+';
    let neg = s[0] == '-';
    let start: usize = if signed { 1 } else { 0 };
    let body = slice_subrange(s, start, n);
    assert(body@ == if signed { s@.drop_first() } else { s@ });
    let dot = find_char(body, '.');
    proof {
        crate::text::lemma_first_index_bounds(body@, '.');
    }
    let (a, b) = match dot {
        None => (body, slice_subrange(body, n - start, n - start)),
        Some(p) => (slice_subrange(body, 0, p), slice_subrange(body, p + 1, n - start)),
    };
    if a.len() == 0 || (dot.is_some() && b.len() == 0) {
        return None;
    }
    assert(Seq::<char>::empty() + a@ =~= a@);
    let va = match digits_after(a, 0, Ghost(Seq::<char>::empty())) {
        Some(v) => v,
        None => {
            proof {
                if all_digits(a@ + b@) {
                    assert forall|i: int| 0 <= i < a@.len() implies is_digit(#[trigger] a@[i]) by {
                        assert(a@[i] == (a@ + b@)[i]);
                    }
                    lemma_digits_mono(a@, b@);
                }
            }
            return None;
        },
    };
    let v = match digits_after(b, va, Ghost(a@)) {
        Some(v) => v,
        None => {
            return None;
        },
    };
    if b.len() > MAX_SCALE as usize {
        return None;
    }
    let (rm, rs) = reduce_exec(v, b.len() as u32);
    let mantissa: i64 = if neg { -(rm as i64) } else { rm as i64 };
    let d = Decimal { mantissa, scale: rs };
    assert(dot is None ==> b@ =~= Seq::<char>::empty());
    assert(d.scale > 0 ==> d.mantissa % 10 != 0) by {
        if d.scale > 0 && neg {
            assert((-(rm as int)) % 10 != 0) by (nonlinear_arith)
                requires rm % 10 != 0;
        }
    }
    Some(d)
}

/// Appends the text of `d`.
pub fn push_decimal(out: &mut Vec<char>, d: Decimal)
    ensures
        final(out)@ == old(out)@ + decimal_text(d),
{
    let mag: u64 = if d.mantissa < 0 {
        if d.mantissa == i64::MIN { 9_223_372_036_854_775_808u64 } else { (-d.mantissa) as u64 }
    } else {
        d.mantissa as u64
    };
    let mut t: Vec<char> = Vec::new();
    push_nat(&mut t, mag);
    assert(t@ =~= nat_text(magnitude(d.mantissa)));
    let ghost start = old(out)@;
    if d.mantissa < 0 {
        out.push('-');
    }
    let ghost signed = out@;
    let s = d.scale as usize;
    let n = t.len();
    if s == 0 {
        push_all(out, t.as_slice());
    } else if n > s {
        push_all(out, vstd::slice::slice_subrange(t.as_slice(), 0, n - s));
        out.push('.');
        push_all(out, vstd::slice::slice_subrange(t.as_slice(), n - s, n));
        assert(t@.subrange(0, n - s) =~= t@.take(n - s));
        assert(t@.subrange(n - s, n as int) =~= t@.skip(n - s));
    } else {
        out.push('0');
        out.push('.');
        let ghost mid = out@;
        let mut z: usize = n;
        while z < s
            invariant
                n <= z <= s,
                out@ == mid + zeros(z - n),
            decreases s - z,
        {
            out.push('0');
            assert(out@ =~= mid + zeros(z + 1 - n));
            z = z + 1;
        }
        push_all(out, t.as_slice());
    }
    assert(final(out)@ =~= old(out)@ + decimal_text(d));
}

/// Appends every char of `t`.
pub fn push_all(out: &mut Vec<char>, t: &[char])
    ensures
        final(out)@ == old(out)@ + t@,
{
    let mut i: usize = 0;
    while i < t.len()
        invariant
            i <= t@.len(),
            out@ == old(out)@ + t@.take(i as int),
        decreases t@.len() - i,
    {
        out.push(t[i]);
        i = i + 1;
        assert(out@ =~= old(out)@ + t@.take(i as int));
    }
    assert(t@.take(i as int) =~= t@);
}

pub proof fn lemma_pow10_18()
    ensures
        pow10(18) == 1_000_000_000_000_000_000,
{
    reveal_with_fuel(pow10, 19);
}

pub proof fn lemma_pow10_le(a: nat, b: nat)
    requires
        a <= b,
    ensures
        pow10(a) <= pow10(b),
    decreases b,
{
    lemma_pow10_pos(a);
    if a < b {
        lemma_pow10_le(a, (b - 1) as nat);
        lemma_pow10_pos((b - 1) as nat);
    }
}

pub proof fn lemma_digits_concat(a: Seq<char>, b: Seq<char>)
    ensures
        digits_value(a + b) == digits_value(a) * pow10(b.len()) + digits_value(b),
    decreases b.len(),
{
    if b.len() == 0 {
        assert(a + b =~= a);
        assert(digits_value(b) == 0);
    } else {
        lemma_digits_concat(a, b.drop_last());
        assert((a + b).drop_last() =~= a + b.drop_last());
        assert((a + b).last() == b.last());
        let p = pow10(b.drop_last().len());
        assert(pow10(b.len()) == 10 * p);
        assert(digits_value(a + b) == digits_value(a + b.drop_last()) * 10 + digit_val(b.last()));
        assert(digits_value(b) == digits_value(b.drop_last()) * 10 + digit_val(b.last()));
        assert((digits_value(a) * p + digits_value(b.drop_last())) * 10 == digits_value(a) * (10 * p)
            + digits_value(b.drop_last()) * 10) by (nonlinear_arith);
    }
}

proof fn lemma_zeros_value(n: int)
    ensures
        digits_value(zeros(n)) == 0,
        all_digits(zeros(n)),
    decreases n,
{
    if n > 0 {
        lemma_zeros_value(n - 1);
        assert(zeros(n).drop_last() =~= zeros(n - 1));
    } else {
        assert(zeros(n) =~= Seq::<char>::empty());
    }
}

proof fn lemma_reduce_stops(m: nat, s: nat)
    requires
        s > 0 ==> m % 10 != 0,
    ensures
        reduce(m, s) == (m, s),
{
}

proof fn lemma_all_digits_concat(a: Seq<char>, b: Seq<char>)
    requires
        all_digits(a),
        all_digits(b),
    ensures
        all_digits(a + b),
{
    assert forall|i: int| 0 <= i < (a + b).len() implies is_digit(#[trigger] (a + b)[i]) by {
        if i < a.len() {
            assert((a + b)[i] == a[i]);
        } else {
            assert((a + b)[i] == b[i - a.len()]);
        }
    }
}

proof fn lemma_no_dot(t: Seq<char>)
    requires
        all_digits(t),
    ensures
        first_index(t, '.') == -1,
{
    assert forall|k: int| 0 <= k < t.len() implies t[k] != '.' by {
        assert(is_digit(t[k]));
    }
    crate::text::lemma_first_index(t, '.', t.len() as int);
}

/// Reading back the text of a well-formed decimal gives the decimal.
pub proof fn lemma_decimal_round_trip(d: Decimal)
    requires
        d.wf(),
    ensures
        decimal_value(decimal_text(d)) == Some(d),
{
    let mag = magnitude(d.mantissa);
    let t = nat_text(mag);
    crate::text::lemma_nat_text(mag);
    lemma_pow10_18();
    let neg = d.mantissa < 0;
    let sign = if neg { seq!['-'] } else { Seq::<char>::empty() };
    let s = d.scale as int;
    let text = decimal_text(d);
    assert(s > 0 ==> mag % 10 != 0) by {
        if s > 0 && neg {
            assert((-d.mantissa) % 10 != 0) by (nonlinear_arith)
                requires d.mantissa % 10 != 0;
        }
    }
    let body = if s == 0 {
        t
    } else if t.len() > s {
        t.take(t.len() - s) + seq!['.'] + t.skip(t.len() - s)
    } else {
        seq!['0', '.'] + zeros(s - t.len()) + t
    };
    assert(text =~= sign + body);
    assert(body.len() > 0 && body[0] != '-' && body[0] != '+') by {
        if s != 0 && t.len() > s {
            assert(body[0] == t[0]);
        }
    }
    if neg {
        assert(text.drop_first() =~= body);
    } else {
        assert(text =~= body);
    }
    let parts = if s == 0 {
        lemma_text_parts_whole(t);
        (t, Seq::<char>::empty())
    } else if t.len() > s {
        lemma_text_parts_split(t, s);
        (t.take(t.len() - s), t.skip(t.len() - s))
    } else {
        lemma_text_parts_small(t, s);
        (seq!['0'], zeros(s - t.len()) + t)
    };
    assert(decimal_parts(text) == Some((neg, parts.0, parts.1)));
    assert(digits_value(parts.0 + parts.1) == mag);
    assert(parts.1.len() == s);
    lemma_reduce_stops(mag, s as nat);
}

proof fn lemma_text_parts_whole(t: Seq<char>)
    requires
        all_digits(t),
        t.len() > 0,
    ensures
        first_index(t, '.') == -1,
        t + Seq::<char>::empty() == t,
{
    lemma_no_dot(t);
    assert(t + Seq::<char>::empty() =~= t);
}

proof fn lemma_text_parts_split(t: Seq<char>, s: int)
    requires
        all_digits(t),
        0 < s < t.len(),
    ensures
        ({
            let body = t.take(t.len() - s) + seq!['.'] + t.skip(t.len() - s);
            &&& first_index(body, '.') == t.len() - s
            &&& body.take(t.len() - s) == t.take(t.len() - s)
            &&& body.skip(t.len() - s + 1) == t.skip(t.len() - s)
            &&& all_digits(t.take(t.len() - s))
            &&& all_digits(t.skip(t.len() - s))
            &&& t.take(t.len() - s) + t.skip(t.len() - s) == t
        }),
{
    let a = t.take(t.len() - s);
    let b = t.skip(t.len() - s);
    let body = a + seq!['.'] + b;
    assert(all_digits(a)) by {
        assert forall|i: int| 0 <= i < a.len() implies is_digit(#[trigger] a[i]) by {
            assert(a[i] == t[i]);
        }
    }
    assert(all_digits(b)) by {
        assert forall|i: int| 0 <= i < b.len() implies is_digit(#[trigger] b[i]) by {
            assert(b[i] == t[i + t.len() - s]);
        }
    }
    assert forall|k: int| 0 <= k < a.len() implies body[k] != '.' by {
        assert(body[k] == a[k]);
        assert(is_digit(a[k]));
    }
    assert(body[a.len() as int] == '.');
    crate::text::lemma_first_index(body, '.', a.len() as int);
    assert(body.take(a.len() as int) =~= a);
    assert(body.skip(a.len() as int + 1) =~= b);
    assert(a + b =~= t);
}

proof fn lemma_text_parts_small(t: Seq<char>, s: int)
    requires
        all_digits(t),
        t.len() > 0,
        t.len() <= s,
    ensures
        ({
            let z = zeros(s - t.len());
            let body = seq!['0', '.'] + z + t;
            &&& first_index(body, '.') == 1
            &&& body.take(1) == seq!['0']
            &&& body.skip(2) == z + t
            &&& all_digits(seq!['0'])
            &&& all_digits(z + t)
            &&& digits_value(seq!['0'] + (z + t)) == digits_value(t)
            &&& (z + t).len() == s
        }),
{
    let z = zeros(s - t.len());
    let body = seq!['0', '.'] + z + t;
    lemma_zeros_value(s - t.len());
    assert(body[0] == '0');
    assert(body[1] == '.');
    crate::text::lemma_first_index(body, '.', 1);
    assert(body.take(1) =~= seq!['0']);
    assert(body.skip(2) =~= z + t);
    lemma_all_digits_concat(z, t);
    lemma_digits_concat(z, t);
    lemma_digits_concat(seq!['0'], z + t);
    assert(digits_value(seq!['0']) == 0) by {
        assert(seq!['0'].drop_last() =~= Seq::<char>::empty());
        assert(digits_value(Seq::<char>::empty()) == 0);
        assert(seq!['0'].last() == '0');
    }
    assert(digits_value(z) * pow10(t.len()) == 0);
    assert(digits_value(seq!['0']) * pow10((z + t).len()) == 0);
}

} // verus!
