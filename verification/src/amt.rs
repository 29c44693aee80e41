use vstd::prelude::*;

verus! {

/// Fixed precision amount for financial transactions, precise to four decimal places.
///
/// Wraps an `i128` scaled by [`Amt::SCALE`]: `Amt(12345)` stands for `1.2345`.
#[derive(Debug, Clone, Copy, PartialEq, Eq, PartialOrd, Ord)]
pub struct Amt(pub i128);

impl View for Amt {
    type V = int;

    open spec fn view(&self) -> int {
        self.0 as int
    }
}

impl Amt {
    /// The factor by which amounts are scaled.
    pub const SCALE: i128 = 10_000;

    /// Creates an [`Amt`] of value 0.
    pub fn new() -> (r: Self)
        ensures
            r@ == 0,
    {
        Amt(0)
    }

    /// Creates an [`Amt`] with the largest value it can hold.
    pub fn max() -> (r: Self)
        ensures
            r@ == i128::MAX,
    {
        Amt(i128::MAX)
    }

    /// Creates an [`Amt`] from an already scaled value.
    pub fn from(from: i128) -> (r: Self)
        ensures
            r@ == from,
    {
        Amt(from)
    }

    /// Adds two amounts, or gives `None` where the sum does not fit.
    pub fn checked_add(self, rhs: Self) -> (r: Option<Self>)
        ensures
            r == (if i128::MIN <= self@ + rhs@ <= i128::MAX {
                Some(Amt((self@ + rhs@) as i128))
            } else {
                None::<Amt>
            }),
    {
        match self.0.checked_add(rhs.0) {
            Some(v) => Some(Amt(v)),
            None => None,
        }
    }

    /// Subtracts `rhs`, or gives `None` where the difference does not fit.
    pub fn checked_sub(self, rhs: Self) -> (r: Option<Self>)
        ensures
            r == (if i128::MIN <= self@ - rhs@ <= i128::MAX {
                Some(Amt((self@ - rhs@) as i128))
            } else {
                None::<Amt>
            }),
    {
        match self.0.checked_sub(rhs.0) {
            Some(v) => Some(Amt(v)),
            None => None,
        }
    }

    /// Whether the amount is below zero.
    pub fn is_negative(self) -> (r: bool)
        ensures
            r == (self@ < 0),
    {
        self.0 < 0
    }
}


// ---------------------------------------------------------------------------
// The text form of an amount: what `parse_amt` reads.
// ---------------------------------------------------------------------------

/// Whether `c` is white space in the sense of `char::is_whitespace`, that is
/// a character with the Unicode property `White_Space`.
pub open spec fn is_white_space(c: char) -> bool {
    let n = c as u32;
    ||| 0x09 <= n <= 0x0d
    ||| n == 0x20
    ||| n == 0x85
    ||| n == 0xa0
    ||| n == 0x1680
    ||| 0x2000 <= n <= 0x200a
    ||| n == 0x2028
    ||| n == 0x2029
    ||| n == 0x202f
    ||| n == 0x205f
    ||| n == 0x3000
}

/// `s` without its leading white space.
pub open spec fn trim_start(s: Seq<char>) -> Seq<char>
    decreases s.len(),
{
    if s.len() > 0 && is_white_space(s[0]) {
        trim_start(s.drop_first())
    } else {
        s
    }
}

/// `s` without its trailing white space.
pub open spec fn trim_end(s: Seq<char>) -> Seq<char>
    decreases s.len(),
{
    if s.len() > 0 && is_white_space(s.last()) {
        trim_end(s.drop_last())
    } else {
        s
    }
}

/// `s` without leading and trailing white space, as `str::trim` gives it.
pub open spec fn trim(s: Seq<char>) -> Seq<char> {
    trim_end(trim_start(s))
}

/// Whether `c` is one of the ASCII digits `0` to `9`.
pub open spec fn is_digit(c: char) -> bool {
    48 <= c as u32 <= 57
}

/// Whether every character of `s` is an ASCII digit.
pub open spec fn all_digits(s: Seq<char>) -> bool {
    forall|i: int| 0 <= i < s.len() ==> is_digit(#[trigger] s[i])
}

/// The value of the digit `c`.
pub open spec fn digit_value(c: char) -> nat {
    (c as u32 - 48) as nat
}

/// The number that the decimal digits `s` stand for (0 for no digits).
pub open spec fn digits_value(s: Seq<char>) -> nat
    decreases s.len(),
{
    if s.len() == 0 {
        0
    } else {
        digits_value(s.drop_last()) * 10 + digit_value(s.last())
    }
}

/// Ten to the power `n`.
pub open spec fn pow10(n: nat) -> nat
    decreases n,
{
    if n == 0 {
        1
    } else {
        10 * pow10((n - 1) as nat)
    }
}

/// Whether `i` is the position of the first `.` in `s`.
pub open spec fn is_first_dot(s: Seq<char>, i: int) -> bool {
    &&& 0 <= i < s.len()
    &&& s[i] == '.'
    &&& forall|j: int| 0 <= j < i ==> s[j] != '.'
}

/// The position of the first `.` in `s`, if there is one.
pub open spec fn first_dot(s: Seq<char>) -> Option<int> {
    if exists|i: int| is_first_dot(s, i) {
        Some(choose|i: int| is_first_dot(s, i))
    } else {
        None
    }
}

/// What an amount without sign reads as, scaled by ten thousand: digits,
/// optionally followed by `.` and one to four digits.
pub open spec fn unsigned_amount_value(u: Seq<char>) -> Result<int, Seq<char>> {
    let (whole, frac) = match first_dot(u) {
        Some(i) => (u.take(i), u.skip(i + 1)),
        None => (u, Seq::<char>::empty()),
    };
    if first_dot(u) is Some && frac.len() == 0 {
        Err("empty fractional part"@)
    } else if whole.len() == 0 || !all_digits(whole) {
        Err("invalid integer part"@)
    } else if frac.len() > 4 || !all_digits(frac) {
        Err("invalid fractional part"@)
    } else if digits_value(whole) > i128::MAX {
        Err("integer overflow"@)
    } else {
        let v = (digits_value(whole) * 10000 + digits_value(frac) * pow10((4 - frac.len()) as nat)) as int;
        if v > i128::MAX {
            Err("value overflow"@)
        } else {
            Ok(v)
        }
    }
}

/// What `parse_amt` gives for the text `s`: the scaled value, or the message
/// of the error.
pub open spec fn amount_value(s: Seq<char>) -> Result<int, Seq<char>> {
    let t = trim(s);
    if t.len() == 0 {
        Err("empty string"@)
    } else {
        let u = if t[0] == '-' || t[0] == '+' {
            t.drop_first()
        } else {
            t
        };
        match unsigned_amount_value(u) {
            Ok(v) => Ok(if t[0] == '-' {
                -v
            } else {
                v
            }),
            Err(e) => Err(e),
        }
    }
}


// ---------------------------------------------------------------------------
// The text form of an amount: what `Amt::to_string` writes.
// ---------------------------------------------------------------------------

/// The character of the digit `d` (below ten).
pub open spec fn digit_char(d: nat) -> char {
    (d + 48) as char
}

/// The decimal digits of `n`, without leading zeros (`"0"` for zero).
pub open spec fn nat_digits(n: nat) -> Seq<char>
    decreases n,
{
    if n < 10 {
        seq![digit_char(n)]
    } else {
        nat_digits(n / 10).push(digit_char(n % 10))
    }
}

/// `s` without its trailing `0` characters.
pub open spec fn trim_trailing_zeros(s: Seq<char>) -> Seq<char>
    decreases s.len(),
{
    if s.len() > 0 && s.last() == '0' {
        trim_trailing_zeros(s.drop_last())
    } else {
        s
    }
}

/// The digits after the decimal point of a fraction `f` of ten thousandths:
/// the four digits without trailing zeros, or `"0"` where `f` is zero.
pub open spec fn fraction_digits(f: nat) -> Seq<char> {
    if f == 0 {
        seq!['0']
    } else {
        trim_trailing_zeros(
            seq![
                digit_char(f / 1000),
                digit_char(f / 100 % 10),
                digit_char(f / 10 % 10),
                digit_char(f % 10),
            ],
        )
    }
}

/// The text of the amount scaled to `v`: an optional `-`, the whole part,
/// a `.`, and at least one digit of the fraction, as in `"-1.25"` or `"3.0"`.
pub open spec fn amount_text(v: int) -> Seq<char> {
    let a = if v < 0 {
        -v
    } else {
        v
    };
    let sign = if v < 0 {
        seq!['-']
    } else {
        Seq::<char>::empty()
    };
    sign + nat_digits((a / 10000) as nat) + seq!['.'] + fraction_digits((a % 10000) as nat)
}

proof fn lemma_trim_trailing_zeros_take(s: Seq<char>, k: int)
    requires
        0 <= k <= s.len(),
        forall|j: int| k <= j < s.len() ==> #[trigger] s[j] == '0',
        k == 0 || s[k - 1] != '0',
    ensures
        trim_trailing_zeros(s) == s.take(k),
    decreases s.len() - k,
{
    if k == s.len() {
        assert(s.take(k) =~= s);
    } else {
        let t = s.drop_last();
        assert(s[s.len() - 1] == '0');
        assert forall|j: int| k <= j < t.len() implies #[trigger] t[j] == '0' by {
            assert(t[j] == s[j]);
        }
        if k > 0 {
            assert(t[k - 1] == s[k - 1]);
        }
        lemma_trim_trailing_zeros_take(t, k);
        assert(t.take(k) =~= s.take(k));
    }
}

proof fn lemma_trim_start_skip(s: Seq<char>, i: int)
    requires
        0 <= i <= s.len(),
        forall|j: int| 0 <= j < i ==> is_white_space(#[trigger] s[j]),
    ensures
        trim_start(s) == trim_start(s.skip(i)),
    decreases i,
{
    if i == 0 {
        assert(s.skip(0) =~= s);
    } else {
        let t = s.drop_first();
        assert forall|j: int| 0 <= j < i - 1 implies is_white_space(#[trigger] t[j]) by {
            assert(t[j] == s[j + 1]);
        }
        lemma_trim_start_skip(t, i - 1);
        assert(t.skip(i - 1) =~= s.skip(i));
    }
}

proof fn lemma_trim_end_take(s: Seq<char>, k: int)
    requires
        0 <= k <= s.len(),
        forall|j: int| k <= j < s.len() ==> is_white_space(#[trigger] s[j]),
    ensures
        trim_end(s) == trim_end(s.take(k)),
    decreases s.len() - k,
{
    if k == s.len() {
        assert(s.take(k) =~= s);
    } else {
        let t = s.drop_last();
        assert(is_white_space(s[s.len() - 1]));
        assert forall|j: int| k <= j < t.len() implies is_white_space(#[trigger] t[j]) by {
            assert(t[j] == s[j]);
        }
        lemma_trim_end_take(t, k);
        assert(t.take(k) =~= s.take(k));
    }
}

proof fn lemma_first_dot_at(s: Seq<char>, i: int)
    requires
        is_first_dot(s, i),
    ensures
        first_dot(s) == Some(i),
{
    let k = choose|k: int| is_first_dot(s, k);
    assert(is_first_dot(s, k));
    if k < i {
        assert(s[k] != '.');
    } else if k > i {
        assert(s[i] != '.');
    }
}

proof fn lemma_no_dot(s: Seq<char>)
    requires
        forall|j: int| 0 <= j < s.len() ==> s[j] != '.',
    ensures
        first_dot(s) is None,
{
    if exists|i: int| is_first_dot(s, i) {
        let k = choose|k: int| is_first_dot(s, k);
        assert(s[k] == '.');
    }
}

proof fn lemma_digits_value_prefix(w: Seq<char>, k: int)
    requires
        0 <= k <= w.len(),
    ensures
        digits_value(w.take(k)) <= digits_value(w),
    decreases w.len() - k,
{
    if k == w.len() {
        assert(w.take(k) =~= w);
    } else {
        let t = w.drop_last();
        lemma_digits_value_prefix(t, k);
        assert(t.take(k) =~= w.take(k));
    }
}

proof fn lemma_digits_value_bound(w: Seq<char>)
    requires
        all_digits(w),
    ensures
        digits_value(w) < pow10(w.len()),
    decreases w.len(),
{
    if w.len() > 0 {
        let t = w.drop_last();
        assert(is_digit(w[w.len() - 1]));
        assert forall|i: int| 0 <= i < t.len() implies is_digit(#[trigger] t[i]) by {
            assert(t[i] == w[i]);
        }
        lemma_digits_value_bound(t);
    }
}

/// The character of the digit `d`.
fn digit_char_of(d: u8) -> (c: char)
    requires
        d < 10,
    ensures
        c == digit_char(d as nat),
{
    (48 + d) as char
}

/// Appends `c` to `s` with `String::push`, which is claimed to leave the
/// characters of `s` followed by `c`.
#[verifier::external_body]
fn push_char(s: &mut String, c: char)
    ensures
        final(s)@ == old(s)@.push(c),
{
    s.push(c);
}

impl Amt {
    /// The text of the amount, normalized to at least one digit after the
    /// point and no trailing zeros beyond it: `Amt(12000)` gives `"1.2"`,
    /// `Amt(0)` gives `"0.0"`.
    pub fn to_string(&self) -> (r: String)
        requires
            self@ != i128::MIN,
        ensures
            r@ == amount_text(self@),
    {
        let v = self.0;
        let a: i128 = if v < 0 {
            -v
        } else {
            v
        };
        let whole = a / 10000;
        let frac = a % 10000;
        let mut out: Vec<char> = Vec::new();
        if v < 0 {
            out.push('-');
        }
        let ghost sign = out@;
        // the digits of the whole part, from the last one up
        let mut digits: Vec<char> = Vec::new();
        let mut n: i128 = whole;
        while n >= 10
            invariant
                0 <= n <= whole,
                nat_digits(whole as nat) == nat_digits(n as nat) + digits@,
            decreases n,
        {
            let d = digit_char_of((n % 10) as u8);
            proof {
                assert(nat_digits(n as nat) == nat_digits((n / 10) as nat).push(d));
                assert(nat_digits((n / 10) as nat) + (seq![d] + digits@) =~= nat_digits(n as nat)
                    + digits@);
            }
            digits.insert(0, d);
            n = n / 10;
        }
        let d = digit_char_of(n as u8);
        proof {
            assert(nat_digits(n as nat) == seq![d]);
            assert(seq![d] + digits@ =~= digits@.insert(0, d));
        }
        digits.insert(0, d);
        let mut i: usize = 0;
        while i < digits.len()
            invariant
                i <= digits.len(),
                out@ == sign + digits@.take(i as int),
            decreases digits.len() - i,
        {
            out.push(digits[i]);
            proof {
                assert(digits@.take(i + 1) =~= digits@.take(i as int).push(digits@[i as int]));
            }
            i += 1;
        }
        assert(digits@.take(digits.len() as int) =~= digits@);
        out.push('.');
        let ghost head = out@;
        let mut tail: Vec<char> = Vec::new();
        if frac == 0 {
            tail.push('0');
        } else {
            tail.push(digit_char_of((frac / 1000) as u8));
            tail.push(digit_char_of((frac / 100 % 10) as u8));
            tail.push(digit_char_of((frac / 10 % 10) as u8));
            tail.push(digit_char_of((frac % 10) as u8));
            let ghost four = tail@;
            proof {
                let f = frac as nat;
                assert(four =~= seq![
                    digit_char(f / 1000),
                    digit_char(f / 100 % 10),
                    digit_char(f / 10 % 10),
                    digit_char(f % 10),
                ]);
            }
            let mut k: usize = 4;
            while k > 0 && tail[k - 1] == '0'
                invariant
                    k <= 4,
                    tail@ == four,
                    four.len() == 4,
                    forall|j: int| k <= j < 4 ==> #[trigger] four[j] == '0',
                decreases k,
            {
                k -= 1;
            }
            proof {
                lemma_trim_trailing_zeros_take(four, k as int);
            }
            tail.truncate(k);
            assert(tail@ =~= four.take(k as int));
            assert(tail@ == fraction_digits(frac as nat));
        }
        assert(tail@ == fraction_digits(frac as nat));
        let mut j: usize = 0;
        while j < tail.len()
            invariant
                j <= tail.len(),
                out@ == head + tail@.take(j as int),
            decreases tail.len() - j,
        {
            out.push(tail[j]);
            proof {
                assert(tail@.take(j + 1) =~= tail@.take(j as int).push(tail@[j as int]));
            }
            j += 1;
        }
        assert(tail@.take(tail.len() as int) =~= tail@);
        assert(out@ =~= amount_text(self@));
        let mut r = String::new();
        let mut m: usize = 0;
        while m < out.len()
            invariant
                m <= out.len(),
                r@ == out@.take(m as int),
            decreases out.len() - m,
        {
            push_char(&mut r, out[m]);
            proof {
                assert(out@.take(m + 1) =~= out@.take(m as int).push(out@[m as int]));
            }
            m += 1;
        }
        assert(out@.take(out.len() as int) =~= out@);
        r
    }
}

/// Whether `c` is white space, as `is_white_space` says.
fn is_white_space_char(c: char) -> (r: bool)
    ensures
        r == is_white_space(c),
{
    let n = c as u32;
    (0x09 <= n && n <= 0x0d) || n == 0x20 || n == 0x85 || n == 0xa0 || n == 0x1680 || (0x2000
        <= n && n <= 0x200a) || n == 0x2028 || n == 0x2029 || n == 0x202f || n == 0x205f || n
        == 0x3000
}

/// The characters of `s`, in order.
fn chars_of(s: &str) -> (v: Vec<char>)
    ensures
        v@ == s@,
{
    let mut v: Vec<char> = Vec::new();
    for c in it: s.chars()
        invariant
            v@ == it.seq().take(it.index() as int),
    {
        v.push(c);
    }
    v
}

/// Whether all of `v[a..b]` are ASCII digits.
fn all_digits_in(v: &Vec<char>, a: usize, b: usize) -> (r: bool)
    requires
        a <= b <= v.len(),
    ensures
        r == all_digits(v@.subrange(a as int, b as int)),
{
    let mut i = a;
    while i < b
        invariant
            a <= i <= b <= v.len(),
            forall|j: int| a <= j < i ==> is_digit(#[trigger] v@[j]),
        decreases b - i,
    {
        let n = v[i] as u32;
        if n < 48 || n > 57 {
            assert(v@.subrange(a as int, b as int)[i - a] == v@[i as int]);
            return false;
        }
        i += 1;
    }
    assert forall|j: int| 0 <= j < b - a implies is_digit(
        #[trigger] v@.subrange(a as int, b as int)[j],
    ) by {
        assert(v@.subrange(a as int, b as int)[j] == v@[a + j]);
    }
    true
}

/// The number that the digits `v[a..b]` stand for, or `None` where it does
/// not fit in an `i128`.
fn digits_to_i128(v: &Vec<char>, a: usize, b: usize) -> (r: Option<i128>)
    requires
        a <= b <= v.len(),
        all_digits(v@.subrange(a as int, b as int)),
    ensures
        match r {
            Some(x) => x == digits_value(v@.subrange(a as int, b as int)),
            None => digits_value(v@.subrange(a as int, b as int)) > i128::MAX,
        },
{
    let ghost w = v@.subrange(a as int, b as int);
    let mut acc: i128 = 0;
    let mut i = a;
    assert(v@.subrange(a as int, a as int) =~= Seq::<char>::empty());
    while i < b
        invariant
            a <= i <= b <= v.len(),
            w == v@.subrange(a as int, b as int),
            all_digits(w),
            acc == digits_value(v@.subrange(a as int, i as int)),
        decreases b - i,
    {
        assert(w[i - a] == v@[i as int]);
        assert(is_digit(w[i - a]));
        let d = (v[i] as u32 - 48) as i128;
        let ghost next = v@.subrange(a as int, i + 1);
        assert(next.drop_last() =~= v@.subrange(a as int, i as int));
        assert(next.last() == v@[i as int]);
        assert(w.take(i + 1 - a) =~= next);
        match acc.checked_mul(10) {
            Some(m) => match m.checked_add(d) {
                Some(x) => {
                    acc = x;
                },
                None => {
                    proof {
                        lemma_digits_value_prefix(w, i + 1 - a);
                    }
                    return None;
                },
            },
            None => {
                proof {
                    lemma_digits_value_prefix(w, i + 1 - a);
                }
                return None;
            },
        }
        i += 1;
    }
    Some(acc)
}

/// Reads an amount without sign from `v[start..end]`, scaled by ten thousand.
fn parse_unsigned_amount(v: &Vec<char>, start: usize, end: usize) -> (r: Result<i128, &'static str>)
    requires
        start <= end <= v.len(),
    ensures
        match r {
            Ok(x) => unsigned_amount_value(v@.subrange(start as int, end as int)) == Ok::<
                int,
                Seq<char>,
            >(x as int),
            Err(e) => unsigned_amount_value(v@.subrange(start as int, end as int)) == Err::<
                int,
                Seq<char>,
            >(e@),
        },
{
    let ghost u = v@.subrange(start as int, end as int);
    let mut d = start;
    while d < end && v[d] != '.'
        invariant
            start <= d <= end <= v.len(),
            forall|j: int| start <= j < d ==> v@[j] != '.',
        decreases end - d,
    {
        d += 1;
    }
    let has_dot = d < end;
    proof {
        if has_dot {
            assert forall|j: int| 0 <= j < d - start implies u[j] != '.' by {
                assert(u[j] == v@[start + j]);
            }
            assert(u[d - start] == v@[d as int]);
            lemma_first_dot_at(u, d - start);
            assert(u.take(d - start) =~= v@.subrange(start as int, d as int));
            assert(u.skip(d - start + 1) =~= v@.subrange(d + 1, end as int));
        } else {
            assert forall|j: int| 0 <= j < u.len() implies u[j] != '.' by {
                assert(u[j] == v@[start + j]);
            }
            lemma_no_dot(u);
            assert(u =~= v@.subrange(start as int, d as int));
            assert(v@.subrange(end as int, end as int) =~= Seq::<char>::empty());
        }
    }
    let frac_start = if has_dot {
        d + 1
    } else {
        end
    };
    if has_dot && frac_start == end {
        return Err("empty fractional part");
    }
    if d == start || !all_digits_in(v, start, d) {
        return Err("invalid integer part");
    }
    if end - frac_start > 4 || !all_digits_in(v, frac_start, end) {
        return Err("invalid fractional part");
    }
    let whole = match digits_to_i128(v, start, d) {
        Some(w) => w,
        None => {
            return Err("integer overflow");
        },
    };
    let ghost f = v@.subrange(frac_start as int, end as int);
    proof {
        lemma_digits_value_bound(f);
        reveal_with_fuel(pow10, 5);
        assert(pow10(f.len()) <= 10000);
    }
    let frac = match digits_to_i128(v, frac_start, end) {
        Some(x) => x,
        None => {
            return Err("integer overflow");
        },
    };
    let flen = end - frac_start;
    let mut scaled = frac;
    let mut k = flen;
    proof {
        assert(pow10(0) == 1);
        assert(scaled == digits_value(f) * pow10(0));
    }
    while k < 4
        invariant
            flen <= k <= 4,
            flen == f.len(),
            0 <= scaled,
            scaled == digits_value(f) * pow10((k - flen) as nat),
            scaled < pow10(k as nat),
        decreases 4 - k,
    {
        proof {
            let p = pow10((k - flen) as nat);
            assert(pow10((k + 1 - flen) as nat) == 10 * p);
            assert(pow10((k + 1) as nat) == 10 * pow10(k as nat));
            assert(scaled * 10 == digits_value(f) * (10 * p)) by (nonlinear_arith)
                requires
                    scaled == digits_value(f) * p,
            ;
            reveal_with_fuel(pow10, 5);
        }
        scaled = scaled * 10;
        k += 1;
    }
    match whole.checked_mul(10000) {
        Some(m) => match m.checked_add(scaled) {
            Some(x) => Ok(x),
            None => Err("value overflow"),
        },
        None => Err("value overflow"),
    }
}

/// Reads a decimal amount with up to four digits after the point, such as
/// `"1"`, `"-1.5"` or `"+0.0001"`, scaled by [`Amt::SCALE`]. White space
/// around it is ignored; an error gives the reason as a message.
pub fn parse_amt(s: &str) -> (r: Result<Amt, &'static str>)
    ensures
        match r {
            Ok(a) => amount_value(s@) == Ok::<int, Seq<char>>(a@),
            Err(e) => amount_value(s@) == Err::<int, Seq<char>>(e@),
        },
{
    let v = chars_of(s);
    let n = v.len();
    let mut lo: usize = 0;
    while lo < n && is_white_space_char(v[lo])
        invariant
            lo <= n == v.len(),
            forall|j: int| 0 <= j < lo ==> is_white_space(#[trigger] v@[j]),
        decreases n - lo,
    {
        lo += 1;
    }
    let mut hi: usize = n;
    while hi > lo && is_white_space_char(v[hi - 1])
        invariant
            lo <= hi <= n == v.len(),
            forall|j: int| hi <= j < n ==> is_white_space(#[trigger] v@[j]),
        decreases hi,
    {
        hi -= 1;
    }
    proof {
        lemma_trim_start_skip(v@, lo as int);
        let rest = v@.skip(lo as int);
        assert(trim_start(rest) == rest);
        assert forall|j: int| hi - lo <= j < rest.len() implies is_white_space(#[trigger] rest[j]) by {
            assert(rest[j] == v@[lo + j]);
        }
        lemma_trim_end_take(rest, hi - lo);
        assert(rest.take(hi - lo) =~= v@.subrange(lo as int, hi as int));
        assert(trim(v@) == v@.subrange(lo as int, hi as int));
    }
    if lo == hi {
        return Err("empty string");
    }
    let first = v[lo];
    let negative = first == '-';
    let start = if first == '-' || first == '+' {
        lo + 1
    } else {
        lo
    };
    proof {
        let t = v@.subrange(lo as int, hi as int);
        assert(t[0] == first);
        if start == lo + 1 {
            assert(t.drop_first() =~= v@.subrange(start as int, hi as int));
        }
    }
    match parse_unsigned_amount(&v, start, hi) {
        Ok(x) => Ok(
            Amt(
                if negative {
                    -x
                } else {
                    x
                },
            ),
        ),
        Err(e) => Err(e),
    }
}


proof fn lemma_digit_char(d: nat)
    requires
        d < 10,
    ensures
        is_digit(digit_char(d)),
        digit_value(digit_char(d)) == d,
        !is_white_space(digit_char(d)),
        digit_char(d) != '.',
        digit_char(d) != '-',
        digit_char(d) != '+',
{
}

proof fn lemma_nat_digits(n: nat)
    ensures
        nat_digits(n).len() >= 1,
        all_digits(nat_digits(n)),
        digits_value(nat_digits(n)) == n,
    decreases n,
{
    if n < 10 {
        lemma_digit_char(n);
        assert(nat_digits(n).drop_last() =~= Seq::<char>::empty());
        assert(digits_value(Seq::<char>::empty()) == 0);
        assert(nat_digits(n).last() == digit_char(n));
    } else {
        lemma_nat_digits(n / 10);
        lemma_digit_char(n % 10);
        let s = nat_digits(n);
        assert(s.drop_last() =~= nat_digits(n / 10));
        assert(s.last() == digit_char(n % 10));
        assert(digits_value(s) == digits_value(nat_digits(n / 10)) * 10 + n % 10);
        assert(n == (n / 10) * 10 + n % 10);
        assert forall|i: int| 0 <= i < s.len() implies is_digit(#[trigger] s[i]) by {
            if i < s.len() - 1 {
                assert(s[i] == nat_digits(n / 10)[i]);
            }
        }
    }
}

#[verifier::spinoff_prover]
#[verifier::rlimit(40)]
proof fn lemma_fraction_digits(f: nat)
    requires
        f < 10000,
    ensures
        1 <= fraction_digits(f).len() <= 4,
        all_digits(fraction_digits(f)),
        digits_value(fraction_digits(f)) * pow10((4 - fraction_digits(f).len()) as nat) == f,
{
    reveal_with_fuel(pow10, 5);
    let d1 = f / 1000;
    let d2 = f / 100 % 10;
    let d3 = f / 10 % 10;
    let d4 = f % 10;
    lemma_digit_char(d1);
    lemma_digit_char(d2);
    lemma_digit_char(d3);
    lemma_digit_char(d4);
    lemma_digit_char(0);
    assert(f == 1000 * d1 + 100 * d2 + 10 * d3 + d4);
    let four = seq![digit_char(d1), digit_char(d2), digit_char(d3), digit_char(d4)];
    if f == 0 {
        let z = seq!['0'];
        assert(z.drop_last() =~= Seq::<char>::empty());
        assert(digit_value('0') == 0);
        assert(digits_value(Seq::<char>::empty()) == 0);
        assert(is_digit(z[0]));
        assert(z.last() == '0');
        assert(fraction_digits(f) == z);
        assert(digits_value(z) == 0);
        assert(digits_value(z) * pow10(3) == 0);
    } else {
        let k: int = if d4 != 0 {
            4
        } else if d3 != 0 {
            3
        } else if d2 != 0 {
            2
        } else {
            1
        };
        assert(four[0] == digit_char(d1) && four[1] == digit_char(d2) && four[2] == digit_char(d3)
            && four[3] == digit_char(d4));
        assert(d4 == 0 ==> four[3] == '0');
        assert(d3 == 0 ==> four[2] == '0');
        assert(d2 == 0 ==> four[1] == '0');
        assert(d1 == 0 ==> four[0] == '0');
        assert(d4 != 0 ==> four[3] != '0');
        assert(d3 != 0 ==> four[2] != '0');
        assert(d2 != 0 ==> four[1] != '0');
        assert(d1 != 0 ==> four[0] != '0');
        lemma_trim_trailing_zeros_take(four, k);
        let t = four.take(k);
        assert(fraction_digits(f) == t);
        assert forall|i: int| 0 <= i < t.len() implies is_digit(#[trigger] t[i]) by {
            assert(t[i] == four[i]);
        }
        let t1 = four.take(1);
        let t2 = four.take(2);
        let t3 = four.take(3);
        assert(t1.drop_last() =~= Seq::<char>::empty());
        assert(t2.drop_last() =~= t1);
        assert(t3.drop_last() =~= t2);
        assert(four.take(4).drop_last() =~= t3);
        assert(digits_value(Seq::<char>::empty()) == 0);
        assert(t1.last() == four[0]);
        assert(digits_value(t1) == d1);
        assert(digits_value(t2) == d1 * 10 + d2);
        assert(digits_value(t3) == (d1 * 10 + d2) * 10 + d3);
        assert(digits_value(four.take(4)) == ((d1 * 10 + d2) * 10 + d3) * 10 + d4);
        assert(t.len() == k);
        let p = pow10((4 - k) as nat);
        let dv = digits_value(t);
        if k == 1 {
            assert(t =~= t1);
            assert(p == 1000);
            assert(dv * p == dv * 1000);
        } else if k == 2 {
            assert(t =~= t2);
            assert(p == 100);
            assert(dv * p == dv * 100);
        } else if k == 3 {
            assert(t =~= t3);
            assert(p == 10);
            assert(dv * p == dv * 10);
        } else {
            assert(t =~= four.take(4));
            assert(p == 1);
            assert(dv * p == dv);
        }
    }
}

/// Reading back the text of an amount gives the amount: for every value but
/// `i128::MIN`, whose text `Amt::to_string` does not write,
/// `parse_amt(&a.to_string()) == Ok(a)`.
pub proof fn lemma_text_round_trip(v: int)
    requires
        i128::MIN < v <= i128::MAX,
    ensures
        amount_value(amount_text(v)) == Ok::<int, Seq<char>>(v),
{
    let a: int = if v < 0 {
        -v
    } else {
        v
    };
    let w = (a / 10000) as nat;
    let f = (a % 10000) as nat;
    let sign = if v < 0 {
        seq!['-']
    } else {
        Seq::<char>::empty()
    };
    let d = nat_digits(w);
    let fr = fraction_digits(f);
    lemma_nat_digits(w);
    lemma_fraction_digits(f);
    let dot = seq!['.'];
    let u = d + dot + fr;
    let text = sign + u;
    assert(amount_text(v) =~= text);
    // no white space at either end
    assert(is_digit(d[0]));
    lemma_digit_char(digit_value(d[0]));
    assert(is_digit(fr[fr.len() - 1]));
    assert(text[0] == (if v < 0 {
        '-'
    } else {
        d[0]
    }));
    assert(!is_white_space(text[0]));
    assert(text.last() == fr[fr.len() - 1]);
    assert(!is_white_space(text.last()));
    assert(trim_start(text) == text);
    assert(trim(text) == text);
    // the sign
    assert(!is_white_space(d[0]) && d[0] != '-' && d[0] != '+') by {
        assert(48 <= d[0] as u32 <= 57);
    }
    if v < 0 {
        assert(text.drop_first() =~= u);
    } else {
        assert(text =~= u);
    }
    // the point
    assert forall|j: int| 0 <= j < d.len() implies u[j] != '.' by {
        assert(u[j] == d[j]);
        assert(is_digit(d[j]));
    }
    assert(u[d.len() as int] == '.');
    lemma_first_dot_at(u, d.len() as int);
    assert(u.take(d.len() as int) =~= d);
    assert(u.skip(d.len() as int + 1) =~= fr);
    assert(digits_value(d) * 10000 + digits_value(fr) * pow10((4 - fr.len()) as nat) == a);
}

/// `n` zero digits.
pub open spec fn zeros(n: nat) -> Seq<char> {
    Seq::new(n, |i: int| '0')
}

proof fn lemma_pow10_add(a: nat, b: nat)
    ensures
        pow10(a + b) == pow10(a) * pow10(b),
    decreases b,
{
    if b > 0 {
        lemma_pow10_add(a, (b - 1) as nat);
        assert(pow10(a + b) == 10 * pow10((a + b - 1) as nat));
        assert(pow10(b) == 10 * pow10((b - 1) as nat));
        assert(10 * (pow10(a) * pow10((b - 1) as nat)) == pow10(a) * (10 * pow10((b - 1) as nat)))
            by (nonlinear_arith);
    } else {
        assert(pow10(0) == 1);
        assert(pow10(a) * 1 == pow10(a));
    }
}

proof fn lemma_digits_value_concat(a: Seq<char>, b: Seq<char>)
    ensures
        digits_value(a + b) == digits_value(a) * pow10(b.len()) + digits_value(b),
    decreases b.len(),
{
    if b.len() == 0 {
        assert(a + b =~= a);
        assert(digits_value(b) == 0);
        assert(pow10(0) == 1);
        assert(digits_value(a) * 1 == digits_value(a));
    } else {
        let b1 = b.drop_last();
        lemma_digits_value_concat(a, b1);
        assert((a + b).drop_last() =~= a + b1);
        assert((a + b).last() == b.last());
        let p = pow10(b1.len());
        assert(pow10(b.len()) == 10 * p);
        assert((digits_value(a) * p + digits_value(b1)) * 10 == digits_value(a) * (10 * p)
            + digits_value(b1) * 10) by (nonlinear_arith);
        assert(digits_value(a + b) == digits_value(a + b1) * 10 + digit_value(b.last()));
        assert(digits_value(b) == digits_value(b1) * 10 + digit_value(b.last()));
    }
}

proof fn lemma_zeros(n: nat)
    ensures
        all_digits(zeros(n)),
        digits_value(zeros(n)) == 0,
    decreases n,
{
    if n > 0 {
        lemma_zeros((n - 1) as nat);
        assert(zeros(n).drop_last() =~= zeros((n - 1) as nat));
        assert(zeros(n).last() == '0');
    } else {
        assert(digits_value(zeros(0)) == 0);
    }
}

/// What an amount written as digits `w`, optionally followed by `.` and one
/// to four digits `f`, and preceded by `-`, `+` or nothing, reads as: the
/// number whose digits are `w`, then `f`, then zeros up to four digits after
/// the point, negated after a `-`. So `"25"` reads as `250000` and `"-1.5"` as
/// `-15000`.
pub proof fn law_parse_decimal(sign: Seq<char>, w: Seq<char>, f: Seq<char>)
    requires
        sign == Seq::<char>::empty() || sign == seq!['-'] || sign == seq!['+'],
        w.len() >= 1,
        all_digits(w),
        all_digits(f),
        f.len() <= 4,
        digits_value(w + f + zeros((4 - f.len()) as nat)) <= i128::MAX,
    ensures
        ({
            let text = sign + w + (if f.len() == 0 {
                Seq::<char>::empty()
            } else {
                seq!['.'] + f
            });
            let v = digits_value(w + f + zeros((4 - f.len()) as nat)) as int;
            amount_value(text) == Ok::<int, Seq<char>>(
                if sign == seq!['-'] {
                    -v
                } else {
                    v
                },
            )
        }),
{
    let tail = if f.len() == 0 {
        Seq::<char>::empty()
    } else {
        seq!['.'] + f
    };
    let u = w + tail;
    let text = sign + u;
    assert(text =~= sign + w + tail);
    let k = (4 - f.len()) as nat;
    // the value
    lemma_zeros(k);
    lemma_digits_value_concat(w + f, zeros(k));
    lemma_digits_value_concat(w, f);
    lemma_pow10_add(f.len(), k);
    reveal_with_fuel(pow10, 5);
    assert(f.len() + k == 4);
    assert(pow10(4) == 10000);
    let v = digits_value(w + f + zeros(k));
    assert(v == (digits_value(w) * pow10(f.len()) + digits_value(f)) * pow10(k));
    assert(v == digits_value(w) * 10000 + digits_value(f) * pow10(k)) by (nonlinear_arith)
        requires
            v == (digits_value(w) * pow10(f.len()) + digits_value(f)) * pow10(k),
            pow10(f.len()) * pow10(k) == 10000,
    ;
    assert(digits_value(w) <= digits_value(w) * 10000) by (nonlinear_arith);
    // no white space at either end
    assert(is_digit(w[0]));
    assert(!is_white_space(w[0]));
    let last = if f.len() == 0 {
        w.last()
    } else {
        f.last()
    };
    assert(is_digit(last));
    assert(text.last() == last);
    assert(!is_white_space(text.last()));
    assert(text[0] == (if sign.len() == 0 {
        w[0]
    } else {
        sign[0]
    }));
    assert(!is_white_space(text[0]));
    assert(trim_start(text) == text);
    assert(trim(text) == text);
    // the sign
    assert(w[0] != '-' && w[0] != '+');
    if sign.len() == 1 {
        assert(text.drop_first() =~= u);
    } else {
        assert(text =~= u);
    }
    // the point
    assert forall|j: int| 0 <= j < w.len() implies u[j] != '.' by {
        assert(u[j] == w[j]);
        assert(is_digit(w[j]));
    }
    if f.len() == 0 {
        assert(u =~= w);
        lemma_no_dot(u);
        assert(digits_value(Seq::<char>::empty()) == 0);
    } else {
        assert(u[w.len() as int] == '.');
        lemma_first_dot_at(u, w.len() as int);
        assert(u.take(w.len() as int) =~= w);
        assert(u.skip(w.len() as int + 1) =~= f);
    }
}

/// A whole number without a point reads as that many units: the digits `w`
/// read as `digits_value(w) * 10000`.
pub proof fn law_parse_whole_number(w: Seq<char>)
    requires
        w.len() >= 1,
        all_digits(w),
        digits_value(w) * 10000 <= i128::MAX,
    ensures
        amount_value(w) == Ok::<int, Seq<char>>((digits_value(w) * 10000) as int),
{
    let e = Seq::<char>::empty();
    lemma_zeros(4);
    lemma_digits_value_concat(w, zeros(4));
    reveal_with_fuel(pow10, 5);
    assert(w + e =~= w);
    assert(e + w + e =~= w);
    assert(all_digits(e));
    law_parse_decimal(e, w, e);
}

} // verus!
