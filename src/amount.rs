//! Exact signed decimal amounts of any size.
//!
//! An amount keeps its magnitude as decimal digits, least significant first,
//! so that balances never round and never overflow.
use vstd::prelude::*;

verus! {

pub open spec fn pow10(n: nat) -> int
    decreases n,
{
    if n == 0 {
        1
    } else {
        10 * pow10((n - 1) as nat)
    }
}

/// The digit at position `i`, reading past the end as zero.
pub open spec fn digit_at(ds: Seq<u8>, i: int) -> int {
    if 0 <= i < ds.len() {
        ds[i] as int
    } else {
        0
    }
}

/// The value of the lowest `n` positions of little-endian digits.
pub open spec fn prefix_value(ds: Seq<u8>, n: nat) -> int
    decreases n,
{
    if n == 0 {
        0
    } else {
        prefix_value(ds, (n - 1) as nat) + digit_at(ds, n - 1) * pow10((n - 1) as nat)
    }
}

/// The value of little-endian decimal digits.
pub open spec fn digits_value(ds: Seq<u8>) -> int {
    prefix_value(ds, ds.len())
}

pub open spec fn valid_digits(ds: Seq<u8>) -> bool {
    forall|i: int| 0 <= i < ds.len() ==> #[trigger] ds[i] < 10
}

/// No zero in the most significant place; zero has no digits at all.
pub open spec fn normalized(ds: Seq<u8>) -> bool {
    ds.len() > 0 ==> ds.last() != 0
}

pub open spec fn signed_value(negative: bool, ds: Seq<u8>) -> int {
    if negative {
        -digits_value(ds)
    } else {
        digits_value(ds)
    }
}

proof fn lemma_pow10_pos(n: nat)
    ensures
        pow10(n) >= 1,
    decreases n,
{
    if n > 0 {
        lemma_pow10_pos((n - 1) as nat);
    }
}

/// Digits agreeing below `n` give the same value below `n`.
proof fn lemma_prefix_agree(a: Seq<u8>, b: Seq<u8>, n: nat)
    requires
        forall|i: int| 0 <= i < n ==> digit_at(a, i) == digit_at(b, i),
    ensures
        prefix_value(a, n) == prefix_value(b, n),
    decreases n,
{
    if n > 0 {
        lemma_prefix_agree(a, b, (n - 1) as nat);
    }
}

/// Positions past the last digit add nothing.
proof fn lemma_prefix_past_end(ds: Seq<u8>, n: nat)
    requires
        n >= ds.len(),
    ensures
        prefix_value(ds, n) == digits_value(ds),
    decreases n,
{
    if n > ds.len() {
        lemma_prefix_past_end(ds, (n - 1) as nat);
    }
}

/// Valid digits below `n` are worth less than `10^n`.
proof fn lemma_prefix_bound(ds: Seq<u8>, n: nat)
    requires
        valid_digits(ds),
    ensures
        0 <= prefix_value(ds, n) < pow10(n),
    decreases n,
{
    if n > 0 {
        let m = (n - 1) as nat;
        lemma_prefix_bound(ds, m);
        lemma_pow10_pos(m);
        let d = digit_at(ds, m as int);
        let p = pow10(m);
        assert(0 <= d <= 9);
        assert(0 <= d * p <= 9 * p) by (nonlinear_arith)
            requires
                0 <= d <= 9,
                p >= 1,
        ;
    }
}

/// Appending one digit at the top adds it at its place.
proof fn lemma_push_value(ds: Seq<u8>, d: u8)
    ensures
        digits_value(ds.push(d)) == digits_value(ds) + d * pow10(ds.len()),
{
    let t = ds.push(d);
    lemma_prefix_agree(t, ds, ds.len());
}

/// Dropping a zero at the top keeps the value.
proof fn lemma_drop_zero(ds: Seq<u8>)
    requires
        ds.len() > 0,
        ds.last() == 0,
    ensures
        digits_value(ds.drop_last()) == digits_value(ds),
{
    let t = ds.drop_last();
    lemma_prefix_agree(ds, t, t.len());
}

/// Adding the digit sum `s` at place `p` as a digit and a carry.
proof fn lemma_carry(s: int, p: int)
    requires
        0 <= s,
    ensures
        (s % 10) * p + (s / 10) * (10 * p) == s * p,
{
    assert((s % 10) * p + (s / 10) * (10 * p) == s * p) by (nonlinear_arith)
        requires
            s == 10 * (s / 10) + s % 10,
    ;
}

/// The sum of two digit sequences.
fn add_digits(a: &Vec<u8>, b: &Vec<u8>) -> (r: Vec<u8>)
    requires
        valid_digits(a@),
        valid_digits(b@),
    ensures
        valid_digits(r@),
        digits_value(r@) == digits_value(a@) + digits_value(b@),
{
    let n: usize = if a.len() >= b.len() { a.len() } else { b.len() };
    let mut r: Vec<u8> = Vec::new();
    let mut carry: u8 = 0;
    let mut i: usize = 0;
    while i < n
        invariant
            i <= n,
            n == if a@.len() >= b@.len() { a@.len() } else { b@.len() },
            r@.len() == i,
            carry <= 1,
            valid_digits(a@),
            valid_digits(b@),
            valid_digits(r@),
            digits_value(r@) + carry * pow10(i as nat) == prefix_value(a@, i as nat)
                + prefix_value(b@, i as nat),
        decreases n - i,
    {
        let da: u8 = if i < a.len() { a[i] } else { 0 };
        let db: u8 = if i < b.len() { b[i] } else { 0 };
        assert(da == digit_at(a@, i as int) && db == digit_at(b@, i as int));
        let s: u8 = da + db + carry;
        proof {
            let p = pow10(i as nat);
            assert(pow10((i + 1) as nat) == 10 * p);
            assert(prefix_value(a@, (i + 1) as nat) == prefix_value(a@, i as nat) + da * p);
            assert(prefix_value(b@, (i + 1) as nat) == prefix_value(b@, i as nat) + db * p);
            lemma_push_value(r@, s % 10);
            lemma_carry(s as int, p);
            assert(s * p == da * p + db * p + carry * p) by (nonlinear_arith)
                requires
                    s == da + db + carry,
            ;
        }
        r.push(s % 10);
        carry = s / 10;
        i = i + 1;
    }
    proof {
        lemma_prefix_past_end(a@, n as nat);
        lemma_prefix_past_end(b@, n as nat);
    }
    if carry > 0 {
        proof {
            lemma_push_value(r@, carry);
        }
        r.push(carry);
    }
    r
}

/// The difference of two digit sequences, as digits of the common length
/// and whether a borrow ran out of the top, which stands for `-10^len`.
fn sub_digits(a: &Vec<u8>, b: &Vec<u8>) -> (r: (Vec<u8>, bool))
    requires
        valid_digits(a@),
        valid_digits(b@),
    ensures
        valid_digits(r.0@),
        digits_value(r.0@) - (if r.1 { pow10(r.0@.len()) } else { 0 }) == digits_value(a@)
            - digits_value(b@),
{
    let n: usize = if a.len() >= b.len() { a.len() } else { b.len() };
    let mut r: Vec<u8> = Vec::new();
    let mut borrow: u8 = 0;
    let mut i: usize = 0;
    while i < n
        invariant
            i <= n,
            n == if a@.len() >= b@.len() { a@.len() } else { b@.len() },
            r@.len() == i,
            borrow <= 1,
            valid_digits(a@),
            valid_digits(b@),
            valid_digits(r@),
            digits_value(r@) - borrow * pow10(i as nat) == prefix_value(a@, i as nat)
                - prefix_value(b@, i as nat),
        decreases n - i,
    {
        let da: u8 = if i < a.len() { a[i] } else { 0 };
        let db: u8 = if i < b.len() { b[i] } else { 0 };
        assert(da == digit_at(a@, i as int) && db == digit_at(b@, i as int));
        let taken: u8 = db + borrow;
        let ghost p = pow10(i as nat);
        proof {
            assert(pow10((i + 1) as nat) == 10 * p);
            assert(prefix_value(a@, (i + 1) as nat) == prefix_value(a@, i as nat) + da * p);
            assert(prefix_value(b@, (i + 1) as nat) == prefix_value(b@, i as nat) + db * p);
            assert(da * p - db * p - borrow * p == (da - taken) * p) by (nonlinear_arith)
                requires
                    taken == db + borrow,
            ;
        }
        let d: u8;
        if da >= taken {
            d = da - taken;
            proof {
                lemma_push_value(r@, d);
            }
            borrow = 0;
        } else {
            d = da + 10 - taken;
            proof {
                lemma_push_value(r@, d);
                assert(d * p - 1 * (10 * p) == (da - taken) * p) by (nonlinear_arith)
                    requires
                        d == da + 10 - taken,
                ;
            }
            borrow = 1;
        }
        r.push(d);
        i = i + 1;
    }
    proof {
        lemma_prefix_past_end(a@, n as nat);
        lemma_prefix_past_end(b@, n as nat);
    }
    (r, borrow == 1)
}

/// Appends one character: relies on `String::push`, which std documents as
/// appending the given char to the end of the string.
pub assume_specification[ String::push ](s: &mut String, ch: char)
    ensures
        final(s)@ == old(s)@.push(ch),
;

pub open spec fn is_digit_char(c: char) -> bool {
    '0' <= c <= '9'
}

pub open spec fn char_digit(c: char) -> int {
    c as int - '0' as int
}

/// The character of the decimal digit `d`.
pub open spec fn digit_char(d: int) -> char {
    if d == 0 {
        '0'
    } else if d == 1 {
        '1'
    } else if d == 2 {
        '2'
    } else if d == 3 {
        '3'
    } else if d == 4 {
        '4'
    } else if d == 5 {
        '5'
    } else if d == 6 {
        '6'
    } else if d == 7 {
        '7'
    } else if d == 8 {
        '8'
    } else {
        '9'
    }
}

/// The decimal text of `n`, without leading zeros.
pub open spec fn nat_text(n: nat) -> Seq<char>
    decreases n,
{
    if n < 10 {
        seq![digit_char(n as int)]
    } else {
        nat_text(n / 10).push(digit_char((n % 10) as int))
    }
}

/// The decimal text of `v`, with a minus sign when negative.
pub open spec fn int_text(v: int) -> Seq<char> {
    if v < 0 {
        seq!['-'] + nat_text((-v) as nat)
    } else {
        nat_text(v as nat)
    }
}

/// The value of a run of decimal digit characters.
pub open spec fn digits_text_value(t: Seq<char>) -> int
    decreases t.len(),
{
    if t.len() == 0 {
        0
    } else {
        10 * digits_text_value(t.drop_last()) + char_digit(t.last())
    }
}

pub open spec fn is_digits_text(t: Seq<char>) -> bool {
    &&& t.len() > 0
    &&& forall|i: int| 0 <= i < t.len() ==> is_digit_char(#[trigger] t[i])
}

/// Decimal text of an integer: digits, with an optional minus sign before.
pub open spec fn is_int_text(t: Seq<char>) -> bool {
    if t.len() > 0 && t[0] == '-' {
        is_digits_text(t.drop_first())
    } else {
        is_digits_text(t)
    }
}

pub open spec fn int_text_value(t: Seq<char>) -> int {
    if t.len() > 0 && t[0] == '-' {
        -digits_text_value(t.drop_first())
    } else {
        digits_text_value(t)
    }
}

pub(crate) fn digit_to_char(d: u8) -> (c: char)
    requires
        d < 10,
    ensures
        c == digit_char(d as int),
{
    if d == 0 {
        '0'
    } else if d == 1 {
        '1'
    } else if d == 2 {
        '2'
    } else if d == 3 {
        '3'
    } else if d == 4 {
        '4'
    } else if d == 5 {
        '5'
    } else if d == 6 {
        '6'
    } else if d == 7 {
        '7'
    } else if d == 8 {
        '8'
    } else {
        '9'
    }
}

/// A digit put below `t` multiplies the value of `t` by ten.
proof fn lemma_prepend_value(d: u8, t: Seq<u8>)
    ensures
        digits_value(seq![d] + t) == d + 10 * digits_value(t),
    decreases t.len(),
{
    if t.len() == 0 {
        lemma_push_value(Seq::<u8>::empty(), d);
        assert(Seq::<u8>::empty().push(d) =~= seq![d] + t);
        assert(digits_value(Seq::<u8>::empty()) == 0);
        assert(pow10(0) == 1);
    } else {
        let u = t.drop_last();
        let x = t.last();
        lemma_prepend_value(d, u);
        assert(seq![d] + t == (seq![d] + u).push(x));
        assert(t == u.push(x));
        lemma_push_value(seq![d] + u, x);
        lemma_push_value(u, x);
        let p = pow10(u.len());
        assert(pow10((u.len() + 1) as nat) == 10 * p);
        assert(x * (10 * p) == 10 * (x * p)) by (nonlinear_arith);
    }
}

/// The characters of valid digits, most significant first.
pub open spec fn digits_chars(ds: Seq<u8>) -> Seq<char> {
    Seq::new(ds.len(), |j: int| digit_char(ds[ds.len() - 1 - j] as int))
}

/// Printing normalized digits top first gives the decimal text of their value.
proof fn lemma_digits_text(ds: Seq<u8>)
    requires
        valid_digits(ds),
        normalized(ds),
        ds.len() > 0,
    ensures
        nat_text(digits_value(ds) as nat) == digits_chars(ds),
    decreases ds.len(),
{
    let d = ds[0];
    let t = ds.drop_first();
    assert(ds == seq![d] + t);
    lemma_prepend_value(d, t);
    lemma_prefix_bound(t, t.len());
    if t.len() == 0 {
        assert(nat_text(digits_value(ds) as nat) =~= digits_chars(ds));
    } else {
        lemma_digits_text(t);
        lemma_top_digit_value(t);
        let v = digits_value(ds);
        assert(v / 10 == digits_value(t));
        assert(v % 10 == d as int);
        assert(nat_text(v as nat) =~= digits_chars(ds));
    }
}

/// The digit values of a run of digit characters, least significant first.
pub open spec fn text_digits(t: Seq<char>) -> Seq<u8> {
    Seq::new(t.len(), |j: int| char_digit(t[t.len() - 1 - j]) as u8)
}

proof fn lemma_text_digits_value(t: Seq<char>)
    requires
        forall|i: int| 0 <= i < t.len() ==> is_digit_char(#[trigger] t[i]),
    ensures
        valid_digits(text_digits(t)),
        digits_value(text_digits(t)) == digits_text_value(t),
    decreases t.len(),
{
    if t.len() == 0 {
        assert(text_digits(t) =~= Seq::<u8>::empty());
    } else {
        let u = t.drop_last();
        let c = t.last();
        assert forall|i: int| 0 <= i < u.len() implies is_digit_char(#[trigger] u[i]) by {
            assert(u[i] == t[i]);
        }
        lemma_text_digits_value(u);
        assert(text_digits(t) =~= seq![char_digit(c) as u8] + text_digits(u));
        lemma_prepend_value(char_digit(c) as u8, text_digits(u));
    }
}

proof fn lemma_digit_char(d: int)
    requires
        0 <= d < 10,
    ensures
        is_digit_char(digit_char(d)),
        char_digit(digit_char(d)) == d,
        digit_char(d) != '-',
{
}

/// An ASCII character is a digit exactly when its byte is one.
proof fn lemma_ascii_digit(c: char)
    requires
        '\0' <= c <= '\u{7f}',
    ensures
        is_digit_char(c) <==> (48 <= (c as u8) <= 57),
        is_digit_char(c) ==> char_digit(c) == (c as u8) - 48,
{
}

/// The decimal text of a natural number is a run of digits worth that number.
proof fn lemma_nat_text_value(n: nat)
    ensures
        is_digits_text(nat_text(n)),
        digits_text_value(nat_text(n)) == n,
        nat_text(n)[0] != '-',
    decreases n,
{
    lemma_digit_char((n % 10) as int);
    let t = nat_text(n);
    assert(digits_text_value(t) == 10 * digits_text_value(t.drop_last()) + char_digit(t.last()));
    if n < 10 {
        assert(t.drop_last() =~= Seq::<char>::empty());
        assert(digits_text_value(t.drop_last()) == 0);
    } else {
        lemma_nat_text_value(n / 10);
        assert(t.drop_last() == nat_text(n / 10));
        assert forall|i: int| 0 <= i < t.len() implies is_digit_char(#[trigger] t[i]) by {
            if i < t.len() - 1 {
                assert(t[i] == nat_text(n / 10)[i]);
            }
        }
    }
}

/// Reading back the decimal text of an integer gives the integer.
pub proof fn lemma_text_round_trip(v: int)
    ensures
        is_int_text(int_text(v)),
        int_text_value(int_text(v)) == v,
{
    if v < 0 {
        let m = (-v) as nat;
        lemma_nat_text_value(m);
        assert((seq!['-'] + nat_text(m)).drop_first() =~= nat_text(m));
    } else {
        lemma_nat_text_value(v as nat);
    }
}

/// Drops the zeros at the top of `ds`.
fn normalize(ds: Vec<u8>) -> (r: Vec<u8>)
    requires
        valid_digits(ds@),
    ensures
        valid_digits(r@),
        normalized(r@),
        digits_value(r@) == digits_value(ds@),
{
    let mut r = ds;
    while r.len() > 0 && r[r.len() - 1] == 0
        invariant
            valid_digits(r@),
            digits_value(r@) == digits_value(ds@),
        decreases r@.len(),
    {
        proof {
            lemma_drop_zero(r@);
        }
        r.pop();
    }
    r
}

/// A signed integer of any size, exact in every operation.
#[derive(Debug)]
pub struct Amount {
    negative: bool,
    digits: Vec<u8>,
}

impl View for Amount {
    type V = int;

    closed spec fn view(&self) -> int {
        signed_value(self.negative, self.digits@)
    }
}

impl Amount {
    #[verifier::type_invariant]
    closed spec fn inv(&self) -> bool {
        &&& valid_digits(self.digits@)
        &&& normalized(self.digits@)
        &&& self.negative ==> self.digits@.len() > 0
    }

    /// Zero.
    pub fn zero() -> (r: Amount)
        ensures
            r@ == 0,
    {
        Amount { negative: false, digits: Vec::new() }
    }

    /// The amount with sign `negative` and magnitude `ds`; zero is never
    /// negative.
    fn from_parts(negative: bool, ds: Vec<u8>) -> (r: Amount)
        requires
            valid_digits(ds@),
        ensures
            r@ == signed_value(negative, ds@),
    {
        let ds = normalize(ds);
        let negative = negative && ds.len() > 0;
        Amount { negative, digits: ds }
    }

    /// The sum of two signed digit sequences.
    fn combine(an: bool, a: &Vec<u8>, bn: bool, b: &Vec<u8>) -> (r: Amount)
        requires
            valid_digits(a@),
            valid_digits(b@),
        ensures
            r@ == signed_value(an, a@) + signed_value(bn, b@),
    {
        if an == bn {
            Amount::from_parts(an, add_digits(a, b))
        } else {
            let (d, borrow) = sub_digits(a, b);
            if !borrow {
                Amount::from_parts(an, d)
            } else {
                proof {
                    lemma_prefix_bound(d@, d@.len());
                }
                let (e, borrow_back) = sub_digits(b, a);
                proof {
                    lemma_prefix_bound(e@, e@.len());
                    if borrow_back {
                        lemma_pow10_pos(e@.len());
                    }
                }
                Amount::from_parts(bn, e)
            }
        }
    }

    /// `self + other`.
    pub fn add(&self, other: &Amount) -> (r: Amount)
        ensures
            r@ == self@ + other@,
    {
        proof {
            use_type_invariant(self);
            use_type_invariant(other);
        }
        Amount::combine(self.negative, &self.digits, other.negative, &other.digits)
    }

    /// `self - other`.
    pub fn sub(&self, other: &Amount) -> (r: Amount)
        ensures
            r@ == self@ - other@,
    {
        proof {
            use_type_invariant(self);
            use_type_invariant(other);
        }
        Amount::combine(self.negative, &self.digits, !other.negative, &other.digits)
    }

    /// `-self`.
    pub fn neg(&self) -> (r: Amount)
        ensures
            r@ == -self@,
    {
        proof {
            use_type_invariant(self);
        }
        Amount::combine(!self.negative, &self.digits, false, &Vec::new())
    }

    /// The decimal text of the amount, as `-30`, `0` or `100`.
    pub fn to_text(&self) -> (r: String)
        ensures
            r@ == int_text(self@),
    {
        proof {
            use_type_invariant(self);
        }
        let mut r = String::new();
        let n = self.digits.len();
        if n == 0 {
            r.push('0');
            return r;
        }
        let ghost ds = self.digits@;
        let ghost sign: Seq<char> = if self.negative { seq!['-'] } else { Seq::empty() };
        if self.negative {
            r.push('-');
        }
        let mut k: usize = n;
        while k > 0
            invariant
                k <= n,
                n == ds.len(),
                ds == self.digits@,
                valid_digits(ds),
                r@ =~= sign + Seq::new((n - k) as nat, |j: int| digit_char(ds[n - 1 - j] as int)),
            decreases k,
        {
            let c = digit_to_char(self.digits[k - 1]);
            r.push(c);
            k = k - 1;
        }
        proof {
            lemma_digits_text(ds);
            lemma_top_digit_value(ds);
            assert(r@ =~= sign + digits_chars(ds));
        }
        r
    }

    /// Reads decimal text: digits, with an optional minus sign before.
    pub fn parse(s: &str) -> (r: Option<Amount>)
        ensures
            r is Some <==> is_int_text(s@),
            r matches Some(a) ==> a@ == int_text_value(s@),
    {
        broadcast use vstd::string::is_ascii_spec_bytes;

        if !s.is_ascii() {
            proof {
                if is_int_text(s@) {
                    let i = choose|i: int| 0 <= i < s@.len() && !('\0' <= #[trigger] s@[i] <= '\u{7f}');
                    if s@[0] == '-' {
                        assert(s@.drop_first()[i - 1] == s@[i]);
                    }
                }
            }
            return None;
        }
        let b = s.as_bytes();
        let n = b.len();
        assert(n == s@.len());
        let negative = n > 0 && b[0] == 45u8;
        let start: usize = if negative { 1 } else { 0 };
        let ghost t = if negative { s@.drop_first() } else { s@ };
        assert(negative == (s@.len() > 0 && s@[0] == '-'));
        if start >= n {
            return None;
        }
        let mut ds: Vec<u8> = Vec::new();
        let mut k: usize = n;
        while k > start
            invariant
                start <= k <= n,
                n == s@.len(),
                b@ == Seq::new(s@.len(), |i: int| s@[i] as u8),
                s.is_ascii(),
                t.len() == n - start,
                t == if negative { s@.drop_first() } else { s@ },
                negative == (s@.len() > 0 && s@[0] == '-'),
                forall|i: int| 0 <= i < t.len() ==> #[trigger] t[i] == s@[i + start],
                ds@.len() == n - k,
                forall|j: int| 0 <= j < n - k ==> #[trigger] ds@[j] == char_digit(s@[n - 1 - j]) as u8,
                forall|i: int| k <= i < n ==> is_digit_char(#[trigger] s@[i]),
            decreases k,
        {
            let c = b[k - 1];
            assert(c == s@[k - 1] as u8);
            proof {
                lemma_ascii_digit(s@[k - 1]);
            }
            if c < 48 || c > 57 {
                proof {
                    assert(!is_digit_char(t[k - 1 - start]));
                    assert(!is_digits_text(t));
                    assert(is_int_text(s@) == is_digits_text(t));
                }
                return None;
            }
            ds.push(c - 48);
            k = k - 1;
        }
        proof {
            assert forall|i: int| 0 <= i < t.len() implies is_digit_char(#[trigger] t[i]) by {
                assert(t[i] == s@[i + start]);
            }
            lemma_text_digits_value(t);
            assert(ds@ =~= text_digits(t));
        }
        Some(Amount::from_parts(negative, ds))
    }

    pub fn is_zero(&self) -> (r: bool)
        ensures
            r == (self@ == 0),
    {
        proof {
            use_type_invariant(self);
            if self.digits@.len() > 0 {
                lemma_top_digit_value(self.digits@);
            }
        }
        self.digits.len() == 0
    }

    pub fn is_negative(&self) -> (r: bool)
        ensures
            r == (self@ < 0),
    {
        proof {
            use_type_invariant(self);
            if self.digits@.len() > 0 {
                lemma_top_digit_value(self.digits@);
            }
        }
        self.negative
    }
}

/// Digits with a nonzero top digit are worth at least one.
proof fn lemma_top_digit_value(ds: Seq<u8>)
    requires
        valid_digits(ds),
        ds.len() > 0,
        ds.last() != 0,
    ensures
        digits_value(ds) >= 1,
{
    let t = ds.drop_last();
    assert(ds == t.push(ds.last()));
    lemma_push_value(t, ds.last());
    lemma_prefix_bound(t, t.len());
    lemma_pow10_pos(t.len());
    let d = ds.last() as int;
    let p = pow10(t.len());
    assert(d * p >= 1) by (nonlinear_arith)
        requires
            d >= 1,
            p >= 1,
    ;
}

} // verus!
