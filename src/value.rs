use vstd::prelude::*;
use vstd::std_specs::iter::IteratorSpec;

verus! {

broadcast use vstd::string::axiom_spec_iter, vstd::string::next_postcondition;

/// Millionths in one unit: a `FLOAT` value is held as a whole number of millionths.
pub const FLOAT_SCALE: u64 = 1000000;

/// The largest number that the digit reader keeps exactly; anything larger reads as this.
pub const DIGITS_CAP: u128 = 10000000000000000000;

/// The declared type of a column.
#[derive(PartialEq, Eq, Structural, Clone, Copy, Debug)]
pub enum ColumnType {
    Integer,
    FloatingPoint,
    FixedChar(u32),
    VarChar(u32),
}

/// A column's name and declared type.
#[derive(Clone, Debug)]
pub struct ColumnDef {
    pub name: String,
    pub kind: ColumnType,
}

/// One stored field. `Float` holds a fixed-point number of millionths.
#[derive(Clone, Debug)]
pub enum Value {
    Int(i64),
    Float(i64),
    Text(String),
}

/// The characters of `s`, in order.
pub(crate) fn chars_of(s: &str) -> (r: Vec<char>)
    ensures
        r@ == s@,
{
    let mut it = s.chars();
    let mut r: Vec<char> = Vec::new();
    assert(r@ + IteratorSpec::remaining(&it) =~= s@);
    loop
        invariant
            r@ + IteratorSpec::remaining(&it) == s@,
            it.obeys_prophetic_iter_laws(),
            IteratorSpec::decrease(&it) is Some,
        ensures
            r@ == s@,
        decreases IteratorSpec::decrease(&it)->0,
    {
        let ghost before = IteratorSpec::remaining(&it);
        match it.next() {
            Some(c) => {
                let ghost prev = r@;
                r.push(c);
                assert(r@ + IteratorSpec::remaining(&it) =~= prev + before);
            },
            None => {
                assert(before.len() == 0);
                assert(IteratorSpec::remaining(&it) =~= Seq::<char>::empty());
                assert(r@ + Seq::<char>::empty() =~= r@);
                break;
            },
        }
    }
    r
}

/// Relies on collecting characters into a `String`: the string of exactly those characters.
#[verifier::external_body]
pub(crate) fn string_of(v: &Vec<char>) -> (r: String)
    ensures
        r@ == v@,
{
    v.iter().collect()
}

pub open spec fn is_digit(c: char) -> bool {
    '0' <= c && c <= '9'
}

pub open spec fn digit_value(c: char) -> nat {
    (c as nat - '0' as nat) as nat
}

pub open spec fn digit_char(d: nat) -> char {
    ((d + '0' as nat) as u8) as char
}

/// A non-empty run of decimal digits.
pub open spec fn all_digits(s: Seq<char>) -> bool {
    s.len() > 0 && forall|i: int| 0 <= i < s.len() ==> is_digit(#[trigger] s[i])
}

/// The number that a run of decimal digits spells.
pub open spec fn digits_value(s: Seq<char>) -> nat
    decreases s.len(),
{
    if s.len() == 0 {
        0
    } else {
        digits_value(s.drop_last()) * 10 + digit_value(s.last())
    }
}

/// `s` with `n` zero digits appended.
pub open spec fn zeros_after(s: Seq<char>, n: nat) -> Seq<char>
    decreases n,
{
    if n == 0 {
        s
    } else {
        zeros_after(s, (n - 1) as nat).push('0')
    }
}

/// An optional minus sign followed by digits.
pub open spec fn int_literal(s: Seq<char>) -> Option<int> {
    if s.len() > 0 && s[0] == '-' && all_digits(s.skip(1)) {
        Some(-(digits_value(s.skip(1)) as int))
    } else if all_digits(s) {
        Some(digits_value(s) as int)
    } else {
        None
    }
}

/// The first position of a `.` in `s`, if there is one.
pub open spec fn first_dot(s: Seq<char>) -> Option<int> {
    if exists|i: int| 0 <= i < s.len() && s[i] == '.' && forall|j: int| 0 <= j < i ==> s[j] != '.' {
        Some(choose|i: int| 0 <= i < s.len() && s[i] == '.' && forall|j: int| 0 <= j < i ==> s[j] != '.')
    } else {
        None
    }
}

/// An unsigned decimal number, `digits` or `digits.digits` with one to six digits after the
/// point, in millionths.
pub open spec fn unsigned_decimal(s: Seq<char>) -> Option<nat> {
    match first_dot(s) {
        None => if all_digits(s) {
            Some(digits_value(s) * 1000000)
        } else {
            None
        },
        Some(p) => {
            let whole = s.take(p);
            let frac = s.skip(p + 1);
            if all_digits(whole) && all_digits(frac) && frac.len() <= 6 {
                Some(digits_value(whole) * 1000000 + digits_value(zeros_after(frac, (6 - frac.len()) as nat)))
            } else {
                None
            }
        },
    }
}

/// An optional minus sign followed by an unsigned decimal number, in millionths.
pub open spec fn float_literal(s: Seq<char>) -> Option<int> {
    if s.len() > 0 && s[0] == '-' {
        match unsigned_decimal(s.skip(1)) {
            Some(v) => Some(-(v as int)),
            None => None,
        }
    } else {
        match unsigned_decimal(s) {
            Some(v) => Some(v as int),
            None => None,
        }
    }
}

pub open spec fn in_i64(v: int) -> bool {
    i64::MIN <= v <= i64::MAX
}

/// Whether the literal `s` can be stored in a column of type `kind`.
pub open spec fn literal_ok(kind: ColumnType, s: Seq<char>) -> bool {
    match kind {
        ColumnType::Integer => int_literal(s).is_some() && in_i64(int_literal(s).unwrap()),
        ColumnType::FloatingPoint => float_literal(s).is_some() && in_i64(float_literal(s).unwrap()),
        ColumnType::FixedChar(n) => s.len() <= n,
        ColumnType::VarChar(n) => s.len() <= n,
    }
}

/// `v` is the value that the literal `s` denotes in a column of type `kind`.
pub open spec fn denotes(kind: ColumnType, s: Seq<char>, v: Value) -> bool {
    match kind {
        ColumnType::Integer => v == Value::Int(int_literal(s).unwrap() as i64),
        ColumnType::FloatingPoint => v == Value::Float(float_literal(s).unwrap() as i64),
        _ => v is Text && v->Text_0@ == s,
    }
}

/// `v` can stand in a column of type `kind`.
pub open spec fn fits(kind: ColumnType, v: Value) -> bool {
    match (kind, v) {
        (ColumnType::Integer, Value::Int(_)) => true,
        (ColumnType::FloatingPoint, Value::Float(_)) => true,
        (ColumnType::FixedChar(n), Value::Text(t)) => t@.len() <= n,
        (ColumnType::VarChar(n), Value::Text(t)) => t@.len() <= n,
        _ => false,
    }
}

/// The value that a new column of type `kind` holds in rows that were there before it.
pub open spec fn is_zero_value(kind: ColumnType, v: Value) -> bool {
    match kind {
        ColumnType::Integer => v == Value::Int(0),
        ColumnType::FloatingPoint => v == Value::Float(0),
        _ => v is Text && v->Text_0@.len() == 0,
    }
}

/// Lexicographic order of character sequences: negative, zero or positive.
pub open spec fn lex_cmp(a: Seq<char>, b: Seq<char>) -> int
    decreases a.len(),
{
    if a.len() == 0 && b.len() == 0 {
        0
    } else if a.len() == 0 {
        -1
    } else if b.len() == 0 {
        1
    } else if a[0] != b[0] {
        if a[0] < b[0] { -1 } else { 1 }
    } else {
        lex_cmp(a.skip(1), b.skip(1))
    }
}

/// How `a` orders against `b`: numerically for numbers, lexicographically for text.
/// Values of different kinds order as unequal, `a` first.
pub open spec fn value_cmp(a: Value, b: Value) -> int {
    match (a, b) {
        (Value::Int(x), Value::Int(y)) => if x < y { -1 } else if x == y { 0 } else { 1 },
        (Value::Float(x), Value::Float(y)) => if x < y { -1 } else if x == y { 0 } else { 1 },
        (Value::Text(x), Value::Text(y)) => lex_cmp(x@, y@),
        _ => -1,
    }
}

/// Decimal digits of `n`, without leading zeros.
pub open spec fn nat_text(n: nat) -> Seq<char>
    decreases n,
{
    if n < 10 {
        seq![digit_char(n)]
    } else {
        nat_text(n / 10).push(digit_char(n % 10))
    }
}

/// The last `k` decimal digits of `n`, zero-padded.
pub open spec fn fixed_digits(n: nat, k: nat) -> Seq<char>
    decreases k,
{
    if k == 0 {
        Seq::empty()
    } else {
        fixed_digits(n / 10, (k - 1) as nat).push(digit_char(n % 10))
    }
}

/// `s` without its trailing zero digits.
pub open spec fn trim_zeros(s: Seq<char>) -> Seq<char>
    decreases s.len(),
{
    if s.len() > 0 && s.last() == '0' {
        trim_zeros(s.drop_last())
    } else {
        s
    }
}

pub open spec fn sign_text(neg: bool) -> Seq<char> {
    if neg { seq!['-'] } else { Seq::empty() }
}

pub open spec fn abs(v: int) -> nat {
    if v < 0 { (-v) as nat } else { v as nat }
}

/// The canonical text of a value: decimal integers; a float as its whole part, then a point and
/// its fractional digits without trailing zeros when it has any; text as it is.
pub open spec fn value_text(v: Value) -> Seq<char> {
    match v {
        Value::Int(n) => sign_text(n < 0) + nat_text(abs(n as int)),
        Value::Float(m) => {
            let a = abs(m as int);
            let frac = a % 1000000;
            sign_text(m < 0) + nat_text(a / 1000000) + if frac == 0 {
                Seq::<char>::empty()
            } else {
                seq!['.'] + trim_zeros(fixed_digits(frac, 6))
            }
        },
        Value::Text(t) => t@,
    }
}

/// Whether `v` can stand in a column of type `kind`.
pub fn value_fits(kind: ColumnType, v: &Value) -> (r: bool)
    ensures
        r == fits(kind, *v),
{
    match (kind, v) {
        (ColumnType::Integer, Value::Int(_)) => true,
        (ColumnType::FloatingPoint, Value::Float(_)) => true,
        (ColumnType::FixedChar(n), Value::Text(t)) | (ColumnType::VarChar(n), Value::Text(t)) => {
            let cs = chars_of(t.as_str());
            cs.len() <= n as usize
        },
        _ => false,
    }
}

/// A copy of `v`.
pub fn copy_value(v: &Value) -> (r: Value)
    ensures
        r == *v,
{
    match v {
        Value::Int(n) => Value::Int(*n),
        Value::Float(m) => Value::Float(*m),
        Value::Text(t) => Value::Text(t.clone()),
    }
}

/// The value held, before anything is written, by a column of type `kind`.
pub fn zero_value(kind: ColumnType) -> (r: Value)
    ensures
        is_zero_value(kind, r),
        fits(kind, r),
{
    match kind {
        ColumnType::Integer => Value::Int(0),
        ColumnType::FloatingPoint => Value::Float(0),
        _ => Value::Text(String::new()),
    }
}

/// The number spelt by the digits `s[lo..hi]`, or `DIGITS_CAP` where it is larger.
fn read_digits(s: &Vec<char>, lo: usize, hi: usize) -> (r: u128)
    requires
        lo <= hi <= s@.len(),
        forall|i: int| lo <= i < hi ==> is_digit(#[trigger] s@[i]),
    ensures
        r as int == if digits_value(s@.subrange(lo as int, hi as int)) < DIGITS_CAP {
            digits_value(s@.subrange(lo as int, hi as int)) as int
        } else {
            DIGITS_CAP as int
        },
{
    let mut acc: u128 = 0;
    let mut i: usize = lo;
    while i < hi
        invariant
            lo <= i <= hi <= s@.len(),
            forall|k: int| lo <= k < hi ==> is_digit(#[trigger] s@[k]),
            acc as int == if digits_value(s@.subrange(lo as int, i as int)) < DIGITS_CAP {
                digits_value(s@.subrange(lo as int, i as int)) as int
            } else {
                DIGITS_CAP as int
            },
        decreases hi - i,
    {
        let ghost prev = s@.subrange(lo as int, i as int);
        let c = s[i];
        let d = (c as u32 - '0' as u32) as u128;
        proof {
            assert(s@.subrange(lo as int, i + 1).drop_last() =~= prev);
            assert(s@.subrange(lo as int, i + 1).last() == c);
        }
        let next = acc * 10 + d;
        acc = if next < DIGITS_CAP { next } else { DIGITS_CAP };
        i = i + 1;
    }
    acc
}

/// Whether `s[lo..hi]` is a non-empty run of digits.
fn digits_only(s: &Vec<char>, lo: usize, hi: usize) -> (r: bool)
    requires
        lo <= hi <= s@.len(),
    ensures
        r == all_digits(s@.subrange(lo as int, hi as int)),
        r ==> forall|i: int| lo <= i < hi ==> is_digit(#[trigger] s@[i]),
{
    if lo == hi {
        return false;
    }
    let mut i: usize = lo;
    while i < hi
        invariant
            lo <= i <= hi <= s@.len(),
            forall|k: int| lo <= k < i ==> is_digit(#[trigger] s@[k]),
        decreases hi - i,
    {
        if !('0' <= s[i] && s[i] <= '9') {
            assert(!is_digit(s@.subrange(lo as int, hi as int)[i - lo]));
            return false;
        }
        i = i + 1;
    }
    assert forall|k: int| 0 <= k < hi - lo implies is_digit(#[trigger] s@.subrange(lo as int, hi as int)[k]) by {
        assert(s@.subrange(lo as int, hi as int)[k] == s@[lo + k]);
    }
    true
}

/// Reads a signed integer literal.
pub fn parse_int(s: &Vec<char>) -> (r: Option<i64>)
    ensures
        r.is_some() <==> (int_literal(s@).is_some() && in_i64(int_literal(s@).unwrap())),
        r.is_some() ==> r.unwrap() as int == int_literal(s@).unwrap(),
{
    let n = s.len();
    let neg = n > 0 && s[0] == '-';
    let start: usize = if neg { 1 } else { 0 };
    proof {
        assert(s@.subrange(0, n as int) =~= s@);
        if n > 0 {
            assert(s@.subrange(1, n as int) =~= s@.skip(1));
        }
    }
    if !digits_only(s, start, n) {
        proof {
            if neg {
                assert(!all_digits(s@));
            }
        }
        return None;
    }
    let v = read_digits(s, start, n);
    if neg {
        if v <= 9223372036854775808 {
            Some((0 - v as i128) as i64)
        } else {
            None
        }
    } else {
        if v <= 9223372036854775807 {
            Some(v as i64)
        } else {
            None
        }
    }
}

/// The characters `s[lo..hi]`.
fn slice_chars(s: &Vec<char>, lo: usize, hi: usize) -> (r: Vec<char>)
    requires
        lo <= hi <= s@.len(),
    ensures
        r@ == s@.subrange(lo as int, hi as int),
{
    let mut r: Vec<char> = Vec::new();
    let mut i: usize = lo;
    while i < hi
        invariant
            lo <= i <= hi <= s@.len(),
            r@ == s@.subrange(lo as int, i as int),
        decreases hi - i,
    {
        r.push(s[i]);
        proof {
            assert(r@ =~= s@.subrange(lo as int, i + 1));
        }
        i = i + 1;
    }
    r
}

/// Reads an unsigned decimal number in millionths. A number of `DIGITS_CAP` or more may come
/// back as any number that is not below `DIGITS_CAP`.
fn parse_unsigned_decimal(b: &Vec<char>) -> (r: Option<u128>)
    ensures
        r.is_some() <==> unsigned_decimal(b@).is_some(),
        r.is_some() ==> (r.unwrap() as int == unsigned_decimal(b@).unwrap() || (r.unwrap()
            >= DIGITS_CAP && unsigned_decimal(b@).unwrap() >= DIGITS_CAP)),
{
    let n = b.len();
    let mut q: usize = 0;
    while q < n && b[q] != '.'
        invariant
            q <= n == b@.len(),
            forall|j: int| 0 <= j < q ==> b@[j] != '.',
        decreases n - q,
    {
        q = q + 1;
    }
    if q == n {
        proof {
            assert(b@.subrange(0, n as int) =~= b@);
            assert(first_dot(b@) is None);
        }
        if !digits_only(b, 0, n) {
            return None;
        }
        let w = read_digits(b, 0, n);
        return Some(w * 1000000);
    }
    proof {
        let p = q as int;
        assert(0 <= p < b@.len() && b@[p] == '.' && forall|j: int| 0 <= j < p ==> b@[j] != '.');
        let c = choose|i: int| 0 <= i < b@.len() && b@[i] == '.' && forall|j: int| 0 <= j < i ==> b@[j] != '.';
        assert(c == p);
        assert(first_dot(b@) == Some(p));
    }
    let whole = slice_chars(b, 0, q);
    let mut frac = slice_chars(b, q + 1, n);
    proof {
        assert(whole@ =~= b@.take(q as int));
        assert(frac@ =~= b@.skip(q + 1));
    }
    if !digits_only(&whole, 0, q) || !digits_only(&frac, 0, frac.len()) || frac.len() > 6 {
        proof {
            assert(whole@.subrange(0, q as int) =~= whole@);
            assert(frac@.subrange(0, frac@.len() as int) =~= frac@);
        }
        return None;
    }
    proof {
        assert(whole@.subrange(0, q as int) =~= whole@);
        assert(frac@.subrange(0, frac@.len() as int) =~= frac@);
    }
    let ghost f0 = frac@;
    let pad: usize = 6 - frac.len();
    let mut k: usize = 0;
    while k < pad
        invariant
            k <= pad,
            frac@ == zeros_after(f0, k as nat),
            frac@.len() == f0.len() + k,
            forall|i: int| 0 <= i < frac@.len() ==> is_digit(#[trigger] frac@[i]),
        decreases pad - k,
    {
        frac.push('0');
        k = k + 1;
    }
    proof {
        assert(whole@.subrange(0, whole@.len() as int) =~= whole@);
        assert(frac@.subrange(0, frac@.len() as int) =~= frac@);
    }
    let w = read_digits(&whole, 0, whole.len());
    let f = read_digits(&frac, 0, frac.len());
    Some(w * 1000000 + f)
}

/// Reads a signed decimal literal in millionths.
pub fn parse_float(s: &Vec<char>) -> (r: Option<i64>)
    ensures
        r.is_some() <==> (float_literal(s@).is_some() && in_i64(float_literal(s@).unwrap())),
        r.is_some() ==> r.unwrap() as int == float_literal(s@).unwrap(),
{
    let n = s.len();
    let neg = n > 0 && s[0] == '-';
    let start: usize = if neg { 1 } else { 0 };
    let body = slice_chars(s, start, n);
    proof {
        if neg {
            assert(body@ =~= s@.skip(1));
        } else {
            assert(body@ =~= s@);
        }
    }
    match parse_unsigned_decimal(&body) {
        None => None,
        Some(v) => {
            if neg {
                if v <= 9223372036854775808 {
                    Some((0 - v as i128) as i64)
                } else {
                    None
                }
            } else {
                if v <= 9223372036854775807 {
                    Some(v as i64)
                } else {
                    None
                }
            }
        },
    }
}

/// Reads the literal `lit` as a value of a column of type `kind`; `None` where it is not one.
pub fn parse_value(kind: ColumnType, lit: &String) -> (r: Option<Value>)
    ensures
        r.is_some() <==> literal_ok(kind, lit@),
        r.is_some() ==> denotes(kind, lit@, r.unwrap()) && fits(kind, r.unwrap()),
{
    let cs = chars_of(lit.as_str());
    match kind {
        ColumnType::Integer => match parse_int(&cs) {
            Some(n) => Some(Value::Int(n)),
            None => None,
        },
        ColumnType::FloatingPoint => match parse_float(&cs) {
            Some(m) => Some(Value::Float(m)),
            None => None,
        },
        ColumnType::FixedChar(n) | ColumnType::VarChar(n) => {
            if cs.len() <= n as usize {
                Some(Value::Text(lit.clone()))
            } else {
                None
            }
        },
    }
}

/// Lexicographic comparison of two character sequences.
fn compare_chars(a: &Vec<char>, b: &Vec<char>) -> (r: i8)
    ensures
        r as int == lex_cmp(a@, b@),
{
    let mut i: usize = 0;
    assert(a@.skip(0) =~= a@ && b@.skip(0) =~= b@);
    while i < a.len() && i < b.len() && a[i] == b[i]
        invariant
            i <= a@.len(),
            i <= b@.len(),
            lex_cmp(a@, b@) == lex_cmp(a@.skip(i as int), b@.skip(i as int)),
        decreases a@.len() - i,
    {
        proof {
            assert(a@.skip(i as int).skip(1) =~= a@.skip(i + 1));
            assert(b@.skip(i as int).skip(1) =~= b@.skip(i + 1));
        }
        i = i + 1;
    }
    if i == a.len() && i == b.len() {
        0
    } else if i == a.len() {
        -1
    } else if i == b.len() {
        1
    } else if a[i] < b[i] {
        -1
    } else {
        1
    }
}

/// How `a` orders against `b` (see `value_cmp`).
pub fn compare_values(a: &Value, b: &Value) -> (r: i8)
    ensures
        r as int == value_cmp(*a, *b),
{
    match (a, b) {
        (Value::Int(x), Value::Int(y)) => if *x < *y { -1 } else if *x == *y { 0 } else { 1 },
        (Value::Float(x), Value::Float(y)) => if *x < *y { -1 } else if *x == *y { 0 } else { 1 },
        (Value::Text(x), Value::Text(y)) => {
            let xs = chars_of(x.as_str());
            let ys = chars_of(y.as_str());
            compare_chars(&xs, &ys)
        },
        _ => -1,
    }
}

fn digit_of(d: u64) -> (c: char)
    requires
        d < 10,
    ensures
        c == digit_char(d as nat),
{
    (d as u8 + 48u8) as char
}

/// Appends the decimal digits of `n`.
pub(crate) fn push_nat(out: &mut Vec<char>, n: u64)
    ensures
        final(out)@ == old(out)@ + nat_text(n as nat),
    decreases n,
{
    if n < 10 {
        out.push(digit_of(n));
        assert(final(out)@ =~= old(out)@ + nat_text(n as nat));
    } else {
        push_nat(out, n / 10);
        out.push(digit_of(n % 10));
        assert(final(out)@ =~= old(out)@ + nat_text(n as nat));
    }
}

/// Appends the last `k` decimal digits of `n`, zero-padded.
fn push_fixed(out: &mut Vec<char>, n: u64, k: u64)
    ensures
        final(out)@ == old(out)@ + fixed_digits(n as nat, k as nat),
    decreases k,
{
    if k == 0 {
        assert(final(out)@ =~= old(out)@ + fixed_digits(n as nat, k as nat));
    } else {
        push_fixed(out, n / 10, k - 1);
        out.push(digit_of(n % 10));
        assert(final(out)@ =~= old(out)@ + fixed_digits(n as nat, k as nat));
    }
}

/// Appends the canonical text of `v`.
pub fn push_value_text(out: &mut Vec<char>, v: &Value)
    ensures
        final(out)@ == old(out)@ + value_text(*v),
{
    match v {
        Value::Int(n) => {
            if *n < 0 {
                out.push('-');
            }
            let a: u64 = if *n < 0 { (0 - *n as i128) as u64 } else { *n as u64 };
            push_nat(out, a);
            assert(final(out)@ =~= old(out)@ + value_text(*v));
        },
        Value::Float(m) => {
            if *m < 0 {
                out.push('-');
            }
            let a: u64 = if *m < 0 { (0 - *m as i128) as u64 } else { *m as u64 };
            push_nat(out, a / FLOAT_SCALE);
            let frac = a % FLOAT_SCALE;
            if frac != 0 {
                let mut digits: Vec<char> = Vec::new();
                push_fixed(&mut digits, frac, 6);
                let ghost full = digits@;
                assert(digits@ =~= Seq::<char>::empty() + fixed_digits(frac as nat, 6));
                while digits.len() > 0 && digits[digits.len() - 1] == '0'
                    invariant
                        trim_zeros(digits@) == trim_zeros(full),
                    decreases digits@.len(),
                {
                    digits.pop();
                }
                out.push('.');
                out.append(&mut digits);
            }
            assert(final(out)@ =~= old(out)@ + value_text(*v));
        },
        Value::Text(t) => {
            let mut cs = chars_of(t.as_str());
            out.append(&mut cs);
        },
    }
}

} // verus!
