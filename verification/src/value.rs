//! Frontmatter values: strings, calendar dates, booleans, numbers, arrays, null.

use vstd::prelude::*;
use chrono::Datelike;
use crate::text::concat;

verus! {

/// The smallest year that a date can have.
pub const MIN_YEAR: i32 = -262143;

/// The largest year that a date can have.
pub const MAX_YEAR: i32 = 262142;

/// Whether `y` is a leap year of the proleptic Gregorian calendar.
pub open spec fn is_leap(y: int) -> bool {
    (y % 4 == 0 && y % 100 != 0) || y % 400 == 0
}

/// The number of days in month `m` of year `y`.
pub open spec fn days_in_month(y: int, m: int) -> int {
    if m == 2 {
        if is_leap(y) {
            29
        } else {
            28
        }
    } else if m == 4 || m == 6 || m == 9 || m == 11 {
        30
    } else {
        31
    }
}

/// Whether year, month and day name a day of the calendar in the supported range.
pub open spec fn valid_ymd(y: int, m: int, d: int) -> bool {
    &&& MIN_YEAR <= y <= MAX_YEAR
    &&& 1 <= m <= 12
    &&& 1 <= d <= days_in_month(y, m)
}

/// Whether a year is a leap year.
fn leap_year(year: i32) -> (r: bool)
    ensures
        r == is_leap(year as int),
{
    // shift by a multiple of 400 years, which keeps leap years, to stay positive
    let u: u64 = (year as i64 + 2400000000i64) as u64;
    proof {
        let y = year as int;
        vstd::arithmetic::div_mod::lemma_mod_multiples_vanish(600000000, y, 4);
        vstd::arithmetic::div_mod::lemma_mod_multiples_vanish(24000000, y, 100);
        vstd::arithmetic::div_mod::lemma_mod_multiples_vanish(6000000, y, 400);
        assert(u as int == 4 * 600000000 + y);
        assert(u as int == 100 * 24000000 + y);
        assert(u as int == 400 * 6000000 + y);
    }
    (u % 4 == 0 && u % 100 != 0) || u % 400 == 0
}

/// A calendar date (year, month, day).
#[derive(Debug, Clone, Copy)]
pub struct Date {
    year: i32,
    month: u32,
    day: u32,
}

impl View for Date {
    type V = (int, int, int);

    closed spec fn view(&self) -> (int, int, int) {
        (self.year as int, self.month as int, self.day as int)
    }
}

impl Date {
    #[verifier::type_invariant]
    closed spec fn inv(self) -> bool {
        valid_ymd(self.year as int, self.month as int, self.day as int)
    }

    /// The date with the given year, month and day, if there is one.
    pub fn from_ymd_opt(year: i32, month: u32, day: u32) -> (r: Option<Date>)
        ensures
            r is Some <==> valid_ymd(year as int, month as int, day as int),
            r matches Some(d) ==> d@ == (year as int, month as int, day as int),
    {
        if year < MIN_YEAR || year > MAX_YEAR || month < 1 || month > 12 || day < 1 {
            return None;
        }
        let leap = leap_year(year);
        let dim: u32 = if month == 2 {
            if leap {
                29
            } else {
                28
            }
        } else if month == 4 || month == 6 || month == 9 || month == 11 {
            30
        } else {
            31
        };
        if day > dim {
            None
        } else {
            Some(Date { year, month, day })
        }
    }

    pub fn year(&self) -> (r: i32)
        ensures
            r as int == self@.0,
    {
        self.year
    }

    pub fn month(&self) -> (r: u32)
        ensures
            r as int == self@.1,
    {
        self.month
    }

    pub fn day(&self) -> (r: u32)
        ensures
            r as int == self@.2,
    {
        self.day
    }
}

/// A number of the frontmatter. What the library needs of it is held as plain
/// values: an integer key whose order is the numeric order, whether it is NaN
/// (then it equals nothing and compares with no number), the bit pattern that
/// writes it back, and the text that displays it.
#[derive(Debug)]
pub struct Number {
    pub key: i64,
    pub nan: bool,
    pub bits: u64,
    pub text: String,
}

/// A value held in frontmatter or written in a query.
#[derive(Debug)]
pub enum Value {
    String(String),
    Date(Date),
    Bool(bool),
    Number(Number),
    Array(Vec<Value>),
    Null,
}

/// The mathematical content of a value.
pub ghost enum ValueV {
    Str(Seq<char>),
    Date(int, int, int),
    Bool(bool),
    Num { key: int, nan: bool, bits: int, text: Seq<char> },
    Arr(Seq<ValueV>),
    Null,
}

/// The content of a value.
pub open spec fn value_view(v: Value) -> ValueV
    decreases v,
{
    match v {
        Value::String(s) => ValueV::Str(s@),
        Value::Date(d) => ValueV::Date(d@.0, d@.1, d@.2),
        Value::Bool(b) => ValueV::Bool(b),
        Value::Number(n) => ValueV::Num {
            key: n.key as int,
            nan: n.nan,
            bits: n.bits as int,
            text: n.text@,
        },
        Value::Array(a) => ValueV::Arr(
            Seq::new(
                a@.len(),
                |i: int|
                    if 0 <= i < a@.len() {
                        value_view(a@[i])
                    } else {
                        ValueV::Null
                    },
            ),
        ),
        Value::Null => ValueV::Null,
    }
}

impl View for Value {
    type V = ValueV;

    open spec fn view(&self) -> ValueV {
        value_view(*self)
    }
}

impl Clone for Number {
    fn clone(&self) -> (r: Self)
        ensures
            r == *self,
    {
        Number { key: self.key, nan: self.nan, bits: self.bits, text: self.text.clone() }
    }
}

impl Clone for Value {
    fn clone(&self) -> (r: Self)
        ensures
            r@ == self@,
        decreases self,
    {
        match self {
            Value::String(s) => Value::String(s.clone()),
            Value::Date(d) => Value::Date(*d),
            Value::Bool(b) => Value::Bool(*b),
            Value::Number(n) => Value::Number(n.clone()),
            Value::Array(a) => {
                let mut out: Vec<Value> = Vec::new();
                let mut i: usize = 0;
                while i < a.len()
                    invariant
                        i <= a.len(),
                        *self == Value::Array(*a),
                        out@.len() == i,
                        forall|k: int| 0 <= k < i ==> (#[trigger] out@[k])@ == a@[k]@,
                    decreases a.len() - i,
                {
                    proof {
                        assert(decreases_to!(*self => (*self)->Array_0));
                        assert(decreases_to!((*self)->Array_0 => (*self)->Array_0@));
                        assert(decreases_to!((*self)->Array_0@ => a@[i as int]));
                        assert(decreases_to!(*self => a@[i as int]));
                    }
                    let e = a[i].clone();
                    out.push(e);
                    i += 1;
                }
                let r = Value::Array(out);
                assert(r@ == self@) by {
                    assert(r@->Arr_0 =~= self@->Arr_0);
                }
                r
            },
            Value::Null => Value::Null,
        }
    }
}

/// The outcome of comparing two values that are comparable.
#[derive(Debug, Clone, Copy, PartialEq, Eq, Structural)]
pub enum Order {
    Less,
    Equal,
    Greater,
}

/// The comparison of two integers.
pub open spec fn order_of_ints(a: int, b: int) -> Order {
    if a < b {
        Order::Less
    } else if a == b {
        Order::Equal
    } else {
        Order::Greater
    }
}

/// The lexicographic comparison of two texts by code point, from index `i` on
/// (byte order of their UTF-8 forms, as `str` compares).
pub open spec fn chars_order_from(a: Seq<char>, b: Seq<char>, i: int) -> Order
    decreases a.len() - i,
{
    if i >= a.len() || i >= b.len() || i < 0 {
        order_of_ints(a.len() as int, b.len() as int)
    } else if a[i] != b[i] {
        order_of_ints(a[i] as int, b[i] as int)
    } else {
        chars_order_from(a, b, i + 1)
    }
}

/// The lexicographic comparison of two texts.
pub open spec fn chars_order(a: Seq<char>, b: Seq<char>) -> Order {
    chars_order_from(a, b, 0)
}

/// Where a kind of value stands when values of different kinds are compared:
/// null, then booleans, numbers, strings, dates, arrays.
pub open spec fn rank(v: ValueV) -> int {
    match v {
        ValueV::Null => 0,
        ValueV::Bool(_) => 1,
        ValueV::Num { .. } => 2,
        ValueV::Str(_) => 3,
        ValueV::Date(..) => 4,
        ValueV::Arr(_) => 5,
    }
}

/// Whether two values are equal: of the same kind and the same content;
/// numbers equal when neither is NaN and their keys agree; arrays equal
/// element by element.
pub open spec fn same_value(a: ValueV, b: ValueV) -> bool
    decreases a,
{
    match (a, b) {
        (ValueV::Str(x), ValueV::Str(y)) => x == y,
        (ValueV::Date(y1, m1, d1), ValueV::Date(y2, m2, d2)) => y1 == y2 && m1 == m2 && d1 == d2,
        (ValueV::Bool(x), ValueV::Bool(y)) => x == y,
        (ValueV::Num { key: k1, nan: n1, .. }, ValueV::Num { key: k2, nan: n2, .. }) => !n1 && !n2
            && k1 == k2,
        (ValueV::Arr(x), ValueV::Arr(y)) => x.len() == y.len() && forall|i: int|
            0 <= i < x.len() ==> same_value(#[trigger] x[i], y[i]),
        (ValueV::Null, ValueV::Null) => true,
        _ => false,
    }
}

/// How two values compare, if they do: values of different kinds by `rank`;
/// `false < true`; numbers by key, NaN with none; strings lexicographically;
/// dates by calendar; arrays lexicographically by their elements.
pub open spec fn compare(a: ValueV, b: ValueV) -> Option<Order>
    decreases a, 1int,
{
    if rank(a) != rank(b) {
        Some(order_of_ints(rank(a), rank(b)))
    } else {
        match (a, b) {
            (ValueV::Bool(x), ValueV::Bool(y)) => Some(
                order_of_ints(if x { 1 } else { 0 }, if y { 1 } else { 0 }),
            ),
            (ValueV::Num { key: k1, nan: n1, .. }, ValueV::Num { key: k2, nan: n2, .. }) => if n1
                || n2 {
                None
            } else {
                Some(order_of_ints(k1, k2))
            },
            (ValueV::Str(x), ValueV::Str(y)) => Some(chars_order(x, y)),
            (ValueV::Date(y1, m1, d1), ValueV::Date(y2, m2, d2)) => Some(
                if y1 != y2 {
                    order_of_ints(y1, y2)
                } else if m1 != m2 {
                    order_of_ints(m1, m2)
                } else {
                    order_of_ints(d1, d2)
                },
            ),
            (ValueV::Arr(x), ValueV::Arr(y)) => compare_seq(x, y, 0),
            _ => Some(Order::Equal),
        }
    }
}

/// The lexicographic comparison of two sequences of values from index `i` on.
pub open spec fn compare_seq(x: Seq<ValueV>, y: Seq<ValueV>, i: int) -> Option<Order>
    decreases x, x.len() - i,
{
    if i < 0 || i >= x.len() || i >= y.len() {
        Some(order_of_ints(x.len() as int, y.len() as int))
    } else {
        match compare(x[i], y[i]) {
            Some(Order::Equal) => compare_seq(x, y, i + 1),
            other => other,
        }
    }
}

/// The order of two integers turned around.
pub open spec fn flip(o: Order) -> Order {
    match o {
        Order::Less => Order::Greater,
        Order::Equal => Order::Equal,
        Order::Greater => Order::Less,
    }
}

/// Comparing two texts the other way round turns the outcome around.
pub proof fn lemma_chars_order_flip(a: Seq<char>, b: Seq<char>, i: int)
    ensures
        chars_order_from(b, a, i) == flip(chars_order_from(a, b, i)),
    decreases a.len() - i,
{
    if !(i >= a.len() || i >= b.len() || i < 0) && a[i] == b[i] {
        lemma_chars_order_flip(a, b, i + 1);
    }
}

/// Two texts compare as equal only when they are the same text.
pub proof fn lemma_chars_order_equal(a: Seq<char>, b: Seq<char>, i: int)
    requires
        0 <= i <= a.len(),
        i <= b.len(),
        a.subrange(0, i) == b.subrange(0, i),
        chars_order_from(a, b, i) == Order::Equal,
    ensures
        a == b,
    decreases a.len() - i,
{
    if i >= a.len() || i >= b.len() {
        assert(a.len() == b.len());
        assert(a =~= a.subrange(0, i));
        assert(b =~= b.subrange(0, i));
    } else {
        assert(a[i] == b[i]);
        assert(a.subrange(0, i + 1) =~= a.subrange(0, i).push(a[i]));
        assert(b.subrange(0, i + 1) =~= b.subrange(0, i).push(b[i]));
        lemma_chars_order_equal(a, b, i + 1);
    }
}

/// The order of texts is transitive.
pub proof fn lemma_chars_order_less_trans(a: Seq<char>, b: Seq<char>, c: Seq<char>)
    requires
        chars_order(a, b) == Order::Less,
        chars_order(b, c) == Order::Less,
    ensures
        chars_order(a, c) == Order::Less,
{
    lemma_chars_order_from_less_trans(a, b, c, 0);
}

proof fn lemma_chars_order_from_less_trans(a: Seq<char>, b: Seq<char>, c: Seq<char>, i: int)
    requires
        0 <= i,
        chars_order_from(a, b, i) == Order::Less,
        chars_order_from(b, c, i) == Order::Less,
    ensures
        chars_order_from(a, c, i) == Order::Less,
    decreases a.len() - i,
{
    if i < a.len() && i < b.len() && i < c.len() && a[i] == b[i] && b[i] == c[i] {
        lemma_chars_order_from_less_trans(a, b, c, i + 1);
    }
}

/// Comparing the other way round turns the outcome around.
pub proof fn lemma_compare_flip(a: ValueV, b: ValueV)
    ensures
        compare(b, a) == match compare(a, b) {
            Some(o) => Some(flip(o)),
            None => None::<Order>,
        },
    decreases a, 1int,
{
    if rank(a) == rank(b) {
        match (a, b) {
            (ValueV::Str(x), ValueV::Str(y)) => {
                lemma_chars_order_flip(x, y, 0);
            },
            (ValueV::Arr(x), ValueV::Arr(y)) => {
                lemma_compare_seq_flip(x, y, 0);
            },
            _ => {},
        }
    }
}

proof fn lemma_compare_seq_flip(x: Seq<ValueV>, y: Seq<ValueV>, i: int)
    ensures
        compare_seq(y, x, i) == match compare_seq(x, y, i) {
            Some(o) => Some(flip(o)),
            None => None::<Order>,
        },
    decreases x, x.len() - i,
{
    if !(i < 0 || i >= x.len() || i >= y.len()) {
        lemma_compare_flip(x[i], y[i]);
        if compare(x[i], y[i]) == Some(Order::Equal) {
            lemma_compare_seq_flip(x, y, i + 1);
        }
    }
}

/// The number that orders days of valid dates: later days have larger numbers.
pub open spec fn day_number(y: int, m: int, d: int) -> int {
    y * 512 + m * 32 + d
}

/// Dates compare chronologically: as their day numbers do, equal only for
/// the same day, and a day comes before the day after it.
pub proof fn lemma_dates_chronological(y1: int, m1: int, d1: int, y2: int, m2: int, d2: int)
    requires
        valid_ymd(y1, m1, d1),
        valid_ymd(y2, m2, d2),
    ensures
        compare(ValueV::Date(y1, m1, d1), ValueV::Date(y2, m2, d2)) == Some(
            order_of_ints(day_number(y1, m1, d1), day_number(y2, m2, d2)),
        ),
        y1 < y2 ==> compare(ValueV::Date(y1, m1, d1), ValueV::Date(y2, m2, d2)) == Some(Order::Less),
        compare(ValueV::Date(y1, m1, d1), ValueV::Date(y2, m2, d2)) == Some(Order::Equal) <==> (y1
            == y2 && m1 == m2 && d1 == d2),
        next_day(y1, m1, d1) == Some((y2, m2, d2)) ==> compare(
            ValueV::Date(y1, m1, d1),
            ValueV::Date(y2, m2, d2),
        ) == Some(Order::Less),
{
}

/// Whether `a < b`, `a <= b`, `a > b`, `a >= b` hold of two values.
pub open spec fn is_lt(a: ValueV, b: ValueV) -> bool {
    compare(a, b) == Some(Order::Less)
}

pub open spec fn is_le(a: ValueV, b: ValueV) -> bool {
    compare(a, b) == Some(Order::Less) || compare(a, b) == Some(Order::Equal)
}

pub open spec fn is_gt(a: ValueV, b: ValueV) -> bool {
    compare(a, b) == Some(Order::Greater)
}

pub open spec fn is_ge(a: ValueV, b: ValueV) -> bool {
    compare(a, b) == Some(Order::Greater) || compare(a, b) == Some(Order::Equal)
}

/// Whether the array `a` holds an element equal to `item`.
pub open spec fn array_contains(a: ValueV, item: ValueV) -> bool {
    match a {
        ValueV::Arr(x) => exists|i: int| 0 <= i < x.len() && same_value(#[trigger] x[i], item),
        _ => false,
    }
}

fn order_i64(a: i64, b: i64) -> (r: Order)
    ensures
        r == order_of_ints(a as int, b as int),
{
    if a < b {
        Order::Less
    } else if a == b {
        Order::Equal
    } else {
        Order::Greater
    }
}

fn order_usize(a: usize, b: usize) -> (r: Order)
    ensures
        r == order_of_ints(a as int, b as int),
{
    if a < b {
        Order::Less
    } else if a == b {
        Order::Equal
    } else {
        Order::Greater
    }
}

/// The lexicographic comparison of two texts.
pub fn compare_strs(a: &str, b: &str) -> (r: Order)
    ensures
        r == chars_order(a@, b@),
{
    let x = crate::text::chars_of(a);
    let y = crate::text::chars_of(b);
    let mut i: usize = 0;
    while i < x.len() && i < y.len() && x[i] == y[i]
        invariant
            i <= x.len(),
            i <= y.len(),
            x@ == a@,
            y@ == b@,
            chars_order(a@, b@) == chars_order_from(a@, b@, i as int),
        decreases x.len() - i,
    {
        i += 1;
    }
    if i < x.len() && i < y.len() {
        if x[i] < y[i] {
            Order::Less
        } else {
            Order::Greater
        }
    } else {
        order_usize(x.len(), y.len())
    }
}

impl Value {
    /// The content of the value of a string.
    pub fn as_str(&self) -> (r: Option<&str>)
        ensures
            r matches Some(t) ==> self@ == ValueV::Str(t@),
            r is None ==> !(self@ is Str),
    {
        match self {
            Value::String(s) => Some(s.as_str()),
            _ => None,
        }
    }

    /// The date of a date value.
    pub fn as_date(&self) -> (r: Option<Date>)
        ensures
            r matches Some(d) ==> self@ == ValueV::Date(d@.0, d@.1, d@.2),
            r is None ==> !(self@ is Date),
    {
        match self {
            Value::Date(d) => Some(*d),
            _ => None,
        }
    }

    /// Whether this is an array that holds an element equal to `item`.
    pub fn contains(&self, item: &Value) -> (r: bool)
        ensures
            r == array_contains(self@, item@),
    {
        match self {
            Value::Array(arr) => {
                let mut i: usize = 0;
                while i < arr.len()
                    invariant
                        i <= arr.len(),
                        *self == Value::Array(*arr),
                        forall|k: int| 0 <= k < i ==> !same_value(#[trigger] self@->Arr_0[k], item@),
                    decreases arr.len() - i,
                {
                    if values_equal(&arr[i], item) {
                        assert(self@->Arr_0[i as int] == arr@[i as int]@);
                        return true;
                    }
                    i += 1;
                }
                false
            },
            _ => false,
        }
    }
}

/// Whether two values are equal.
pub fn values_equal(a: &Value, b: &Value) -> (r: bool)
    ensures
        r == same_value(a@, b@),
    decreases a,
{
    match (a, b) {
        (Value::String(x), Value::String(y)) => *x == *y,
        (Value::Date(x), Value::Date(y)) => x.year() == y.year() && x.month() == y.month()
            && x.day() == y.day(),
        (Value::Bool(x), Value::Bool(y)) => *x == *y,
        (Value::Number(x), Value::Number(y)) => !x.nan && !y.nan && x.key == y.key,
        (Value::Array(x), Value::Array(y)) => {
            if x.len() != y.len() {
                assert(a@->Arr_0.len() == x@.len() && b@->Arr_0.len() == y@.len());
                return false;
            }
            let mut i: usize = 0;
            while i < x.len()
                invariant
                    i <= x.len(),
                    x.len() == y.len(),
                    *a == Value::Array(*x),
                    *b == Value::Array(*y),
                    forall|k: int| 0 <= k < i ==> same_value(#[trigger] a@->Arr_0[k], b@->Arr_0[k]),
                decreases x.len() - i,
            {
                proof {
                    assert(decreases_to!(*a => (*a)->Array_0));
                    assert(decreases_to!((*a)->Array_0 => (*a)->Array_0@));
                    assert(decreases_to!((*a)->Array_0@ => x@[i as int]));
                }
                if !values_equal(&x[i], &y[i]) {
                    assert(a@->Arr_0[i as int] == x@[i as int]@);
                    assert(b@->Arr_0[i as int] == y@[i as int]@);
                    return false;
                }
                i += 1;
            }
            assert(a@->Arr_0.len() == x@.len() && b@->Arr_0.len() == y@.len());
            true
        },
        (Value::Null, Value::Null) => true,
        _ => false,
    }
}

fn rank_of(v: &Value) -> (r: u8)
    ensures
        r as int == rank(v@),
{
    match v {
        Value::Null => 0,
        Value::Bool(_) => 1,
        Value::Number(_) => 2,
        Value::String(_) => 3,
        Value::Date(_) => 4,
        Value::Array(_) => 5,
    }
}

/// How two values compare, if they do.
pub fn value_order(a: &Value, b: &Value) -> (r: Option<Order>)
    ensures
        r == compare(a@, b@),
    decreases a,
{
    let ra = rank_of(a);
    let rb = rank_of(b);
    if ra != rb {
        return Some(order_i64(ra as i64, rb as i64));
    }
    match (a, b) {
        (Value::Bool(x), Value::Bool(y)) => Some(
            order_i64(if *x { 1 } else { 0 }, if *y { 1 } else { 0 }),
        ),
        (Value::Number(x), Value::Number(y)) => if x.nan || y.nan {
            None
        } else {
            Some(order_i64(x.key, y.key))
        },
        (Value::String(x), Value::String(y)) => Some(compare_strs(x.as_str(), y.as_str())),
        (Value::Date(x), Value::Date(y)) => Some(
            if x.year() != y.year() {
                order_i64(x.year() as i64, y.year() as i64)
            } else if x.month() != y.month() {
                order_i64(x.month() as i64, y.month() as i64)
            } else {
                order_i64(x.day() as i64, y.day() as i64)
            },
        ),
        (Value::Array(x), Value::Array(y)) => {
            let ghost xs = a@->Arr_0;
            let ghost ys = b@->Arr_0;
            let mut i: usize = 0;
            while i < x.len() && i < y.len()
                invariant
                    i <= x.len(),
                    i <= y.len(),
                    *a == Value::Array(*x),
                    *b == Value::Array(*y),
                    xs == a@->Arr_0,
                    ys == b@->Arr_0,
                    compare(a@, b@) == compare_seq(xs, ys, i as int),
                decreases x.len() - i,
            {
                proof {
                    assert(decreases_to!(*a => (*a)->Array_0));
                    assert(decreases_to!((*a)->Array_0 => (*a)->Array_0@));
                    assert(decreases_to!((*a)->Array_0@ => x@[i as int]));
                }
                let c = value_order(&x[i], &y[i]);
                assert(xs[i as int] == x@[i as int]@);
                assert(ys[i as int] == y@[i as int]@);
                match c {
                    Some(Order::Equal) => {},
                    _ => {
                        return c;
                    },
                }
                i += 1;
            }
            assert(xs.len() == x@.len() && ys.len() == y@.len());
            Some(order_usize(x.len(), y.len()))
        },
        _ => Some(Order::Equal),
    }
}

/// The date that chrono's `NaiveDate::parse_from_str(s, "%Y-%m-%d")` reads
/// from a text, as (year, month, day), or `None` where it refuses the text.
pub uninterp spec fn chrono_parse_ymd(s: Seq<char>) -> Option<(int, int, int)>;

/// The text that chrono's `Display` for `NaiveDate` writes for a date
/// (`%Y-%m-%d`; years outside 0..=9999 carry a sign).
pub uninterp spec fn chrono_date_text(y: int, m: int, d: int) -> Seq<char>;

/// The character of the decimal digit `n`.
pub open spec fn digit(n: int) -> char {
    ((n % 10) + 48) as char
}

/// A date with a year in 0..=9999 as `YYYY-MM-DD`.
pub open spec fn iso_date_text(y: int, m: int, d: int) -> Seq<char> {
    seq![
        digit(y / 1000), digit(y / 100), digit(y / 10), digit(y), '-',
        digit(m / 10), digit(m), '-', digit(d / 10), digit(d),
    ]
}

/// Reads a `YYYY-MM-DD` date with chrono's `NaiveDate::parse_from_str` and
/// the format `%Y-%m-%d`; the contract claims the result is
/// `chrono_parse_ymd` of the text, a name for what chrono reads. Every
/// `NaiveDate` is a valid day of years `MIN_YEAR..=MAX_YEAR` (chrono's own
/// range), so the `Date` built from it keeps its invariant.
#[verifier::external_body]
fn chrono_parse_date(s: &str) -> (r: Option<Date>)
    ensures
        match r {
            Some(d) => chrono_parse_ymd(s@) == Some(d@),
            None => chrono_parse_ymd(s@) is None,
        },
{
    chrono::NaiveDate::parse_from_str(s, "%Y-%m-%d").ok().map(
        |d| Date { year: d.year(), month: d.month(), day: d.day() },
    )
}

/// Writes a date with chrono's `Display` for `NaiveDate`, which writes
/// `%Y-%m-%d`: for a year in 0..=9999, four digits, a dash, two digits of
/// month, a dash, two digits of day; `NaiveDate::parse_from_str` with
/// `%Y-%m-%d` reads that text back as the same date.
#[verifier::external_body]
fn chrono_date_string(y: i32, m: u32, d: u32) -> (r: String)
    requires
        valid_ymd(y as int, m as int, d as int),
    ensures
        r@ == chrono_date_text(y as int, m as int, d as int),
        0 <= y <= 9999 ==> r@ == iso_date_text(y as int, m as int, d as int),
        0 <= y <= 9999 ==> chrono_parse_ymd(r@) == Some((y as int, m as int, d as int)),
{
    chrono::NaiveDate::from_ymd_opt(y, m, d).unwrap().to_string()
}

/// Today's date in the local time zone, with chrono's
/// `Local::now().date_naive()`. Which day it is depends on the clock, so the
/// contract states nothing of it; the `Date` holds a `NaiveDate`, which is
/// always a valid day in the supported range.
#[verifier::external_body]
pub(crate) fn local_today() -> (r: Date) {
    let d = chrono::Local::now().date_naive();
    Date { year: d.year(), month: d.month(), day: d.day() }
}

/// The day after `(y, m, d)`, if there is one in the supported range.
pub open spec fn next_day(y: int, m: int, d: int) -> Option<(int, int, int)> {
    if d < days_in_month(y, m) {
        Some((y, m, d + 1))
    } else if m < 12 {
        Some((y, m + 1, 1))
    } else if y < MAX_YEAR {
        Some((y + 1, 1, 1))
    } else {
        None
    }
}

/// The day before `(y, m, d)`, if there is one in the supported range.
pub open spec fn prev_day(y: int, m: int, d: int) -> Option<(int, int, int)> {
    if d > 1 {
        Some((y, m, d - 1))
    } else if m > 1 {
        Some((y, m - 1, days_in_month(y, m - 1)))
    } else if y > MIN_YEAR {
        Some((y - 1, 12, 31))
    } else {
        None
    }
}

fn days_in(year: i32, month: u32) -> (r: u32)
    requires
        1 <= month <= 12,
    ensures
        r as int == days_in_month(year as int, month as int),
{
    let leap = leap_year(year);
    if month == 2 {
        if leap {
            29
        } else {
            28
        }
    } else if month == 4 || month == 6 || month == 9 || month == 11 {
        30
    } else {
        31
    }
}

impl Date {
    /// The day after this one (chrono's `checked_add_signed` of one day).
    pub fn succ_opt(&self) -> (r: Option<Date>)
        ensures
            match r {
                Some(n) => next_day(self@.0, self@.1, self@.2) == Some(n@),
                None => next_day(self@.0, self@.1, self@.2) is None,
            },
    {
        proof {
            use_type_invariant(self);
        }
        let dim = days_in(self.year, self.month);
        if self.day < dim {
            Some(Date { year: self.year, month: self.month, day: self.day + 1 })
        } else if self.month < 12 {
            Some(Date { year: self.year, month: self.month + 1, day: 1 })
        } else if self.year < MAX_YEAR {
            Some(Date { year: self.year + 1, month: 1, day: 1 })
        } else {
            None
        }
    }

    /// The day before this one (chrono's `checked_sub_signed` of one day).
    pub fn pred_opt(&self) -> (r: Option<Date>)
        ensures
            match r {
                Some(n) => prev_day(self@.0, self@.1, self@.2) == Some(n@),
                None => prev_day(self@.0, self@.1, self@.2) is None,
            },
    {
        proof {
            use_type_invariant(self);
        }
        if self.day > 1 {
            Some(Date { year: self.year, month: self.month, day: self.day - 1 })
        } else if self.month > 1 {
            let dim = days_in(self.year, self.month - 1);
            Some(Date { year: self.year, month: self.month - 1, day: dim })
        } else if self.year > MIN_YEAR {
            Some(Date { year: self.year - 1, month: 12, day: 31 })
        } else {
            None
        }
    }

    /// The date as text, as chrono displays it.
    pub fn to_text(&self) -> (r: String)
        ensures
            r@ == chrono_date_text(self@.0, self@.1, self@.2),
            0 <= self@.0 <= 9999 ==> r@ == iso_date_text(self@.0, self@.1, self@.2),
            0 <= self@.0 <= 9999 ==> chrono_parse_ymd(r@) == Some(self@),
    {
        proof {
            use_type_invariant(self);
        }
        chrono_date_string(self.year, self.month, self.day)
    }
}

/// How a value displays: strings as they are, dates as chrono writes them,
/// `true`/`false`, numbers by their text, arrays as `[a, b]`, and `null`.
pub open spec fn display(v: ValueV) -> Seq<char>
    decreases v, 0int,
{
    match v {
        ValueV::Str(s) => s,
        ValueV::Date(y, m, d) => chrono_date_text(y, m, d),
        ValueV::Bool(b) => if b {
            "true"@
        } else {
            "false"@
        },
        ValueV::Num { text, .. } => text,
        ValueV::Arr(x) => "["@ + display_items(x, x.len() as int) + "]"@,
        ValueV::Null => "null"@,
    }
}

/// The displays of the first `n` items of `x`, joined by `", "`.
pub open spec fn display_items(x: Seq<ValueV>, n: int) -> Seq<char>
    decreases x, n,
{
    if n <= 0 || n > x.len() {
        Seq::empty()
    } else if n == 1 {
        display(x[0])
    } else {
        display_items(x, n - 1) + ", "@ + display(x[n - 1])
    }
}

impl Value {
    /// Reads a `YYYY-MM-DD` date value from a text.
    pub fn parse_as_date(s: &str) -> (r: Option<Value>)
        ensures
            match r {
                Some(v) => chrono_parse_ymd(s@) == Some((v@->Date_0, v@->Date_1, v@->Date_2))
                    && v@ is Date,
                None => chrono_parse_ymd(s@) is None,
            },
    {
        match chrono_parse_date(s) {
            Some(d) => Some(Value::Date(d)),
            None => None,
        }
    }

    /// The value as text (what `Display` writes for it).
    pub fn to_display_string(&self) -> (r: String)
        ensures
            r@ == display(self@),
        decreases self,
    {
        match self {
            Value::String(s) => s.clone(),
            Value::Date(d) => d.to_text(),
            Value::Bool(b) => if *b {
                "true".to_owned()
            } else {
                "false".to_owned()
            },
            Value::Number(n) => n.text.clone(),
            Value::Array(a) => {
                let ghost x = self@->Arr_0;
                let mut items = String::new();
                let mut i: usize = 0;
                while i < a.len()
                    invariant
                        i <= a.len(),
                        *self == Value::Array(*a),
                        x == self@->Arr_0,
                        x.len() == a@.len(),
                        items@ == display_items(x, i as int),
                    decreases a.len() - i,
                {
                    proof {
                        assert(decreases_to!(*self => (*self)->Array_0));
                        assert(decreases_to!((*self)->Array_0 => (*self)->Array_0@));
                        assert(decreases_to!((*self)->Array_0@ => a@[i as int]));
                    }
                    let t = a[i].to_display_string();
                    assert(x[i as int] == a@[i as int]@);
                    if i > 0 {
                        items.append(", ");
                    }
                    items.append(t.as_str());
                    i += 1;
                }
                let r = concat("[", items.as_str());
                concat(r.as_str(), "]")
            },
            Value::Null => "null".to_owned(),
        }
    }
}

/// The magnitude bits of an IEEE 754 double (all but the sign bit).
pub open spec fn float_magnitude(bits: int) -> int {
    bits % 0x8000_0000_0000_0000
}

/// Whether the bits of an IEEE 754 double are a NaN: all exponent bits set
/// and a mantissa that is not zero.
pub open spec fn float_nan(bits: int) -> bool {
    float_magnitude(bits) > 0x7FF0_0000_0000_0000
}

/// The key that orders doubles as numbers: the magnitude bits, negated for
/// a negative sign (so both zeros have key 0).
pub open spec fn float_key(bits: int) -> int {
    if bits >= 0x8000_0000_0000_0000 {
        -float_magnitude(bits)
    } else {
        float_magnitude(bits)
    }
}

impl Number {
    /// The number whose IEEE 754 double has the bits `bits` and displays as
    /// `text`.
    pub fn from_bits(bits: u64, text: String) -> (r: Number)
        ensures
            r.key as int == float_key(bits as int),
            r.nan == float_nan(bits as int),
            r.bits == bits,
            r.text == text,
    {
        let sign = bits >= 0x8000_0000_0000_0000u64;
        let mag: u64 = if sign {
            bits - 0x8000_0000_0000_0000u64
        } else {
            bits
        };
        assert(mag as int == float_magnitude(bits as int));
        let m: i64 = mag as i64;
        let key: i64 = if sign {
            -m
        } else {
            m
        };
        Number { key, nan: mag > 0x7FF0_0000_0000_0000u64, bits, text }
    }
}

} // verus!
