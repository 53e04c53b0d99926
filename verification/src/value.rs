//! Runtime values, the static type lattice, and canonical textual forms.

use vstd::prelude::*;
use vstd::string::StringExecFns;
use crate::num::{Num, SCALE};
use crate::strings::push_char;

verus! {

/// The closed set of static types.  `Whole` and `Decimal` share one numeric
/// representation; membership in `Whole` is a runtime property of the value.
#[derive(Debug)]
pub enum Type {
    Whole,
    Decimal,
    Text,
    Truth,
    Nothing,
    Any,
    Object,
    ListOf(Box<Type>),
    MappingOf(Box<Type>, Box<Type>),
    PromiseOf(Box<Type>),
}

/// Structural equality of two types.
pub fn type_eq(a: &Type, b: &Type) -> (r: bool)
    ensures
        r == (a == b),
    decreases a,
{
    match (a, b) {
        (Type::Whole, Type::Whole) => true,
        (Type::Decimal, Type::Decimal) => true,
        (Type::Text, Type::Text) => true,
        (Type::Truth, Type::Truth) => true,
        (Type::Nothing, Type::Nothing) => true,
        (Type::Any, Type::Any) => true,
        (Type::Object, Type::Object) => true,
        (Type::ListOf(x), Type::ListOf(y)) => type_eq(x, y),
        (Type::MappingOf(k1, v1), Type::MappingOf(k2, v2)) => type_eq(k1, k2) && type_eq(v1, v2),
        (Type::PromiseOf(x), Type::PromiseOf(y)) => type_eq(x, y),
        _ => false,
    }
}

/// Deep copy of a type.
pub fn type_dup(t: &Type) -> (r: Type)
    ensures
        r == *t,
    decreases t,
{
    match t {
        Type::Whole => Type::Whole,
        Type::Decimal => Type::Decimal,
        Type::Text => Type::Text,
        Type::Truth => Type::Truth,
        Type::Nothing => Type::Nothing,
        Type::Any => Type::Any,
        Type::Object => Type::Object,
        Type::ListOf(x) => Type::ListOf(Box::new(type_dup(x))),
        Type::MappingOf(k, v) => Type::MappingOf(Box::new(type_dup(k)), Box::new(type_dup(v))),
        Type::PromiseOf(x) => Type::PromiseOf(Box::new(type_dup(x))),
    }
}

/// The display name of a type, used in diagnostics.
pub fn describe_type(t: &Type) -> (s: String) {
    match t {
        Type::Whole => "Whole".to_owned(),
        Type::Decimal => "Decimal".to_owned(),
        Type::Text => "Text".to_owned(),
        Type::Truth => "Truth".to_owned(),
        Type::Nothing => "Nothing".to_owned(),
        Type::Any => "Any".to_owned(),
        Type::Object => "Object".to_owned(),
        Type::ListOf(_) => "List".to_owned(),
        Type::MappingOf(_, _) => "Mapping".to_owned(),
        Type::PromiseOf(_) => "Promise".to_owned(),
    }
}

impl View for Type {
    type V = Type;

    open spec fn view(&self) -> Type {
        *self
    }
}

impl DeepView for Type {
    type V = Type;

    open spec fn deep_view(&self) -> Type {
        *self
    }
}

/// A runtime value.  Lists, mappings and promises carry only a nominal
/// label, since their construction is unimplemented surface.
#[derive(Debug)]
pub enum Value {
    Number(Num),
    Text(String),
    Truth(bool),
    Nothing,
    Object(String),
    List(String),
    Mapping(String),
    Promise(String),
}

/// The mathematical model of a runtime value.
pub ghost enum ValV {
    Number(int),
    Text(Seq<char>),
    Truth(bool),
    Nothing,
    Object(Seq<char>),
    List(Seq<char>),
    Mapping(Seq<char>),
    Promise(Seq<char>),
}

impl View for Value {
    type V = ValV;

    open spec fn view(&self) -> ValV {
        match self {
            Value::Number(n) => ValV::Number(n@),
            Value::Text(s) => ValV::Text(s@),
            Value::Truth(b) => ValV::Truth(*b),
            Value::Nothing => ValV::Nothing,
            Value::Object(c) => ValV::Object(c@),
            Value::List(l) => ValV::List(l@),
            Value::Mapping(l) => ValV::Mapping(l@),
            Value::Promise(l) => ValV::Promise(l@),
        }
    }
}

impl DeepView for Value {
    type V = ValV;

    open spec fn deep_view(&self) -> ValV {
        self.view()
    }
}

impl Value {
    /// A copy with the same model.
    pub fn duplicate(&self) -> (r: Value)
        ensures
            r@ == self@,
    {
        match self {
            Value::Number(n) => Value::Number(*n),
            Value::Text(s) => Value::Text(s.clone()),
            Value::Truth(b) => Value::Truth(*b),
            Value::Nothing => Value::Nothing,
            Value::Object(c) => Value::Object(c.clone()),
            Value::List(l) => Value::List(l.clone()),
            Value::Mapping(l) => Value::Mapping(l.clone()),
            Value::Promise(l) => Value::Promise(l.clone()),
        }
    }
}

/// The runtime type of a value model: the single source of truth for every
/// store-time check.  A number is `Whole` exactly when its fractional part
/// is zero.
pub open spec fn runtime_type_of(v: ValV) -> Type {
    match v {
        ValV::Number(x) => if x % (SCALE as int) == 0 {
            Type::Whole
        } else {
            Type::Decimal
        },
        ValV::Text(_) => Type::Text,
        ValV::Truth(_) => Type::Truth,
        ValV::Nothing => Type::Nothing,
        ValV::Object(_) => Type::Object,
        ValV::List(_) => Type::ListOf(Box::new(Type::Any)),
        ValV::Mapping(_) => Type::MappingOf(Box::new(Type::Text), Box::new(Type::Any)),
        ValV::Promise(_) => Type::PromiseOf(Box::new(Type::Any)),
    }
}

/// The runtime type of a value.
pub fn runtime_type(v: &Value) -> (t: Type)
    ensures
        t == runtime_type_of(v@),
{
    match v {
        Value::Number(n) => if n.is_whole() {
            Type::Whole
        } else {
            Type::Decimal
        },
        Value::Text(_) => Type::Text,
        Value::Truth(_) => Type::Truth,
        Value::Nothing => Type::Nothing,
        Value::Object(_) => Type::Object,
        Value::List(_) => Type::ListOf(Box::new(Type::Any)),
        Value::Mapping(_) => Type::MappingOf(Box::new(Type::Text), Box::new(Type::Any)),
        Value::Promise(_) => Type::PromiseOf(Box::new(Type::Any)),
    }
}

/// The character of a single decimal digit.
pub open spec fn digit_char(d: nat) -> char {
    if d == 0 {
        '0'
    } else if d == 1 {
        '1'
    } else if d == 2 {
        '2'
    } else if d == 3 {
        '3'
    } else if d == 4 {
        '4'
    } else if d == 5 {
        '5'
    } else if d == 6 {
        '6'
    } else if d == 7 {
        '7'
    } else if d == 8 {
        '8'
    } else {
        '9'
    }
}

/// The decimal digits of a natural number, most significant first.
pub open spec fn dec_str(n: nat) -> Seq<char>
    decreases n,
{
    if n < 10 {
        seq![digit_char(n)]
    } else {
        dec_str(n / 10).push(digit_char(n % 10))
    }
}

/// How many trailing zero digits a positive number carries.
pub open spec fn strips(f: nat) -> nat
    decreases f,
{
    if f > 0 && f % 10 == 0 {
        1 + strips(f / 10)
    } else {
        0
    }
}

/// A positive number with its trailing zero digits removed.
pub open spec fn stripped(f: nat) -> nat
    decreases f,
{
    if f > 0 && f % 10 == 0 {
        stripped(f / 10)
    } else {
        f
    }
}

/// A run of zero characters.
pub open spec fn zero_run(k: nat) -> Seq<char>
    decreases k,
{
    if k == 0 {
        Seq::empty()
    } else {
        zero_run((k - 1) as nat).push('0')
    }
}

/// Powers of ten.
pub open spec fn pow10(e: nat) -> nat
    decreases e,
{
    if e == 0 {
        1
    } else {
        10 * pow10((e - 1) as nat)
    }
}

/// The count of decimal digits.
pub open spec fn ndigits(n: nat) -> nat
    decreases n,
{
    if n < 10 {
        1
    } else {
        1 + ndigits(n / 10)
    }
}

/// The fractional digits of `f` millionths: six digits zero-padded on the
/// left, with trailing zeros removed.
pub open spec fn frac_str(f: nat) -> Seq<char> {
    let t = stripped(f);
    let width = (6 - strips(f)) as nat;
    zero_run((width - ndigits(t)) as nat) + dec_str(t)
}

/// The canonical decimal text of a scaled number.
pub open spec fn num_text(x: int) -> Seq<char> {
    let m: nat = if x < 0 {
        (-x) as nat
    } else {
        x as nat
    };
    let sign: Seq<char> = if x < 0 {
        seq!['-']
    } else {
        Seq::empty()
    };
    let whole: nat = m / (SCALE as nat);
    let frac: nat = m % (SCALE as nat);
    if frac == 0 {
        sign + dec_str(whole)
    } else {
        sign + dec_str(whole) + seq!['.'] + frac_str(frac)
    }
}

/// The canonical textual form of any value, as used by display and
/// interpolation.
pub open spec fn display_of(v: ValV) -> Seq<char> {
    match v {
        ValV::Number(x) => num_text(x),
        ValV::Text(s) => s,
        ValV::Truth(b) => if b {
            "true"@
        } else {
            "false"@
        },
        ValV::Nothing => "nothing"@,
        ValV::Object(c) => c,
        ValV::List(l) => l,
        ValV::Mapping(l) => l,
        ValV::Promise(l) => l,
    }
}

fn digit_to_char(d: u128) -> (c: char)
    requires
        d < 10,
    ensures
        c == digit_char(d as nat),
{
    if d == 0 {
        '0'
    } else if d == 1 {
        '1'
    } else if d == 2 {
        '2'
    } else if d == 3 {
        '3'
    } else if d == 4 {
        '4'
    } else if d == 5 {
        '5'
    } else if d == 6 {
        '6'
    } else if d == 7 {
        '7'
    } else if d == 8 {
        '8'
    } else {
        '9'
    }
}

/// Append the decimal digits of `n`.
fn push_dec(out: &mut String, n: u128)
    ensures
        final(out)@ == old(out)@ + dec_str(n as nat),
    decreases n,
{
    if n < 10 {
        push_char(out, digit_to_char(n));
        proof {
            assert(out@ =~= old(out)@ + dec_str(n as nat));
        }
    } else {
        push_dec(out, n / 10);
        push_char(out, digit_to_char(n % 10));
        proof {
            assert(out@ =~= old(out)@ + dec_str(n as nat));
        }
    }
}

proof fn lemma_dec_len(n: nat)
    ensures
        dec_str(n).len() == ndigits(n),
    decreases n,
{
    if n >= 10 {
        lemma_dec_len(n / 10);
    }
}

proof fn lemma_ndigits_bound(n: nat, e: nat)
    requires
        n < pow10(e),
        e >= 1,
    ensures
        ndigits(n) <= e,
    decreases n,
{
    if n >= 10 {
        assert(pow10(1) == 10) by {
            reveal_with_fuel(pow10, 2);
        }
        assert(e != 1);
        assert(pow10(e) == 10 * pow10((e - 1) as nat));
        assert(n / 10 < pow10((e - 1) as nat)) by (nonlinear_arith)
            requires
                n < 10 * pow10((e - 1) as nat),
                n >= 10,
        ;
        lemma_ndigits_bound(n / 10, (e - 1) as nat);
    }
}

proof fn lemma_ndigits_pos(n: nat)
    ensures
        ndigits(n) >= 1,
    decreases n,
{
    if n >= 10 {
        lemma_ndigits_pos(n / 10);
    }
}

proof fn lemma_pow10_pos(e: nat)
    ensures
        pow10(e) >= 1,
    decreases e,
{
    if e > 0 {
        lemma_pow10_pos((e - 1) as nat);
    }
}

proof fn lemma_stripped(f: nat, w: nat)
    requires
        0 < f,
        f < pow10(w),
        w >= 1,
    ensures
        strips(f) <= w - 1,
        stripped(f) > 0,
        stripped(f) < pow10((w - strips(f)) as nat),
        stripped(f) % 10 != 0,
    decreases f,
{
    if f % 10 == 0 {
        assert(f >= 10) by (nonlinear_arith)
            requires
                f % 10 == 0,
                f > 0,
        ;
        assert(pow10(1) == 10) by {
            reveal_with_fuel(pow10, 2);
        }
        assert(w != 1);
        assert(pow10(w) == 10 * pow10((w - 1) as nat));
        lemma_pow10_pos((w - 1) as nat);
        assert(f / 10 < pow10((w - 1) as nat) && f / 10 > 0) by (nonlinear_arith)
            requires
                f < 10 * pow10((w - 1) as nat),
                f >= 10,
                pow10((w - 1) as nat) >= 1,
        ;
        lemma_stripped(f / 10, (w - 1) as nat);
    }
}

/// The canonical decimal text of a number.
pub fn render_num(n: &Num) -> (s: String)
    ensures
        s@ == num_text(n@),
{
    let (neg, whole, frac) = n.parts();
    let mut s = String::new();
    if neg {
        push_char(&mut s, '-');
    }
    push_dec(&mut s, whole);
    let ghost head: Seq<char> = (if neg {
        seq!['-']
    } else {
        Seq::<char>::empty()
    }) + dec_str(whole as nat);
    proof {
        assert(s@ =~= head);
    }
    if frac > 0 {
        push_char(&mut s, '.');
        let ghost mid: Seq<char> = head + seq!['.'];
        proof {
            assert(s@ =~= mid);
            assert(pow10(6) == 1000000) by {
                reveal_with_fuel(pow10, 8);
            }
            lemma_stripped(frac as nat, 6);
        }
        let mut t: u128 = frac;
        let mut k: u128 = 0;
        while t % 10 == 0
            invariant
                t > 0,
                t <= frac,
                frac < SCALE,
                stripped(frac as nat) == stripped(t as nat),
                strips(frac as nat) == k + strips(t as nat),
                strips(frac as nat) <= 5,
            decreases t,
        {
            proof {
                assert(t >= 10) by (nonlinear_arith)
                    requires
                        t % 10 == 0,
                        t > 0,
                ;
            }
            t = t / 10;
            k = k + 1;
        }
        proof {
            lemma_ndigits_bound(t as nat, (6 - strips(frac as nat)) as nat);
        }
        let mut cnt: u128 = 1;
        let mut d: u128 = t;
        while d >= 10
            invariant
                d > 0,
                cnt >= 1,
                ndigits(t as nat) <= 6,
                cnt <= ndigits(t as nat),
                ndigits(t as nat) == cnt - 1 + ndigits(d as nat),
            decreases d,
        {
            proof {
                lemma_ndigits_pos((d / 10) as nat);
            }
            d = d / 10;
            cnt = cnt + 1;
        }
        let width: u128 = 6 - k;
        let pad: u128 = width - cnt;
        let mut j: u128 = 0;
        while j < pad
            invariant
                j <= pad,
                s@ == mid + zero_run(j as nat),
            decreases pad - j,
        {
            push_char(&mut s, '0');
            proof {
                assert(s@ =~= mid + zero_run((j + 1) as nat));
            }
            j = j + 1;
        }
        push_dec(&mut s, t);
        proof {
            assert(s@ =~= num_text(n@));
        }
    } else {
        proof {
            assert(s@ =~= num_text(n@));
        }
    }
    s
}

/// The canonical textual form of a value.
pub fn render_value(v: &Value) -> (s: String)
    ensures
        s@ == display_of(v@),
{
    match v {
        Value::Number(n) => render_num(n),
        Value::Text(s) => s.clone(),
        Value::Truth(b) => if *b {
            "true".to_owned()
        } else {
            "false".to_owned()
        },
        Value::Nothing => "nothing".to_owned(),
        Value::Object(c) => c.clone(),
        Value::List(l) => l.clone(),
        Value::Mapping(l) => l.clone(),
        Value::Promise(l) => l.clone(),
    }
}

} // verus!
