//! The dynamic value model: nil, scalars (boolean, integer, string,
//! date), arrays and objects, with the comparison and truthiness
//! rules that every construct and filter of the language relies on.
use vstd::prelude::*;

verus! {

broadcast use vstd::std_specs::vec::group_vec_axioms;

/// Mathematical model of a runtime value.
///
/// Objects are modelled as association sequences so that insertion
/// order is kept for iteration while lookup ignores it.
pub enum Val {
    Nil,
    Bool(bool),
    Int(int),
    Str(Seq<char>),
    Date(int),
    Arr(Seq<Val>),
    Obj(Seq<FieldV>),
}

/// One key/value pair of an object's model.
pub struct FieldV {
    pub key: Seq<char>,
    pub val: Val,
}

/// A runtime value: nil, a scalar (boolean, integer, string, or a
/// date carried as its epoch day count), an ordered array, or an
/// object keyed by strings. A date renders as its day count in
/// decimal; turning a calendar form into a day count is the host's
/// affair.
#[derive(Debug)]
pub enum Value {
    Nil,
    Bool(bool),
    Int(i64),
    Str(String),
    Date(i64),
    Array(Vec<Value>),
    Object(Vec<(String, Value)>),
}

impl View for Value {
    type V = Val;

    open spec fn view(&self) -> Val
        decreases self,
    {
        match self {
            Value::Nil => Val::Nil,
            Value::Bool(b) => Val::Bool(*b),
            Value::Int(i) => Val::Int(*i as int),
            Value::Str(s) => Val::Str(s@),
            Value::Date(d) => Val::Date(*d as int),
            Value::Array(v) => Val::Arr(
                Seq::new(v.len() as nat, |i: int| if 0 <= i < v.len() { v[i]@ } else { Val::Nil }),
            ),
            Value::Object(v) => Val::Obj(
                Seq::new(
                    v.len() as nat,
                    |i: int|
                        if 0 <= i < v.len() {
                            FieldV { key: v[i].0@, val: v[i].1@ }
                        } else {
                            FieldV { key: Seq::empty(), val: Val::Nil }
                        },
                ),
            ),
        }
    }
}

/// Outcome of a comparison between two comparable values.
#[derive(Clone, Copy, Debug, PartialEq, Eq, Structural)]
pub enum Cmp {
    Less,
    Equal,
    Greater,
}

/// Lexicographic comparison of two character sequences by code point.
pub open spec fn lex_cmp(a: Seq<char>, b: Seq<char>) -> Cmp
    decreases a.len(),
{
    if a.len() == 0 && b.len() == 0 {
        Cmp::Equal
    } else if a.len() == 0 {
        Cmp::Less
    } else if b.len() == 0 {
        Cmp::Greater
    } else if a[0] < b[0] {
        Cmp::Less
    } else if b[0] < a[0] {
        Cmp::Greater
    } else {
        lex_cmp(a.skip(1), b.skip(1))
    }
}

/// The partial ordering on values: scalars of one kind are compared
/// by their natural order (`false` before `true`, integers and dates
/// numerically, strings lexicographically); two nils are equal; every
/// other pairing is incomparable.
pub open spec fn val_cmp(a: Val, b: Val) -> Option<Cmp> {
    match (a, b) {
        (Val::Nil, Val::Nil) => Some(Cmp::Equal),
        (Val::Bool(x), Val::Bool(y)) => if x == y {
            Some(Cmp::Equal)
        } else if !x {
            Some(Cmp::Less)
        } else {
            Some(Cmp::Greater)
        },
        (Val::Int(x), Val::Int(y)) => if x < y {
            Some(Cmp::Less)
        } else if x == y {
            Some(Cmp::Equal)
        } else {
            Some(Cmp::Greater)
        },
        (Val::Str(x), Val::Str(y)) => Some(lex_cmp(x, y)),
        (Val::Date(x), Val::Date(y)) => if x < y {
            Some(Cmp::Less)
        } else if x == y {
            Some(Cmp::Equal)
        } else {
            Some(Cmp::Greater)
        },
        _ => None,
    }
}

/// The nil-safe ordering used by sorting: two nils are equal, nil sorts
/// after every non-nil value, and otherwise the partial order decides.
pub open spec fn nil_safe_cmp(a: Val, b: Val) -> Option<Cmp> {
    match (a, b) {
        (Val::Nil, Val::Nil) => Some(Cmp::Equal),
        (Val::Nil, _) => Some(Cmp::Greater),
        (_, Val::Nil) => Some(Cmp::Less),
        _ => val_cmp(a, b),
    }
}

/// The nil-safe ordering with incomparable pairs treated as equal, the
/// tie-break sorting relies on.
pub open spec fn nil_safe_total(a: Val, b: Val) -> Cmp {
    match nil_safe_cmp(a, b) {
        Some(c) => c,
        None => Cmp::Equal,
    }
}

/// Truthiness: nil and boolean false are falsey; everything else,
/// including empty strings, zero and empty arrays, is truthy.
pub open spec fn truthy(v: Val) -> bool {
    !(v == Val::Nil || v == Val::Bool(false))
}

/// Decimal digits of a natural number, most significant first.
pub open spec fn dec_seq_nat(n: nat) -> Seq<char>
    decreases n,
{
    if n < 10 {
        seq![digit_char(n)]
    } else {
        dec_seq_nat(n / 10).push(digit_char(n % 10))
    }
}

/// The character for one decimal digit.
pub open spec fn digit_char(d: nat) -> char {
    if d == 0 {
        '0'
    } else if d == 1 {
        '1'
    } else if d == 2 {
        '2'
    } else if d == 3 {
        '3'
    } else if d == 4 {
        '4'
    } else if d == 5 {
        '5'
    } else if d == 6 {
        '6'
    } else if d == 7 {
        '7'
    } else if d == 8 {
        '8'
    } else {
        '9'
    }
}

/// Decimal rendering of an integer, with a leading minus sign when
/// negative.
pub open spec fn dec_seq(i: int) -> Seq<char> {
    if i < 0 {
        seq!['-'] + dec_seq_nat((-i) as nat)
    } else {
        dec_seq_nat(i as nat)
    }
}

/// The text a value renders as: nil as nothing, booleans as `true` or
/// `false`, integers and dates in decimal, strings as themselves,
/// arrays as the concatenation of their elements' text, objects as
/// nothing.
pub open spec fn str_of(v: Val) -> Seq<char>
    decreases v,
{
    match v {
        Val::Nil => Seq::empty(),
        Val::Bool(b) => if b {
            "true"@
        } else {
            "false"@
        },
        Val::Int(i) => dec_seq(i),
        Val::Str(s) => s,
        Val::Date(d) => dec_seq(d),
        Val::Arr(elems) => str_of_elems(elems),
        Val::Obj(_) => Seq::empty(),
    }
}

/// Concatenated text of a sequence of values.
pub open spec fn str_of_elems(elems: Seq<Val>) -> Seq<char>
    decreases elems,
{
    if elems.len() == 0 {
        Seq::empty()
    } else {
        str_of(elems[0]) + str_of_elems(elems.skip(1))
    }
}

/// First match for a key in an object's association sequence.
pub open spec fn obj_get(fields: Seq<FieldV>, key: Seq<char>) -> Option<Val>
    decreases fields.len(),
{
    if fields.len() == 0 {
        None
    } else if fields[0].key == key {
        Some(fields[0].val)
    } else {
        obj_get(fields.skip(1), key)
    }
}

/// The property a sort consults on a value: a key lookup on objects,
/// nil on everything else.
pub open spec fn property_of(v: Val, key: Seq<char>) -> Val {
    match v {
        Val::Obj(fields) => match obj_get(fields, key) {
            Some(x) => x,
            None => Val::Nil,
        },
        _ => Val::Nil,
    }
}

/// The views of a list of values.
pub open spec fn vals_of(v: &Vec<Value>) -> Seq<Val> {
    Seq::new(v.len() as nat, |i: int| if 0 <= i < v.len() { v[i]@ } else { Val::Nil })
}

/// A deep copy of a list of values, with the same models.
#[verifier::loop_isolation(false)]
pub fn clone_values(v: &Vec<Value>) -> (r: Vec<Value>)
    ensures
        vals_of(&r) == vals_of(v),
        r.len() == v.len(),
{
    let mut out: Vec<Value> = Vec::new();
    let mut i: usize = 0;
    while i < v.len()
        invariant
            0 <= i <= v.len(),
            out.len() == i,
            forall|j: int| 0 <= j < i ==> #[trigger] out[j]@ == v[j]@,
        decreases v.len() - i,
    {
        out.push(v[i].clone());
        i += 1;
    }
    proof {
        assert(vals_of(&out) =~= vals_of(v));
    }
    out
}

impl Value {
    /// Whether this value is nil.
    pub fn is_nil(&self) -> (r: bool)
        ensures
            r == (self@ is Nil),
    {
        matches!(self, Value::Nil)
    }

    /// Whether this value is an object.
    pub fn is_object(&self) -> (r: bool)
        ensures
            r == (self@ is Obj),
    {
        matches!(self, Value::Object(_))
    }

    /// Whether this value is an array.
    pub fn is_array(&self) -> (r: bool)
        ensures
            r == (self@ is Arr),
    {
        matches!(self, Value::Array(_))
    }

    /// Truthiness of this value.
    pub fn is_truthy(&self) -> (r: bool)
        ensures
            r == truthy(self@),
    {
        !(matches!(self, Value::Nil) || matches!(self, Value::Bool(false)))
    }

    /// Structural equality of two values.
    #[verifier::loop_isolation(false)]
    pub fn equals(&self, other: &Value) -> (r: bool)
        ensures
            r == (self@ == other@),
        decreases self,
    {
        match (self, other) {
            (Value::Nil, Value::Nil) => true,
            (Value::Bool(a), Value::Bool(b)) => *a == *b,
            (Value::Int(a), Value::Int(b)) => *a == *b,
            (Value::Str(a), Value::Str(b)) => *a == *b,
            (Value::Date(a), Value::Date(b)) => *a == *b,
            (Value::Array(a), Value::Array(b)) => {
                if a.len() != b.len() {
                    proof {
                        assert(self@->Arr_0.len() != other@->Arr_0.len());
                    }
                    return false;
                }
                let mut i: usize = 0;
                while i < a.len()
                    invariant
                        0 <= i <= a.len(),
                        forall|j: int| 0 <= j < i ==> #[trigger] a[j]@ == b[j]@,
                    decreases a.len() - i,
                {
                    let eq = a[i].equals(&b[i]);
                    if !eq {
                        proof {
                            assert(self@->Arr_0[i as int] == a[i as int]@);
                            assert(other@->Arr_0[i as int] == b[i as int]@);
                            if self@ == other@ {
                                assert(self@->Arr_0[i as int] == other@->Arr_0[i as int]);
                            }
                        }
                        return false;
                    }
                    i += 1;
                }
                proof {
                    assert forall|j: int| 0 <= j < a.len() implies self@->Arr_0[j]
                        == other@->Arr_0[j] by {
                        assert(a[j]@ == b[j]@);
                    }
                    assert(self@->Arr_0 =~= other@->Arr_0);
                }
                true
            },
            (Value::Object(a), Value::Object(b)) => {
                if a.len() != b.len() {
                    proof {
                        assert(self@->Obj_0.len() != other@->Obj_0.len());
                    }
                    return false;
                }
                let mut i: usize = 0;
                while i < a.len()
                    invariant
                        0 <= i <= a.len(),
                        forall|j: int| 0 <= j < i ==> #[trigger] self@->Obj_0[j] == other@->Obj_0[j],
                    decreases a.len() - i,
                {
                    let keys_eq = a[i].0 == b[i].0;
                    let vals_eq = a[i].1.equals(&b[i].1);
                    proof {
                        let ai = a[i as int];
                        let bi = b[i as int];
                        assert(self@->Obj_0[i as int] == FieldV { key: ai.0@, val: ai.1@ });
                        assert(other@->Obj_0[i as int] == FieldV { key: bi.0@, val: bi.1@ });
                    }
                    if !(keys_eq && vals_eq) {
                        proof {
                            if self@ == other@ {
                                assert(self@->Obj_0[i as int] == other@->Obj_0[i as int]);
                            }
                        }
                        return false;
                    }
                    i += 1;
                }
                proof {
                    assert(self@->Obj_0 =~= other@->Obj_0);
                }
                true
            },
            _ => {
                proof {
                    assert(self@ != other@);
                }
                false
            },
        }
    }

    /// The value under a key when this value is an object that holds
    /// the key, distinguishing a missing key from a nil value.
    #[verifier::loop_isolation(false)]
    pub fn get_property_opt(&self, key: &String) -> (r: Option<Value>)
        ensures
            match self@ {
                Val::Obj(fields) => match (r, obj_get(fields, key@)) {
                    (Some(x), Some(y)) => x@ == y,
                    (None, None) => true,
                    _ => false,
                },
                _ => r is None,
            },
    {
        match self {
            Value::Object(fields) => {
                proof {
                    assert(self@->Obj_0.skip(0) =~= self@->Obj_0);
                }
                let mut i: usize = 0;
                while i < fields.len()
                    invariant
                        0 <= i <= fields.len(),
                        obj_get(self@->Obj_0, key@) == obj_get(
                            self@->Obj_0.skip(i as int),
                            key@,
                        ),
                    decreases fields.len() - i,
                {
                    proof {
                        let fi = fields[i as int];
                        assert(self@->Obj_0[i as int] == FieldV { key: fi.0@, val: fi.1@ });
                        assert(self@->Obj_0.skip(i as int)[0] == self@->Obj_0[i as int]);
                        assert(self@->Obj_0.skip(i as int).skip(1) =~= self@->Obj_0.skip(
                            i as int + 1,
                        ));
                    }
                    if fields[i].0 == *key {
                        return Some(fields[i].1.clone());
                    }
                    i += 1;
                }
                proof {
                    assert(self@->Obj_0.skip(i as int).len() == 0);
                }
                None
            },
            _ => None,
        }
    }

    /// The value under a key, when this value is an object holding it.
    #[verifier::loop_isolation(false)]
    pub fn get_property(&self, key: &String) -> (r: Value)
        ensures
            r@ == property_of(self@, key@),
    {
        match self {
            Value::Object(fields) => {
                proof {
                    assert(self@->Obj_0.skip(0) =~= self@->Obj_0);
                }
                let mut i: usize = 0;
                while i < fields.len()
                    invariant
                        0 <= i <= fields.len(),
                        obj_get(self@->Obj_0, key@) == obj_get(
                            self@->Obj_0.skip(i as int),
                            key@,
                        ),
                    decreases fields.len() - i,
                {
                    proof {
                        let fi = fields[i as int];
                        assert(self@->Obj_0[i as int] == FieldV { key: fi.0@, val: fi.1@ });
                        assert(self@->Obj_0.skip(i as int)[0] == self@->Obj_0[i as int]);
                        assert(self@->Obj_0.skip(i as int).skip(1) =~= self@->Obj_0.skip(
                            i as int + 1,
                        ));
                    }
                    if fields[i].0 == *key {
                        return fields[i].1.clone();
                    }
                    i += 1;
                }
                proof {
                    assert(self@->Obj_0.skip(i as int).len() == 0);
                }
                Value::Nil
            },
            _ => Value::Nil,
        }
    }
}

impl PartialEq for Value {
    /// Structural equality, as `equals` decides it.
    fn eq(&self, other: &Value) -> (r: bool) {
        self.equals(other)
    }
}

impl vstd::std_specs::cmp::PartialEqSpecImpl for Value {
    open spec fn obeys_eq_spec() -> bool {
        true
    }

    open spec fn eq_spec(&self, other: &Value) -> bool {
        self@ == other@
    }
}

impl Clone for Value {
    /// A deep copy with the same model.
    #[verifier::loop_isolation(false)]
    fn clone(&self) -> (r: Self)
        ensures
            r@ == self@,
        decreases self,
    {
        match self {
            Value::Nil => Value::Nil,
            Value::Bool(b) => Value::Bool(*b),
            Value::Int(i) => Value::Int(*i),
            Value::Str(s) => Value::Str(s.clone()),
            Value::Date(d) => Value::Date(*d),
            Value::Array(v) => {
                let mut out: Vec<Value> = Vec::new();
                let mut i: usize = 0;
                while i < v.len()
                    invariant
                        0 <= i <= v.len(),
                        out.len() == i,
                        forall|j: int| 0 <= j < i ==> #[trigger] out[j]@ == v[j]@,
                    decreases v.len() - i,
                {
                    out.push(v[i].clone());
                    i += 1;
                }
                let r = Value::Array(out);
                proof {
                    assert forall|j: int| 0 <= j < v.len() implies r@->Arr_0[j] == self@->Arr_0[j]
                        by {
                        assert(out[j]@ == v[j]@);
                    }
                    assert(r@->Arr_0 =~= self@->Arr_0);
                }
                r
            },
            Value::Object(v) => {
                let mut out: Vec<(String, Value)> = Vec::new();
                let mut i: usize = 0;
                while i < v.len()
                    invariant
                        0 <= i <= v.len(),
                        out.len() == i,
                        forall|j: int|
                            0 <= j < i ==> (#[trigger] out@[j]).0@ == v@[j].0@ && out@[j].1@
                                == v@[j].1@,
                    decreases v.len() - i,
                {
                    let key = v[i].0.clone();
                    let val = v[i].1.clone();
                    out.push((key, val));
                    i += 1;
                }
                let r = Value::Object(out);
                proof {
                    assert forall|j: int| 0 <= j < v.len() implies r@->Obj_0[j] == self@->Obj_0[j]
                        by {
                        assert(out@[j].0@ == v@[j].0@ && out@[j].1@ == v@[j].1@);
                        assert(r@->Obj_0[j] == FieldV { key: out@[j].0@, val: out@[j].1@ });
                        assert(self@->Obj_0[j] == FieldV { key: v@[j].0@, val: v@[j].1@ });
                    }
                    assert(r@->Obj_0 =~= self@->Obj_0);
                }
                r
            },
        }
    }
}


/// Name for the case-folded form of a string, as the host's Unicode
/// lowercasing produces it; it depends on the characters alone.
pub uninterp spec fn lower_of(s: Seq<char>) -> Seq<char>;

/// Relies on str::to_lowercase: the lowercase equivalent of the
/// string, a function of its characters alone; an empty string stays
/// empty.
#[verifier::external_body]
fn lowercase(s: &str) -> (r: String)
    ensures
        r@ == lower_of(s@),
        s@.len() == 0 ==> r@.len() == 0,
{
    s.to_lowercase()
}

/// The case-insensitive sort key of a value: none for nil, otherwise
/// the lowercased text of the value.
pub open spec fn casecmp_key_of(v: Val) -> Option<Seq<char>> {
    match v {
        Val::Nil => None,
        _ => Some(lower_of(str_of(v))),
    }
}

/// The nil-safe ordering on case-insensitive sort keys: two absent
/// keys are equal, an absent key sorts after any present one, present
/// keys compare lexicographically.
pub open spec fn casecmp(a: Option<Seq<char>>, b: Option<Seq<char>>) -> Option<Cmp> {
    match (a, b) {
        (None, None) => Some(Cmp::Equal),
        (None, Some(_)) => Some(Cmp::Greater),
        (Some(_), None) => Some(Cmp::Less),
        (Some(x), Some(y)) => Some(lex_cmp(x, y)),
    }
}

/// Law: two nils compare equal under the nil-safe ordering, and nil
/// compares greater than every non-nil value, which in turn compares
/// less than nil — so missing values sort last in ascending order.
pub proof fn lemma_nil_safe_ordering(a: Val)
    ensures
        nil_safe_cmp(Val::Nil, Val::Nil) == Some(Cmp::Equal),
        a != Val::Nil ==> nil_safe_cmp(Val::Nil, a) == Some(Cmp::Greater),
        a != Val::Nil ==> nil_safe_cmp(a, Val::Nil) == Some(Cmp::Less),
{
}

/// Swapping the operands of a lexicographic comparison swaps the
/// outcome.
pub proof fn lemma_lex_cmp_antisym(a: Seq<char>, b: Seq<char>)
    ensures
        (lex_cmp(a, b) == Cmp::Less) == (lex_cmp(b, a) == Cmp::Greater),
        (lex_cmp(a, b) == Cmp::Equal) == (lex_cmp(b, a) == Cmp::Equal),
    decreases a.len(),
{
    if a.len() != 0 && b.len() != 0 && !(a[0] < b[0]) && !(b[0] < a[0]) {
        lemma_lex_cmp_antisym(a.skip(1), b.skip(1));
    }
}

/// Swapping the operands of the tie-broken nil-safe comparison swaps
/// greater and less.
pub proof fn lemma_nil_safe_total_antisym(a: Val, b: Val)
    ensures
        (nil_safe_total(a, b) == Cmp::Greater) == (nil_safe_total(b, a) == Cmp::Less),
{
    match (a, b) {
        (Val::Str(x), Val::Str(y)) => {
            lemma_lex_cmp_antisym(x, y);
        },
        _ => {},
    }
}

/// Swapping the operands of the key comparison swaps greater and less.
pub proof fn lemma_casecmp_antisym(a: Option<Seq<char>>, b: Option<Seq<char>>)
    ensures
        (casecmp(a, b) == Some(Cmp::Greater)) == (casecmp(b, a) == Some(Cmp::Less)),
{
    match (a, b) {
        (Some(x), Some(y)) => {
            lemma_lex_cmp_antisym(x, y);
        },
        _ => {},
    }
}

/// Lexicographic comparison of two strings, by code point.
#[verifier::loop_isolation(false)]
pub fn str_compare(a: &String, b: &String) -> (r: Cmp)
    ensures
        r == lex_cmp(a@, b@),
{
    let a_len = a.as_str().unicode_len();
    let b_len = b.as_str().unicode_len();
    let mut i: usize = 0;
    proof {
        assert(a@.skip(0) =~= a@);
        assert(b@.skip(0) =~= b@);
    }
    while i < a_len && i < b_len
        invariant
            0 <= i <= a_len,
            0 <= i <= b_len,
            lex_cmp(a@, b@) == lex_cmp(a@.skip(i as int), b@.skip(i as int)),
        decreases a_len - i,
    {
        let ca = a.as_str().get_char(i);
        let cb = b.as_str().get_char(i);
        proof {
            assert(a@.skip(i as int)[0] == a@[i as int]);
            assert(b@.skip(i as int)[0] == b@[i as int]);
            assert(a@.skip(i as int).skip(1) =~= a@.skip(i as int + 1));
            assert(b@.skip(i as int).skip(1) =~= b@.skip(i as int + 1));
        }
        if (ca as u32) < (cb as u32) {
            return Cmp::Less;
        }
        if (cb as u32) < (ca as u32) {
            return Cmp::Greater;
        }
        i += 1;
    }
    proof {
        assert(a@.skip(i as int).len() == a@.len() - i);
        assert(b@.skip(i as int).len() == b@.len() - i);
    }
    if i < b_len {
        Cmp::Less
    } else if i < a_len {
        Cmp::Greater
    } else {
        Cmp::Equal
    }
}

/// The partial comparison of two values: scalars of one kind by their
/// natural order, two nils equal, anything else incomparable.
pub fn value_compare(a: &Value, b: &Value) -> (r: Option<Cmp>)
    ensures
        r == val_cmp(a@, b@),
{
    match (a, b) {
        (Value::Nil, Value::Nil) => Some(Cmp::Equal),
        (Value::Bool(x), Value::Bool(y)) => {
            if *x == *y {
                Some(Cmp::Equal)
            } else if !*x {
                Some(Cmp::Less)
            } else {
                Some(Cmp::Greater)
            }
        },
        (Value::Int(x), Value::Int(y)) => {
            if *x < *y {
                Some(Cmp::Less)
            } else if *x == *y {
                Some(Cmp::Equal)
            } else {
                Some(Cmp::Greater)
            }
        },
        (Value::Str(x), Value::Str(y)) => Some(str_compare(x, y)),
        (Value::Date(x), Value::Date(y)) => {
            if *x < *y {
                Some(Cmp::Less)
            } else if *x == *y {
                Some(Cmp::Equal)
            } else {
                Some(Cmp::Greater)
            }
        },
        _ => None,
    }
}

/// The nil-safe comparison used by sorting: nils are equal to each
/// other and greater than everything else.
pub fn nil_safe_compare(a: &Value, b: &Value) -> (r: Option<Cmp>)
    ensures
        r == nil_safe_cmp(a@, b@),
{
    match (a, b) {
        (Value::Nil, Value::Nil) => Some(Cmp::Equal),
        (Value::Nil, _) => Some(Cmp::Greater),
        (_, Value::Nil) => Some(Cmp::Less),
        _ => value_compare(a, b),
    }
}

/// The case-insensitive sort key of a value.
pub fn nil_safe_casecmp_key(value: &Value) -> (r: Option<String>)
    ensures
        match (r, casecmp_key_of(value@)) {
            (Some(x), Some(y)) => x@ == y,
            (None, None) => true,
            _ => false,
        },
{
    match value {
        Value::Nil => None,
        _ => Some(lowercase(value.to_str().as_str())),
    }
}

/// The nil-safe comparison of two case-insensitive sort keys.
pub fn nil_safe_casecmp(a: &Option<String>, b: &Option<String>) -> (r: Option<Cmp>)
    ensures
        r == casecmp(
            match a {
                Some(x) => Some(x@),
                None => None,
            },
            match b {
                Some(x) => Some(x@),
                None => None,
            },
        ),
{
    match (a, b) {
        (None, None) => Some(Cmp::Equal),
        (None, Some(_)) => Some(Cmp::Greater),
        (Some(_), None) => Some(Cmp::Less),
        (Some(x), Some(y)) => Some(str_compare(x, y)),
    }
}

/// The decimal text of one digit.
fn digit_str(d: u64) -> (r: &'static str)
    requires
        d < 10,
    ensures
        r@ == seq![digit_char(d as nat)],
{
    proof {
        reveal_strlit("0");
        reveal_strlit("1");
        reveal_strlit("2");
        reveal_strlit("3");
        reveal_strlit("4");
        reveal_strlit("5");
        reveal_strlit("6");
        reveal_strlit("7");
        reveal_strlit("8");
        reveal_strlit("9");
    }
    if d == 0 {
        "0"
    } else if d == 1 {
        "1"
    } else if d == 2 {
        "2"
    } else if d == 3 {
        "3"
    } else if d == 4 {
        "4"
    } else if d == 5 {
        "5"
    } else if d == 6 {
        "6"
    } else if d == 7 {
        "7"
    } else if d == 8 {
        "8"
    } else {
        "9"
    }
}

/// Appends the decimal digits of a natural number to a string.
fn push_digits(n: u64, out: &mut String)
    ensures
        final(out)@ == old(out)@ + dec_seq_nat(n as nat),
    decreases n,
{
    if n >= 10 {
        push_digits(n / 10, out);
        out.append(digit_str(n % 10));
        proof {
            assert(final(out)@ =~= old(out)@ + dec_seq_nat(n as nat));
        }
    } else {
        out.append(digit_str(n));
        proof {
            assert(final(out)@ =~= old(out)@ + dec_seq_nat(n as nat));
        }
    }
}

/// The decimal rendering of a signed integer.
pub fn int_to_string(n: i64) -> (r: String)
    ensures
        r@ == dec_seq(n as int),
{
    let mut out = String::new();
    if n < 0 {
        proof {
            reveal_strlit("-");
        }
        out.append("-");
        let magnitude: u64 = if n == i64::MIN {
            9223372036854775808u64
        } else {
            (-n) as u64
        };
        push_digits(magnitude, &mut out);
        proof {
            assert(out@ =~= dec_seq(n as int));
        }
    } else {
        push_digits(n as u64, &mut out);
        proof {
            assert(out@ =~= dec_seq(n as int));
        }
    }
    out
}

impl Value {
    /// The text this value renders as.
    #[verifier::loop_isolation(false)]
    pub fn to_str(&self) -> (r: String)
        ensures
            r@ == str_of(self@),
        decreases self,
    {
        match self {
            Value::Nil => String::new(),
            Value::Bool(b) => {
                proof {
                    reveal_strlit("true");
                    reveal_strlit("false");
                }
                if *b {
                    String::from_str("true")
                } else {
                    String::from_str("false")
                }
            },
            Value::Int(i) => int_to_string(*i),
            Value::Str(s) => s.clone(),
            Value::Date(d) => int_to_string(*d),
            Value::Array(v) => {
                let mut out = String::new();
                let ghost elems = self@->Arr_0;
                proof {
                    assert(elems.skip(0) =~= elems);
                }
                let mut i: usize = 0;
                while i < v.len()
                    invariant
                        0 <= i <= v.len(),
                        str_of(self@) == out@ + str_of_elems(elems.skip(i as int)),
                    decreases v.len() - i,
                {
                    let piece = v[i].to_str();
                    proof {
                        assert(elems.skip(i as int)[0] == elems[i as int]);
                        assert(elems[i as int] == v[i as int]@);
                        assert(elems.skip(i as int).skip(1) =~= elems.skip(i as int + 1));
                        assert((out@ + str_of(v[i as int]@)) + str_of_elems(
                            elems.skip(i as int + 1),
                        ) =~= out@ + (str_of(v[i as int]@) + str_of_elems(
                            elems.skip(i as int + 1),
                        )));
                    }
                    out.append(piece.as_str());
                    i += 1;
                }
                proof {
                    assert(elems.skip(i as int).len() == 0);
                    assert(out@ + str_of_elems(elems.skip(i as int)) =~= out@);
                }
                out
            },
            Value::Object(_) => String::new(),
        }
    }
}

} // verus!
