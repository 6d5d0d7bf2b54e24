//! The filter invocation protocol: declared parameter lists, binding
//! of positional and keyword arguments at construction time, and the
//! evaluation contract the filters implement.
use vstd::prelude::*;

use crate::context::Context;
use crate::error::Error;
use crate::error::ErrorKind;
use crate::expression::eval_in;
use crate::expression::eval_of;
use crate::expression::ExprV;
use crate::expression::Expression;
use crate::value::casecmp;
use crate::value::casecmp_key_of;
use crate::value::clone_values;
use crate::value::lemma_casecmp_antisym;
use crate::value::lemma_nil_safe_total_antisym;
use crate::value::nil_safe_casecmp;
use crate::value::nil_safe_casecmp_key;
use crate::value::nil_safe_compare;
use crate::value::nil_safe_total;
use crate::value::obj_get;
use crate::value::property_of;
use crate::value::str_of;
use crate::value::truthy;
use crate::value::vals_of;
use crate::value::Cmp;
use crate::value::Val;
use crate::value::Value;

verus! {

broadcast use vstd::std_specs::vec::group_vec_axioms;

/// Model of one declared parameter.
pub struct ParamV {
    pub name: Seq<char>,
    pub required: bool,
}

/// One parameter a filter declares: its keyword name and whether a
/// binding for it must be supplied.
#[derive(Debug)]
pub struct ParameterDecl {
    pub name: String,
    pub required: bool,
}

impl View for ParameterDecl {
    type V = ParamV;

    open spec fn view(&self) -> ParamV {
        ParamV { name: self.name@, required: self.required }
    }
}

/// Model of one keyword argument.
pub struct KwV {
    pub name: Seq<char>,
    pub value: ExprV,
}

/// One keyword argument of a filter invocation.
#[derive(Debug)]
pub struct KeywordArg {
    pub name: String,
    pub value: Expression,
}

impl View for KeywordArg {
    type V = KwV;

    open spec fn view(&self) -> KwV {
        KwV { name: self.name@, value: self.value@ }
    }
}

/// Model of a supplied argument list.
pub struct ArgsV {
    pub positional: Seq<ExprV>,
    pub keyword: Seq<KwV>,
}

/// The arguments supplied to one filter invocation: positional values
/// in order, then keyword values by name.
#[derive(Debug)]
pub struct FilterArguments {
    pub positional: Vec<Expression>,
    pub keyword: Vec<KeywordArg>,
}

/// The views of a list of expressions.
pub open spec fn exprs_of(v: &Vec<Expression>) -> Seq<ExprV> {
    Seq::new(
        v.len() as nat,
        |i: int|
            if 0 <= i < v.len() {
                v[i]@
            } else {
                ExprV::Lit(crate::value::Val::Nil)
            },
    )
}

/// The views of a list of keyword arguments.
pub open spec fn kws_of(v: &Vec<KeywordArg>) -> Seq<KwV> {
    Seq::new(
        v.len() as nat,
        |i: int|
            if 0 <= i < v.len() {
                v[i]@
            } else {
                KwV { name: Seq::empty(), value: ExprV::Lit(crate::value::Val::Nil) }
            },
    )
}

impl View for FilterArguments {
    type V = ArgsV;

    open spec fn view(&self) -> ArgsV {
        ArgsV { positional: exprs_of(&self.positional), keyword: kws_of(&self.keyword) }
    }
}

impl FilterArguments {
    /// An argument list with the given positional values and no
    /// keywords.
    pub fn positional_only(positional: Vec<Expression>) -> (r: FilterArguments)
        ensures
            r@.positional.len() == positional.len(),
            forall|i: int|
                0 <= i < positional.len() ==> r@.positional[i] == #[trigger] positional[i]@,
            r@.keyword.len() == 0,
    {
        FilterArguments { positional, keyword: Vec::new() }
    }
}

/// The view of a declared parameter list.
pub open spec fn decls_of(decl: &Vec<ParameterDecl>) -> Seq<ParamV> {
    Seq::new(
        decl.len() as nat,
        |i: int|
            if 0 <= i < decl.len() {
                decl[i]@
            } else {
                ParamV { name: Seq::empty(), required: false }
            },
    )
}

/// First keyword binding for a parameter name.
pub open spec fn kw_lookup(kw: Seq<KwV>, name: Seq<char>) -> Option<ExprV>
    decreases kw.len(),
{
    if kw.len() == 0 {
        None
    } else if kw[0].name == name {
        Some(kw[0].value)
    } else {
        kw_lookup(kw.skip(1), name)
    }
}

/// Whether a supplied argument list binds cleanly against a declared
/// parameter list: not more positional arguments than parameters; each
/// keyword names a declared parameter that is not already bound
/// positionally; no parameter is bound by two keywords; and every
/// required parameter is bound.
pub open spec fn binds_ok(decl: Seq<ParamV>, args: ArgsV) -> bool {
    &&& args.positional.len() <= decl.len()
    &&& forall|i: int|
        0 <= i < args.keyword.len() ==> exists|j: int|
            args.positional.len() <= j < decl.len() && decl[j].name == (
            #[trigger] args.keyword[i]).name
    &&& forall|i: int, j: int|
        0 <= i < args.keyword.len() && 0 <= j < args.positional.len() ==> (
        #[trigger] args.keyword[i]).name != (#[trigger] decl[j]).name
    &&& forall|i: int, k: int|
        0 <= i < k < args.keyword.len() ==> (#[trigger] args.keyword[i]).name != (
        #[trigger] args.keyword[k]).name
    &&& forall|j: int|
        0 <= j < decl.len() && (#[trigger] decl[j]).required ==> j < args.positional.len()
            || kw_lookup(args.keyword, decl[j].name) is Some
}

/// What a clean binding binds parameter `j` to: the positional value
/// in order, else the keyword value by name, else nothing.
pub open spec fn bound_of(decl: Seq<ParamV>, args: ArgsV, j: int) -> Option<ExprV> {
    if 0 <= j < args.positional.len() {
        Some(args.positional[j])
    } else {
        kw_lookup(args.keyword, decl[j].name)
    }
}

/// Scans keyword arguments for a parameter name, handing back a copy
/// of the first bound expression.
#[verifier::loop_isolation(false)]
fn kw_find(kw: &Vec<KeywordArg>, name: &String) -> (r: Option<Expression>)
    ensures
        match (r, kw_lookup(kws_of(kw), name@)) {
            (Some(x), Some(y)) => x@ == y,
            (None, None) => true,
            _ => false,
        },
{
    let ghost kws = kws_of(kw);
    proof {
        assert(kws.skip(0) =~= kws);
    }
    let mut i: usize = 0;
    while i < kw.len()
        invariant
            0 <= i <= kw.len(),
            kw_lookup(kws, name@) == kw_lookup(kws.skip(i as int), name@),
        decreases kw.len() - i,
    {
        proof {
            assert(kws.skip(i as int)[0] == kws[i as int]);
            assert(kws.skip(i as int).skip(1) =~= kws.skip(i as int + 1));
        }
        if kw[i].name == *name {
            return Some(kw[i].value.clone());
        }
        i += 1;
    }
    proof {
        assert(kws.skip(i as int).len() == 0);
    }
    None
}

/// Binds a supplied argument list against a declared parameter list.
///
/// Succeeds exactly when the binding is clean, handing back one slot
/// per declared parameter; each failure is a parse error raised at
/// construction time, before any rendering.
#[verifier::loop_isolation(false)]
pub fn bind_args(decl: &Vec<ParameterDecl>, args: &FilterArguments) -> (r: Result<
    Vec<Option<Expression>>,
    Error,
>)
    ensures
        r is Ok <==> binds_ok(decls_of(decl), args@),
        r matches Ok(b) ==> b.len() == decl.len() && forall|j: int|
            0 <= j < decl.len() ==> match (#[trigger] b[j], bound_of(decls_of(decl), args@, j)) {
                (Some(x), Some(y)) => x@ == y,
                (None, None) => true,
                _ => false,
            },
        r matches Err(e) ==> e.kind == ErrorKind::Parse,
{
    let ghost decl_v = decls_of(decl);
    let ghost args_v = args@;
    let pos_len = args.positional.len();
    if pos_len > decl.len() {
        return Err(Error::parse(String::from_str("too many positional arguments supplied")));
    }
    // each keyword must name a parameter that is not bound positionally,
    // and no parameter may be bound twice
    let mut i: usize = 0;
    while i < args.keyword.len()
        invariant
            0 <= i <= args.keyword.len(),
            pos_len == args.positional.len() <= decl.len(),
            forall|i2: int|
                0 <= i2 < i ==> exists|j: int|
                    pos_len <= j < decl.len() && decl_v[j].name == (
                    #[trigger] args_v.keyword[i2]).name,
            forall|i2: int, j: int|
                0 <= i2 < i && 0 <= j < pos_len ==> (#[trigger] args_v.keyword[i2]).name != (
                #[trigger] decl_v[j]).name,
            forall|i2: int, k: int|
                0 <= i2 < k < i ==> (#[trigger] args_v.keyword[i2]).name != (
                #[trigger] args_v.keyword[k]).name,
        decreases args.keyword.len() - i,
    {
        let kw_name = &args.keyword[i].name;
        let mut found = false;
        let mut j: usize = 0;
        while j < decl.len()
            invariant
                0 <= j <= decl.len(),
                pos_len <= decl.len(),
                i < args.keyword.len(),
                kw_name@ == args_v.keyword[i as int].name,
                found == exists|j2: int|
                    pos_len <= j2 < j && (#[trigger] decl_v[j2]).name == kw_name@,
                forall|j2: int| 0 <= j2 < j && j2 < pos_len ==> (#[trigger] decl_v[j2]).name
                    != kw_name@,
            decreases decl.len() - j,
        {
            proof {
                assert(decl_v[j as int] == decl[j as int]@);
            }
            if decl[j].name == *kw_name {
                if j < pos_len {
                    proof {
                        assert(args_v.keyword[i as int].name == decl_v[j as int].name);
                        assert(!binds_ok(decl_v, args_v));
                    }
                    return Err(
                        Error::parse(
                            String::from_str("keyword argument repeats a positional binding"),
                        ),
                    );
                }
                found = true;
            }
            j += 1;
        }
        if !found {
            return Err(Error::parse(String::from_str("unknown keyword argument")));
        }
        let mut k: usize = 0;
        while k < i
            invariant
                0 <= k <= i < args.keyword.len(),
                kw_name@ == args_v.keyword[i as int].name,
                forall|k2: int| 0 <= k2 < k ==> (#[trigger] args_v.keyword[k2]).name != kw_name@,
            decreases i - k,
        {
            if args.keyword[k].name == *kw_name {
                proof {
                    assert(args_v.keyword[k as int].name == args_v.keyword[i as int].name);
                    assert(!binds_ok(decl_v, args_v));
                }
                return Err(Error::parse(String::from_str("keyword argument bound twice")));
            }
            k += 1;
        }
        i += 1;
    }
    // every required parameter must be bound
    let mut j: usize = 0;
    while j < decl.len()
        invariant
            0 <= j <= decl.len(),
            pos_len == args.positional.len() <= decl.len(),
            forall|j2: int|
                0 <= j2 < j && (#[trigger] decl_v[j2]).required ==> j2 < pos_len || kw_lookup(
                    args_v.keyword,
                    decl_v[j2].name,
                ) is Some,
            binds_ok_partial(decl_v, args_v),
        decreases decl.len() - j,
    {
        if decl[j].required && j >= pos_len {
            match kw_find(&args.keyword, &decl[j].name) {
                Some(_) => {},
                None => {
                    proof {
                        assert(decl_v[j as int].required && j >= args_v.positional.len()
                            && kw_lookup(args_v.keyword, decl_v[j as int].name) is None);
                        assert(!binds_ok(decl_v, args_v));
                    }
                    return Err(
                        Error::parse(String::from_str("required argument is missing")),
                    );
                },
            }
        }
        j += 1;
    }
    // bind each slot
    let mut bound: Vec<Option<Expression>> = Vec::new();
    let mut j: usize = 0;
    while j < decl.len()
        invariant
            0 <= j <= decl.len(),
            pos_len == args.positional.len() <= decl.len(),
            bound.len() == j,
            forall|j2: int|
                0 <= j2 < j ==> match (#[trigger] bound[j2], bound_of(decl_v, args_v, j2)) {
                    (Some(x), Some(y)) => x@ == y,
                    (None, None) => true,
                    _ => false,
                },
        decreases decl.len() - j,
    {
        if j < pos_len {
            bound.push(Some(args.positional[j].clone()));
        } else {
            bound.push(kw_find(&args.keyword, &decl[j].name));
        }
        j += 1;
    }
    Ok(bound)
}

/// The keyword-related conditions of a clean binding.
pub open spec fn binds_ok_partial(decl: Seq<ParamV>, args: ArgsV) -> bool {
    &&& args.positional.len() <= decl.len()
    &&& forall|i: int|
        0 <= i < args.keyword.len() ==> exists|j: int|
            args.positional.len() <= j < decl.len() && decl[j].name == (
            #[trigger] args.keyword[i]).name
    &&& forall|i: int, j: int|
        0 <= i < args.keyword.len() && 0 <= j < args.positional.len() ==> (
        #[trigger] args.keyword[i]).name != (#[trigger] decl[j]).name
    &&& forall|i: int, k: int|
        0 <= i < k < args.keyword.len() ==> (#[trigger] args.keyword[i]).name != (
        #[trigger] args.keyword[k]).name
}


/// Model of a sort configuration.
pub struct SortModeV {
    pub property: Option<Seq<char>>,
    pub natural: bool,
}

/// How a sort compares elements: on the element itself or on one of
/// its properties, case-sensitively or on lowercased text.
#[derive(Debug)]
pub struct SortMode {
    pub property: Option<String>,
    pub natural: bool,
}

impl View for SortMode {
    type V = SortModeV;

    open spec fn view(&self) -> SortModeV {
        SortModeV {
            property: match self.property {
                Some(ref p) => Some(p@),
                None => None,
            },
            natural: self.natural,
        }
    }
}

/// The value a sort actually compares: the element, or its property.
pub open spec fn sort_key(prop: Option<Seq<char>>, v: Val) -> Val {
    match prop {
        Some(p) => property_of(v, p),
        None => v,
    }
}

/// The tie-broken comparison a sort configuration induces.
#[verifier::opaque]
pub open spec fn mode_cmp(m: SortModeV, a: Val, b: Val) -> Cmp {
    if m.natural {
        match casecmp(
            casecmp_key_of(sort_key(m.property, a)),
            casecmp_key_of(sort_key(m.property, b)),
        ) {
            Some(c) => c,
            None => Cmp::Equal,
        }
    } else {
        nil_safe_total(sort_key(m.property, a), sort_key(m.property, b))
    }
}

/// Every adjacent pair of the sequence is in order under the sort
/// configuration.
pub open spec fn sorted_under(m: SortModeV, s: Seq<Val>) -> bool {
    forall|i: int| 0 <= i < s.len() - 1 ==> mode_cmp(m, #[trigger] s[i], s[i + 1]) != Cmp::Greater
}

/// Swapping the operands of a sort comparison swaps greater and less.
pub proof fn lemma_mode_cmp_antisym(m: SortModeV, a: Val, b: Val)
    ensures
        (mode_cmp(m, a, b) == Cmp::Greater) == (mode_cmp(m, b, a) == Cmp::Less),
{
    reveal(mode_cmp);
    if m.natural {
        lemma_casecmp_antisym(
            casecmp_key_of(sort_key(m.property, a)),
            casecmp_key_of(sort_key(m.property, b)),
        );
    } else {
        lemma_nil_safe_total_antisym(sort_key(m.property, a), sort_key(m.property, b));
    }
}

/// Inserting an element anywhere in a sequence adds it to the
/// sequence's multiset.
pub proof fn lemma_insert_multiset(s: Seq<Val>, pos: int, x: Val)
    requires
        0 <= pos <= s.len(),
    ensures
        s.insert(pos, x).to_multiset() =~= s.to_multiset().insert(x),
{
    broadcast use vstd::seq_lib::group_to_multiset_ensures;

    let pre = s.subrange(0, pos);
    let suf = s.subrange(pos, s.len() as int);
    assert(s =~= pre + suf);
    vstd::seq_lib::lemma_multiset_commutative(pre, suf);
    vstd::seq_lib::lemma_multiset_commutative(pre.push(x), suf);
    assert(s.insert(pos, x) == pre.push(x) + suf);
    assert(pre.push(x).to_multiset() =~= pre.to_multiset().insert(x));
}

/// Compares two values as the sort configuration directs.
pub fn compare_mode(mode: &SortMode, a: &Value, b: &Value) -> (r: Cmp)
    ensures
        r == mode_cmp(mode@, a@, b@),
{
    proof {
        reveal(mode_cmp);
    }
    let key_a = match &mode.property {
        Some(p) => a.get_property(p),
        None => a.clone(),
    };
    let key_b = match &mode.property {
        Some(p) => b.get_property(p),
        None => b.clone(),
    };
    if mode.natural {
        let ka = nil_safe_casecmp_key(&key_a);
        let kb = nil_safe_casecmp_key(&key_b);
        match nil_safe_casecmp(&ka, &kb) {
            Some(c) => c,
            None => Cmp::Equal,
        }
    } else {
        match nil_safe_compare(&key_a, &key_b) {
            Some(c) => c,
            None => Cmp::Equal,
        }
    }
}

/// The position a new element is inserted at: every element at or
/// after it compares greater than the new element, and the element
/// just before it does not.
fn insertion_point(out: &Vec<Value>, x: &Value, mode: &SortMode) -> (k: usize)
    ensures
        k <= out.len(),
        forall|m: int|
            k <= m < out.len() ==> mode_cmp(mode@, #[trigger] vals_of(out)[m], x@)
                == Cmp::Greater,
        k > 0 ==> mode_cmp(mode@, vals_of(out)[k - 1], x@) != Cmp::Greater,
{
    let mut k = out.len();
    loop
        invariant
            0 <= k <= out.len(),
            forall|m: int|
                k <= m < out.len() ==> mode_cmp(mode@, #[trigger] vals_of(out)[m], x@)
                    == Cmp::Greater,
        ensures
            k <= out.len(),
            forall|m: int|
                k <= m < out.len() ==> mode_cmp(mode@, #[trigger] vals_of(out)[m], x@)
                    == Cmp::Greater,
            k > 0 ==> mode_cmp(mode@, vals_of(out)[k - 1], x@) != Cmp::Greater,
        decreases k,
    {
        if k == 0 {
            break ;
        }
        let c = compare_mode(mode, &out[k - 1], x);
        if !(c == Cmp::Greater) {
            break ;
        }
        k = k - 1;
    }
    k
}

/// Inserting an element at its insertion point keeps a sequence
/// pairwise sorted.
#[verifier::rlimit(100)]
#[verifier::spinoff_prover]
pub proof fn lemma_sorted_insert(m: SortModeV, old_vals: Seq<Val>, k: int, x: Val)
    requires
        sorted_under(m, old_vals),
        0 <= k <= old_vals.len(),
        forall|p: int|
            k <= p < old_vals.len() ==> mode_cmp(m, #[trigger] old_vals[p], x) == Cmp::Greater,
        k > 0 ==> mode_cmp(m, old_vals[k - 1], x) != Cmp::Greater,
    ensures
        sorted_under(m, old_vals.insert(k, x)),
{
    let new_vals = old_vals.insert(k, x);
    old_vals.insert_ensures(k, x);
    assert forall|p: int| 0 <= p < new_vals.len() - 1 implies mode_cmp(
        m,
        #[trigger] new_vals[p],
        new_vals[p + 1],
    ) != Cmp::Greater by {
        if p + 1 < k {
            assert(new_vals[p] == old_vals[p]);
            assert(new_vals[p + 1] == old_vals[p + 1]);
        } else if p + 1 == k {
            assert(new_vals[p] == old_vals[p]);
            assert(new_vals[p + 1] == x);
        } else if p == k {
            assert(new_vals[p] == x);
            assert(new_vals[p + 1] == old_vals[p]);
            assert(mode_cmp(m, old_vals[p], x) == Cmp::Greater);
            lemma_mode_cmp_antisym(m, old_vals[p], x);
        } else {
            assert(new_vals[p] == old_vals[p - 1]);
            assert(new_vals[p + 1] == old_vals[p]);
        }
    }
}

/// Taking one more element of a sequence adds that element to the
/// taken prefix's multiset.
pub proof fn lemma_take_push(s: Seq<Val>, i: int)
    requires
        0 <= i < s.len(),
    ensures
        s.take(i + 1).to_multiset() =~= s.take(i).to_multiset().insert(s[i]),
{
    broadcast use vstd::seq_lib::group_to_multiset_ensures;

    assert(s.take(i + 1) =~= s.take(i).push(s[i]));
}

/// The stable insertion of one element into a sorted sequence: it
/// lands after every element whose key does not compare greater.
pub open spec fn insert_sorted(m: SortModeV, s: Seq<Val>, x: Val) -> Seq<Val>
    decreases s.len(),
{
    if s.len() > 0 && mode_cmp(m, s.last(), x) == Cmp::Greater {
        insert_sorted(m, s.drop_last(), x).push(s.last())
    } else {
        s.push(x)
    }
}

/// The stable sort of a sequence under a sort configuration: elements
/// are inserted in order of appearance, each placed after all earlier
/// elements whose keys do not compare greater, so elements with equal
/// or incomparable keys keep their relative order.
pub open spec fn sort_spec(m: SortModeV, s: Seq<Val>) -> Seq<Val>
    decreases s.len(),
{
    if s.len() == 0 {
        Seq::empty()
    } else {
        insert_sorted(m, sort_spec(m, s.drop_last()), s.last())
    }
}

/// A stable insertion is an insertion at the point every element at or
/// after which compares greater.
pub proof fn lemma_insert_sorted_at(m: SortModeV, s: Seq<Val>, x: Val, k: int)
    requires
        0 <= k <= s.len(),
        forall|p: int| k <= p < s.len() ==> mode_cmp(m, #[trigger] s[p], x) == Cmp::Greater,
        k > 0 ==> mode_cmp(m, s[k - 1], x) != Cmp::Greater,
    ensures
        insert_sorted(m, s, x) =~= s.insert(k, x),
    decreases s.len() - k,
{
    if k == s.len() {
        if s.len() > 0 {
            assert(mode_cmp(m, s.last(), x) != Cmp::Greater);
        }
        assert(insert_sorted(m, s, x) =~= s.push(x));
        assert(s.insert(k, x) =~= s.push(x));
    } else {
        assert(mode_cmp(m, s[s.len() - 1], x) == Cmp::Greater);
        let pre = s.drop_last();
        assert(forall|p: int|
            k <= p < pre.len() ==> mode_cmp(m, #[trigger] pre[p], x) == Cmp::Greater);
        if k > 0 {
            assert(pre[k - 1] == s[k - 1]);
        }
        lemma_insert_sorted_at(m, pre, x, k);
        assert(insert_sorted(m, s, x) == insert_sorted(m, pre, x).push(s.last()));
        pre.insert_ensures(k, x);
        s.insert_ensures(k, x);
        assert(insert_sorted(m, s, x) =~= s.insert(k, x));
    }
}

/// Sorts values by repeated insertion: the result is exactly the
/// stable sort of the input under the configuration — in particular a
/// permutation of the input, pairwise in order.
#[verifier::loop_isolation(false)]
#[verifier::rlimit(100)]
#[verifier::spinoff_prover]
pub fn sort_values(input: &Vec<Value>, mode: &SortMode) -> (r: Vec<Value>)
    ensures
        vals_of(&r) == sort_spec(mode@, vals_of(input)),
        vals_of(&r).to_multiset() == vals_of(input).to_multiset(),
        sorted_under(mode@, vals_of(&r)),
        r.len() == input.len(),
{
    let mut out: Vec<Value> = Vec::new();
    proof {
        assert(vals_of(input).take(0) =~= Seq::<Val>::empty());
        assert(vals_of(&out) =~= Seq::<Val>::empty());
    }
    let mut i: usize = 0;
    while i < input.len()
        invariant
            0 <= i <= input.len(),
            out.len() == i,
            vals_of(&out) == sort_spec(mode@, vals_of(input).take(i as int)),
            vals_of(&out).to_multiset() == vals_of(input).take(i as int).to_multiset(),
            sorted_under(mode@, vals_of(&out)),
        decreases input.len() - i,
    {
        let x = input[i].clone();
        let k = insertion_point(&out, &x, mode);
        let ghost old_vals = vals_of(&out);
        out.insert(k, x);
        proof {
            let new_vals = vals_of(&out);
            old_vals.insert_ensures(k as int, x@);
            assert(new_vals =~= old_vals.insert(k as int, x@));
            lemma_insert_multiset(old_vals, k as int, x@);
            lemma_sorted_insert(mode@, old_vals, k as int, x@);
            lemma_take_push(vals_of(input), i as int);
            assert(vals_of(input)[i as int] == x@);
            assert(new_vals.to_multiset() =~= vals_of(input).take(i as int + 1).to_multiset());
            lemma_insert_sorted_at(mode@, old_vals, x@, k as int);
            assert(vals_of(input).take(i as int + 1).drop_last() =~= vals_of(input).take(
                i as int,
            ));
            assert(vals_of(input).take(i as int + 1).last() == x@);
            assert(new_vals == sort_spec(mode@, vals_of(input).take(i as int + 1)));
        }
        i += 1;
    }
    proof {
        assert(vals_of(input).take(i as int) =~= vals_of(input));
    }
    out
}


// ---------------------------------------------------------------------------
// Shared helpers of the filter catalog
// ---------------------------------------------------------------------------

/// The text of each element.
pub open spec fn texts_of(elems: Seq<Val>) -> Seq<Seq<char>> {
    Seq::new(elems.len(), |i: int| str_of(elems[i]))
}

/// The views of a list of strings.
pub open spec fn strings_of(v: &Vec<String>) -> Seq<Seq<char>> {
    Seq::new(v.len() as nat, |i: int| if 0 <= i < v.len() { v[i]@ } else { Seq::empty() })
}

/// Parts combined into one text with a separator between each pair.
pub open spec fn joined(parts: Seq<Seq<char>>, sep: Seq<char>) -> Seq<char>
    decreases parts.len(),
{
    if parts.len() == 0 {
        Seq::empty()
    } else if parts.len() == 1 {
        parts[0]
    } else {
        parts[0] + sep + joined(parts.skip(1), sep)
    }
}

/// Relies on itertools::join: combines the elements into one string,
/// separated by `sep`.
#[verifier::external_body]
fn join_strings(parts: &Vec<String>, sep: &str) -> (r: String)
    ensures
        r@ == joined(strings_of(parts), sep@),
{
    itertools::join(parts.iter(), sep)
}

/// The sequence a sequence-accepting filter works on: an array's
/// elements, nothing for nil, any other value by itself.
pub open spec fn seq_of_input(v: Val) -> Seq<Val> {
    match v {
        Val::Arr(elems) => elems,
        Val::Nil => Seq::empty(),
        _ => seq![v],
    }
}

/// Whether every element is an object.
pub open spec fn all_objects(s: Seq<Val>) -> bool {
    forall|i: int| 0 <= i < s.len() ==> (#[trigger] s[i]) is Obj
}

/// The sequence a sequence-accepting filter works on.
pub fn input_elems(input: &Value) -> (r: Vec<Value>)
    ensures
        vals_of(&r) == seq_of_input(input@),
{
    match input {
        Value::Array(v) => {
            let r = clone_values(v);
            proof {
                assert(vals_of(&r) =~= input@->Arr_0);
            }
            r
        },
        Value::Nil => {
            let r: Vec<Value> = Vec::new();
            proof {
                assert(vals_of(&r) =~= Seq::<Val>::empty());
            }
            r
        },
        _ => {
            let mut r: Vec<Value> = Vec::new();
            r.push(input.clone());
            proof {
                assert(vals_of(&r) =~= seq![input@]);
            }
            r
        },
    }
}

/// Whether every element of the list is an object.
#[verifier::loop_isolation(false)]
fn all_objects_exec(v: &Vec<Value>) -> (r: bool)
    ensures
        r == all_objects(vals_of(v)),
{
    let mut i: usize = 0;
    while i < v.len()
        invariant
            0 <= i <= v.len(),
            forall|j: int| 0 <= j < i ==> (#[trigger] vals_of(v)[j]) is Obj,
        decreases v.len() - i,
    {
        if !v[i].is_object() {
            proof {
                assert(!(vals_of(v)[i as int] is Obj));
            }
            return false;
        }
        i += 1;
    }
    true
}

/// The separator text in force for a join against a modelled scope
/// stack: the evaluated argument's text, or a single space.
pub open spec fn sep_text_in(
    separator: Option<Expression>,
    scopes: Seq<Seq<(Seq<char>, Val)>>,
) -> Seq<char> {
    match separator {
        Some(e) => str_of(eval_in(e@, scopes)),
        None => " "@,
    }
}

/// The separator text in force for a join in a context.
pub open spec fn sep_text(separator: Option<Expression>, ctx: &Context) -> Seq<char> {
    sep_text_in(separator, ctx@.scopes)
}

/// The property name in force for a property-driven filter against a
/// modelled scope stack.
pub open spec fn prop_text_in(
    property: &Expression,
    scopes: Seq<Seq<(Seq<char>, Val)>>,
) -> Seq<char> {
    str_of(eval_in(property@, scopes))
}

/// The property name in force for a property-driven filter.
pub open spec fn prop_text(property: &Expression, ctx: &Context) -> Seq<char> {
    prop_text_in(property, ctx@.scopes)
}

// ---------------------------------------------------------------------------
// join
// ---------------------------------------------------------------------------

/// The parameter list the `join` filter declares.
pub open spec fn join_params() -> Seq<ParamV> {
    seq![ParamV { name: "separator"@, required: false }]
}

/// `join`: combines the items of an array into one string, using the
/// argument as the separator.
#[derive(Clone, Copy, Debug)]
pub struct Join;

/// A parsed `join` invocation.
#[derive(Debug)]
pub struct JoinFilter {
    pub separator: Option<Expression>,
}

impl Join {
    /// A fresh constructor for the registry.
    pub fn new() -> (r: Join) {
        Join
    }

    /// The filter's registered name.
    pub fn name(&self) -> (r: &'static str) {
        "join"
    }

    /// What the filter is for.
    pub fn description(&self) -> (r: &'static str) {
        "Combines the items in an array into a single string using the argument as a separator."
    }

    /// The declared parameters.
    pub fn parameters(&self) -> (r: Vec<ParameterDecl>)
        ensures
            decls_of(&r) == join_params(),
    {
        let mut decl: Vec<ParameterDecl> = Vec::new();
        decl.push(ParameterDecl { name: String::from_str("separator"), required: false });
        proof {
            assert(decls_of(&decl) =~= join_params());
        }
        decl
    }

    /// Binds the supplied arguments, failing at construction time on a
    /// malformed invocation.
    pub fn parse(&self, args: &FilterArguments) -> (r: Result<JoinFilter, Error>)
        ensures
            r is Ok <==> binds_ok(join_params(), args@),
            r matches Ok(f) ==> match (f.separator, bound_of(join_params(), args@, 0)) {
                (Some(x), Some(y)) => x@ == y,
                (None, None) => true,
                _ => false,
            },
            r matches Err(e) ==> e.kind == ErrorKind::Parse,
    {
        let decl = self.parameters();
        let mut bound = bind_args(&decl, args)?;
        let separator = bound.remove(0);
        Ok(JoinFilter { separator })
    }
}

impl JoinFilter {
    /// Joins the array's elements' texts with the separator; any other
    /// input is rejected.
    #[verifier::loop_isolation(false)]
    pub fn evaluate(&self, input: &Value, ctx: &Context) -> (r: Result<Value, Error>)
        ensures
            r is Ok <==> input@ is Arr,
            r matches Ok(v) ==> v@ == Val::Str(
                joined(texts_of(input@->Arr_0), sep_text(self.separator, ctx)),
            ),
            r matches Err(e) ==> e.kind == ErrorKind::Render,
    {
        let sep: String = match &self.separator {
            Some(e) => e.evaluate(ctx).to_str(),
            None => {
                proof {
                    reveal_strlit(" ");
                }
                String::from_str(" ")
            },
        };
        match input {
            Value::Array(elems) => {
                let mut parts: Vec<String> = Vec::new();
                let mut i: usize = 0;
                while i < elems.len()
                    invariant
                        0 <= i <= elems.len(),
                        parts.len() == i,
                        forall|j: int|
                            0 <= j < i ==> #[trigger] parts[j]@ == str_of(vals_of(elems)[j]),
                    decreases elems.len() - i,
                {
                    proof {
                        assert(vals_of(elems)[i as int] == elems[i as int]@);
                    }
                    parts.push(elems[i].to_str());
                    i += 1;
                }
                let joined_text = join_strings(&parts, sep.as_str());
                proof {
                    assert(input@->Arr_0 =~= vals_of(elems));
                    assert(strings_of(&parts) =~= texts_of(input@->Arr_0));
                }
                Ok(Value::Str(joined_text))
            },
            _ => Err(Error::render(String::from_str("Array of strings expected"))),
        }
    }
}

// ---------------------------------------------------------------------------
// sort and sort_natural
// ---------------------------------------------------------------------------

/// The parameter list the two sorting filters declare.
pub open spec fn sort_params() -> Seq<ParamV> {
    seq![ParamV { name: "property"@, required: false }]
}

/// `sort`: sorts the items of an array, case-sensitively, optionally
/// on one property of its objects.
#[derive(Clone, Copy, Debug)]
pub struct Sort;

/// `sort_natural`: sorts the items of an array on lowercased text.
#[derive(Clone, Copy, Debug)]
pub struct SortNatural;

/// A parsed invocation of either sorting filter.
#[derive(Debug)]
pub struct SortFilter {
    pub property: Option<Expression>,
    pub natural: bool,
}

/// The sort configuration a parsed sorting invocation induces against
/// a modelled scope stack.
pub open spec fn sort_mode_in(f: &SortFilter, scopes: Seq<Seq<(Seq<char>, Val)>>) -> SortModeV {
    SortModeV {
        property: match f.property {
            Some(ref e) => Some(str_of(eval_in(e@, scopes))),
            None => None,
        },
        natural: f.natural,
    }
}

/// The sort configuration a parsed sorting invocation induces.
pub open spec fn sort_mode_of(f: &SortFilter, ctx: &Context) -> SortModeV {
    sort_mode_in(f, ctx@.scopes)
}

/// The shared parameter list builder of the sorting filters.
fn sort_parameters() -> (r: Vec<ParameterDecl>)
    ensures
        decls_of(&r) == sort_params(),
{
    let mut decl: Vec<ParameterDecl> = Vec::new();
    decl.push(ParameterDecl { name: String::from_str("property"), required: false });
    proof {
        assert(decls_of(&decl) =~= sort_params());
    }
    decl
}

impl Sort {
    /// A fresh constructor for the registry.
    pub fn new() -> (r: Sort) {
        Sort
    }

    /// The filter's registered name.
    pub fn name(&self) -> (r: &'static str) {
        "sort"
    }

    /// What the filter is for.
    pub fn description(&self) -> (r: &'static str) {
        "Sorts items in an array. The order of the sorted array is case-sensitive."
    }

    /// The declared parameters.
    pub fn parameters(&self) -> (r: Vec<ParameterDecl>)
        ensures
            decls_of(&r) == sort_params(),
    {
        sort_parameters()
    }

    /// Binds the supplied arguments.
    pub fn parse(&self, args: &FilterArguments) -> (r: Result<SortFilter, Error>)
        ensures
            r is Ok <==> binds_ok(sort_params(), args@),
            r matches Ok(f) ==> !f.natural && match (f.property, bound_of(
                sort_params(),
                args@,
                0,
            )) {
                (Some(x), Some(y)) => x@ == y,
                (None, None) => true,
                _ => false,
            },
            r matches Err(e) ==> e.kind == ErrorKind::Parse,
    {
        let decl = self.parameters();
        let mut bound = bind_args(&decl, args)?;
        let property = bound.remove(0);
        Ok(SortFilter { property, natural: false })
    }
}

impl SortNatural {
    /// A fresh constructor for the registry.
    pub fn new() -> (r: SortNatural) {
        SortNatural
    }

    /// The filter's registered name.
    pub fn name(&self) -> (r: &'static str) {
        "sort_natural"
    }

    /// What the filter is for.
    pub fn description(&self) -> (r: &'static str) {
        "Sorts items in an array."
    }

    /// The declared parameters.
    pub fn parameters(&self) -> (r: Vec<ParameterDecl>)
        ensures
            decls_of(&r) == sort_params(),
    {
        sort_parameters()
    }

    /// Binds the supplied arguments.
    pub fn parse(&self, args: &FilterArguments) -> (r: Result<SortFilter, Error>)
        ensures
            r is Ok <==> binds_ok(sort_params(), args@),
            r matches Ok(f) ==> f.natural && match (f.property, bound_of(
                sort_params(),
                args@,
                0,
            )) {
                (Some(x), Some(y)) => x@ == y,
                (None, None) => true,
                _ => false,
            },
            r matches Err(e) ==> e.kind == ErrorKind::Parse,
    {
        let decl = self.parameters();
        let mut bound = bind_args(&decl, args)?;
        let property = bound.remove(0);
        Ok(SortFilter { property, natural: true })
    }
}

impl SortFilter {
    /// Sorts the input's elements under the configured ordering; with
    /// a property argument, every element must be an object.
    #[verifier::rlimit(100)]
    #[verifier::spinoff_prover]
    pub fn evaluate(&self, input: &Value, ctx: &Context) -> (r: Result<Value, Error>)
        ensures
            r is Ok <==> !(sort_mode_of(self, ctx).property is Some && !all_objects(
                seq_of_input(input@),
            )),
            r matches Ok(v) ==> v@ == Val::Arr(
                sort_spec(sort_mode_of(self, ctx), seq_of_input(input@)),
            ),
            r matches Ok(v) ==> v@ is Arr && v@->Arr_0.to_multiset() == seq_of_input(
                input@,
            ).to_multiset() && sorted_under(sort_mode_of(self, ctx), v@->Arr_0),
            r matches Err(e) ==> e.kind == ErrorKind::Render,
    {
        let elems = input_elems(input);
        let property: Option<String> = match &self.property {
            Some(e) => Some(e.evaluate(ctx).to_str()),
            None => None,
        };
        if property.is_some() && !all_objects_exec(&elems) {
            return Err(Error::render(String::from_str("Array of objects expected")));
        }
        let mode = SortMode { property, natural: self.natural };
        let sorted = sort_values(&elems, &mode);
        let out = Value::Array(sorted);
        proof {
            assert(mode@ == sort_mode_of(self, ctx));
            assert(out@->Arr_0 =~= vals_of(&out->Array_0));
        }
        Ok(out)
    }
}


// ---------------------------------------------------------------------------
// where
// ---------------------------------------------------------------------------

/// Whether one element passes a `where` test: it is an object whose
/// property is present and truthy (no target), or present and equal to
/// the target.
pub open spec fn where_keep(elem: Val, prop: Seq<char>, target: Option<Val>) -> bool {
    match elem {
        Val::Obj(fields) => match target {
            None => obj_get(fields, prop) matches Some(x) && truthy(x),
            Some(t) => obj_get(fields, prop) matches Some(x) && x == t,
        },
        _ => false,
    }
}

/// The elements that pass a `where` test, in order.
pub open spec fn where_kept(elems: Seq<Val>, prop: Seq<char>, target: Option<Val>) -> Seq<Val>
    decreases elems.len(),
{
    if elems.len() == 0 {
        Seq::empty()
    } else if where_keep(elems[0], prop, target) {
        seq![elems[0]] + where_kept(elems.skip(1), prop, target)
    } else {
        where_kept(elems.skip(1), prop, target)
    }
}

/// The parameter list the `where` filter declares.
pub open spec fn where_params() -> Seq<ParamV> {
    seq![
        ParamV { name: "property"@, required: true },
        ParamV { name: "target_value"@, required: false },
    ]
}

/// `where`: keeps the elements of an array of objects with a certain
/// property value, by default any truthy value.
#[derive(Clone, Copy, Debug)]
pub struct Where;

/// A parsed `where` invocation.
#[derive(Debug)]
pub struct WhereFilter {
    pub property: Expression,
    pub target_value: Option<Expression>,
}

impl Where {
    /// A fresh constructor for the registry.
    pub fn new() -> (r: Where) {
        Where
    }

    /// The filter's registered name.
    pub fn name(&self) -> (r: &'static str) {
        "where"
    }

    /// What the filter is for.
    pub fn description(&self) -> (r: &'static str) {
        "Filter the elements of an array to those with a certain property value. By default the target is any truthy value."
    }

    /// The declared parameters.
    pub fn parameters(&self) -> (r: Vec<ParameterDecl>)
        ensures
            decls_of(&r) == where_params(),
    {
        let mut decl: Vec<ParameterDecl> = Vec::new();
        decl.push(ParameterDecl { name: String::from_str("property"), required: true });
        decl.push(ParameterDecl { name: String::from_str("target_value"), required: false });
        proof {
            assert(decls_of(&decl) =~= where_params());
        }
        decl
    }

    /// Binds the supplied arguments.
    pub fn parse(&self, args: &FilterArguments) -> (r: Result<WhereFilter, Error>)
        ensures
            r is Ok <==> binds_ok(where_params(), args@),
            r matches Ok(f) ==> Some(f.property@) == bound_of(where_params(), args@, 0) && match (
                f.target_value,
                bound_of(where_params(), args@, 1),
            ) {
                (Some(x), Some(y)) => x@ == y,
                (None, None) => true,
                _ => false,
            },
            r matches Err(e) ==> e.kind == ErrorKind::Parse,
    {
        let decl = self.parameters();
        let mut bound = bind_args(&decl, args)?;
        let target_value = bound.remove(1);
        let property = match bound.remove(0) {
            Some(p) => p,
            None => {
                proof {
                    assert(where_params()[0].required);
                    assert(false);
                }
                Expression::Literal(Value::Nil)
            },
        };
        Ok(WhereFilter { property, target_value })
    }
}

/// The target value in force for a `where` test against a modelled
/// scope stack.
pub open spec fn where_target_in(
    target: Option<Expression>,
    scopes: Seq<Seq<(Seq<char>, Val)>>,
) -> Option<Val> {
    match target {
        Some(e) => Some(eval_in(e@, scopes)),
        None => None,
    }
}

/// The target value in force for a `where` test.
pub open spec fn where_target(target: Option<Expression>, ctx: &Context) -> Option<Val> {
    where_target_in(target, ctx@.scopes)
}

impl WhereFilter {
    /// Keeps the objects whose property passes the test; an array with
    /// a non-object element yields nil, a single object is tested by
    /// itself, and any other input is rejected.
    #[verifier::loop_isolation(false)]
    pub fn evaluate(&self, input: &Value, ctx: &Context) -> (r: Result<Value, Error>)
        ensures
            r is Ok <==> (input@ is Arr || input@ is Obj),
            r matches Ok(v) ==> v@ == spec_where_result(
                input@,
                prop_text(&self.property, ctx),
                where_target(self.target_value, ctx),
            ),
            r matches Err(e) ==> e.kind == ErrorKind::Render,
    {
        let prop = self.property.evaluate(ctx).to_str();
        let target: Option<Value> = match &self.target_value {
            Some(e) => Some(e.evaluate(ctx)),
            None => None,
        };
        match input {
            Value::Array(elems) => {
                if !all_objects_exec(elems) {
                    proof {
                        assert(vals_of(elems) =~= input@->Arr_0);
                    }
                    return Ok(Value::Nil);
                }
                proof {
                    assert(vals_of(elems) =~= input@->Arr_0);
                }
                let kept = where_filter_elems(elems, &prop, &target);
                let out = Value::Array(kept);
                proof {
                    assert(out@->Arr_0 =~= vals_of(&out->Array_0));
                }
                Ok(out)
            },
            Value::Object(_) => {
                let mut single: Vec<Value> = Vec::new();
                single.push(input.clone());
                proof {
                    assert(vals_of(&single) =~= seq![input@]);
                }
                let kept = where_filter_elems(&single, &prop, &target);
                let out = Value::Array(kept);
                proof {
                    assert(out@->Arr_0 =~= vals_of(&out->Array_0));
                }
                Ok(out)
            },
            _ => Err(
                Error::render(String::from_str("Array of objects or a single object expected")),
            ),
        }
    }
}

/// The value a `where` invocation yields on acceptable input: nil for
/// an array with a non-object element, else the elements that pass.
pub open spec fn spec_where_result(input: Val, prop: Seq<char>, target: Option<Val>) -> Val {
    match input {
        Val::Arr(elems) => if !all_objects(elems) {
            Val::Nil
        } else {
            Val::Arr(where_kept(elems, prop, target))
        },
        Val::Obj(_) => Val::Arr(where_kept(seq![input], prop, target)),
        _ => Val::Nil,
    }
}

/// Keeps the elements that pass a `where` test.
#[verifier::loop_isolation(false)]
fn where_filter_elems(elems: &Vec<Value>, prop: &String, target: &Option<Value>) -> (r: Vec<
    Value,
>)
    ensures
        vals_of(&r) == where_kept(
            vals_of(elems),
            prop@,
            match target {
                Some(t) => Some(t@),
                None => None,
            },
        ),
{
    let ghost s = vals_of(elems);
    let ghost tgt: Option<Val> = match target {
        Some(t) => Some(t@),
        None => None,
    };
    let mut out: Vec<Value> = Vec::new();
    proof {
        assert(s.skip(0) =~= s);
        assert(vals_of(&out) =~= Seq::<Val>::empty());
    }
    let mut i: usize = 0;
    while i < elems.len()
        invariant
            0 <= i <= elems.len(),
            where_kept(s, prop@, tgt) == vals_of(&out) + where_kept(s.skip(i as int), prop@, tgt),
        decreases elems.len() - i,
    {
        proof {
            assert(s.skip(i as int)[0] == s[i as int]);
            assert(s.skip(i as int).skip(1) =~= s.skip(i as int + 1));
        }
        let keep = match elems[i].get_property_opt(prop) {
            Some(x) => match target {
                Some(t) => x.equals(t),
                None => x.is_truthy(),
            },
            None => false,
        };
        let ghost old_out = vals_of(&out);
        if keep {
            out.push(elems[i].clone());
            proof {
                assert(vals_of(&out) =~= old_out.push(s[i as int]));
                assert(old_out.push(s[i as int]) + where_kept(s.skip(i as int + 1), prop@, tgt)
                    =~= old_out + (seq![s[i as int]] + where_kept(
                    s.skip(i as int + 1),
                    prop@,
                    tgt,
                )));
            }
        }
        i += 1;
    }
    proof {
        assert(where_kept(s.skip(i as int), prop@, tgt).len() == 0);
        assert(vals_of(&out) + where_kept(s.skip(i as int), prop@, tgt) =~= vals_of(&out));
    }
    out
}

// ---------------------------------------------------------------------------
// uniq
// ---------------------------------------------------------------------------

/// The elements with later duplicates removed, keeping first
/// occurrences in order.
pub open spec fn dedup(s: Seq<Val>) -> Seq<Val>
    decreases s.len(),
{
    if s.len() == 0 {
        Seq::empty()
    } else {
        let pre = dedup(s.drop_last());
        if pre.contains(s.last()) {
            pre
        } else {
            pre.push(s.last())
        }
    }
}

/// `uniq`: removes duplicate elements of an array.
#[derive(Clone, Copy, Debug)]
pub struct Uniq;

/// A parsed `uniq` invocation.
#[derive(Debug)]
pub struct UniqFilter;

impl Uniq {
    /// A fresh constructor for the registry.
    pub fn new() -> (r: Uniq) {
        Uniq
    }

    /// The filter's registered name.
    pub fn name(&self) -> (r: &'static str) {
        "uniq"
    }

    /// What the filter is for.
    pub fn description(&self) -> (r: &'static str) {
        "Removes any duplicate elements in an array."
    }

    /// The declared parameters: none.
    pub fn parameters(&self) -> (r: Vec<ParameterDecl>)
        ensures
            decls_of(&r) == Seq::<ParamV>::empty(),
    {
        let decl: Vec<ParameterDecl> = Vec::new();
        proof {
            assert(decls_of(&decl) =~= Seq::<ParamV>::empty());
        }
        decl
    }

    /// Binds the supplied arguments; any argument is an error.
    pub fn parse(&self, args: &FilterArguments) -> (r: Result<UniqFilter, Error>)
        ensures
            r is Ok <==> binds_ok(Seq::<ParamV>::empty(), args@),
            r matches Err(e) ==> e.kind == ErrorKind::Parse,
    {
        let decl = self.parameters();
        let _ = bind_args(&decl, args)?;
        Ok(UniqFilter)
    }
}

/// Whether a list holds a value equal to the given one.
#[verifier::loop_isolation(false)]
fn contains_value(v: &Vec<Value>, x: &Value) -> (r: bool)
    ensures
        r == vals_of(v).contains(x@),
{
    let mut i: usize = 0;
    while i < v.len()
        invariant
            0 <= i <= v.len(),
            forall|j: int| 0 <= j < i ==> #[trigger] vals_of(v)[j] != x@,
        decreases v.len() - i,
    {
        if v[i].equals(x) {
            proof {
                assert(vals_of(v)[i as int] == x@);
            }
            return true;
        }
        i += 1;
    }
    proof {
        assert forall|j: int| 0 <= j < v.len() implies vals_of(v)[j] != x@ by {}
    }
    false
}

impl UniqFilter {
    /// Removes later duplicates from the array; any other input is
    /// rejected.
    #[verifier::loop_isolation(false)]
    pub fn evaluate(&self, input: &Value, _ctx: &Context) -> (r: Result<Value, Error>)
        ensures
            r is Ok <==> input@ is Arr,
            r matches Ok(v) ==> v@ == Val::Arr(dedup(input@->Arr_0)),
            r matches Err(e) ==> e.kind == ErrorKind::Render,
    {
        match input {
            Value::Array(elems) => {
                let ghost s = vals_of(elems);
                proof {
                    assert(s =~= input@->Arr_0);
                    assert(s.take(0) =~= Seq::<Val>::empty());
                }
                let mut out: Vec<Value> = Vec::new();
                proof {
                    assert(vals_of(&out) =~= Seq::<Val>::empty());
                }
                let mut i: usize = 0;
                while i < elems.len()
                    invariant
                        0 <= i <= elems.len(),
                        vals_of(&out) == dedup(s.take(i as int)),
                    decreases elems.len() - i,
                {
                    proof {
                        assert(s.take(i as int + 1).drop_last() =~= s.take(i as int));
                        assert(s.take(i as int + 1).last() == s[i as int]);
                    }
                    let ghost old_out = vals_of(&out);
                    if !contains_value(&out, &elems[i]) {
                        out.push(elems[i].clone());
                        proof {
                            assert(vals_of(&out) =~= old_out.push(s[i as int]));
                        }
                    }
                    i += 1;
                }
                proof {
                    assert(s.take(i as int) =~= s);
                }
                let outv = Value::Array(out);
                proof {
                    assert(outv@->Arr_0 =~= vals_of(&outv->Array_0));
                }
                Ok(outv)
            },
            _ => Err(Error::render(String::from_str("Array expected"))),
        }
    }
}

// ---------------------------------------------------------------------------
// reverse
// ---------------------------------------------------------------------------

/// `reverse`: reverses the order of the items of an array.
#[derive(Clone, Copy, Debug)]
pub struct Reverse;

/// A parsed `reverse` invocation.
#[derive(Debug)]
pub struct ReverseFilter;

impl Reverse {
    /// A fresh constructor for the registry.
    pub fn new() -> (r: Reverse) {
        Reverse
    }

    /// The filter's registered name.
    pub fn name(&self) -> (r: &'static str) {
        "reverse"
    }

    /// What the filter is for.
    pub fn description(&self) -> (r: &'static str) {
        "Reverses the order of the items in an array."
    }

    /// The declared parameters: none.
    pub fn parameters(&self) -> (r: Vec<ParameterDecl>)
        ensures
            decls_of(&r) == Seq::<ParamV>::empty(),
    {
        let decl: Vec<ParameterDecl> = Vec::new();
        proof {
            assert(decls_of(&decl) =~= Seq::<ParamV>::empty());
        }
        decl
    }

    /// Binds the supplied arguments; any argument is an error.
    pub fn parse(&self, args: &FilterArguments) -> (r: Result<ReverseFilter, Error>)
        ensures
            r is Ok <==> binds_ok(Seq::<ParamV>::empty(), args@),
            r matches Err(e) ==> e.kind == ErrorKind::Parse,
    {
        let decl = self.parameters();
        let _ = bind_args(&decl, args)?;
        Ok(ReverseFilter)
    }
}

impl ReverseFilter {
    /// Reverses the array; any other input is rejected.
    #[verifier::loop_isolation(false)]
    pub fn evaluate(&self, input: &Value, _ctx: &Context) -> (r: Result<Value, Error>)
        ensures
            r is Ok <==> input@ is Arr,
            r matches Ok(v) ==> v@ == Val::Arr(input@->Arr_0.reverse()),
            r matches Err(e) ==> e.kind == ErrorKind::Render,
    {
        match input {
            Value::Array(elems) => {
                let ghost s = vals_of(elems);
                proof {
                    assert(s =~= input@->Arr_0);
                }
                let mut out: Vec<Value> = Vec::new();
                let mut i: usize = elems.len();
                while i > 0
                    invariant
                        0 <= i <= elems.len(),
                        out.len() == elems.len() - i,
                        forall|j: int|
                            0 <= j < out.len() ==> #[trigger] vals_of(&out)[j] == s[s.len() - 1
                                - j],
                    decreases i,
                {
                    i = i - 1;
                    let ghost old_out = vals_of(&out);
                    out.push(elems[i].clone());
                    proof {
                        assert(vals_of(&out) =~= old_out.push(s[i as int]));
                    }
                }
                proof {
                    assert(vals_of(&out) =~= s.reverse());
                }
                let outv = Value::Array(out);
                proof {
                    assert(outv@->Arr_0 =~= vals_of(&outv->Array_0));
                }
                Ok(outv)
            },
            _ => Err(Error::render(String::from_str("Array expected"))),
        }
    }
}


// ---------------------------------------------------------------------------
// map
// ---------------------------------------------------------------------------

/// The property values extracted from the elements, skipping elements
/// that are not objects or lack the property.
pub open spec fn mapped(elems: Seq<Val>, key: Seq<char>) -> Seq<Val>
    decreases elems.len(),
{
    if elems.len() == 0 {
        Seq::empty()
    } else {
        let rest = mapped(elems.skip(1), key);
        match elems[0] {
            Val::Obj(fields) => match obj_get(fields, key) {
                Some(x) => seq![x] + rest,
                None => rest,
            },
            _ => rest,
        }
    }
}

/// The parameter list the `map` filter declares.
pub open spec fn map_params() -> Seq<ParamV> {
    seq![ParamV { name: "property"@, required: true }]
}

/// `map`: extracts one property from each object element of an array.
#[derive(Clone, Copy, Debug)]
pub struct MapValues;

/// A parsed `map` invocation.
#[derive(Debug)]
pub struct MapFilter {
    pub property: Expression,
}

impl MapValues {
    /// A fresh constructor for the registry.
    pub fn new() -> (r: MapValues) {
        MapValues
    }

    /// The filter's registered name.
    pub fn name(&self) -> (r: &'static str) {
        "map"
    }

    /// What the filter is for.
    pub fn description(&self) -> (r: &'static str) {
        "Extract a property from the object elements of an array."
    }

    /// The declared parameters.
    pub fn parameters(&self) -> (r: Vec<ParameterDecl>)
        ensures
            decls_of(&r) == map_params(),
    {
        let mut decl: Vec<ParameterDecl> = Vec::new();
        decl.push(ParameterDecl { name: String::from_str("property"), required: true });
        proof {
            assert(decls_of(&decl) =~= map_params());
        }
        decl
    }

    /// Binds the supplied arguments.
    pub fn parse(&self, args: &FilterArguments) -> (r: Result<MapFilter, Error>)
        ensures
            r is Ok <==> binds_ok(map_params(), args@),
            r matches Ok(f) ==> Some(f.property@) == bound_of(map_params(), args@, 0),
            r matches Err(e) ==> e.kind == ErrorKind::Parse,
    {
        let decl = self.parameters();
        let mut bound = bind_args(&decl, args)?;
        let property = match bound.remove(0) {
            Some(p) => p,
            None => {
                proof {
                    assert(map_params()[0].required);
                    assert(false);
                }
                Expression::Literal(Value::Nil)
            },
        };
        Ok(MapFilter { property })
    }
}

impl MapFilter {
    /// Extracts the property from each object element of the array;
    /// any other input is rejected.
    #[verifier::loop_isolation(false)]
    pub fn evaluate(&self, input: &Value, ctx: &Context) -> (r: Result<Value, Error>)
        ensures
            r is Ok <==> input@ is Arr,
            r matches Ok(v) ==> v@ == Val::Arr(
                mapped(input@->Arr_0, prop_text(&self.property, ctx)),
            ),
            r matches Err(e) ==> e.kind == ErrorKind::Render,
    {
        let prop = self.property.evaluate(ctx).to_str();
        match input {
            Value::Array(elems) => {
                let ghost s = vals_of(elems);
                proof {
                    assert(s =~= input@->Arr_0);
                    assert(s.skip(0) =~= s);
                }
                let mut out: Vec<Value> = Vec::new();
                proof {
                    assert(vals_of(&out) =~= Seq::<Val>::empty());
                }
                let mut i: usize = 0;
                while i < elems.len()
                    invariant
                        0 <= i <= elems.len(),
                        mapped(s, prop@) == vals_of(&out) + mapped(s.skip(i as int), prop@),
                    decreases elems.len() - i,
                {
                    proof {
                        assert(s.skip(i as int)[0] == s[i as int]);
                        assert(s.skip(i as int).skip(1) =~= s.skip(i as int + 1));
                    }
                    let ghost old_out = vals_of(&out);
                    match elems[i].get_property_opt(&prop) {
                        Some(x) => {
                            let ghost xv = x@;
                            out.push(x);
                            proof {
                                assert(vals_of(&out) =~= old_out.push(xv));
                                assert(old_out.push(xv) + mapped(s.skip(i as int + 1), prop@)
                                    =~= old_out + (seq![xv] + mapped(
                                    s.skip(i as int + 1),
                                    prop@,
                                )));
                            }
                        },
                        None => {},
                    }
                    i += 1;
                }
                proof {
                    assert(mapped(s.skip(i as int), prop@).len() == 0);
                    assert(vals_of(&out) + mapped(s.skip(i as int), prop@) =~= vals_of(&out));
                }
                let outv = Value::Array(out);
                proof {
                    assert(outv@->Arr_0 =~= vals_of(&outv->Array_0));
                }
                Ok(outv)
            },
            _ => Err(Error::render(String::from_str("Array expected"))),
        }
    }
}

// ---------------------------------------------------------------------------
// compact
// ---------------------------------------------------------------------------

/// Whether an element survives a `compact`: with a property, the
/// element's property is present and non-nil; without, the element
/// itself is non-nil.
pub open spec fn compact_keep(elem: Val, prop: Option<Seq<char>>) -> bool {
    match prop {
        None => !(elem is Nil),
        Some(p) => match elem {
            Val::Obj(fields) => obj_get(fields, p) matches Some(x) && !(x is Nil),
            _ => false,
        },
    }
}

/// The elements that survive a `compact`, in order.
pub open spec fn compacted(elems: Seq<Val>, prop: Option<Seq<char>>) -> Seq<Val>
    decreases elems.len(),
{
    if elems.len() == 0 {
        Seq::empty()
    } else if compact_keep(elems[0], prop) {
        seq![elems[0]] + compacted(elems.skip(1), prop)
    } else {
        compacted(elems.skip(1), prop)
    }
}

/// `compact`: removes nils from an array, optionally judging each
/// element by one of its properties.
#[derive(Clone, Copy, Debug)]
pub struct Compact;

/// A parsed `compact` invocation.
#[derive(Debug)]
pub struct CompactFilter {
    pub property: Option<Expression>,
}

impl Compact {
    /// A fresh constructor for the registry.
    pub fn new() -> (r: Compact) {
        Compact
    }

    /// The filter's registered name.
    pub fn name(&self) -> (r: &'static str) {
        "compact"
    }

    /// What the filter is for.
    pub fn description(&self) -> (r: &'static str) {
        "Remove nulls from an iterable."
    }

    /// The declared parameters.
    pub fn parameters(&self) -> (r: Vec<ParameterDecl>)
        ensures
            decls_of(&r) == sort_params(),
    {
        sort_parameters()
    }

    /// Binds the supplied arguments.
    pub fn parse(&self, args: &FilterArguments) -> (r: Result<CompactFilter, Error>)
        ensures
            r is Ok <==> binds_ok(sort_params(), args@),
            r matches Ok(f) ==> match (f.property, bound_of(sort_params(), args@, 0)) {
                (Some(x), Some(y)) => x@ == y,
                (None, None) => true,
                _ => false,
            },
            r matches Err(e) ==> e.kind == ErrorKind::Parse,
    {
        let decl = self.parameters();
        let mut bound = bind_args(&decl, args)?;
        let property = bound.remove(0);
        Ok(CompactFilter { property })
    }
}

/// The property name in force for a `compact` against a modelled
/// scope stack.
pub open spec fn compact_prop_in(
    property: Option<Expression>,
    scopes: Seq<Seq<(Seq<char>, Val)>>,
) -> Option<Seq<char>> {
    match property {
        Some(e) => Some(str_of(eval_in(e@, scopes))),
        None => None,
    }
}

/// The property name in force for a `compact`.
pub open spec fn compact_prop(property: Option<Expression>, ctx: &Context) -> Option<Seq<char>> {
    compact_prop_in(property, ctx@.scopes)
}

impl CompactFilter {
    /// Removes the elements that fail the nil test; with a property
    /// argument, every element must be an object.
    #[verifier::loop_isolation(false)]
    pub fn evaluate(&self, input: &Value, ctx: &Context) -> (r: Result<Value, Error>)
        ensures
            r is Ok <==> input@ is Arr && !(compact_prop(self.property, ctx) is Some
                && !all_objects(input@->Arr_0)),
            r matches Ok(v) ==> v@ == Val::Arr(
                compacted(input@->Arr_0, compact_prop(self.property, ctx)),
            ),
            r matches Err(e) ==> e.kind == ErrorKind::Render,
    {
        let prop: Option<String> = match &self.property {
            Some(e) => Some(e.evaluate(ctx).to_str()),
            None => None,
        };
        match input {
            Value::Array(elems) => {
                proof {
                    assert(vals_of(elems) =~= input@->Arr_0);
                }
                if prop.is_some() && !all_objects_exec(elems) {
                    return Err(Error::render(String::from_str("Array of objects expected")));
                }
                let ghost s = vals_of(elems);
                let ghost p: Option<Seq<char>> = match prop {
                    Some(ref q) => Some(q@),
                    None => None,
                };
                proof {
                    assert(s.skip(0) =~= s);
                }
                let mut out: Vec<Value> = Vec::new();
                proof {
                    assert(vals_of(&out) =~= Seq::<Val>::empty());
                }
                let mut i: usize = 0;
                while i < elems.len()
                    invariant
                        0 <= i <= elems.len(),
                        compacted(s, p) == vals_of(&out) + compacted(s.skip(i as int), p),
                    decreases elems.len() - i,
                {
                    proof {
                        assert(s.skip(i as int)[0] == s[i as int]);
                        assert(s.skip(i as int).skip(1) =~= s.skip(i as int + 1));
                    }
                    let keep = match &prop {
                        None => !elems[i].is_nil(),
                        Some(q) => match elems[i].get_property_opt(q) {
                            Some(x) => !x.is_nil(),
                            None => false,
                        },
                    };
                    let ghost old_out = vals_of(&out);
                    if keep {
                        out.push(elems[i].clone());
                        proof {
                            assert(vals_of(&out) =~= old_out.push(s[i as int]));
                            assert(old_out.push(s[i as int]) + compacted(s.skip(i as int + 1), p)
                                =~= old_out + (seq![s[i as int]] + compacted(
                                s.skip(i as int + 1),
                                p,
                            )));
                        }
                    }
                    i += 1;
                }
                proof {
                    assert(compacted(s.skip(i as int), p).len() == 0);
                    assert(vals_of(&out) + compacted(s.skip(i as int), p) =~= vals_of(&out));
                }
                let outv = Value::Array(out);
                proof {
                    assert(outv@->Arr_0 =~= vals_of(&outv->Array_0));
                }
                Ok(outv)
            },
            _ => Err(Error::render(String::from_str("Array expected"))),
        }
    }
}

// ---------------------------------------------------------------------------
// concat
// ---------------------------------------------------------------------------

/// The parameter list the `concat` filter declares.
pub open spec fn concat_params() -> Seq<ParamV> {
    seq![ParamV { name: "array"@, required: true }]
}

/// `concat`: appends a given array to the input array.
#[derive(Clone, Copy, Debug)]
pub struct Concat;

/// A parsed `concat` invocation.
#[derive(Debug)]
pub struct ConcatFilter {
    pub array: Expression,
}

impl Concat {
    /// A fresh constructor for the registry.
    pub fn new() -> (r: Concat) {
        Concat
    }

    /// The filter's registered name.
    pub fn name(&self) -> (r: &'static str) {
        "concat"
    }

    /// What the filter is for.
    pub fn description(&self) -> (r: &'static str) {
        "Concatenates the input array with a given array."
    }

    /// The declared parameters.
    pub fn parameters(&self) -> (r: Vec<ParameterDecl>)
        ensures
            decls_of(&r) == concat_params(),
    {
        let mut decl: Vec<ParameterDecl> = Vec::new();
        decl.push(ParameterDecl { name: String::from_str("array"), required: true });
        proof {
            assert(decls_of(&decl) =~= concat_params());
        }
        decl
    }

    /// Binds the supplied arguments.
    pub fn parse(&self, args: &FilterArguments) -> (r: Result<ConcatFilter, Error>)
        ensures
            r is Ok <==> binds_ok(concat_params(), args@),
            r matches Ok(f) ==> Some(f.array@) == bound_of(concat_params(), args@, 0),
            r matches Err(e) ==> e.kind == ErrorKind::Parse,
    {
        let decl = self.parameters();
        let mut bound = bind_args(&decl, args)?;
        let array = match bound.remove(0) {
            Some(p) => p,
            None => {
                proof {
                    assert(concat_params()[0].required);
                    assert(false);
                }
                Expression::Literal(Value::Nil)
            },
        };
        Ok(ConcatFilter { array })
    }
}

impl ConcatFilter {
    /// Appends the evaluated argument array to the input array; both
    /// must be arrays.
    pub fn evaluate(&self, input: &Value, ctx: &Context) -> (r: Result<Value, Error>)
        ensures
            r is Ok <==> input@ is Arr && eval_of(self.array@, ctx) is Arr,
            r matches Ok(v) ==> v@ == Val::Arr(
                input@->Arr_0 + eval_of(self.array@, ctx)->Arr_0,
            ),
            r matches Err(e) ==> e.kind == ErrorKind::Render,
    {
        let arg = self.array.evaluate(ctx);
        match input {
            Value::Array(elems) => match arg {
                Value::Array(tail) => {
                    proof {
                        assert(vals_of(elems) =~= input@->Arr_0);
                        assert(vals_of(&tail) =~= eval_of(self.array@, ctx)->Arr_0);
                    }
                    let mut out = clone_values(elems);
                    let ghost head_vals = vals_of(&out);
                    let mut rest = clone_values(&tail);
                    let ghost tail_vals = vals_of(&rest);
                    out.append(&mut rest);
                    proof {
                        assert(vals_of(&out) =~= head_vals + tail_vals);
                    }
                    let outv = Value::Array(out);
                    proof {
                        assert(outv@->Arr_0 =~= vals_of(&outv->Array_0));
                    }
                    Ok(outv)
                },
                _ => Err(Error::render(String::from_str("Array expected as argument"))),
            },
            _ => Err(Error::render(String::from_str("Array expected"))),
        }
    }
}

// ---------------------------------------------------------------------------
// first and last
// ---------------------------------------------------------------------------

/// Whether a value is a scalar.
pub open spec fn is_scalar(v: Val) -> bool {
    v is Bool || v is Int || v is Str || v is Date
}

/// The first character of a text, as a text of its own.
pub open spec fn first_char(t: Seq<char>) -> Seq<char> {
    if t.len() == 0 {
        Seq::empty()
    } else {
        seq![t[0]]
    }
}

/// The last character of a text, as a text of its own.
pub open spec fn last_char(t: Seq<char>) -> Seq<char> {
    if t.len() == 0 {
        Seq::empty()
    } else {
        seq![t.last()]
    }
}

/// `first`: the first item of an array, or the first character of a
/// scalar's text.
#[derive(Clone, Copy, Debug)]
pub struct First;

/// A parsed `first` invocation.
#[derive(Debug)]
pub struct FirstFilter;

/// `last`: the last item of an array, or the last character of a
/// scalar's text.
#[derive(Clone, Copy, Debug)]
pub struct Last;

/// A parsed `last` invocation.
#[derive(Debug)]
pub struct LastFilter;

impl First {
    /// A fresh constructor for the registry.
    pub fn new() -> (r: First) {
        First
    }

    /// The filter's registered name.
    pub fn name(&self) -> (r: &'static str) {
        "first"
    }

    /// What the filter is for.
    pub fn description(&self) -> (r: &'static str) {
        "Returns the first item of an array."
    }

    /// The declared parameters: none.
    pub fn parameters(&self) -> (r: Vec<ParameterDecl>)
        ensures
            decls_of(&r) == Seq::<ParamV>::empty(),
    {
        let decl: Vec<ParameterDecl> = Vec::new();
        proof {
            assert(decls_of(&decl) =~= Seq::<ParamV>::empty());
        }
        decl
    }

    /// Binds the supplied arguments; any argument is an error.
    pub fn parse(&self, args: &FilterArguments) -> (r: Result<FirstFilter, Error>)
        ensures
            r is Ok <==> binds_ok(Seq::<ParamV>::empty(), args@),
            r matches Err(e) ==> e.kind == ErrorKind::Parse,
    {
        let decl = self.parameters();
        let _ = bind_args(&decl, args)?;
        Ok(FirstFilter)
    }
}

impl Last {
    /// A fresh constructor for the registry.
    pub fn new() -> (r: Last) {
        Last
    }

    /// The filter's registered name.
    pub fn name(&self) -> (r: &'static str) {
        "last"
    }

    /// What the filter is for.
    pub fn description(&self) -> (r: &'static str) {
        "Returns the last item of an array."
    }

    /// The declared parameters: none.
    pub fn parameters(&self) -> (r: Vec<ParameterDecl>)
        ensures
            decls_of(&r) == Seq::<ParamV>::empty(),
    {
        let decl: Vec<ParameterDecl> = Vec::new();
        proof {
            assert(decls_of(&decl) =~= Seq::<ParamV>::empty());
        }
        decl
    }

    /// Binds the supplied arguments; any argument is an error.
    pub fn parse(&self, args: &FilterArguments) -> (r: Result<LastFilter, Error>)
        ensures
            r is Ok <==> binds_ok(Seq::<ParamV>::empty(), args@),
            r matches Err(e) ==> e.kind == ErrorKind::Parse,
    {
        let decl = self.parameters();
        let _ = bind_args(&decl, args)?;
        Ok(LastFilter)
    }
}

impl FirstFilter {
    /// The first element of an array (nil when empty), or the first
    /// character of a scalar's text; nil and objects are rejected.
    pub fn evaluate(&self, input: &Value, _ctx: &Context) -> (r: Result<Value, Error>)
        ensures
            r is Ok <==> is_scalar(input@) || input@ is Arr,
            r matches Ok(v) ==> v@ == (if is_scalar(input@) {
                Val::Str(first_char(str_of(input@)))
            } else if input@->Arr_0.len() > 0 {
                input@->Arr_0[0]
            } else {
                Val::Nil
            }),
            r matches Err(e) ==> e.kind == ErrorKind::Render,
    {
        match input {
            Value::Array(elems) => {
                if elems.len() > 0 {
                    let v = elems[0].clone();
                    proof {
                        assert(input@->Arr_0[0] == elems[0]@);
                    }
                    Ok(v)
                } else {
                    Ok(Value::Nil)
                }
            },
            Value::Nil | Value::Object(_) => Err(
                Error::render(String::from_str("String or Array expected")),
            ),
            _ => {
                let text = input.to_str();
                let n = text.as_str().unicode_len();
                if n == 0 {
                    Ok(Value::Str(String::new()))
                } else {
                    let head = text.as_str().substring_char(0, 1).to_owned();
                    proof {
                        assert(head@ =~= first_char(str_of(input@)));
                    }
                    Ok(Value::Str(head))
                }
            },
        }
    }
}

impl LastFilter {
    /// The last element of an array (nil when empty), or the last
    /// character of a scalar's text; nil and objects are rejected.
    pub fn evaluate(&self, input: &Value, _ctx: &Context) -> (r: Result<Value, Error>)
        ensures
            r is Ok <==> is_scalar(input@) || input@ is Arr,
            r matches Ok(v) ==> v@ == (if is_scalar(input@) {
                Val::Str(last_char(str_of(input@)))
            } else if input@->Arr_0.len() > 0 {
                input@->Arr_0.last()
            } else {
                Val::Nil
            }),
            r matches Err(e) ==> e.kind == ErrorKind::Render,
    {
        match input {
            Value::Array(elems) => {
                if elems.len() > 0 {
                    let v = elems[elems.len() - 1].clone();
                    proof {
                        assert(input@->Arr_0.last() == elems[elems.len() - 1]@);
                    }
                    Ok(v)
                } else {
                    Ok(Value::Nil)
                }
            },
            Value::Nil | Value::Object(_) => Err(
                Error::render(String::from_str("String or Array expected")),
            ),
            _ => {
                let text = input.to_str();
                let n = text.as_str().unicode_len();
                if n == 0 {
                    Ok(Value::Str(String::new()))
                } else {
                    let tail = text.as_str().substring_char(n - 1, n).to_owned();
                    proof {
                        assert(tail@ =~= last_char(str_of(input@)));
                    }
                    Ok(Value::Str(tail))
                }
            },
        }
    }
}

// ---------------------------------------------------------------------------
// parsed filter dispatch
// ---------------------------------------------------------------------------

/// A parsed filter invocation of the catalog, ready to evaluate.
#[derive(Debug)]
pub enum BoundFilter {
    Join(JoinFilter),
    Sort(SortFilter),
    Where(WhereFilter),
    Uniq(UniqFilter),
    Reverse(ReverseFilter),
    MapValues(MapFilter),
    Compact(CompactFilter),
    Concat(ConcatFilter),
    First(FirstFilter),
    Last(LastFilter),
}

/// What a parsed filter yields on an input value against a modelled
/// scope stack: the filter's result, or nothing when the filter
/// rejects the input.
pub open spec fn spec_filter_apply(
    f: &BoundFilter,
    input: Val,
    scopes: Seq<Seq<(Seq<char>, Val)>>,
) -> Option<Val> {
    match f {
        BoundFilter::Join(jf) => if input is Arr {
            Some(Val::Str(joined(texts_of(input->Arr_0), sep_text_in(jf.separator, scopes))))
        } else {
            None
        },
        BoundFilter::Sort(sf) => {
            let m = sort_mode_in(sf, scopes);
            if m.property is Some && !all_objects(seq_of_input(input)) {
                None
            } else {
                Some(Val::Arr(sort_spec(m, seq_of_input(input))))
            }
        },
        BoundFilter::Where(wf) => if input is Arr || input is Obj {
            Some(
                spec_where_result(
                    input,
                    prop_text_in(&wf.property, scopes),
                    where_target_in(wf.target_value, scopes),
                ),
            )
        } else {
            None
        },
        BoundFilter::Uniq(_) => if input is Arr {
            Some(Val::Arr(dedup(input->Arr_0)))
        } else {
            None
        },
        BoundFilter::Reverse(_) => if input is Arr {
            Some(Val::Arr(input->Arr_0.reverse()))
        } else {
            None
        },
        BoundFilter::MapValues(mf) => if input is Arr {
            Some(Val::Arr(mapped(input->Arr_0, prop_text_in(&mf.property, scopes))))
        } else {
            None
        },
        BoundFilter::Compact(cf) => {
            let p = compact_prop_in(cf.property, scopes);
            if input is Arr && !(p is Some && !all_objects(input->Arr_0)) {
                Some(Val::Arr(compacted(input->Arr_0, p)))
            } else {
                None
            }
        },
        BoundFilter::Concat(cf) => {
            let a = eval_in(cf.array@, scopes);
            if input is Arr && a is Arr {
                Some(Val::Arr(input->Arr_0 + a->Arr_0))
            } else {
                None
            }
        },
        BoundFilter::First(_) => if is_scalar(input) {
            Some(Val::Str(first_char(str_of(input))))
        } else if input is Arr {
            Some(
                if input->Arr_0.len() > 0 {
                    input->Arr_0[0]
                } else {
                    Val::Nil
                },
            )
        } else {
            None
        },
        BoundFilter::Last(_) => if is_scalar(input) {
            Some(Val::Str(last_char(str_of(input))))
        } else if input is Arr {
            Some(
                if input->Arr_0.len() > 0 {
                    input->Arr_0.last()
                } else {
                    Val::Nil
                },
            )
        } else {
            None
        },
    }
}

impl BoundFilter {
    /// Evaluates the filter body on an already-evaluated input value;
    /// each bound argument expression is evaluated against the context
    /// here, immediately before the body runs. The outcome is exactly
    /// what the filter's model yields.
    pub fn evaluate(&self, input: &Value, ctx: &Context) -> (r: Result<Value, Error>)
        ensures
            match (r, spec_filter_apply(self, input@, ctx@.scopes)) {
                (Ok(v), Some(s)) => v@ == s,
                (Err(_), None) => true,
                _ => false,
            },
            r matches Err(e) ==> e.kind == ErrorKind::Render,
    {
        match self {
            BoundFilter::Join(f) => f.evaluate(input, ctx),
            BoundFilter::Sort(f) => f.evaluate(input, ctx),
            BoundFilter::Where(f) => f.evaluate(input, ctx),
            BoundFilter::Uniq(f) => f.evaluate(input, ctx),
            BoundFilter::Reverse(f) => f.evaluate(input, ctx),
            BoundFilter::MapValues(f) => f.evaluate(input, ctx),
            BoundFilter::Compact(f) => f.evaluate(input, ctx),
            BoundFilter::Concat(f) => f.evaluate(input, ctx),
            BoundFilter::First(f) => f.evaluate(input, ctx),
            BoundFilter::Last(f) => f.evaluate(input, ctx),
        }
    }
}

} // verus!
