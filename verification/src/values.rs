//! Script values and name/value bindings.
//!
//! A `Value` is what flows across the script/host boundary: the script's
//! literals, the opaque handle returned by `load_clip`, and the callable
//! intrinsics bound into the global scope. `Binding` is one name/value pair;
//! both the lexical scopes of the evaluator and the project's host-visible
//! variable table are sequences of bindings with unique names.

use vstd::prelude::*;

use crate::numerals::dec_int;

verus! {

/// The host intrinsics that a script can call.
#[derive(Clone, Copy, PartialEq, Eq, Structural, Debug)]
pub enum IntrinsicKind {
    Log,
    LoadClip,
    CreateVariable,
}

/// The opaque object handed back by `load_clip`: it exposes the loaded
/// asset's path. Clip-manipulation members are reserved for later.
#[derive(Debug)]
pub struct ClipHandle {
    pub path: String,
}

/// A value marshalled between the script and the host.
#[derive(Debug)]
pub enum Value {
    Undefined,
    Num(i64),
    Str(String),
    Handle(ClipHandle),
    Intrinsic(IntrinsicKind),
}

/// The mathematical form of a `Value`.
pub enum ValueModel {
    Undefined,
    Num(int),
    Str(Seq<char>),
    Handle(Seq<char>),
    Intrinsic(IntrinsicKind),
}

impl View for Value {
    type V = ValueModel;

    open spec fn view(&self) -> ValueModel {
        match self {
            Value::Undefined => ValueModel::Undefined,
            Value::Num(n) => ValueModel::Num(*n as int),
            Value::Str(s) => ValueModel::Str(s@),
            Value::Handle(h) => ValueModel::Handle(h.path@),
            Value::Intrinsic(k) => ValueModel::Intrinsic(*k),
        }
    }
}

impl DeepView for Value {
    type V = ValueModel;

    open spec fn deep_view(&self) -> ValueModel {
        self@
    }
}

impl Clone for ClipHandle {
    fn clone(&self) -> (r: ClipHandle)
        ensures
            r.path@ == self.path@,
    {
        ClipHandle { path: self.path.clone() }
    }
}

impl Clone for Value {
    fn clone(&self) -> (r: Value)
        ensures
            r@ == self@,
    {
        match self {
            Value::Undefined => Value::Undefined,
            Value::Num(n) => Value::Num(*n),
            Value::Str(s) => Value::Str(s.clone()),
            Value::Handle(h) => Value::Handle(h.clone()),
            Value::Intrinsic(k) => Value::Intrinsic(*k),
        }
    }
}

/// The string form of a value, as `log` emits it and as the console
/// reports a final value.
pub open spec fn display_of(v: ValueModel) -> Seq<char> {
    match v {
        ValueModel::Undefined => "undefined"@,
        ValueModel::Num(n) => dec_int(n),
        ValueModel::Str(s) => s,
        ValueModel::Handle(p) => "clip("@ + p + ")"@,
        ValueModel::Intrinsic(_) => "function"@,
    }
}

/// Computes the string form of a value.
pub fn to_display_string(v: &Value) -> (r: String)
    ensures
        r@ == display_of(v@),
{
    match v {
        Value::Undefined => "undefined".to_owned(),
        Value::Num(n) => crate::numerals::fmt_i64(*n),
        Value::Str(s) => s.clone(),
        Value::Handle(h) => {
            let r = "clip(".to_owned().concat(h.path.as_str()).concat(")");
            assert(r@ =~= "clip("@ + h.path@ + ")"@);
            r
        },
        Value::Intrinsic(_) => "function".to_owned(),
    }
}

/// One name/value pair of a scope or of the project's variable table.
#[derive(Debug)]
pub struct Binding {
    pub name: String,
    pub value: Value,
}

impl DeepView for Binding {
    type V = (Seq<char>, ValueModel);

    open spec fn deep_view(&self) -> (Seq<char>, ValueModel) {
        (self.name@, self.value@)
    }
}

impl Clone for Binding {
    fn clone(&self) -> (r: Binding)
        ensures
            r.deep_view() == self.deep_view(),
    {
        Binding { name: self.name.clone(), value: self.value.clone() }
    }
}

/// The value bound under `name` in `bs` at or after position `i`,
/// searching front to back.
pub open spec fn find_from(bs: Seq<(Seq<char>, ValueModel)>, i: int, name: Seq<char>) -> Option<
    ValueModel,
>
    decreases bs.len() - i,
{
    if i < 0 || i >= bs.len() {
        None
    } else if bs[i].0 == name {
        Some(bs[i].1)
    } else {
        find_from(bs, i + 1, name)
    }
}

/// The value bound under `name` in `bs`, or `None` when the name is unbound.
pub open spec fn find_binding(bs: Seq<(Seq<char>, ValueModel)>, name: Seq<char>) -> Option<
    ValueModel,
> {
    find_from(bs, 0, name)
}

/// `bs` with `name` bound to `value`: the first binding of that name is
/// overwritten; an unbound name is appended. Last write wins.
pub open spec fn set_from(
    bs: Seq<(Seq<char>, ValueModel)>,
    i: int,
    name: Seq<char>,
    value: ValueModel,
) -> Seq<(Seq<char>, ValueModel)>
    decreases bs.len() - i,
{
    if i < 0 || i >= bs.len() {
        bs.push((name, value))
    } else if bs[i].0 == name {
        bs.update(i, (name, value))
    } else {
        set_from(bs, i + 1, name, value)
    }
}

/// `bs` with `name` bound to `value` (see `set_from`).
pub open spec fn set_binding(
    bs: Seq<(Seq<char>, ValueModel)>,
    name: Seq<char>,
    value: ValueModel,
) -> Seq<(Seq<char>, ValueModel)> {
    set_from(bs, 0, name, value)
}

/// No two bindings share a name.
pub open spec fn names_unique(bs: Seq<(Seq<char>, ValueModel)>) -> bool {
    forall|i: int, j: int| 0 <= i < j < bs.len() ==> (#[trigger] bs[i]).0 != (#[trigger] bs[j]).0
}

/// Compares two string slices by their character sequences.
pub fn str_eq(a: &str, b: &str) -> (r: bool)
    ensures
        r == (a@ == b@),
{
    let sa = a.to_owned();
    let sb = b.to_owned();
    sa.eq(&sb)
}

/// Looks `name` up in a binding table.
pub fn lookup_binding<'a>(bs: &'a Vec<Binding>, name: &str) -> (r: Option<&'a Value>)
    ensures
        match r {
            Some(v) => find_binding(bs.deep_view(), name@) == Some(v@),
            None => find_binding(bs.deep_view(), name@) is None,
        },
{
    lookup_binding_from(bs, 0, name)
}

fn lookup_binding_from<'a>(bs: &'a Vec<Binding>, i: usize, name: &str) -> (r: Option<&'a Value>)
    requires
        i <= bs.len(),
    ensures
        match r {
            Some(v) => find_from(bs.deep_view(), i as int, name@) == Some(v@),
            None => find_from(bs.deep_view(), i as int, name@) is None,
        },
    decreases bs.len() - i,
{
    if i >= bs.len() {
        None
    } else if str_eq(bs[i].name.as_str(), name) {
        Some(&bs[i].value)
    } else {
        lookup_binding_from(bs, i + 1, name)
    }
}

/// Binds `name` to `value` in a binding table, overwriting the binding of
/// that name if there is one and appending otherwise.
pub fn write_binding(bs: &mut Vec<Binding>, name: String, value: Value)
    ensures
        final(bs).deep_view() == set_binding(old(bs).deep_view(), name@, value@),
        names_unique(old(bs).deep_view()) ==> names_unique(final(bs).deep_view()),
{
    let ghost old_bs = bs.deep_view();
    write_binding_from(bs, 0, name, value);
    proof {
        if names_unique(old_bs) {
            lemma_set_from_unique(old_bs, 0, name@, value@);
        }
    }
}

fn write_binding_from(bs: &mut Vec<Binding>, i: usize, name: String, value: Value)
    requires
        i <= old(bs).len(),
    ensures
        final(bs).deep_view() == set_from(old(bs).deep_view(), i as int, name@, value@),
    decreases old(bs).len() - i,
{
    let ghost old_bs = bs.deep_view();
    let ghost nv = (name@, value@);
    if i >= bs.len() {
        bs.push(Binding { name, value });
        assert(bs.deep_view() =~= old_bs.push(nv));
    } else if str_eq(bs[i].name.as_str(), name.as_str()) {
        bs[i] = Binding { name, value };
        assert(bs.deep_view() =~= old_bs.update(i as int, nv));
    } else {
        write_binding_from(bs, i + 1, name, value);
    }
}

/// Binding a name keeps the names of a table unique.
pub proof fn lemma_set_binding_unique(bs: Seq<(Seq<char>, ValueModel)>, name: Seq<char>, value: ValueModel)
    requires
        names_unique(bs),
    ensures
        names_unique(set_binding(bs, name, value)),
{
    lemma_set_from_unique(bs, 0, name, value);
}

proof fn lemma_set_from_unique(
    bs: Seq<(Seq<char>, ValueModel)>,
    i: int,
    name: Seq<char>,
    value: ValueModel,
)
    requires
        names_unique(bs),
        0 <= i <= bs.len(),
        forall|j: int| 0 <= j < i ==> (#[trigger] bs[j]).0 != name,
    ensures
        names_unique(set_from(bs, i, name, value)),
    decreases bs.len() - i,
{
    if i >= bs.len() {
        let r = bs.push((name, value));
        assert forall|p: int, q: int| 0 <= p < q < r.len() implies (#[trigger] r[p]).0 != (
        #[trigger] r[q]).0 by {
            if q < bs.len() {
                assert(r[p] == bs[p] && r[q] == bs[q]);
            } else {
                assert(r[q].0 == name && r[p] == bs[p]);
            }
        }
    } else if bs[i].0 == name {
        let r = bs.update(i, (name, value));
        assert forall|p: int, q: int| 0 <= p < q < r.len() implies (#[trigger] r[p]).0 != (
        #[trigger] r[q]).0 by {
            assert(bs[p].0 != bs[q].0);
            assert(r[p].0 == if p == i {
                name
            } else {
                bs[p].0
            });
            assert(r[q].0 == if q == i {
                name
            } else {
                bs[q].0
            });
        }
    } else {
        lemma_set_from_unique(bs, i + 1, name, value);
    }
}

} // verus!
