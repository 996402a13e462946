//! The runtime value model: a closed tagged union and its mathematical view.
use vstd::prelude::*;

use crate::number::{num_same, num_truthy, number_is_truthy, number_same, ONE_BITS, ZERO_BITS};

verus! {

/// The mathematical model of a runtime value.
///
/// An object is an association list from keys to values; where a key occurs
/// more than once, the first occurrence is the one that counts.
pub enum Val {
    Function { entry: usize, arity: u8 },
    Number(u64),
    Str(Seq<char>),
    Bool(bool),
    Array(Seq<Val>),
    Object(Seq<(Seq<char>, Val)>),
    Nil,
}

/// A runtime value. A `Number` holds the bit pattern of an IEEE-754 binary64.
///
/// `==` compares representations exactly (number bit patterns, entry order);
/// the equality of the `Equal` instruction is [`VMValue::equals`].
#[derive(Debug, PartialEq)]
pub enum VMValue {
    Function { bytecode_idx: usize, arity: u8 },
    Number(u64),
    String(String),
    Bool(bool),
    Array(Vec<VMValue>),
    Object(Vec<(String, VMValue)>),
    Nil,
}

impl View for VMValue {
    type V = Val;

    open spec fn view(&self) -> Val {
        value_view(*self)
    }
}

/// The view of a value, recursively through its containers.
pub open spec fn value_view(v: VMValue) -> Val
    decreases v,
{
        match v {
            VMValue::Function { bytecode_idx, arity } => Val::Function {
                entry: bytecode_idx,
                arity: arity,
            },
            VMValue::Number(n) => Val::Number(n),
            VMValue::String(s) => Val::Str(s@),
            VMValue::Bool(b) => Val::Bool(b),
            VMValue::Array(v) => Val::Array(items_view(v@)),
            VMValue::Object(v) => Val::Object(entries_view(v@)),
            VMValue::Nil => Val::Nil,
        }
}

/// The view of a list of values, element by element.
pub open spec fn items_view(s: Seq<VMValue>) -> Seq<Val>
    decreases s,
{
    if s.len() == 0 {
        Seq::empty()
    } else {
        items_view(s.subrange(0, s.len() - 1)).push(value_view(s[s.len() - 1]))
    }
}

/// The view of a list of key/value entries, entry by entry.
pub open spec fn entries_view(s: Seq<(String, VMValue)>) -> Seq<(Seq<char>, Val)>
    decreases s,
{
    if s.len() == 0 {
        Seq::empty()
    } else {
        entries_view(s.subrange(0, s.len() - 1)).push(
            (s[s.len() - 1].0@, value_view(s[s.len() - 1].1)),
        )
    }
}

pub proof fn lemma_items_view(s: Seq<VMValue>)
    ensures
        items_view(s).len() == s.len(),
        forall|i: int| 0 <= i < s.len() ==> #[trigger] items_view(s)[i] == s[i]@,
    decreases s.len(),
{
    if s.len() > 0 {
        lemma_items_view(s.subrange(0, s.len() - 1));
    }
}

pub proof fn lemma_entries_view(s: Seq<(String, VMValue)>)
    ensures
        entries_view(s).len() == s.len(),
        forall|i: int| 0 <= i < s.len() ==> #[trigger] entries_view(s)[i] == (s[i].0@, s[i].1@),
    decreases s.len(),
{
    if s.len() > 0 {
        lemma_entries_view(s.subrange(0, s.len() - 1));
    }
}

/// `i` is the first position of an entry with key `k`.
pub open spec fn is_first_key(s: Seq<(Seq<char>, Val)>, k: Seq<char>, i: int) -> bool {
    &&& 0 <= i < s.len()
    &&& s[i].0 == k
    &&& forall|j: int| 0 <= j < i ==> s[j].0 != k
}

/// The position of the first entry with key `k`, or -1 where there is none.
pub open spec fn key_index(s: Seq<(Seq<char>, Val)>, k: Seq<char>) -> int {
    if exists|i: int| is_first_key(s, k, i) {
        choose|i: int| is_first_key(s, k, i)
    } else {
        -1
    }
}

/// The value under key `k`, where there is one.
pub open spec fn lookup(s: Seq<(Seq<char>, Val)>, k: Seq<char>) -> Option<Val> {
    if key_index(s, k) >= 0 {
        Some(s[key_index(s, k)].1)
    } else {
        None
    }
}

/// Insert or overwrite: the first entry with key `k` takes value `v`; where no
/// entry has that key, one is appended.
pub open spec fn assoc_put(s: Seq<(Seq<char>, Val)>, k: Seq<char>, v: Val) -> Seq<(Seq<char>, Val)> {
    if key_index(s, k) >= 0 {
        s.update(key_index(s, k), (k, v))
    } else {
        s.push((k, v))
    }
}

/// A key that occurs has a first occurrence.
pub proof fn lemma_key_found(e: Seq<(Seq<char>, Val)>, k: Seq<char>, j: int)
    requires
        0 <= j < e.len(),
        e[j].0 == k,
    ensures
        key_index(e, k) >= 0,
        is_first_key(e, k, key_index(e, k)),
    decreases j,
{
    if exists|l: int| 0 <= l < j && e[l].0 == k {
        let l = choose|l: int| 0 <= l < j && e[l].0 == k;
        lemma_key_found(e, k, l);
    } else {
        assert(is_first_key(e, k, j));
    }
}

/// The first occurrence of a key is the position that `key_index` gives.
pub proof fn lemma_first_key(e: Seq<(Seq<char>, Val)>, k: Seq<char>, i: int)
    requires
        is_first_key(e, k, i),
    ensures
        key_index(e, k) == i,
{
    let j = key_index(e, k);
    assert(is_first_key(e, k, j));
}

/// Keys occur at most once.
pub open spec fn keys_unique(s: Seq<(Seq<char>, Val)>) -> bool {
    forall|i: int, j: int| 0 <= i < s.len() && 0 <= j < s.len() && i != j ==> s[i].0 != s[j].0
}

/// Every key of `y` is a key of `x`.
pub open spec fn keys_within(y: Seq<(Seq<char>, Val)>, x: Seq<(Seq<char>, Val)>) -> bool {
    forall|j: int| 0 <= j < y.len() ==> key_index(x, y[j].0) >= 0
}

/// Setting a key keeps keys unique.
pub proof fn lemma_assoc_put_unique(s: Seq<(Seq<char>, Val)>, k: Seq<char>, v: Val)
    requires
        keys_unique(s),
    ensures
        keys_unique(assoc_put(s, k, v)),
{
    if key_index(s, k) < 0 {
        assert forall|j: int| 0 <= j < s.len() implies s[j].0 != k by {
            if s[j].0 == k {
                lemma_key_found(s, k, j);
            }
        }
    } else {
        assert(is_first_key(s, k, key_index(s, k)));
    }
}

/// The structural equality that the `Equal` instruction computes: variant and
/// content. Numbers are equal when their patterns are, and the two zeros are
/// equal. Objects compare as mappings: the same keys, and equal values under
/// each key (the first occurrence of a key is the one that counts).
pub open spec fn val_equal(a: Val, b: Val) -> bool
    decreases a,
{
    match a {
        Val::Function { entry, arity } => match b {
            Val::Function { entry: e2, arity: a2 } => entry == e2 && arity == a2,
            _ => false,
        },
        Val::Number(x) => match b {
            Val::Number(y) => num_same(x, y),
            _ => false,
        },
        Val::Str(x) => match b {
            Val::Str(y) => x == y,
            _ => false,
        },
        Val::Bool(x) => match b {
            Val::Bool(y) => x == y,
            _ => false,
        },
        Val::Array(x) => match b {
            Val::Array(y) => {
                &&& x.len() == y.len()
                &&& forall|i: int| 0 <= i < x.len() ==> val_equal(x[i], y[i])
            },
            _ => false,
        },
        Val::Object(x) => match b {
            Val::Object(y) => {
                &&& (forall|i: int|
                    0 <= i < x.len() && is_first_key(x, x[i].0, i) ==> key_index(y, x[i].0) >= 0
                        && val_equal(x[i].1, y[key_index(y, x[i].0)].1))
                &&& keys_within(y, x)
            },
            _ => false,
        },
        Val::Nil => match b {
            Val::Nil => true,
            _ => false,
        },
    }
}

/// Truthiness in a conditional jump: a boolean is itself, a number is true
/// unless zero, nil is false, and every other value is true.
pub open spec fn truthy(v: Val) -> bool {
    match v {
        Val::Bool(b) => b,
        Val::Number(n) => num_truthy(n),
        Val::Nil => false,
        _ => true,
    }
}

/// The numeric coercion: a number is itself, `true` is one, and everything
/// else is (positive) zero.
pub open spec fn numeric_bits(v: Val) -> u64 {
    match v {
        Val::Number(n) => n,
        Val::Bool(true) => ONE_BITS,
        _ => ZERO_BITS,
    }
}

/// The position of the first entry of `entries` whose key is `key`.
pub fn find_key(entries: &Vec<(String, VMValue)>, key: &String) -> (r: Option<usize>)
    ensures
        match r {
            Some(i) => is_first_key(entries_view(entries@), key@, i as int)
                && key_index(entries_view(entries@), key@) == i,
            None => key_index(entries_view(entries@), key@) == -1,
        },
{
    let ghost s = entries_view(entries@);
    let mut i: usize = 0;
    while i < entries.len()
        invariant
            i <= entries@.len(),
            s == entries_view(entries@),
            forall|j: int| 0 <= j < i ==> s[j].0 != key@,
        decreases entries@.len() - i,
    {
        proof { lemma_entries_view(entries@); }
        if entries[i].0 == *key {
            assert(is_first_key(s, key@, i as int));
            return Some(i);
        }
        i += 1;
    }
    proof {
        lemma_entries_view(entries@);
    }
    assert(!exists|j: int| is_first_key(s, key@, j));
    None
}

impl VMValue {
    /// A copy of the whole value, containers included.
    pub fn deep_clone(&self) -> (r: VMValue)
        ensures
            r@ == self@,
        decreases self,
    {
        match self {
            VMValue::Function { bytecode_idx, arity } => VMValue::Function {
                bytecode_idx: *bytecode_idx,
                arity: *arity,
            },
            VMValue::Number(n) => VMValue::Number(*n),
            VMValue::String(s) => VMValue::String(s.clone()),
            VMValue::Bool(b) => VMValue::Bool(*b),
            VMValue::Array(v) => {
                let mut out: Vec<VMValue> = Vec::new();
                let mut i: usize = 0;
                while i < v.len()
                    invariant
                        i <= v@.len(),
                        *self == VMValue::Array(*v),
                        out@.len() == i,
                        forall|j: int| 0 <= j < i ==> out@[j]@ == v@[j]@,
                    decreases v@.len() - i,
                {
                    proof {
                        assert(decreases_to!(*self => self->Array_0));
                        assert(decreases_to!(*v => v[i as int]));
                    }
                    let c = v[i].deep_clone();
                    out.push(c);
                    i += 1;
                }
                proof {
                    lemma_items_view(out@);
                    lemma_items_view(v@);
                    assert(items_view(out@) =~= items_view(v@));
                }
                VMValue::Array(out)
            },
            VMValue::Object(v) => {
                let mut out: Vec<(String, VMValue)> = Vec::new();
                let mut i: usize = 0;
                while i < v.len()
                    invariant
                        i <= v@.len(),
                        *self == VMValue::Object(*v),
                        out@.len() == i,
                        forall|j: int|
                            0 <= j < i ==> out@[j].0@ == v@[j].0@ && out@[j].1@ == v@[j].1@,
                    decreases v@.len() - i,
                {
                    proof {
                        assert(decreases_to!(*self => self->Object_0));
                        assert(decreases_to!(*v => v[i as int]));
                        assert(decreases_to!(v[i as int] => v[i as int].1));
                    }
                    let k = v[i].0.clone();
                    let c = v[i].1.deep_clone();
                    out.push((k, c));
                    i += 1;
                }
                proof {
                    lemma_entries_view(out@);
                    lemma_entries_view(v@);
                    assert(entries_view(out@) =~= entries_view(v@));
                }
                VMValue::Object(out)
            },
            VMValue::Nil => VMValue::Nil,
        }
    }

    /// Structural equality, as the `Equal` instruction computes it.
    pub fn equals(&self, other: &VMValue) -> (r: bool)
        ensures
            r == val_equal(self@, other@),
        decreases self,
    {
        match self {
            VMValue::Function { bytecode_idx, arity } => match other {
                VMValue::Function { bytecode_idx: e2, arity: a2 } => *bytecode_idx == *e2 && *arity
                    == *a2,
                _ => false,
            },
            VMValue::Number(x) => match other {
                VMValue::Number(y) => number_same(*x, *y),
                _ => false,
            },
            VMValue::String(x) => match other {
                VMValue::String(y) => *x == *y,
                _ => false,
            },
            VMValue::Bool(x) => match other {
                VMValue::Bool(y) => *x == *y,
                _ => false,
            },
            VMValue::Array(x) => match other {
                VMValue::Array(y) => {
                    proof {
                        lemma_items_view(x@);
                        lemma_items_view(y@);
                    }
                    if x.len() != y.len() {
                        assert(self@ == Val::Array(items_view(x@)));
                        assert(other@ == Val::Array(items_view(y@)));
                        return false;
                    }
                    let mut i: usize = 0;
                    while i < x.len()
                        invariant
                            *self == VMValue::Array(*x),
                            *other == VMValue::Array(*y),
                            i <= x@.len(),
                            x@.len() == y@.len(),
                            items_view(x@).len() == x@.len(),
                            items_view(y@).len() == y@.len(),
                            forall|k: int| 0 <= k < x@.len() ==> #[trigger] items_view(x@)[k] == x@[k]@,
                            forall|k: int| 0 <= k < y@.len() ==> #[trigger] items_view(y@)[k] == y@[k]@,
                            forall|j: int|
                                0 <= j < i ==> val_equal(items_view(x@)[j], items_view(y@)[j]),
                        decreases x@.len() - i,
                    {
                        proof {
                            assert(decreases_to!(*self => self->Array_0));
                            assert(decreases_to!(*x => x[i as int]));
                        }
                        if !x[i].equals(&y[i]) {
                            assert(!val_equal(items_view(x@)[i as int], items_view(y@)[i as int]));
                            assert(self@ == Val::Array(items_view(x@)));
                            assert(other@ == Val::Array(items_view(y@)));
                            return false;
                        }
                        i += 1;
                    }
                    assert(self@ == Val::Array(items_view(x@)));
                    assert(other@ == Val::Array(items_view(y@)));
                    true
                },
                _ => false,
            },
            VMValue::Object(x) => match other {
                VMValue::Object(y) => {
                    let ghost xs = entries_view(x@);
                    let ghost ys = entries_view(y@);
                    proof {
                        lemma_entries_view(x@);
                        lemma_entries_view(y@);
                    }
                    let mut i: usize = 0;
                    while i < x.len()
                        invariant
                            *self == VMValue::Object(*x),
                            *other == VMValue::Object(*y),
                            xs == entries_view(x@),
                            ys == entries_view(y@),
                            i <= x@.len(),
                            xs.len() == x@.len(),
                            ys.len() == y@.len(),
                            forall|k: int| 0 <= k < x@.len() ==> #[trigger] xs[k] == (x@[k].0@, x@[k].1@),
                            forall|k: int| 0 <= k < y@.len() ==> #[trigger] ys[k] == (y@[k].0@, y@[k].1@),
                            forall|j: int|
                                0 <= j < i && is_first_key(xs, xs[j].0, j) ==> key_index(ys, xs[j].0)
                                    >= 0 && val_equal(xs[j].1, ys[key_index(ys, xs[j].0)].1),
                        decreases x@.len() - i,
                    {
                        proof {
                            assert(decreases_to!(*self => self->Object_0));
                            assert(decreases_to!(*x => x[i as int]));
                            assert(decreases_to!(x[i as int] => x[i as int].1));
                        }
                        let first = find_key(x, &x[i].0);
                        if first == Some(i) {
                            match find_key(y, &x[i].0) {
                                None => {
                                    assert(is_first_key(xs, xs[i as int].0, i as int));
                                    assert(key_index(ys, xs[i as int].0) < 0);
                                    assert(self@ == Val::Object(xs));
                                    assert(other@ == Val::Object(ys));
                                    return false;
                                },
                                Some(j) => {
                                    if !x[i].1.equals(&y[j].1) {
                                        assert(is_first_key(xs, xs[i as int].0, i as int));
                                        assert(!val_equal(xs[i as int].1, ys[j as int].1));
                                        assert(self@ == Val::Object(xs));
                                        assert(other@ == Val::Object(ys));
                                        return false;
                                    }
                                },
                            }
                        } else {
                            assert(!is_first_key(xs, xs[i as int].0, i as int));
                        }
                        i += 1;
                    }
                    let mut j: usize = 0;
                    while j < y.len()
                        invariant
                            *self == VMValue::Object(*x),
                            *other == VMValue::Object(*y),
                            xs == entries_view(x@),
                            ys == entries_view(y@),
                            xs.len() == x@.len(),
                            forall|k: int|
                                0 <= k < x@.len() && is_first_key(xs, xs[k].0, k) ==> key_index(ys, xs[k].0)
                                    >= 0 && val_equal(xs[k].1, ys[key_index(ys, xs[k].0)].1),
                            j <= y@.len(),
                            ys.len() == y@.len(),
                            forall|k: int| 0 <= k < y@.len() ==> #[trigger] ys[k] == (y@[k].0@, y@[k].1@),
                            forall|k: int| 0 <= k < j ==> key_index(xs, ys[k].0) >= 0,
                        decreases y@.len() - j,
                    {
                        if find_key(x, &y[j].0).is_none() {
                            assert(key_index(xs, ys[j as int].0) < 0);
                            assert(self@ == Val::Object(xs));
                            assert(other@ == Val::Object(ys));
                            assert(val_equal(Val::Object(xs), Val::Object(ys)) ==> (forall|k: int| 0 <= k < ys.len() ==> key_index(xs, ys[k].0) >= 0));
                            assert(!val_equal(Val::Object(xs), Val::Object(ys)));
                            return false;
                        }
                        j += 1;
                    }
                    assert(self@ == Val::Object(xs));
                    assert(other@ == Val::Object(ys));
                    true
                },
                _ => false,
            },
            VMValue::Nil => match other {
                VMValue::Nil => true,
                _ => false,
            },
        }
    }

    /// Truthiness as a conditional jump reads it.
    pub fn is_truthy(&self) -> (r: bool)
        ensures
            r == truthy(self@),
    {
        match self {
            VMValue::Bool(b) => *b,
            VMValue::Number(n) => number_is_truthy(*n),
            VMValue::Nil => false,
            _ => true,
        }
    }

    /// The numeric coercion: the binary64 bit pattern of the number that the
    /// value counts as (a number itself, one for `true`, zero otherwise).
    pub fn as_f64(&self) -> (r: u64)
        ensures
            r == numeric_bits(self@),
    {
        match self {
            VMValue::Number(n) => *n,
            VMValue::Bool(true) => ONE_BITS,
            _ => ZERO_BITS,
        }
    }
}

} // verus!
