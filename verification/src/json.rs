//! JSON values.
//!
//! A row, an event or an answer is a JSON value. [`Value`] holds one, [`Json`] is what it means: numbers
//! without a fraction are integers, and an object is a map from names to values.

use crate::double::Double;
use crate::text;
use vstd::prelude::*;

verus! {

/// What a JSON value means.
pub enum Json {
    Null,
    Bool(bool),
    Int(int),
    Float(Double),
    Text(Seq<char>),
    List(Seq<Json>),
    Object(Map<Seq<char>, Json>),
}

impl Json {
    /// The value that an object has under a name. `Null` if it has none, or is no object.
    pub open spec fn at(self, name: Seq<char>) -> Json {
        match self {
            Json::Object(m) => if m.contains_key(name) {
                m[name]
            } else {
                Json::Null
            },
            _ => Json::Null,
        }
    }

    /// The number as one without a sign, if it is one that fits 64 bits.
    pub open spec fn unsigned(self) -> Option<u64> {
        match self {
            Json::Int(n) => if 0 <= n <= u64::MAX {
                Some(n as u64)
            } else {
                None
            },
            _ => None,
        }
    }

    /// The number as one with a sign, if it is one that fits 64 bits.
    pub open spec fn signed(self) -> Option<i64> {
        match self {
            Json::Int(n) => if i64::MIN <= n <= i64::MAX {
                Some(n as i64)
            } else {
                None
            },
            _ => None,
        }
    }

    /// The number in double precision.
    pub open spec fn double(self) -> Option<Double> {
        match self {
            Json::Int(n) => Some(crate::double::double_of(n)),
            Json::Float(d) => Some(d),
            _ => None,
        }
    }

    /// The text, if this is one.
    pub open spec fn text(self) -> Option<Seq<char>> {
        match self {
            Json::Text(t) => Some(t),
            _ => None,
        }
    }

    /// The truth value, if this is one.
    pub open spec fn truth(self) -> Option<bool> {
        match self {
            Json::Bool(b) => Some(b),
            _ => None,
        }
    }

    /// The same value, but every zero in it without a sign.
    pub open spec fn normal(self) -> Json
        decreases self,
    {
        match self {
            Json::Float(d) => Json::Float(d.unsigned_zero()),
            Json::List(items) => Json::List(
                Seq::new(
                    items.len(),
                    |i: int|
                        if 0 <= i < items.len() {
                            items[i].normal()
                        } else {
                            Json::Null
                        },
                ),
            ),
            Json::Object(m) => if m.dom().finite() {
                Json::Object(
                    Map::new(
                        |k: Seq<char>| m.contains_key(k),
                        |k: Seq<char>|
                            if m.contains_key(k) {
                                m[k].normal()
                            } else {
                                Json::Null
                            },
                    ),
                )
            } else {
                self
            },
            _ => self,
        }
    }
}

/// Whether two values are equal. The two zeros are.
pub open spec fn same(a: Json, b: Json) -> bool {
    a.normal() == b.normal()
}

/// A JSON number: an integer, or a finite number in double precision.
#[derive(Clone, Copy, Debug)]
pub struct Number {
    repr: Repr,
}

/// The forms that a JSON number has.
#[derive(Clone, Copy, Debug)]
enum Repr {
    Natural(u64),
    Negative(i64),
    Float(Double),
}

impl Number {
    #[verifier::type_invariant]
    spec fn wf(self) -> bool {
        match self.repr {
            Repr::Natural(_) => true,
            Repr::Negative(n) => n < 0,
            Repr::Float(d) => d.finite(),
        }
    }

    /// What the number means.
    pub closed spec fn model(self) -> Json {
        match self.repr {
            Repr::Natural(n) => Json::Int(n as int),
            Repr::Negative(n) => Json::Int(n as int),
            Repr::Float(d) => Json::Float(d),
        }
    }

    /// An integer.
    pub fn from_u64(n: u64) -> (r: Number)
        ensures
            r.model() == Json::Int(n as int),
    {
        Number { repr: Repr::Natural(n) }
    }

    /// An integer.
    pub fn from_i64(n: i64) -> (r: Number)
        ensures
            r.model() == Json::Int(n as int),
    {
        if n < 0 {
            Number { repr: Repr::Negative(n) }
        } else {
            Number { repr: Repr::Natural(n as u64) }
        }
    }

    /// A number in double precision. JSON has none that is not finite.
    pub fn from_double(d: Double) -> (r: Option<Number>)
        ensures
            match r {
                Some(n) => d.finite() && n.model() == Json::Float(d),
                None => !d.finite(),
            },
    {
        if d.is_finite() {
            Some(Number { repr: Repr::Float(d) })
        } else {
            None
        }
    }

    /// The number as one without a sign, if it is one that fits.
    pub fn as_u64(self) -> (n: Option<u64>)
        ensures
            n == self.model().unsigned(),
    {
        proof {
            use_type_invariant(&self);
        }
        match self.repr {
            Repr::Natural(n) => Some(n),
            _ => None,
        }
    }

    /// The number as one with a sign, if it is one that fits.
    pub fn as_i64(self) -> (n: Option<i64>)
        ensures
            n == self.model().signed(),
    {
        match self.repr {
            Repr::Natural(n) => if n <= i64::MAX as u64 {
                Some(n as i64)
            } else {
                None
            },
            Repr::Negative(n) => Some(n),
            Repr::Float(_) => None,
        }
    }

    /// The number in double precision.
    pub fn as_double(self) -> (d: Double)
        ensures
            self.model().double() == Some(d),
    {
        match self.repr {
            Repr::Natural(n) => Double::from_u64(n),
            Repr::Negative(n) => Double::from_i64(n),
            Repr::Float(d) => d,
        }
    }

    /// Whether two numbers are equal. An integer never equals a number in double precision.
    fn same(self, other: Number) -> (r: bool)
        ensures
            r == same(self.model(), other.model()),
    {
        proof {
            use_type_invariant(&self);
            use_type_invariant(&other);
        }
        match (self.repr, other.repr) {
            (Repr::Natural(a), Repr::Natural(b)) => a == b,
            (Repr::Negative(a), Repr::Negative(b)) => a == b,
            (Repr::Float(a), Repr::Float(b)) => a.bits == b.bits || (a.is_zero() && b.is_zero()),
            _ => false,
        }
    }
}

/// A JSON value.
#[derive(Debug)]
pub enum Value {
    Null,
    Bool(bool),
    Number(Number),
    String(String),
    Array(Vec<Value>),
    Object(Object),
}

/// A JSON object: values by their names, in the order of the names.
#[derive(Debug)]
pub struct Object {
    entries: Vec<(String, Value)>,
}

impl Value {
    /// What the value means.
    pub open spec fn model(self) -> Json
        decreases self,
    {
        match self {
            Value::Null => Json::Null,
            Value::Bool(b) => Json::Bool(b),
            Value::Number(n) => n.model(),
            Value::String(s) => Json::Text(s@),
            Value::Array(items) => Json::List(models(items@)),
            Value::Object(o) => Json::Object(o.model()),
        }
    }
}

/// What values mean, one by one.
pub open spec fn models(items: Seq<Value>) -> Seq<Json>
    decreases items,
{
    Seq::new(
        items.len(),
        |i: int|
            if 0 <= i < items.len() {
                items[i].model()
            } else {
                Json::Null
            },
    )
}

impl View for Value {
    type V = Json;

    open spec fn view(&self) -> Json {
        self.model()
    }
}

/// What named values mean: the last of those with one name counts.
spec fn entry_models(entries: Seq<(String, Value)>) -> Map<Seq<char>, Json>
    decreases entries,
{
    if entries.len() == 0 {
        Map::empty()
    } else {
        entry_models(entries.drop_last()).insert(entries.last().0@, entries.last().1.model())
    }
}

/// The names of named values.
spec fn names(entries: Seq<(String, Value)>) -> Seq<Seq<char>> {
    Seq::new(entries.len(), |i: int| entries[i].0@)
}

/// Whether names come in their order, each once.
pub open spec fn ascending(names: Seq<Seq<char>>) -> bool {
    forall|i: int, j: int|
        #![trigger names[i], names[j]]
        0 <= i < j < names.len() ==> text::less(names[i], names[j])
}

/// The names in a map, in their order.
pub open spec fn sorted_keys(m: Map<Seq<char>, Json>) -> Seq<Seq<char>> {
    choose|keys: Seq<Seq<char>>| lists_the_names(keys, m)
}

/// Whether `keys` are the names in a map, in their order.
pub open spec fn lists_the_names(keys: Seq<Seq<char>>, m: Map<Seq<char>, Json>) -> bool {
    &&& ascending(keys)
    &&& forall|k: Seq<char>| keys.contains(k) <==> #[trigger] m.contains_key(k)
}

impl Object {
    /// What the object means.
    pub closed spec fn model(self) -> Map<Seq<char>, Json>
        decreases self,
    {
        entry_models(self.entries@)
    }

    /// The names, in their order.
    spec fn keys(self) -> Seq<Seq<char>> {
        names(self.entries@)
    }

    #[verifier::type_invariant]
    spec fn wf(self) -> bool {
        ascending(names(self.entries@))
    }
}

impl View for Object {
    type V = Map<Seq<char>, Json>;

    open spec fn view(&self) -> Map<Seq<char>, Json> {
        self.model()
    }
}

/// Every name has its value, and there are no others.
proof fn entries_are_the_map(entries: Seq<(String, Value)>)
    requires
        ascending(names(entries)),
    ensures
        entry_models(entries).dom().finite(),
        forall|i: int|
            0 <= i < entries.len() ==> entry_models(entries).contains_key(
                (#[trigger] entries[i]).0@,
            ) && entry_models(entries)[entries[i].0@] == entries[i].1.model(),
        forall|k: Seq<char>| #[trigger]
            entry_models(entries).contains_key(k) ==> names(entries).contains(k),
    decreases entries.len(),
{
    if entries.len() > 0 {
        let before = entries.drop_last();
        assert(names(before) =~= names(entries).drop_last());
        entries_are_the_map(before);
        assert forall|i: int| 0 <= i < entries.len() implies entry_models(entries).contains_key(
            (#[trigger] entries[i]).0@,
        ) && entry_models(entries)[entries[i].0@] == entries[i].1.model() by {
            if i < entries.len() - 1 {
                assert(before[i] == entries[i]);
                assert(text::less(names(entries)[i], names(entries)[entries.len() - 1]));
                text::less_is_a_strict_total_order(
                    entries[i].0@,
                    entries.last().0@,
                    entries.last().0@,
                );
            }
        }
        assert forall|k: Seq<char>| #[trigger] entry_models(entries).contains_key(k) implies names(
            entries,
        ).contains(k) by {
            if entry_models(before).contains_key(k) {
                let i = choose|i: int| 0 <= i < names(before).len() && names(before)[i] == k;
                assert(names(entries)[i] == k);
            } else {
                assert(names(entries)[entries.len() - 1] == k);
            }
        }
    }
}

/// The model of entries is determined by what each name has.
proof fn map_is_the_entries(entries: Seq<(String, Value)>, m: Map<Seq<char>, Json>)
    requires
        ascending(names(entries)),
        forall|i: int|
            0 <= i < entries.len() ==> m.contains_key((#[trigger] entries[i]).0@)
                && m[entries[i].0@] == entries[i].1.model(),
        forall|k: Seq<char>| #[trigger] m.contains_key(k) ==> names(entries).contains(k),
    ensures
        entry_models(entries) == m,
{
    entries_are_the_map(entries);
    let e = entry_models(entries);
    assert forall|k: Seq<char>| e.contains_key(k) == m.contains_key(k) && (e.contains_key(k)
        ==> e[k] == m[k]) by {
        if e.contains_key(k) || m.contains_key(k) {
            assert(names(entries).contains(k));
            let i = choose|i: int| 0 <= i < names(entries).len() && names(entries)[i] == k;
            assert(entries[i].0@ == k);
        }
    }
    assert(e =~= m);
}

impl Object {
    /// The names of an object are its map's, in their order.
    proof fn keys_are_the_domain(self)
        requires
            ascending(self.keys()),
        ensures
            self@.dom().finite(),
            lists_the_names(self.keys(), self@),
            self.keys() == sorted_keys(self@),
    {
        entries_are_the_map(self.entries@);
        assert forall|k: Seq<char>| self.keys().contains(k) implies #[trigger] self@.contains_key(
            k,
        ) by {
            let i = choose|i: int| 0 <= i < self.keys().len() && self.keys()[i] == k;
            assert(self.entries@[i].0@ == self.keys()[i]);
        }
        assert(lists_the_names(self.keys(), self@));
        let other = sorted_keys(self@);
        assert(lists_the_names(other, self@));
        assert forall|k: Seq<char>| self.keys().contains(k) <==> other.contains(k) by {
            assert(self.keys().contains(k) <==> self@.contains_key(k));
        }
        ascending_is_unique(self.keys(), other);
    }

    /// An object without values.
    pub fn new() -> (o: Object)
        ensures
            o@ == Map::<Seq<char>, Json>::empty(),
    {
        Object { entries: Vec::new() }
    }

    /// How many values the object has.
    pub fn len(&self) -> (n: usize)
        ensures
            n == sorted_keys(self@).len(),
            lists_the_names(sorted_keys(self@), self@),
            self@.dom().finite(),
    {
        proof {
            use_type_invariant(self);
            self.keys_are_the_domain();
        }
        self.entries.len()
    }

    /// Name `i`, in the order of the names.
    pub fn key_at(&self, i: usize) -> (k: &str)
        requires
            i < sorted_keys(self@).len(),
        ensures
            k@ == sorted_keys(self@)[i as int],
    {
        proof {
            use_type_invariant(self);
            self.keys_are_the_domain();
        }
        self.entries[i].0.as_str()
    }

    /// The value under name `i`.
    pub fn value_at(&self, i: usize) -> (v: &Value)
        requires
            i < sorted_keys(self@).len(),
        ensures
            self@.contains_key(sorted_keys(self@)[i as int]),
            v@ == self@[sorted_keys(self@)[i as int]],
    {
        proof {
            use_type_invariant(self);
            self.keys_are_the_domain();
            entries_are_the_map(self.entries@);
            assert(self.entries@[i as int].0@ == self.keys()[i as int]);
        }
        &self.entries[i].1
    }

    /// Where a name is, or where it would be, and whether it is there.
    fn position(&self, name: &str) -> (p: (usize, bool))
        ensures
            p.0 <= self.entries@.len(),
            p.1 ==> p.0 < self.entries@.len() && self.keys()[p.0 as int] == name@,
            forall|i: int| 0 <= i < p.0 ==> text::less(#[trigger] self.keys()[i], name@),
            !p.1 ==> forall|i: int|
                p.0 <= i < self.keys().len() ==> text::less(name@, #[trigger] self.keys()[i]),
            p.1 == self@.contains_key(name@),
    {
        proof {
            use_type_invariant(self);
        }
        let ghost keys = self.keys();
        let mut low: usize = 0;
        let mut high: usize = self.entries.len();
        while low < high
            invariant
                low <= high <= self.entries.len(),
                keys == self.keys(),
                ascending(keys),
                forall|i: int| 0 <= i < low ==> text::less(#[trigger] keys[i], name@),
                forall|i: int| high <= i < keys.len() ==> text::less(name@, #[trigger] keys[i]),
            decreases high - low,
        {
            let middle: usize = low + (high - low) / 2;
            let key: &str = self.entries[middle].0.as_str();
            assert(key@ == keys[middle as int]);
            if text::precedes(key, name) {
                assert forall|i: int| 0 <= i < middle + 1 implies text::less(
                    #[trigger] keys[i],
                    name@,
                ) by {
                    if i < middle {
                        text::less_is_a_strict_total_order(keys[i], keys[middle as int], name@);
                    }
                }
                low = middle + 1;
            } else if text::precedes(name, key) {
                assert forall|i: int| middle <= i < keys.len() implies text::less(
                    name@,
                    #[trigger] keys[i],
                ) by {
                    if i > middle {
                        text::less_is_a_strict_total_order(name@, keys[middle as int], keys[i]);
                    }
                }
                high = middle;
            } else {
                proof {
                    text::less_is_a_strict_total_order(key@, name@, name@);
                    entries_are_the_map(self.entries@);
                    assert(self.entries@[middle as int].0@ == name@);
                }
                return (middle, true);
            }
        }
        proof {
            entries_are_the_map(self.entries@);
            if self@.contains_key(name@) {
                let i = choose|i: int| 0 <= i < keys.len() && keys[i] == name@;
                text::less_is_a_strict_total_order(name@, name@, name@);
                assert(false);
            }
        }
        (low, false)
    }

    /// The value under a name.
    pub fn get(&self, name: &str) -> (v: Option<&Value>)
        ensures
            match v {
                Some(v) => self@.contains_key(name@) && v@ == self@[name@],
                None => !self@.contains_key(name@),
            },
    {
        let p: (usize, bool) = self.position(name);
        if p.1 {
            proof {
                use_type_invariant(self);
                self.keys_are_the_domain();
            }
            Some(self.value_at(p.0))
        } else {
            None
        }
    }

    /// Whether there is a value under a name.
    pub fn contains_key(&self, name: &str) -> (r: bool)
        ensures
            r == self@.contains_key(name@),
    {
        self.position(name).1
    }

    /// Puts a value under a name, in place of any that was there.
    pub fn insert(&mut self, name: String, value: Value)
        ensures
            final(self)@ == old(self)@.insert(name@, value@),
    {
        proof {
            use_type_invariant(&*self);
        }
        let p: (usize, bool) = self.position(name.as_str());
        let ghost before = self.entries@;
        assert(self.keys() == names(before));
        let ghost name_seq = name@;
        let ghost model = value@;
        let mut entries: Vec<(String, Value)> = Vec::new();
        core::mem::swap(&mut entries, &mut self.entries);
        proof {
            entries_are_the_map(before);
        }
        if p.1 {
            entries[p.0] = (name, value);
            proof {
                assert(names(entries@) =~= names(before));
            }
        } else {
            entries.insert(p.0, (name, value));
            proof {
                let after = entries@;
                assert(names(after) =~= names(before).insert(p.0 as int, name_seq));
                assert forall|i: int, j: int|
                    #![trigger names(after)[i], names(after)[j]]
                    0 <= i < j < names(after).len() implies text::less(
                    names(after)[i],
                    names(after)[j],
                ) by {
                    let at = p.0 as int;
                    if i < at && j > at {
                        assert(text::less(names(before)[i], names(before)[j - 1]));
                    } else if i > at {
                        assert(text::less(names(before)[i - 1], names(before)[j - 1]));
                    } else if j < at {
                        assert(text::less(names(before)[i], names(before)[j]));
                    } else if i == at {
                        assert(text::less(name_seq, names(before)[j - 1]));
                    } else {
                        assert(text::less(names(before)[i], name_seq));
                    }
                }
            }
        }
        proof {
            let after = entries@;
            let m = entry_models(before).insert(name_seq, model);
            let at = p.0 as int;
            assert forall|i: int| 0 <= i < after.len() implies m.contains_key(
                (#[trigger] after[i]).0@,
            ) && m[after[i].0@] == after[i].1.model() by {
                assert(names(after)[i] == after[i].0@);
                if i != at {
                    text::less_is_a_strict_total_order(after[i].0@, after[at].0@, after[i].0@);
                    assert(names(after)[at] == name_seq);
                    if i < at {
                        assert(text::less(names(after)[i], names(after)[at]));
                    } else {
                        assert(text::less(names(after)[at], names(after)[i]));
                    }
                    let k: int = if p.1 || i < at {
                        i
                    } else {
                        i - 1
                    };
                    assert(before[k] == after[i]);
                    assert(entry_models(before).contains_key(before[k].0@));
                }
            }
            assert forall|k: Seq<char>| #[trigger] m.contains_key(k) implies names(after).contains(
                k,
            ) by {
                if k == name_seq {
                    assert(names(after)[at] == k);
                } else {
                    let i = choose|i: int| 0 <= i < names(before).len() && names(before)[i] == k;
                    let j: int = if p.1 || i < at {
                        i
                    } else {
                        i + 1
                    };
                    assert(names(after)[j] == k);
                }
            }
            map_is_the_entries(after, m);
        }
        self.entries = entries;
    }
}

impl Object {
    /// The same object again.
    pub fn duplicate(&self) -> (o: Object)
        ensures
            o@ == self@,
        decreases self,
    {
        proof {
            use_type_invariant(self);
            entries_are_the_map(self.entries@);
        }
        let mut entries: Vec<(String, Value)> = Vec::new();
        let n: usize = self.entries.len();
        for i in 0..n
            invariant
                n == self.entries@.len(),
                entries@.len() == i,
                forall|j: int|
                    0 <= j < i ==> (#[trigger] entries@[j]).0@ == self.entries@[j].0@
                        && entries@[j].1.model() == self.entries@[j].1.model(),
        {
            let entry: &(String, Value) = &self.entries[i];
            let value: Value = entry.1.duplicate();
            entries.push((entry.0.clone(), value));
        }
        proof {
            assert(names(entries@) =~= names(self.entries@));
            assert forall|i: int| 0 <= i < entries@.len() implies self@.contains_key(
                (#[trigger] entries@[i]).0@,
            ) && self@[entries@[i].0@] == entries@[i].1.model() by {
                assert(self@.contains_key(self.entries@[i].0@));
            }
            map_is_the_entries(entries@, self@);
        }
        Object { entries }
    }

    /// Whether two objects are equal.
    fn same(&self, other: &Object) -> (r: bool)
        ensures
            r == same(Json::Object(self@), Json::Object(other@)),
        decreases self,
    {
        proof {
            use_type_invariant(self);
            use_type_invariant(other);
            entries_are_the_map(self.entries@);
            entries_are_the_map(other.entries@);
        }
        let ghost a = self.entries@;
        let ghost b = other.entries@;
        if self.entries.len() != other.entries.len() {
            proof {
                assert(!same(Json::Object(self@), Json::Object(other@))) by {
                    if same(Json::Object(self@), Json::Object(other@)) {
                        same_objects_have_the_same_names(*self, *other);
                    }
                }
            }
            return false;
        }
        let n: usize = self.entries.len();
        for i in 0..n
            invariant
                n == a.len(),
                n == b.len(),
                a == self.entries@,
                b == other.entries@,
                ascending(names(a)),
                ascending(names(b)),
                forall|j: int|
                    0 <= j < i ==> (#[trigger] a[j]).0@ == b[j].0@ && same(
                        a[j].1.model(),
                        b[j].1.model(),
                    ),
        {
            let x: &(String, Value) = &self.entries[i];
            let y: &(String, Value) = &other.entries[i];
            if !text::same(x.0.as_str(), y.0.as_str()) {
                proof {
                    if same(Json::Object(self@), Json::Object(other@)) {
                        same_objects_have_the_same_names(*self, *other);
                        assert(names(a)[i as int] == names(b)[i as int]);
                    }
                }
                return false;
            }
            if !x.1.same(&y.1) {
                proof {
                    if same(Json::Object(self@), Json::Object(other@)) {
                        entries_are_the_map(a);
                        entries_are_the_map(b);
                        let k = a[i as int].0@;
                        assert(self@.contains_key(k));
                        assert(b[i as int].0@ == k);
                        assert(Json::Object(self@).normal()->Object_0[k] == self@[k].normal());
                        assert(Json::Object(other@).normal()->Object_0[k] == other@[k].normal());
                    }
                }
                return false;
            }
        }
        proof {
            let m = Json::Object(self@).normal()->Object_0;
            let o = Json::Object(other@).normal()->Object_0;
            assert forall|k: Seq<char>| #[trigger] m.contains_key(k) == o.contains_key(k) && (
            m.contains_key(k) ==> m[k] == o[k]) by {
                if self@.contains_key(k) {
                    let i = choose|i: int| 0 <= i < names(a).len() && names(a)[i] == k;
                    assert(a[i].0@ == k && b[i].0@ == k);
                    assert(same(a[i].1.model(), b[i].1.model()));
                }
                if other@.contains_key(k) {
                    let i = choose|i: int| 0 <= i < names(b).len() && names(b)[i] == k;
                    assert(a[i].0@ == b[i].0@);
                    assert(a[i].0@ == k);
                }
            }
            assert(m.dom() =~= o.dom());
            assert(m =~= o);
        }
        true
    }
}

/// Names in their order are determined by which there are.
proof fn ascending_is_unique(a: Seq<Seq<char>>, b: Seq<Seq<char>>)
    requires
        ascending(a),
        ascending(b),
        forall|k: Seq<char>| a.contains(k) <==> b.contains(k),
    ensures
        a == b,
    decreases a.len(),
{
    if a.len() == 0 {
        if b.len() > 0 {
            assert(b.contains(b[0]));
            assert(a.contains(b[0]));
        }
        assert(a =~= b);
    } else {
        assert(a.contains(a[0]));
        assert(b.contains(a[0]));
        let i = choose|i: int| 0 <= i < b.len() && b[i] == a[0];
        assert(b.contains(b[0]));
        let j = choose|j: int| 0 <= j < a.len() && a[j] == b[0];
        text::less_is_a_strict_total_order(a[0], b[0], a[0]);
        if i > 0 && j > 0 {
            assert(text::less(b[0], b[i]));
            assert(text::less(a[0], a[j]));
            text::less_is_a_strict_total_order(a[0], a[j], a[0]);
            assert(false);
        }
        assert(a[0] == b[0]);
        let c = a.drop_first();
        let d = b.drop_first();
        assert forall|k: Seq<char>| c.contains(k) <==> d.contains(k) by {
            if c.contains(k) {
                let x = choose|x: int| 0 <= x < c.len() && c[x] == k;
                assert(a[x + 1] == k);
                assert(a.contains(k));
                let y = choose|y: int| 0 <= y < b.len() && b[y] == k;
                assert(text::less(a[0], a[x + 1]));
                text::less_is_a_strict_total_order(k, k, k);
                assert(y > 0);
                assert(d[y - 1] == k);
            }
            if d.contains(k) {
                let x = choose|x: int| 0 <= x < d.len() && d[x] == k;
                assert(b[x + 1] == k);
                assert(b.contains(k));
                let y = choose|y: int| 0 <= y < a.len() && a[y] == k;
                assert(text::less(b[0], b[x + 1]));
                text::less_is_a_strict_total_order(k, k, k);
                assert(y > 0);
                assert(c[y - 1] == k);
            }
        }
        assert(ascending(c)) by {
            assert forall|x: int, y: int|
                #![trigger c[x], c[y]]
                0 <= x < y < c.len() implies text::less(c[x], c[y]) by {
                assert(text::less(a[x + 1], a[y + 1]));
            }
        }
        assert(ascending(d)) by {
            assert forall|x: int, y: int|
                #![trigger d[x], d[y]]
                0 <= x < y < d.len() implies text::less(d[x], d[y]) by {
                assert(text::less(b[x + 1], b[y + 1]));
            }
        }
        ascending_is_unique(c, d);
        assert(a =~= seq![a[0]] + c);
        assert(b =~= seq![b[0]] + d);
    }
}

/// Names in their order, with one more in its place.
spec fn with_name(keys: Seq<Seq<char>>, k: Seq<char>) -> Seq<Seq<char>>
    decreases keys.len(),
{
    if keys.len() == 0 || text::less(keys.last(), k) {
        keys.push(k)
    } else {
        with_name(keys.drop_last(), k).push(keys.last())
    }
}

/// One more name in its place keeps the order.
proof fn with_name_is_ascending(keys: Seq<Seq<char>>, k: Seq<char>)
    requires
        ascending(keys),
        !keys.contains(k),
    ensures
        ascending(with_name(keys, k)),
        forall|x: Seq<char>| #[trigger]
            with_name(keys, k).contains(x) <==> keys.contains(x) || x == k,
    decreases keys.len(),
{
    let out = with_name(keys, k);
    if keys.len() == 0 || text::less(keys.last(), k) {
        assert forall|i: int, j: int|
            #![trigger out[i], out[j]]
            0 <= i < j < out.len() implies text::less(out[i], out[j]) by {
            if j == keys.len() && i < keys.len() - 1 {
                assert(text::less(keys[i], keys.last()));
                text::less_is_a_strict_total_order(keys[i], keys.last(), k);
            }
        }
        assert forall|x: Seq<char>| #[trigger] out.contains(x) <==> keys.contains(x) || x == k by {
            if keys.contains(x) {
                let i = choose|i: int| 0 <= i < keys.len() && keys[i] == x;
                assert(out[i] == x);
            }
            assert(out.last() == k);
        }
    } else {
        let front = keys.drop_last();
        let last = keys.last();
        let inner = with_name(front, k);
        assert(keys.contains(last));
        text::less_is_a_strict_total_order(last, k, last);
        assert forall|x: Seq<char>| front.contains(x) implies keys.contains(x) by {
            let i = choose|i: int| 0 <= i < front.len() && front[i] == x;
            assert(keys[i] == x);
        }
        with_name_is_ascending(front, k);
        assert(out == inner.push(last));
        assert forall|x: Seq<char>| inner.contains(x) implies text::less(x, last) by {
            if x != k {
                assert(front.contains(x));
                let i = choose|i: int| 0 <= i < front.len() && front[i] == x;
                assert(text::less(keys[i], keys[keys.len() - 1]));
            }
        }
        assert forall|i: int, j: int|
            #![trigger out[i], out[j]]
            0 <= i < j < out.len() implies text::less(out[i], out[j]) by {
            if j < inner.len() {
                assert(text::less(inner[i], inner[j]));
            } else {
                assert(inner.contains(inner[i]));
            }
        }
        assert forall|x: Seq<char>| #[trigger] out.contains(x) <==> keys.contains(x) || x == k by {
            if out.contains(x) && x != last {
                let i = choose|i: int| 0 <= i < out.len() && out[i] == x;
                assert(inner[i] == x);
                assert(inner.contains(x));
            }
            if keys.contains(x) && x != last {
                let i = choose|i: int| 0 <= i < keys.len() && keys[i] == x;
                assert(front[i] == x);
                assert(front.contains(x));
            }
            if inner.contains(x) {
                let i = choose|i: int| 0 <= i < inner.len() && inner[i] == x;
                assert(out[i] == x);
            }
            assert(inner.contains(k));
            assert(out.last() == last);
        }
    }
}

/// The names of a finite map can be put in their order, in one way.
pub proof fn names_can_be_listed(m: Map<Seq<char>, Json>)
    requires
        m.dom().finite(),
    ensures
        lists_the_names(sorted_keys(m), m),
    decreases m.dom().len(),
{
    if m.dom().len() == 0 {
        let none: Seq<Seq<char>> = seq![];
        assert forall|k: Seq<char>| none.contains(k) <==> #[trigger] m.contains_key(k) by {
            if m.contains_key(k) {
                assert(m.dom().contains(k));
            }
        }
        assert(lists_the_names(none, m));
    } else {
        let k = m.dom().choose();
        let rest = m.remove(k);
        assert(rest.dom() =~= m.dom().remove(k));
        names_can_be_listed(rest);
        let keys = sorted_keys(rest);
        assert(keys.contains(k) <==> rest.contains_key(k));
        with_name_is_ascending(keys, k);
        let all = with_name(keys, k);
        assert forall|x: Seq<char>| all.contains(x) <==> #[trigger] m.contains_key(x) by {
            assert(keys.contains(x) <==> rest.contains_key(x));
            assert(m.dom().contains(k));
        }
        assert(lists_the_names(all, m));
    }
}

/// Equal objects have the same names.
proof fn same_objects_have_the_same_names(a: Object, b: Object)
    requires
        ascending(a.keys()),
        ascending(b.keys()),
        same(Json::Object(a@), Json::Object(b@)),
    ensures
        a.keys() == b.keys(),
{
    a.keys_are_the_domain();
    b.keys_are_the_domain();
    let m = Json::Object(a@).normal()->Object_0;
    let n = Json::Object(b@).normal()->Object_0;
    assert forall|k: Seq<char>| a.keys().contains(k) <==> b.keys().contains(k) by {
        assert(m.contains_key(k) == a@.contains_key(k));
        assert(n.contains_key(k) == b@.contains_key(k));
    }
    ascending_is_unique(a.keys(), b.keys());
}

/// The same values again.
fn duplicates(items: &Vec<Value>) -> (copy: Vec<Value>)
    ensures
        models(copy@) == models(items@),
    decreases items,
{
    let mut copy: Vec<Value> = Vec::new();
    let n: usize = items.len();
    for i in 0..n
        invariant
            n == items@.len(),
            copy@.len() == i,
            forall|j: int| 0 <= j < i ==> (#[trigger] copy@[j])@ == items@[j]@,
    {
        let item: Value = items[i].duplicate();
        copy.push(item);
    }
    assert(models(copy@) =~= models(items@));
    copy
}

impl Value {
    /// The same value again.
    pub fn duplicate(&self) -> (v: Value)
        ensures
            v@ == self@,
        decreases self,
    {
        match self {
            Value::Null => Value::Null,
            Value::Bool(b) => Value::Bool(*b),
            Value::Number(n) => Value::Number(*n),
            Value::String(s) => Value::String(s.clone()),
            Value::Array(items) => {
                Value::Array(duplicates(items))
            },
            Value::Object(o) => Value::Object(o.duplicate()),
        }
    }

    /// Whether two values are equal. The two zeros are; an integer and a number in double precision are
    /// not.
    pub fn same(&self, other: &Value) -> (r: bool)
        ensures
            r == same(self@, other@),
        decreases self,
    {
        match (self, other) {
            (Value::Null, Value::Null) => true,
            (Value::Bool(a), Value::Bool(b)) => *a == *b,
            (Value::Number(a), Value::Number(b)) => a.same(*b),
            (Value::String(a), Value::String(b)) => text::same(a.as_str(), b.as_str()),
            (Value::Array(a), Value::Array(b)) => {
                if a.len() != b.len() {
                    assert(self@.normal()->List_0.len() != other@.normal()->List_0.len());
                    return false;
                }
                let n: usize = a.len();
                for i in 0..n
                    invariant
                        n == a@.len(),
                        n == b@.len(),
                        self == Value::Array(*a),
                        other == Value::Array(*b),
                        forall|j: int| 0 <= j < i ==> same((#[trigger] a@[j])@, b@[j]@),
                {
                    if !a[i].same(&b[i]) {
                        proof {
                            if same(self@, other@) {
                                assert(self@.normal()->List_0[i as int] == a@[i as int]@.normal());
                                assert(other@.normal()->List_0[i as int] == b@[i as int]@.normal());
                            }
                        }
                        return false;
                    }
                }
                assert(self@.normal()->List_0 =~= other@.normal()->List_0);
                true
            },
            (Value::Object(a), Value::Object(b)) => a.same(b),
            _ => false,
        }
    }
}

impl Clone for Value {
    fn clone(&self) -> (v: Value)
        ensures
            v@ == self@,
    {
        self.duplicate()
    }
}

impl Clone for Object {
    fn clone(&self) -> (o: Object)
        ensures
            o@ == self@,
    {
        self.duplicate()
    }
}

impl PartialEq for Value {
    fn eq(&self, other: &Value) -> (r: bool) {
        self.same(other)
    }
}

impl vstd::std_specs::cmp::PartialEqSpecImpl for Value {
    open spec fn obeys_eq_spec() -> bool {
        true
    }

    open spec fn eq_spec(&self, other: &Value) -> bool {
        same(self@, other@)
    }
}

impl Value {
    /// Whether this is `null`.
    pub fn is_null(&self) -> (r: bool)
        ensures
            r == (self@ == Json::Null),
    {
        match self {
            Value::Null => true,
            _ => false,
        }
    }

    /// The truth value, if this is one.
    pub fn as_bool(&self) -> (b: Option<bool>)
        ensures
            b == self@.truth(),
    {
        match self {
            Value::Bool(b) => Some(*b),
            _ => None,
        }
    }

    /// The number as one without a sign, if this is one that fits.
    pub fn as_u64(&self) -> (n: Option<u64>)
        ensures
            n == self@.unsigned(),
    {
        match self {
            Value::Number(n) => n.as_u64(),
            _ => None,
        }
    }

    /// The number as one with a sign, if this is one that fits.
    pub fn as_i64(&self) -> (n: Option<i64>)
        ensures
            n == self@.signed(),
    {
        match self {
            Value::Number(n) => n.as_i64(),
            _ => None,
        }
    }

    /// The number in double precision, if this is a number.
    pub fn as_double(&self) -> (d: Option<Double>)
        ensures
            d == self@.double(),
    {
        match self {
            Value::Number(n) => Some(n.as_double()),
            _ => None,
        }
    }

    /// The text, if this is one.
    pub fn as_str(&self) -> (t: Option<&str>)
        ensures
            match t {
                Some(t) => self@.text() == Some(t@),
                None => self@.text() is None,
            },
    {
        match self {
            Value::String(s) => Some(s.as_str()),
            _ => None,
        }
    }

    /// The object, if this is one.
    pub fn as_object(&self) -> (o: Option<&Object>)
        ensures
            match o {
                Some(o) => self@ == Json::Object(o@),
                None => !(self@ is Object),
            },
    {
        match self {
            Value::Object(o) => Some(o),
            _ => None,
        }
    }

    /// The values, if this is a list.
    pub fn as_array(&self) -> (items: Option<&Vec<Value>>)
        ensures
            match items {
                Some(items) => self@ == Json::List(models(items@)),
                None => !(self@ is List),
            },
    {
        match self {
            Value::Array(items) => Some(items),
            _ => None,
        }
    }

    /// The value that an object has under a name. `null` if it has none, or is no object.
    pub fn at(&self, name: &str) -> (v: &Value)
        ensures
            v@ == self@.at(name@),
    {
        match self {
            Value::Object(o) => match o.get(name) {
                Some(v) => v,
                None => &Value::Null,
            },
            _ => &Value::Null,
        }
    }

    /// Whether this is a certain text.
    pub fn is_text(&self, t: &str) -> (r: bool)
        ensures
            r == (self@ == Json::Text(t@)),
    {
        match self {
            Value::String(s) => text::same(s.as_str(), t),
            _ => false,
        }
    }

    /// A text.
    pub fn from_str(t: &str) -> (v: Value)
        ensures
            v@ == Json::Text(t@),
    {
        Value::String(t.to_owned())
    }

    /// An integer.
    pub fn from_u64(n: u64) -> (v: Value)
        ensures
            v@ == Json::Int(n as int),
    {
        Value::Number(Number::from_u64(n))
    }

    /// An integer.
    pub fn from_i64(n: i64) -> (v: Value)
        ensures
            v@ == Json::Int(n as int),
    {
        Value::Number(Number::from_i64(n))
    }

    /// A number in double precision. One that is not finite becomes `null`.
    pub fn from_double(d: Double) -> (v: Value)
        ensures
            v@ == float(d),
    {
        match Number::from_double(d) {
            Some(n) => Value::Number(n),
            None => Value::Null,
        }
    }
}

/// How a number in double precision is written: JSON has none that is not finite.
pub open spec fn float(d: Double) -> Json {
    if d.finite() {
        Json::Float(d)
    } else {
        Json::Null
    }
}

/// What values are equal: nulls, truths, whole numbers and texts that are one; numbers in double precision
/// that are one or are both zero; lists as long as each other, place by place; objects of the same names,
/// name by name. Values of different forms never are: a whole number is no number in double precision.
pub proof fn what_values_are_the_same(a: Json, b: Json)
    requires
        a is Object ==> a->Object_0.dom().finite(),
        b is Object ==> b->Object_0.dom().finite(),
    ensures
        same(a, b) <==> match (a, b) {
            (Json::Null, Json::Null) => true,
            (Json::Bool(x), Json::Bool(y)) => x == y,
            (Json::Int(x), Json::Int(y)) => x == y,
            (Json::Text(x), Json::Text(y)) => x == y,
            (Json::Float(x), Json::Float(y)) => x.bits == y.bits || (x.bits
                % 0x8000_0000_0000_0000 == 0 && y.bits % 0x8000_0000_0000_0000 == 0),
            (Json::List(x), Json::List(y)) => x.len() == y.len() && forall|i: int|
                0 <= i < x.len() ==> same(#[trigger] x[i], y[i]),
            (Json::Object(x), Json::Object(y)) => x.dom() == y.dom() && forall|k: Seq<char>| #[trigger]
                x.contains_key(k) ==> same(x[k], y[k]),
            _ => false,
        },
{
    match (a, b) {
        (Json::List(x), Json::List(y)) => {
            let p = a.normal()->List_0;
            let q = b.normal()->List_0;
            if x.len() == y.len() && forall|i: int| 0 <= i < x.len() ==> same(#[trigger] x[i], y[i]) {
                assert(p =~= q) by {
                    assert forall|i: int| 0 <= i < p.len() implies p[i] == q[i] by {
                        assert(same(x[i], y[i]));
                    }
                }
            }
            if same(a, b) {
                assert(p.len() == x.len() && q.len() == y.len());
                assert forall|i: int| 0 <= i < x.len() implies same(#[trigger] x[i], y[i]) by {
                    assert(p[i] == q[i]);
                }
            }
        },
        (Json::Object(x), Json::Object(y)) => {
            let p = a.normal()->Object_0;
            let q = b.normal()->Object_0;
            assert(p.dom() =~= x.dom());
            assert(q.dom() =~= y.dom());
            if x.dom() == y.dom() && forall|k: Seq<char>| #[trigger]
                x.contains_key(k) ==> same(x[k], y[k]) {
                assert(p =~= q) by {
                    assert forall|k: Seq<char>| #[trigger] p.contains_key(k) implies p[k] == q[k] by {
                        assert(x.contains_key(k));
                        assert(y.contains_key(k));
                        assert(same(x[k], y[k]));
                    }
                }
            }
            if same(a, b) {
                assert forall|k: Seq<char>| #[trigger] x.contains_key(k) implies same(x[k], y[k]) by {
                    assert(y.dom().contains(k));
                    assert(p[k] == q[k]);
                }
            }
        },
        _ => {},
    }
}

/// What a value is read as: a whole number as one without a sign, or with one, if it fits 64 bits; a number in
/// double precision as itself and a whole one as the nearest there is; a text and a truth as themselves; and
/// nothing as anything else.
pub proof fn what_values_are_read_as(v: Json)
    ensures
        v.unsigned() is Some <==> v is Int && 0 <= v->Int_0 <= 0xffff_ffff_ffff_ffff,
        v.unsigned() is Some ==> v == Json::Int(v.unsigned()->0 as int),
        v.signed() is Some <==> v is Int && -0x8000_0000_0000_0000 <= v->Int_0
            <= 0x7fff_ffff_ffff_ffff,
        v.signed() is Some ==> v == Json::Int(v.signed()->0 as int),
        v.double() is Some <==> v is Int || v is Float,
        v is Float ==> v.double() == Some(v->Float_0),
        v is Int && i64::MIN <= v->Int_0 <= u64::MAX ==> crate::double::holds(
            v.double()->0,
            v->Int_0,
        ),
        v.text() is Some <==> v is Text,
        v.text() is Some ==> v == Json::Text(v.text()->0),
        v.truth() is Some <==> v is Bool,
        v.truth() is Some ==> v == Json::Bool(v.truth()->0),
{
    if v is Int && i64::MIN <= v->Int_0 <= u64::MAX {
        crate::double::integers_have_doubles(v->Int_0);
    }
}

/// A number in double precision is written as itself where it is finite, and as nothing where it is not.
pub proof fn how_doubles_are_written(d: Double)
    ensures
        d.bits % 0x8000_0000_0000_0000 < 0x7ff0_0000_0000_0000 ==> float(d) == Json::Float(d),
        d.bits % 0x8000_0000_0000_0000 >= 0x7ff0_0000_0000_0000 ==> float(d) == Json::Null,
{
}

/// Values compare as equal when they are the same.
pub proof fn what_values_compare_as_equal(a: Value, b: Value)
    ensures
        vstd::std_specs::cmp::PartialEqSpec::eq_spec(&a, &b) <==> same(a@, b@),
{
}

} // verus!
