//! The value model.
//!
//! [`UbjsonValue`] is what is encoded and what decoding gives. Contracts
//! speak of its view, a [`ValueModel`]: the same tree with mathematical
//! sequences in place of vectors and strings.
//!
//! Floating point numbers are held as their IEEE-754 bit patterns, which is
//! what travels on the wire. An object is an [`UbjsonMap`]: its keys are
//! unique, and its entries keep the order in which they were inserted,
//! which is the order in which they are written. Equality ([`same_value`])
//! does not look at that order.

use vstd::prelude::*;
use vstd::std_specs::cmp::PartialEqSpecImpl;
use vstd::std_specs::convert::FromSpecImpl;
use vstd::utf8::*;

use crate::types::UbjsonType;

verus! {

/// A value as contracts see it.
pub enum ValueModel {
    Null,
    Bool(bool),
    Int8(i8),
    UInt8(u8),
    Int16(i16),
    Int32(i32),
    Int64(i64),
    /// The bit pattern of a 32-bit float.
    Float32(u32),
    /// The bit pattern of a 64-bit float.
    Float64(u64),
    HighPrecision(Seq<char>),
    Char(char),
    String(Seq<char>),
    Array(Seq<ValueModel>),
    Object(Seq<(Seq<char>, ValueModel)>),
    StronglyTypedArray { element_type: UbjsonType, count: Option<usize>, elements: Seq<ValueModel> },
    StronglyTypedObject {
        value_type: UbjsonType,
        count: Option<usize>,
        pairs: Seq<(Seq<char>, ValueModel)>,
    },
}

/// No key occurs twice.
pub open spec fn distinct_keys(pairs: Seq<(Seq<char>, ValueModel)>) -> bool {
    forall|i: int, j: int| 0 <= i < j < pairs.len() ==> (#[trigger] pairs[i]).0 != (
    #[trigger] pairs[j]).0
}

/// Some entry has this key.
pub open spec fn has_key(pairs: Seq<(Seq<char>, ValueModel)>, key: Seq<char>) -> bool {
    exists|i: int| 0 <= i < pairs.len() && (#[trigger] pairs[i]).0 == key
}

/// Two values are the same but for the order of the entries of their
/// objects.
pub open spec fn same_value(a: ValueModel, b: ValueModel) -> bool
    decreases a,
{
    match a {
        ValueModel::Array(items) => b is Array && same_items(items, b->Array_0),
        ValueModel::Object(pairs) => b is Object && same_pairs(pairs, b->Object_0),
        ValueModel::StronglyTypedArray { element_type, count, elements } => {
            &&& b is StronglyTypedArray
            &&& element_type == b->StronglyTypedArray_element_type
            &&& count == b->StronglyTypedArray_count
            &&& same_items(elements, b->StronglyTypedArray_elements)
        },
        ValueModel::StronglyTypedObject { value_type, count, pairs } => {
            &&& b is StronglyTypedObject
            &&& value_type == b->StronglyTypedObject_value_type
            &&& count == b->StronglyTypedObject_count
            &&& same_pairs(pairs, b->StronglyTypedObject_pairs)
        },
        _ => a == b,
    }
}

/// Two sequences hold the same values in the same order.
pub open spec fn same_items(a: Seq<ValueModel>, b: Seq<ValueModel>) -> bool
    decreases a,
{
    a.len() == b.len() && forall|i: int| 0 <= i < a.len() ==> same_value(#[trigger] a[i], b[i])
}

/// Two sequences of pairs hold the same values under the same keys: they
/// are equally long, every key of the first is a key of the second, and
/// where a key stands in both, the values beside it are the same.
pub open spec fn same_pairs(
    a: Seq<(Seq<char>, ValueModel)>,
    b: Seq<(Seq<char>, ValueModel)>,
) -> bool
    decreases a,
{
    &&& a.len() == b.len()
    &&& forall|i: int| 0 <= i < a.len() ==> has_key(b, (#[trigger] a[i]).0)
    &&& forall|i: int, j: int|
        0 <= i < a.len() && 0 <= j < b.len() && (#[trigger] a[i]).0 == (#[trigger] b[j]).0
            ==> same_value(a[i].1, b[j].1)
}

impl ValueModel {
    /// The marker under which the value travels. `true` and `false` have
    /// markers of their own; both array forms share one marker, and so do
    /// both object forms.
    pub open spec fn kind(self) -> UbjsonType {
        match self {
            ValueModel::Null => UbjsonType::Null,
            ValueModel::Bool(b) => if b {
                UbjsonType::True
            } else {
                UbjsonType::False
            },
            ValueModel::Int8(_) => UbjsonType::Int8,
            ValueModel::UInt8(_) => UbjsonType::UInt8,
            ValueModel::Int16(_) => UbjsonType::Int16,
            ValueModel::Int32(_) => UbjsonType::Int32,
            ValueModel::Int64(_) => UbjsonType::Int64,
            ValueModel::Float32(_) => UbjsonType::Float32,
            ValueModel::Float64(_) => UbjsonType::Float64,
            ValueModel::HighPrecision(_) => UbjsonType::HighPrecision,
            ValueModel::Char(_) => UbjsonType::Char,
            ValueModel::String(_) => UbjsonType::String,
            ValueModel::Array(_) => UbjsonType::ArrayStart,
            ValueModel::Object(_) => UbjsonType::ObjectStart,
            ValueModel::StronglyTypedArray { .. } => UbjsonType::ArrayStart,
            ValueModel::StronglyTypedObject { .. } => UbjsonType::ObjectStart,
        }
    }

    /// The number of entries of a container.
    pub open spec fn entries(self) -> Option<nat> {
        match self {
            ValueModel::Array(items) => Some(items.len()),
            ValueModel::Object(pairs) => Some(pairs.len()),
            ValueModel::StronglyTypedArray { elements, .. } => Some(elements.len()),
            ValueModel::StronglyTypedObject { pairs, .. } => Some(pairs.len()),
            _ => None,
        }
    }
}

/// The value model: one of the primitive kinds, or one of the four
/// containers. Two values are equal if they are the same but for the order
/// of the entries of their objects.
///
/// Floating-point numbers are held and compared as bit patterns, not as
/// numbers: a NaN equals itself, two NaNs with different bits differ, and
/// `0.0` differs from `-0.0`.
#[derive(Debug)]
pub enum UbjsonValue {
    /// Null value.
    Null,
    /// Boolean value.
    Bool(bool),
    /// Signed 8-bit integer.
    Int8(i8),
    /// Unsigned 8-bit integer.
    UInt8(u8),
    /// Signed 16-bit integer.
    Int16(i16),
    /// Signed 32-bit integer.
    Int32(i32),
    /// Signed 64-bit integer.
    Int64(i64),
    /// 32-bit floating point number, as its IEEE-754 bit pattern.
    Float32(u32),
    /// 64-bit floating point number, as its IEEE-754 bit pattern.
    Float64(u64),
    /// High-precision number as text.
    HighPrecision(String),
    /// One Unicode scalar.
    Char(char),
    /// UTF-8 text.
    String(String),
    /// Array whose elements carry their own markers.
    Array(Vec<UbjsonValue>),
    /// Object whose values carry their own markers.
    Object(UbjsonMap),
    /// Array that declares the kind of its elements once.
    StronglyTypedArray {
        /// The kind of every element.
        element_type: UbjsonType,
        /// `Some` if the element count is written; the number itself is a
        /// hint that encoding does not read.
        count: Option<usize>,
        /// The elements.
        elements: Vec<UbjsonValue>,
    },
    /// Object that declares the kind of its values once.
    StronglyTypedObject {
        /// The kind of every value.
        value_type: UbjsonType,
        /// `Some` if the pair count is written; the number itself is a hint
        /// that encoding does not read.
        count: Option<usize>,
        /// The pairs.
        pairs: UbjsonMap,
    },
}

/// A map from text to values that remembers the order of insertion. Two
/// maps are equal if they hold equal values under the same keys, in
/// whatever order.
#[derive(Debug)]
pub struct UbjsonMap {
    entries: Vec<(String, UbjsonValue)>,
}

impl View for UbjsonValue {
    type V = ValueModel;

    open spec fn view(&self) -> ValueModel
        decreases self,
    {
        match self {
            UbjsonValue::Null => ValueModel::Null,
            UbjsonValue::Bool(b) => ValueModel::Bool(*b),
            UbjsonValue::Int8(n) => ValueModel::Int8(*n),
            UbjsonValue::UInt8(n) => ValueModel::UInt8(*n),
            UbjsonValue::Int16(n) => ValueModel::Int16(*n),
            UbjsonValue::Int32(n) => ValueModel::Int32(*n),
            UbjsonValue::Int64(n) => ValueModel::Int64(*n),
            UbjsonValue::Float32(bits) => ValueModel::Float32(*bits),
            UbjsonValue::Float64(bits) => ValueModel::Float64(*bits),
            UbjsonValue::HighPrecision(text) => ValueModel::HighPrecision(text@),
            UbjsonValue::Char(c) => ValueModel::Char(*c),
            UbjsonValue::String(text) => ValueModel::String(text@),
            UbjsonValue::Array(items) => ValueModel::Array(
                Seq::new(
                    items.len() as nat,
                    |i: int|
                        if 0 <= i < items.len() {
                            items[i]@
                        } else {
                            ValueModel::Null
                        },
                ),
            ),
            UbjsonValue::Object(map) => ValueModel::Object(map@),
            UbjsonValue::StronglyTypedArray { element_type, count, elements } => {
                ValueModel::StronglyTypedArray {
                    element_type: *element_type,
                    count: *count,
                    elements: Seq::new(
                        elements.len() as nat,
                        |i: int|
                            if 0 <= i < elements.len() {
                                elements[i]@
                            } else {
                                ValueModel::Null
                            },
                    ),
                }
            },
            UbjsonValue::StronglyTypedObject { value_type, count, pairs } => {
                ValueModel::StronglyTypedObject {
                    value_type: *value_type,
                    count: *count,
                    pairs: pairs@,
                }
            },
        }
    }
}

impl View for UbjsonMap {
    type V = Seq<(Seq<char>, ValueModel)>;

    closed spec fn view(&self) -> Seq<(Seq<char>, ValueModel)>
        decreases self,
    {
        Seq::new(
            self.entries.len() as nat,
            |i: int|
                if 0 <= i < self.entries.len() {
                    (self.entries[i].0@, self.entries[i].1@)
                } else {
                    (Seq::empty(), ValueModel::Null)
                },
        )
    }
}

/// The views of a vector's elements, in order.
pub open spec fn view_all(items: Seq<UbjsonValue>) -> Seq<ValueModel> {
    Seq::new(items.len(), |i: int| items[i]@)
}

/// The view of an array is the views of its elements.
pub proof fn lemma_view_array(items: Vec<UbjsonValue>)
    ensures
        UbjsonValue::Array(items)@ == ValueModel::Array(view_all(items@)),
{
    reveal_with_fuel(<UbjsonValue as View>::view, 2);
    assert(UbjsonValue::Array(items)@->Array_0 =~= view_all(items@));
}

/// The view of a strongly-typed array is its header and the views of its
/// elements.
pub proof fn lemma_view_typed_array(
    element_type: UbjsonType,
    count: Option<usize>,
    elements: Vec<UbjsonValue>,
)
    ensures
        (UbjsonValue::StronglyTypedArray { element_type, count, elements })@
            == (ValueModel::StronglyTypedArray {
            element_type,
            count,
            elements: view_all(elements@),
        }),
{
    reveal_with_fuel(<UbjsonValue as View>::view, 2);
    assert((UbjsonValue::StronglyTypedArray {
        element_type,
        count,
        elements,
    })@->StronglyTypedArray_elements =~= view_all(elements@));
}

/// Whether two strings hold the same characters.
pub fn same_text(a: &str, b: &str) -> (same: bool)
    ensures
        same == (a@ == b@),
{
    broadcast use {encode_utf8_decode_utf8, encode_utf8_valid_utf8};

    let left = a.as_bytes();
    let right = b.as_bytes();
    assert(left@ == encode_utf8(a@) && right@ == encode_utf8(b@));
    if left.len() != right.len() {
        return false;
    }
    let mut i: usize = 0;
    while i < left.len()
        invariant
            i <= left@.len(),
            left@.len() == right@.len(),
            left@ == encode_utf8(a@),
            right@ == encode_utf8(b@),
            forall|k: int| 0 <= k < i ==> left@[k] == right@[k],
        decreases left@.len() - i,
    {
        if left[i] != right[i] {
            return false;
        }
        i = i + 1;
    }
    assert(left@ =~= right@);
    assert(decode_utf8(encode_utf8(a@)) == decode_utf8(encode_utf8(b@)));
    true
}

impl UbjsonMap {
    #[verifier::type_invariant]
    spec fn keys_are_unique(self) -> bool {
        forall|i: int, j: int|
            0 <= i < j < self.entries.len() ==> (#[trigger] self.entries[i]).0@ != (
            #[trigger] self.entries[j]).0@
    }

    /// A map without entries.
    pub fn new() -> (map: UbjsonMap)
        ensures
            map@ == Seq::<(Seq<char>, ValueModel)>::empty(),
    {
        let map = UbjsonMap { entries: Vec::new() };
        assert(map@ =~= Seq::<(Seq<char>, ValueModel)>::empty());
        map
    }

    /// The number of entries. No two of them share a key.
    pub fn len(&self) -> (len: usize)
        ensures
            len == self@.len(),
            distinct_keys(self@),
    {
        proof {
            use_type_invariant(self);
            assert forall|i: int, j: int| 0 <= i < j < self@.len() implies (#[trigger] self@[i]).0
                != (#[trigger] self@[j]).0 by {
                assert(self.entries[i].0@ != self.entries[j].0@);
            }
        }
        self.entries.len()
    }

    /// Whether the map has no entries.
    pub fn is_empty(&self) -> (empty: bool)
        ensures
            empty == (self@.len() == 0),
    {
        self.entries.len() == 0
    }

    /// The position of the entry with this key.
    fn find(&self, key: &str) -> (found: Option<usize>)
        ensures
            match found {
                Some(i) => i < self.entries.len() && self.entries[i as int].0@ == key@,
                None => forall|i: int|
                    0 <= i < self.entries.len() ==> (#[trigger] self.entries[i]).0@ != key@,
            },
    {
        let mut i: usize = 0;
        while i < self.entries.len()
            invariant
                i <= self.entries.len(),
                forall|k: int| 0 <= k < i ==> (#[trigger] self.entries[k]).0@ != key@,
            decreases self.entries.len() - i,
        {
            if same_text(self.entries[i].0.as_str(), key) {
                return Some(i);
            }
            i = i + 1;
        }
        None
    }

    /// Whether some entry has this key.
    pub fn contains_key(&self, key: &str) -> (found: bool)
        ensures
            found == has_key(self@, key@),
    {
        match self.find(key) {
            Some(i) => {
                assert(self@[i as int].0 == key@);
                true
            },
            None => {
                assert forall|i: int| 0 <= i < self@.len() implies (#[trigger] self@[i]).0
                    != key@ by {
                    assert(self.entries[i].0@ != key@);
                }
                false
            },
        }
    }

    /// The value stored under this key.
    pub fn get(&self, key: &str) -> (value: Option<&UbjsonValue>)
        ensures
            match value {
                Some(v) => exists|i: int|
                    0 <= i < self@.len() && (#[trigger] self@[i]) == (key@, v@),
                None => !has_key(self@, key@),
            },
    {
        match self.find(key) {
            Some(i) => {
                assert(self@[i as int] == (key@, self.entries[i as int].1@));
                Some(&self.entries[i].1)
            },
            None => {
                assert forall|i: int| 0 <= i < self@.len() implies (#[trigger] self@[i]).0
                    != key@ by {
                    assert(self.entries[i].0@ != key@);
                }
                None
            },
        }
    }

    /// The entry at a position in insertion order.
    pub fn entry_at(&self, index: usize) -> (entry: Option<(&String, &UbjsonValue)>)
        ensures
            match entry {
                Some((key, value)) => index < self@.len() && self@[index as int] == (
                    key@,
                    value@,
                ),
                None => index >= self@.len(),
            },
    {
        if index < self.entries.len() {
            let entry = &self.entries[index];
            Some((&entry.0, &entry.1))
        } else {
            None
        }
    }

    /// The entries in insertion order, given up for good.
    pub fn into_entries(self) -> (entries: Vec<(String, UbjsonValue)>)
        ensures
            entries@.len() == self@.len(),
            forall|i: int|
                0 <= i < entries@.len() ==> ((#[trigger] entries@[i]).0@, entries@[i].1@)
                    == self@[i],
    {
        self.entries
    }

    /// Stores a value under a key. A key that is new goes behind the
    /// entries that are there; a key that is known keeps its place, gets the
    /// new value, and the old value is returned.
    pub fn insert(&mut self, key: String, value: UbjsonValue) -> (previous: Option<UbjsonValue>)
        ensures
            match previous {
                Some(old_value) => exists|i: int|
                    0 <= i < old(self)@.len() && (#[trigger] old(self)@[i]) == (key@, old_value@)
                        && final(self)@ == old(self)@.update(i, (key@, value@)),
                None => !has_key(old(self)@, key@) && final(self)@ == old(self)@.push(
                    (key@, value@),
                ),
            },
    {
        proof {
            use_type_invariant(&*self);
        }
        let found = self.find(key.as_str());
        let mut taken = UbjsonMap { entries: Vec::new() };
        core::mem::swap(self, &mut taken);
        let mut entries = taken.entries;
        assert(entries == old(self).entries);
        match found {
            Some(i) => {
                let mut swapped = (key, value);
                core::mem::swap(&mut entries[i], &mut swapped);
                assert(entries@ == old(self).entries@.update(i as int, (key, value)));
                assert(swapped == old(self).entries[i as int]);
                *self = UbjsonMap { entries };
                assert(self@ =~= old(self)@.update(i as int, (key@, value@)));
                assert(old(self)@[i as int] == (key@, swapped.1@));
                Some(swapped.1)
            },
            None => {
                assert forall|i: int| 0 <= i < old(self)@.len() implies (#[trigger] old(
                    self,
                )@[i]).0 != key@ by {
                    assert(old(self).entries[i].0@ != key@);
                }
                entries.push((key, value));
                *self = UbjsonMap { entries };
                assert(self@ =~= old(self)@.push((key@, value@)));
                None
            },
        }
    }
}

/// Whether two vectors hold the same values in the same order.
fn items_equal(a: &Vec<UbjsonValue>, b: &Vec<UbjsonValue>) -> (same: bool)
    ensures
        same == same_items(view_all(a@), view_all(b@)),
    decreases a,
{
    if a.len() != b.len() {
        return false;
    }
    let mut i: usize = 0;
    while i < a.len()
        invariant
            i <= a.len(),
            a.len() == b.len(),
            forall|k: int| 0 <= k < i ==> same_value(#[trigger] view_all(a@)[k], view_all(b@)[k]),
        decreases a.len() - i,
    {
        if !values_equal(&a[i], &b[i]) {
            assert(!same_value(view_all(a@)[i as int], view_all(b@)[i as int]));
            return false;
        }
        i = i + 1;
    }
    true
}

/// Whether two maps hold the same values under the same keys.
fn maps_equal(a: &UbjsonMap, b: &UbjsonMap) -> (same: bool)
    ensures
        same == same_pairs(a@, b@),
    decreases a,
{
    proof {
        use_type_invariant(b);
    }
    if a.entries.len() != b.entries.len() {
        return false;
    }
    let mut i: usize = 0;
    while i < a.entries.len()
        invariant
            i <= a.entries.len(),
            a.entries.len() == b.entries.len(),
            a@.len() == a.entries.len(),
            b@.len() == b.entries.len(),
            distinct_keys(b@),
            forall|k: int| 0 <= k < i ==> has_key(b@, (#[trigger] a@[k]).0),
            forall|k: int, j: int|
                0 <= k < i && 0 <= j < b@.len() && (#[trigger] a@[k]).0 == (#[trigger] b@[j]).0
                    ==> same_value(a@[k].1, b@[j].1),
        decreases a.entries.len() - i,
    {
        let key = &a.entries[i].0;
        assert(a@[i as int] == (a.entries[i as int].0@, a.entries[i as int].1@));
        match b.find(key.as_str()) {
            None => {
                assert forall|j: int| 0 <= j < b@.len() implies (#[trigger] b@[j]).0 != key@ by {
                    assert(b.entries[j].0@ != key@);
                }
                assert(!has_key(b@, a@[i as int].0));
                return false;
            },
            Some(j) => {
                assert(b@[j as int] == (b.entries[j as int].0@, b.entries[j as int].1@));
                if !values_equal(&a.entries[i].1, &b.entries[j].1) {
                    assert(!same_value(a@[i as int].1, b@[j as int].1));
                    return false;
                }
                assert(has_key(b@, a@[i as int].0));
            },
        }
        i = i + 1;
    }
    true
}

/// Whether two values are the same but for the order of the entries of
/// their objects.
fn values_equal(a: &UbjsonValue, b: &UbjsonValue) -> (same: bool)
    ensures
        same == same_value(a@, b@),
    decreases a,
{
    match (a, b) {
        (UbjsonValue::Null, UbjsonValue::Null) => true,
        (UbjsonValue::Bool(x), UbjsonValue::Bool(y)) => *x == *y,
        (UbjsonValue::Int8(x), UbjsonValue::Int8(y)) => *x == *y,
        (UbjsonValue::UInt8(x), UbjsonValue::UInt8(y)) => *x == *y,
        (UbjsonValue::Int16(x), UbjsonValue::Int16(y)) => *x == *y,
        (UbjsonValue::Int32(x), UbjsonValue::Int32(y)) => *x == *y,
        (UbjsonValue::Int64(x), UbjsonValue::Int64(y)) => *x == *y,
        (UbjsonValue::Float32(x), UbjsonValue::Float32(y)) => *x == *y,
        (UbjsonValue::Float64(x), UbjsonValue::Float64(y)) => *x == *y,
        (UbjsonValue::HighPrecision(x), UbjsonValue::HighPrecision(y)) => same_text(
            x.as_str(),
            y.as_str(),
        ),
        (UbjsonValue::Char(x), UbjsonValue::Char(y)) => *x == *y,
        (UbjsonValue::String(x), UbjsonValue::String(y)) => same_text(x.as_str(), y.as_str()),
        (UbjsonValue::Array(x), UbjsonValue::Array(y)) => {
            proof {
                lemma_view_array(*x);
                lemma_view_array(*y);
                assert(decreases_to!(*a => a->Array_0));
            }
            items_equal(x, y)
        },
        (UbjsonValue::Object(x), UbjsonValue::Object(y)) => {
            proof {
                assert(decreases_to!(*a => a->Object_0));
            }
            maps_equal(x, y)
        },
        (
            UbjsonValue::StronglyTypedArray { element_type: kind_x, count: count_x, elements: x },
            UbjsonValue::StronglyTypedArray { element_type: kind_y, count: count_y, elements: y },
        ) => {
            proof {
                lemma_view_typed_array(*kind_x, *count_x, *x);
                lemma_view_typed_array(*kind_y, *count_y, *y);
                assert(decreases_to!(*a => a->StronglyTypedArray_elements));
            }
            *kind_x == *kind_y && same_count(*count_x, *count_y) && items_equal(x, y)
        },
        (
            UbjsonValue::StronglyTypedObject { value_type: kind_x, count: count_x, pairs: x },
            UbjsonValue::StronglyTypedObject { value_type: kind_y, count: count_y, pairs: y },
        ) => {
            proof {
                assert(decreases_to!(*a => a->StronglyTypedObject_pairs));
            }
            *kind_x == *kind_y && same_count(*count_x, *count_y) && maps_equal(x, y)
        },
        _ => false,
    }
}

/// Whether two optional counts are the same.
fn same_count(a: Option<usize>, b: Option<usize>) -> (same: bool)
    ensures
        same == (a == b),
{
    match (a, b) {
        (Some(x), Some(y)) => x == y,
        (None, None) => true,
        _ => false,
    }
}

impl PartialEq for UbjsonValue {
    fn eq(&self, other: &UbjsonValue) -> (same: bool) {
        values_equal(self, other)
    }
}

impl PartialEqSpecImpl for UbjsonValue {
    open spec fn obeys_eq_spec() -> bool {
        true
    }

    open spec fn eq_spec(&self, other: &UbjsonValue) -> bool {
        same_value(self@, other@)
    }
}

impl PartialEq for UbjsonMap {
    fn eq(&self, other: &UbjsonMap) -> (same: bool) {
        maps_equal(self, other)
    }
}

impl PartialEqSpecImpl for UbjsonMap {
    open spec fn obeys_eq_spec() -> bool {
        true
    }

    open spec fn eq_spec(&self, other: &UbjsonMap) -> bool {
        same_pairs(self@, other@)
    }
}

/// Copies of the values of a vector, in order.
fn clone_items(items: &Vec<UbjsonValue>) -> (copies: Vec<UbjsonValue>)
    ensures
        view_all(copies@) == view_all(items@),
    decreases items,
{
    let mut copies: Vec<UbjsonValue> = Vec::new();
    let mut i: usize = 0;
    while i < items.len()
        invariant
            i <= items.len(),
            copies.len() == i,
            forall|k: int| 0 <= k < i ==> (#[trigger] copies[k])@ == items[k]@,
        decreases items.len() - i,
    {
        let copy = items[i].clone();
        copies.push(copy);
        i = i + 1;
    }
    assert(view_all(copies@) =~= view_all(items@));
    copies
}

impl Clone for UbjsonValue {
    /// A copy with the same view.
    fn clone(&self) -> (copy: UbjsonValue)
        ensures
            copy@ == self@,
        decreases self,
    {
        match self {
            UbjsonValue::Null => UbjsonValue::Null,
            UbjsonValue::Bool(b) => UbjsonValue::Bool(*b),
            UbjsonValue::Int8(n) => UbjsonValue::Int8(*n),
            UbjsonValue::UInt8(n) => UbjsonValue::UInt8(*n),
            UbjsonValue::Int16(n) => UbjsonValue::Int16(*n),
            UbjsonValue::Int32(n) => UbjsonValue::Int32(*n),
            UbjsonValue::Int64(n) => UbjsonValue::Int64(*n),
            UbjsonValue::Float32(bits) => UbjsonValue::Float32(*bits),
            UbjsonValue::Float64(bits) => UbjsonValue::Float64(*bits),
            UbjsonValue::HighPrecision(text) => UbjsonValue::HighPrecision(text.clone()),
            UbjsonValue::Char(c) => UbjsonValue::Char(*c),
            UbjsonValue::String(text) => UbjsonValue::String(text.clone()),
            UbjsonValue::Array(items) => {
                let copies = clone_items(items);
                proof {
                    lemma_view_array(copies);
                    lemma_view_array(*items);
                }
                UbjsonValue::Array(copies)
            },
            UbjsonValue::Object(map) => UbjsonValue::Object(map.clone()),
            UbjsonValue::StronglyTypedArray { element_type, count, elements } => {
                let copies = clone_items(elements);
                proof {
                    lemma_view_typed_array(*element_type, *count, copies);
                    lemma_view_typed_array(*element_type, *count, *elements);
                }
                UbjsonValue::StronglyTypedArray {
                    element_type: *element_type,
                    count: *count,
                    elements: copies,
                }
            },
            UbjsonValue::StronglyTypedObject { value_type, count, pairs } => {
                UbjsonValue::StronglyTypedObject {
                    value_type: *value_type,
                    count: *count,
                    pairs: pairs.clone(),
                }
            },
        }
    }
}

impl Clone for UbjsonMap {
    /// A copy with the same view.
    fn clone(&self) -> (copy: UbjsonMap)
        ensures
            copy@ == self@,
        decreases self,
    {
        proof {
            use_type_invariant(self);
        }
        let mut entries: Vec<(String, UbjsonValue)> = Vec::new();
        let mut i: usize = 0;
        while i < self.entries.len()
            invariant
                i <= self.entries.len(),
                entries.len() == i,
                forall|k: int|
                    0 <= k < i ==> (#[trigger] entries[k]).0@ == self.entries[k].0@ && entries[k].1@
                        == self.entries[k].1@,
            decreases self.entries.len() - i,
        {
            let key = self.entries[i].0.clone();
            let value = self.entries[i].1.clone();
            entries.push((key, value));
            i = i + 1;
        }
        let copy = UbjsonMap { entries };
        assert(copy@ =~= self@);
        copy
    }
}

impl UbjsonValue {
    /// The marker under which the value travels.
    pub fn get_type(&self) -> (kind: UbjsonType)
        ensures
            kind == self@.kind(),
    {
        match self {
            UbjsonValue::Null => UbjsonType::Null,
            UbjsonValue::Bool(true) => UbjsonType::True,
            UbjsonValue::Bool(false) => UbjsonType::False,
            UbjsonValue::Int8(_) => UbjsonType::Int8,
            UbjsonValue::UInt8(_) => UbjsonType::UInt8,
            UbjsonValue::Int16(_) => UbjsonType::Int16,
            UbjsonValue::Int32(_) => UbjsonType::Int32,
            UbjsonValue::Int64(_) => UbjsonType::Int64,
            UbjsonValue::Float32(_) => UbjsonType::Float32,
            UbjsonValue::Float64(_) => UbjsonType::Float64,
            UbjsonValue::HighPrecision(_) => UbjsonType::HighPrecision,
            UbjsonValue::Char(_) => UbjsonType::Char,
            UbjsonValue::String(_) => UbjsonType::String,
            UbjsonValue::Array(_) => UbjsonType::ArrayStart,
            UbjsonValue::Object(_) => UbjsonType::ObjectStart,
            UbjsonValue::StronglyTypedArray { .. } => UbjsonType::ArrayStart,
            UbjsonValue::StronglyTypedObject { .. } => UbjsonType::ObjectStart,
        }
    }

    /// Whether the value is null.
    pub fn is_null(&self) -> (result: bool)
        ensures
            result == (self@ is Null),
    {
        match self {
            UbjsonValue::Null => true,
            _ => false,
        }
    }

    /// Whether the value is a boolean.
    pub fn is_bool(&self) -> (result: bool)
        ensures
            result == (self@ is Bool),
    {
        match self {
            UbjsonValue::Bool(_) => true,
            _ => false,
        }
    }

    /// Whether the value is a number: an integer, a float or high-precision
    /// text.
    pub fn is_number(&self) -> (result: bool)
        ensures
            result == self@.kind().numeric(),
    {
        match self {
            UbjsonValue::Int8(_)
            | UbjsonValue::UInt8(_)
            | UbjsonValue::Int16(_)
            | UbjsonValue::Int32(_)
            | UbjsonValue::Int64(_)
            | UbjsonValue::Float32(_)
            | UbjsonValue::Float64(_)
            | UbjsonValue::HighPrecision(_) => true,
            _ => false,
        }
    }

    /// Whether the value is a fixed-width integer.
    pub fn is_integer(&self) -> (result: bool)
        ensures
            result == self@.kind().integer(),
    {
        match self {
            UbjsonValue::Int8(_)
            | UbjsonValue::UInt8(_)
            | UbjsonValue::Int16(_)
            | UbjsonValue::Int32(_)
            | UbjsonValue::Int64(_) => true,
            _ => false,
        }
    }

    /// Whether the value is a floating point number.
    pub fn is_float(&self) -> (result: bool)
        ensures
            result == self@.kind().float(),
    {
        match self {
            UbjsonValue::Float32(_) | UbjsonValue::Float64(_) => true,
            _ => false,
        }
    }

    /// Whether the value is text.
    pub fn is_string(&self) -> (result: bool)
        ensures
            result == (self@ is String),
    {
        match self {
            UbjsonValue::String(_) => true,
            _ => false,
        }
    }

    /// Whether the value is a character.
    pub fn is_char(&self) -> (result: bool)
        ensures
            result == (self@ is Char),
    {
        match self {
            UbjsonValue::Char(_) => true,
            _ => false,
        }
    }

    /// Whether the value is an array of either form.
    pub fn is_array(&self) -> (result: bool)
        ensures
            result == (self@ is Array || self@ is StronglyTypedArray),
    {
        match self {
            UbjsonValue::Array(_) | UbjsonValue::StronglyTypedArray { .. } => true,
            _ => false,
        }
    }

    /// Whether the value is an object of either form.
    pub fn is_object(&self) -> (result: bool)
        ensures
            result == (self@ is Object || self@ is StronglyTypedObject),
    {
        match self {
            UbjsonValue::Object(_) | UbjsonValue::StronglyTypedObject { .. } => true,
            _ => false,
        }
    }

    /// The number of entries of a container; `None` for any other value.
    pub fn len(&self) -> (len: Option<usize>)
        ensures
            match len {
                Some(n) => self@.entries() == Some(n as nat),
                None => self@.entries() is None,
            },
    {
        match self {
            UbjsonValue::Array(items) => {
                proof {
                    lemma_view_array(*items);
                }
                Some(items.len())
            },
            UbjsonValue::Object(map) => Some(map.len()),
            UbjsonValue::StronglyTypedArray { element_type, count, elements } => {
                proof {
                    lemma_view_typed_array(*element_type, *count, *elements);
                }
                Some(elements.len())
            },
            UbjsonValue::StronglyTypedObject { pairs, .. } => Some(pairs.len()),
            _ => None,
        }
    }

    /// Whether the value is a container without entries.
    pub fn is_empty(&self) -> (empty: bool)
        ensures
            empty == (self@.entries() == Some(0nat)),
    {
        match self.len() {
            Some(n) => n == 0,
            None => false,
        }
    }

    /// A boolean value.
    pub fn from_bool(value: bool) -> (result: UbjsonValue)
        ensures
            result == UbjsonValue::Bool(value),
    {
        UbjsonValue::Bool(value)
    }

    /// A text value.
    pub fn from_string(value: &str) -> (result: UbjsonValue)
        ensures
            result@ == ValueModel::String(value@),
    {
        UbjsonValue::String(value.to_owned())
    }

    /// A character value.
    pub fn from_char(value: char) -> (result: UbjsonValue)
        ensures
            result == UbjsonValue::Char(value),
    {
        UbjsonValue::Char(value)
    }

    /// An array without elements.
    pub fn empty_array() -> (result: UbjsonValue)
        ensures
            result@ == ValueModel::Array(Seq::empty()),
    {
        let items: Vec<UbjsonValue> = Vec::new();
        proof {
            lemma_view_array(items);
            assert(view_all(items@) =~= Seq::empty());
        }
        UbjsonValue::Array(items)
    }

    /// An object without entries.
    pub fn empty_object() -> (result: UbjsonValue)
        ensures
            result@ == ValueModel::Object(Seq::empty()),
    {
        UbjsonValue::Object(UbjsonMap::new())
    }

    /// A strongly-typed array that writes its element count.
    pub fn strongly_typed_array(element_type: UbjsonType, elements: Vec<UbjsonValue>) -> (result:
        UbjsonValue)
        ensures
            result == (UbjsonValue::StronglyTypedArray {
                element_type,
                count: Some(elements.len()),
                elements,
            }),
    {
        UbjsonValue::StronglyTypedArray { element_type, count: Some(elements.len()), elements }
    }

    /// A strongly-typed object that writes its pair count.
    pub fn strongly_typed_object(value_type: UbjsonType, pairs: UbjsonMap) -> (result: UbjsonValue)
        ensures
            result@ == (ValueModel::StronglyTypedObject {
                value_type,
                count: Some(pairs@.len() as usize),
                pairs: pairs@,
            }),
    {
        UbjsonValue::StronglyTypedObject { value_type, count: Some(pairs.len()), pairs }
    }
}

impl From<bool> for UbjsonValue {
    fn from(value: bool) -> (result: UbjsonValue) {
        UbjsonValue::Bool(value)
    }
}

impl FromSpecImpl<bool> for UbjsonValue {
    open spec fn obeys_from_spec() -> bool {
        true
    }

    open spec fn from_spec(value: bool) -> UbjsonValue {
        UbjsonValue::Bool(value)
    }
}

impl From<i8> for UbjsonValue {
    fn from(value: i8) -> (result: UbjsonValue) {
        UbjsonValue::Int8(value)
    }
}

impl FromSpecImpl<i8> for UbjsonValue {
    open spec fn obeys_from_spec() -> bool {
        true
    }

    open spec fn from_spec(value: i8) -> UbjsonValue {
        UbjsonValue::Int8(value)
    }
}

impl From<u8> for UbjsonValue {
    fn from(value: u8) -> (result: UbjsonValue) {
        UbjsonValue::UInt8(value)
    }
}

impl FromSpecImpl<u8> for UbjsonValue {
    open spec fn obeys_from_spec() -> bool {
        true
    }

    open spec fn from_spec(value: u8) -> UbjsonValue {
        UbjsonValue::UInt8(value)
    }
}

impl From<i16> for UbjsonValue {
    fn from(value: i16) -> (result: UbjsonValue) {
        UbjsonValue::Int16(value)
    }
}

impl FromSpecImpl<i16> for UbjsonValue {
    open spec fn obeys_from_spec() -> bool {
        true
    }

    open spec fn from_spec(value: i16) -> UbjsonValue {
        UbjsonValue::Int16(value)
    }
}

impl From<i32> for UbjsonValue {
    fn from(value: i32) -> (result: UbjsonValue) {
        UbjsonValue::Int32(value)
    }
}

impl FromSpecImpl<i32> for UbjsonValue {
    open spec fn obeys_from_spec() -> bool {
        true
    }

    open spec fn from_spec(value: i32) -> UbjsonValue {
        UbjsonValue::Int32(value)
    }
}

impl From<i64> for UbjsonValue {
    fn from(value: i64) -> (result: UbjsonValue) {
        UbjsonValue::Int64(value)
    }
}

impl FromSpecImpl<i64> for UbjsonValue {
    open spec fn obeys_from_spec() -> bool {
        true
    }

    open spec fn from_spec(value: i64) -> UbjsonValue {
        UbjsonValue::Int64(value)
    }
}

impl From<char> for UbjsonValue {
    fn from(value: char) -> (result: UbjsonValue) {
        UbjsonValue::Char(value)
    }
}

impl FromSpecImpl<char> for UbjsonValue {
    open spec fn obeys_from_spec() -> bool {
        true
    }

    open spec fn from_spec(value: char) -> UbjsonValue {
        UbjsonValue::Char(value)
    }
}

impl From<String> for UbjsonValue {
    fn from(value: String) -> (result: UbjsonValue) {
        UbjsonValue::String(value)
    }
}

impl FromSpecImpl<String> for UbjsonValue {
    open spec fn obeys_from_spec() -> bool {
        true
    }

    open spec fn from_spec(value: String) -> UbjsonValue {
        UbjsonValue::String(value)
    }
}

impl<'a> From<&'a str> for UbjsonValue {
    /// A string value with the characters of `value`.
    fn from(value: &'a str) -> (result: UbjsonValue)
        ensures
            result@ == ValueModel::String(value@),
    {
        UbjsonValue::String(value.to_owned())
    }
}

/// A string slice has no owned string to name in a specification, so the
/// conversion is stated by `from` itself, over views, and `from_spec` is
/// left without meaning.
impl<'a> FromSpecImpl<&'a str> for UbjsonValue {
    open spec fn obeys_from_spec() -> bool {
        false
    }

    open spec fn from_spec(value: &'a str) -> UbjsonValue {
        UbjsonValue::Null
    }
}

impl From<Vec<UbjsonValue>> for UbjsonValue {
    fn from(value: Vec<UbjsonValue>) -> (result: UbjsonValue) {
        UbjsonValue::Array(value)
    }
}

impl FromSpecImpl<Vec<UbjsonValue>> for UbjsonValue {
    open spec fn obeys_from_spec() -> bool {
        true
    }

    open spec fn from_spec(value: Vec<UbjsonValue>) -> UbjsonValue {
        UbjsonValue::Array(value)
    }
}

impl From<UbjsonMap> for UbjsonValue {
    fn from(value: UbjsonMap) -> (result: UbjsonValue) {
        UbjsonValue::Object(value)
    }
}

impl FromSpecImpl<UbjsonMap> for UbjsonValue {
    open spec fn obeys_from_spec() -> bool {
        true
    }

    open spec fn from_spec(value: UbjsonMap) -> UbjsonValue {
        UbjsonValue::Object(value)
    }
}

} // verus!
