//! The values of the language.
use vstd::prelude::*;
use vstd::string::*;

verus! {

/// A 64-bit floating-point number, held by its IEEE 754 bit pattern.
///
/// The library carries such numbers around and tells whether one is zero;
/// every other operation on them is asked of the host.
#[derive(Debug, Clone, Copy, PartialEq, Eq, Structural)]
pub struct Double {
    pub bits: u64,
}

/// A bit pattern stands for zero when all bits but the sign are clear.
pub open spec fn double_is_zero(bits: u64) -> bool {
    bits == 0 || bits == 0x8000_0000_0000_0000
}

impl Double {
    pub fn from_bits(bits: u64) -> (d: Double)
        ensures
            d.bits == bits,
    {
        Double { bits }
    }

    pub fn to_bits(&self) -> (bits: u64)
        ensures
            bits == self.bits,
    {
        self.bits
    }

    /// Whether the number is positive or negative zero.
    pub fn is_zero(&self) -> (b: bool)
        ensures
            b == double_is_zero(self.bits),
    {
        self.bits == 0 || self.bits == 0x8000_0000_0000_0000
    }
}

/// One entry of a dictionary.
#[derive(Debug, PartialEq)]
pub struct DictEntry {
    pub key: String,
    pub value: Value,
}

/// The wrapper that the `case` built-in produces.
#[derive(Debug, PartialEq)]
pub struct CaseResult {
    pub result: Box<Value>,
}

/// A runtime value.
#[derive(Debug, PartialEq)]
pub enum Value {
    Nil,
    Bool(bool),
    Int(i64),
    Double(Double),
    String(String),
    List(Vec<Value>),
    /// The entries in insertion order. In the dictionaries that an
    /// evaluation builds no key occurs twice: see `well_keyed`.
    Dict(Vec<DictEntry>),
    CaseResult(CaseResult),
    Tuple(Vec<Value>),
}

/// The mathematical content of a [`Value`].
pub enum ValueView {
    Nil,
    Bool(bool),
    Int(i64),
    Double(u64),
    String(Seq<char>),
    List(Seq<ValueView>),
    Dict(Seq<(Seq<char>, ValueView)>),
    CaseResult(Box<ValueView>),
    Tuple(Seq<ValueView>),
}

/// The contents of a value.
pub open spec fn value_view(value: Value) -> ValueView
    decreases value,
{
    match value {
        Value::Nil => ValueView::Nil,
        Value::Bool(b) => ValueView::Bool(b),
        Value::Int(n) => ValueView::Int(n),
        Value::Double(d) => ValueView::Double(d.bits),
        Value::String(s) => ValueView::String(s@),
        Value::List(items) => ValueView::List(
            Seq::new(
                items@.len(),
                |i: int|
                    if 0 <= i < items@.len() {
                        value_view(items@[i])
                    } else {
                        ValueView::Nil
                    },
            ),
        ),
        Value::Dict(entries) => ValueView::Dict(
            Seq::new(
                entries@.len(),
                |i: int|
                    if 0 <= i < entries@.len() {
                        (entries@[i].key@, value_view(entries@[i].value))
                    } else {
                        (Seq::empty(), ValueView::Nil)
                    },
            ),
        ),
        Value::CaseResult(c) => ValueView::CaseResult(Box::new(value_view(*c.result))),
        Value::Tuple(items) => ValueView::Tuple(
            Seq::new(
                items@.len(),
                |i: int|
                    if 0 <= i < items@.len() {
                        value_view(items@[i])
                    } else {
                        ValueView::Nil
                    },
            ),
        ),
    }
}

/// The contents of a sequence of values.
pub open spec fn value_views(values: Seq<Value>) -> Seq<ValueView> {
    Seq::new(values.len(), |i: int| value_view(values[i]))
}

/// The contents of a sequence of dictionary entries.
pub open spec fn entry_views(entries: Seq<DictEntry>) -> Seq<(Seq<char>, ValueView)> {
    Seq::new(entries.len(), |i: int| (entries[i].key@, value_view(entries[i].value)))
}

/// A list holds the contents of its items.
pub broadcast proof fn lemma_list_view(items: Vec<Value>)
    ensures
        #[trigger] value_view(Value::List(items)) == ValueView::List(value_views(items@)),
{
    assert(value_view(Value::List(items))->List_0 =~= value_views(items@));
}

/// A tuple holds the contents of its items.
pub broadcast proof fn lemma_tuple_view(items: Vec<Value>)
    ensures
        #[trigger] value_view(Value::Tuple(items)) == ValueView::Tuple(value_views(items@)),
{
    assert(value_view(Value::Tuple(items))->Tuple_0 =~= value_views(items@));
}

/// A dictionary holds the contents of its entries.
pub broadcast proof fn lemma_dict_view(entries: Vec<DictEntry>)
    ensures
        #[trigger] value_view(Value::Dict(entries)) == ValueView::Dict(entry_views(entries@)),
{
    assert(value_view(Value::Dict(entries))->Dict_0 =~= entry_views(entries@));
}

/// The contents of one entry among the entries.
pub proof fn lemma_entry_view(entries: Seq<DictEntry>, i: int)
    requires
        0 <= i < entries.len(),
    ensures
        entry_views(entries)[i] == (entries[i].key@, entries[i].value@),
{
}

pub broadcast group group_value_views {
    lemma_list_view,
    lemma_tuple_view,
    lemma_dict_view,
}

impl View for Value {
    type V = ValueView;

    open spec fn view(&self) -> ValueView {
        value_view(*self)
    }
}

impl View for DictEntry {
    type V = (Seq<char>, ValueView);

    open spec fn view(&self) -> (Seq<char>, ValueView) {
        (self.key@, self.value@)
    }
}

/// Whether a value counts as true in a condition.
pub open spec fn truthy(v: ValueView) -> bool
    decreases v,
{
    match v {
        ValueView::Nil => false,
        ValueView::Bool(b) => b,
        ValueView::Int(n) => n != 0,
        ValueView::Double(bits) => !double_is_zero(bits),
        ValueView::String(s) => s.len() != 0,
        ValueView::List(items) => items.len() != 0,
        ValueView::Dict(entries) => entries.len() != 0,
        ValueView::CaseResult(inner) => truthy(*inner),
        ValueView::Tuple(items) => items.len() != 0,
    }
}

/// The name of a value's type.
pub open spec fn kind_name_of(v: ValueView) -> Seq<char> {
    match v {
        ValueView::Nil => "nil"@,
        ValueView::Bool(_) => "bool"@,
        ValueView::Int(_) => "int"@,
        ValueView::Double(_) => "double"@,
        ValueView::String(_) => "string"@,
        ValueView::List(_) => "list"@,
        ValueView::Dict(_) => "dict"@,
        ValueView::CaseResult(_) => "case_result"@,
        ValueView::Tuple(_) => "tuple"@,
    }
}

/// No key occurs twice among the entries.
pub open spec fn unique_keys(entries: Seq<(Seq<char>, ValueView)>) -> bool {
    forall|i: int, j: int|
        0 <= i < j < entries.len() ==> (#[trigger] entries[i]).0 != (#[trigger] entries[j]).0
}

/// No dictionary inside the value has a key that occurs twice.
pub open spec fn well_keyed(v: ValueView) -> bool
    decreases v,
{
    match v {
        ValueView::List(items) => forall|i: int|
            0 <= i < items.len() ==> well_keyed(#[trigger] items[i]),
        ValueView::Tuple(items) => forall|i: int|
            0 <= i < items.len() ==> well_keyed(#[trigger] items[i]),
        ValueView::Dict(entries) => unique_keys(entries) && forall|i: int|
            0 <= i < entries.len() ==> well_keyed((#[trigger] entries[i]).1),
        ValueView::CaseResult(inner) => well_keyed(*inner),
        _ => true,
    }
}

impl Clone for DictEntry {
    fn clone(&self) -> (copy: Self)
        ensures
            copy@ == self@,
        decreases self,
    {
        DictEntry { key: self.key.clone(), value: self.value.clone() }
    }
}

impl Clone for CaseResult {
    fn clone(&self) -> (copy: Self)
        ensures
            copy.result@ == self.result@,
        decreases self,
    {
        CaseResult { result: Box::new((*self.result).clone()) }
    }
}

impl Clone for Value {
    fn clone(&self) -> (copy: Self)
        ensures
            copy@ == self@,
        decreases self,
    {
        broadcast use group_value_views;

        match self {
            Value::Nil => Value::Nil,
            Value::Bool(b) => Value::Bool(*b),
            Value::Int(n) => Value::Int(*n),
            Value::Double(d) => Value::Double(*d),
            Value::String(s) => Value::String(s.clone()),
            Value::List(items) => Value::List(clone_values(items)),
            Value::Dict(entries) => Value::Dict(clone_entries(entries)),
            Value::CaseResult(c) => Value::CaseResult(c.clone()),
            Value::Tuple(items) => Value::Tuple(clone_values(items)),
        }
    }
}

/// A copy of each value, in order.
pub fn clone_values(items: &Vec<Value>) -> (copy: Vec<Value>)
    ensures
        value_views(copy@) == value_views(items@),
        copy.len() == items.len(),
    decreases items,
{
    let mut copy: Vec<Value> = Vec::new();
    let mut i: usize = 0;
    while i < items.len()
        invariant
            i <= items.len(),
            copy.len() == i,
            forall|k: int| 0 <= k < i ==> copy@[k]@ == items@[k]@,
        decreases items.len() - i,
    {
        copy.push(items[i].clone());
        i += 1;
    }
    assert(value_views(copy@) =~= value_views(items@));
    copy
}

/// A copy of each entry, in order.
pub fn clone_entries(entries: &Vec<DictEntry>) -> (copy: Vec<DictEntry>)
    ensures
        entry_views(copy@) == entry_views(entries@),
        copy.len() == entries.len(),
    decreases entries,
{
    let mut copy: Vec<DictEntry> = Vec::new();
    let mut i: usize = 0;
    while i < entries.len()
        invariant
            i <= entries.len(),
            copy.len() == i,
            forall|k: int| 0 <= k < i ==> copy@[k]@ == entries@[k]@,
        decreases entries.len() - i,
    {
        copy.push(entries[i].clone());
        i += 1;
    }
    assert(entry_views(copy@) =~= entry_views(entries@));
    copy
}

impl Value {
    /// Whether the value counts as true in a condition: nil, false, zero
    /// and the empty string, list, dictionary and tuple do not.
    pub fn is_truthy(&self) -> (b: bool)
        ensures
            b == truthy(self@),
        decreases self,
    {
        match self {
            Value::Nil => false,
            Value::Bool(b) => *b,
            Value::Int(n) => *n != 0,
            Value::Double(d) => !d.is_zero(),
            Value::String(s) => s.as_str().unicode_len() != 0,
            Value::List(items) => items.len() != 0,
            Value::Dict(entries) => entries.len() != 0,
            Value::CaseResult(c) => c.result.is_truthy(),
            Value::Tuple(items) => items.len() != 0,
        }
    }

    pub fn kind_name(&self) -> (name: &'static str)
        ensures
            name@ == kind_name_of(self@),
    {
        match self {
            Value::Nil => "nil",
            Value::Bool(_) => "bool",
            Value::Int(_) => "int",
            Value::Double(_) => "double",
            Value::String(_) => "string",
            Value::List(_) => "list",
            Value::Dict(_) => "dict",
            Value::CaseResult(_) => "case_result",
            Value::Tuple(_) => "tuple",
        }
    }
}

} // verus!

