//! The assembled document: three name-keyed, insertion-ordered collections
//! of types, constants and natives, and the views that contracts use.
use vstd::prelude::*;
use indexmap::IndexMap;
use std::collections::HashMap;

verus! {

#[verifier::external_type_specification]
#[verifier::external_body]
#[verifier::reject_recursive_types(K)]
#[verifier::reject_recursive_types(V)]
#[verifier::reject_recursive_types(S)]
pub struct ExIndexMap<K, V, S>(IndexMap<K, V, S>);

// ---------------------------------------------------------------------------
// Views

pub open spec fn opt_text(o: Option<String>) -> Option<Seq<char>> {
    match o {
        Some(s) => Some(s@),
        None => None,
    }
}

pub struct EnumValueView {
    pub comment: Option<Seq<char>>,
    pub value: Option<Seq<char>>,
}

pub struct StructFieldView {
    pub comment: Option<Seq<char>>,
    pub typename: Seq<char>,
    pub array_size: Option<Seq<char>>,
    pub default_value: Option<Seq<char>>,
}

pub enum TypeDefinitionView {
    Enum { comment: Option<Seq<char>>, values: Seq<(Seq<char>, EnumValueView)> },
    Struct { comment: Option<Seq<char>>, fields: Seq<(Seq<char>, StructFieldView)> },
    NativeType { comment: Option<Seq<char>>, alias_for: Option<Seq<char>> },
}

pub struct ConstDefinitionView {
    pub comment: Option<Seq<char>>,
    pub typename: Seq<char>,
    pub value: Seq<char>,
}

pub struct NativeParamView {
    pub ty: Seq<char>,
    pub name: Seq<char>,
    pub default: Option<Seq<char>>,
}

pub struct NativeView {
    pub name: Seq<char>,
    pub sch_comment: Option<Seq<char>>,
    pub params: Seq<NativeParamView>,
    pub return_type: Seq<char>,
}

pub struct DocumentView {
    pub types: Seq<(Seq<char>, TypeDefinitionView)>,
    pub constants: Seq<(Seq<char>, ConstDefinitionView)>,
    pub natives: Seq<(Seq<char>, NativeView)>,
}

// ---------------------------------------------------------------------------
// Ordered, key-unique entry sequences

/// Index of the entry with key `k`, or -1.
pub open spec fn key_index<V>(entries: Seq<(Seq<char>, V)>, k: Seq<char>) -> int
    decreases entries.len(),
{
    if entries.len() == 0 {
        -1
    } else if key_index(entries.drop_last(), k) >= 0 {
        key_index(entries.drop_last(), k)
    } else if entries.last().0 == k {
        entries.len() - 1
    } else {
        -1
    }
}

/// Insert under `k`: an existing entry keeps its place and takes the new
/// value; a new key goes last.
pub open spec fn upsert<V>(entries: Seq<(Seq<char>, V)>, k: Seq<char>, v: V) -> Seq<(Seq<char>, V)> {
    let i = key_index(entries, k);
    if i >= 0 {
        entries.update(i, (k, v))
    } else {
        entries.push((k, v))
    }
}

/// The entries obtained by inserting each pair in order into an empty map.
pub open spec fn upsert_all<V>(pairs: Seq<(Seq<char>, V)>) -> Seq<(Seq<char>, V)>
    decreases pairs.len(),
{
    if pairs.len() == 0 {
        Seq::empty()
    } else {
        upsert(upsert_all(pairs.drop_last()), pairs.last().0, pairs.last().1)
    }
}

pub open spec fn keys_unique<V>(entries: Seq<(Seq<char>, V)>) -> bool {
    forall|i: int, j: int|
        0 <= i < entries.len() && 0 <= j < entries.len() && i != j ==> entries[i].0 != entries[j].0
}

/// The value stored under `k`, if any.
pub open spec fn lookup<V>(entries: Seq<(Seq<char>, V)>, k: Seq<char>) -> Option<V> {
    let i = key_index(entries, k);
    if i >= 0 {
        Some(entries[i].1)
    } else {
        None
    }
}

// ---------------------------------------------------------------------------
// Document records

#[derive(Debug)]
pub struct NativeParam {
    pub ty: String,
    pub name: String,
    pub default: Option<String>,
}

#[derive(Debug)]
pub struct Native {
    pub name: String,
    pub sch_comment: Option<String>,
    pub params: Vec<NativeParam>,
    pub return_type: String,
}

/// Natives keyed by their numeric hash.
#[derive(Debug)]
pub struct Namespace {
    pub natives: HashMap<u64, Native>,
}

#[derive(Debug)]
pub struct EnumValue {
    pub comment: Option<String>,
    pub value: Option<String>,
}

#[derive(Debug)]
pub struct StructField {
    pub comment: Option<String>,
    pub typename: String,
    pub array_size: Option<String>,
    pub default_value: Option<String>,
}

#[derive(Debug)]
pub enum TypeDefinition {
    Enum { comment: Option<String>, values: IndexMap<String, EnumValue> },
    Struct { comment: Option<String>, fields: IndexMap<String, StructField> },
    NativeType { comment: Option<String>, alias_for: Option<String> },
}

#[derive(Debug)]
pub struct ConstDefinition {
    pub comment: Option<String>,
    pub typename: String,
    pub value: String,
}

#[derive(Debug)]
pub struct DocumentRoot {
    pub types: IndexMap<String, TypeDefinition>,
    pub constants: IndexMap<String, ConstDefinition>,
    pub natives: IndexMap<String, Native>,
}

/// What an `IndexMap` of enum values holds, in order.
pub uninterp spec fn enum_value_entries(m: IndexMap<String, EnumValue>) -> Seq<(Seq<char>, EnumValueView)>;

/// What an `IndexMap` of struct fields holds, in order.
pub uninterp spec fn struct_field_entries(m: IndexMap<String, StructField>) -> Seq<(Seq<char>, StructFieldView)>;

/// What an `IndexMap` of type definitions holds, in order.
pub uninterp spec fn type_entries(m: IndexMap<String, TypeDefinition>) -> Seq<(Seq<char>, TypeDefinitionView)>;

/// What an `IndexMap` of constants holds, in order.
pub uninterp spec fn constant_entries(m: IndexMap<String, ConstDefinition>) -> Seq<(Seq<char>, ConstDefinitionView)>;

/// What an `IndexMap` of natives holds, in order.
pub uninterp spec fn native_entries(m: IndexMap<String, Native>) -> Seq<(Seq<char>, NativeView)>;

impl View for EnumValue {
    type V = EnumValueView;

    open spec fn view(&self) -> EnumValueView {
        EnumValueView { comment: opt_text(self.comment), value: opt_text(self.value) }
    }
}

impl View for StructField {
    type V = StructFieldView;

    open spec fn view(&self) -> StructFieldView {
        StructFieldView {
            comment: opt_text(self.comment),
            typename: self.typename@,
            array_size: opt_text(self.array_size),
            default_value: opt_text(self.default_value),
        }
    }
}

impl View for TypeDefinition {
    type V = TypeDefinitionView;

    open spec fn view(&self) -> TypeDefinitionView {
        match self {
            TypeDefinition::Enum { comment, values } => TypeDefinitionView::Enum {
                comment: opt_text(*comment),
                values: enum_value_entries(*values),
            },
            TypeDefinition::Struct { comment, fields } => TypeDefinitionView::Struct {
                comment: opt_text(*comment),
                fields: struct_field_entries(*fields),
            },
            TypeDefinition::NativeType { comment, alias_for } => TypeDefinitionView::NativeType {
                comment: opt_text(*comment),
                alias_for: opt_text(*alias_for),
            },
        }
    }
}

impl View for ConstDefinition {
    type V = ConstDefinitionView;

    open spec fn view(&self) -> ConstDefinitionView {
        ConstDefinitionView {
            comment: opt_text(self.comment),
            typename: self.typename@,
            value: self.value@,
        }
    }
}

impl View for NativeParam {
    type V = NativeParamView;

    open spec fn view(&self) -> NativeParamView {
        NativeParamView { ty: self.ty@, name: self.name@, default: opt_text(self.default) }
    }
}

impl View for Native {
    type V = NativeView;

    open spec fn view(&self) -> NativeView {
        NativeView {
            name: self.name@,
            sch_comment: opt_text(self.sch_comment),
            params: self.params@.map_values(|p: NativeParam| p@),
            return_type: self.return_type@,
        }
    }
}

impl View for DocumentRoot {
    type V = DocumentView;

    open spec fn view(&self) -> DocumentView {
        DocumentView {
            types: type_entries(self.types),
            constants: constant_entries(self.constants),
            natives: native_entries(self.natives),
        }
    }
}

/// Relies on `IndexMap::new`: a new map is empty.
#[verifier::external_body]
pub(crate) fn new_enum_values() -> (r: IndexMap<String, EnumValue>)
    ensures
        enum_value_entries(r) == Seq::<(Seq<char>, EnumValueView)>::empty(),
{
    IndexMap::new()
}

/// Relies on `IndexMap::insert`: an existing key keeps its place and takes
/// the new value; a new key goes last.
#[verifier::external_body]
pub(crate) fn insert_enum_value(m: &mut IndexMap<String, EnumValue>, k: String, v: EnumValue)
    ensures
        enum_value_entries(*final(m)) == upsert(enum_value_entries(*old(m)), k@, v@),
{
    m.insert(k, v);
}

/// Relies on `IndexMap::new`: a new map is empty.
#[verifier::external_body]
pub(crate) fn new_struct_fields() -> (r: IndexMap<String, StructField>)
    ensures
        struct_field_entries(r) == Seq::<(Seq<char>, StructFieldView)>::empty(),
{
    IndexMap::new()
}

/// Relies on `IndexMap::insert`: an existing key keeps its place and takes
/// the new value; a new key goes last.
#[verifier::external_body]
pub(crate) fn insert_struct_field(m: &mut IndexMap<String, StructField>, k: String, v: StructField)
    ensures
        struct_field_entries(*final(m)) == upsert(struct_field_entries(*old(m)), k@, v@),
{
    m.insert(k, v);
}

/// Relies on `IndexMap::new`: a new map is empty.
#[verifier::external_body]
pub(crate) fn new_types() -> (r: IndexMap<String, TypeDefinition>)
    ensures
        type_entries(r) == Seq::<(Seq<char>, TypeDefinitionView)>::empty(),
{
    IndexMap::new()
}

/// Relies on `IndexMap::insert`: an existing key keeps its place and takes
/// the new value; a new key goes last.
#[verifier::external_body]
pub(crate) fn insert_type(m: &mut IndexMap<String, TypeDefinition>, k: String, v: TypeDefinition)
    ensures
        type_entries(*final(m)) == upsert(type_entries(*old(m)), k@, v@),
{
    m.insert(k, v);
}

/// Relies on `IndexMap::new`: a new map is empty.
#[verifier::external_body]
pub(crate) fn new_constants() -> (r: IndexMap<String, ConstDefinition>)
    ensures
        constant_entries(r) == Seq::<(Seq<char>, ConstDefinitionView)>::empty(),
{
    IndexMap::new()
}

/// Relies on `IndexMap::insert`: an existing key keeps its place and takes
/// the new value; a new key goes last.
#[verifier::external_body]
pub(crate) fn insert_constant(m: &mut IndexMap<String, ConstDefinition>, k: String, v: ConstDefinition)
    ensures
        constant_entries(*final(m)) == upsert(constant_entries(*old(m)), k@, v@),
{
    m.insert(k, v);
}

/// Relies on `IndexMap::new`: a new map is empty.
#[verifier::external_body]
pub(crate) fn new_natives() -> (r: IndexMap<String, Native>)
    ensures
        native_entries(r) == Seq::<(Seq<char>, NativeView)>::empty(),
{
    IndexMap::new()
}

/// Relies on `IndexMap::insert`: an existing key keeps its place and takes
/// the new value; a new key goes last.
#[verifier::external_body]
pub(crate) fn insert_native(m: &mut IndexMap<String, Native>, k: String, v: Native)
    ensures
        native_entries(*final(m)) == upsert(native_entries(*old(m)), k@, v@),
{
    m.insert(k, v);
}

} // verus!
