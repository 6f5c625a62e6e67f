use vstd::prelude::*;
use vstd::layout::{align_of, size_of};
use core::cmp::Ordering;
use vstd::std_specs::cmp::{PartialEqSpec, PartialOrdSpec};

verus! {

/// The identity of a component type. Two component types never share an identity, and the
/// set of identities is closed: these are the types a column can hold.
#[derive(Clone, Copy, Debug, PartialEq, Eq, Structural, PartialOrd, Ord, Hash)]
pub enum TypeId {
    I8,
    I16,
    I32,
    I64,
    I128,
    Isize,
    U8,
    U16,
    U32,
    U64,
    U128,
    Usize,
    Bool,
    Char,
    String,
    Str,
}

impl TypeId {
    /// The name of the Rust type behind this identity.
    pub open spec fn spec_name(self) -> Seq<char> {
        match self {
            TypeId::I8 => "i8"@,
            TypeId::I16 => "i16"@,
            TypeId::I32 => "i32"@,
            TypeId::I64 => "i64"@,
            TypeId::I128 => "i128"@,
            TypeId::Isize => "isize"@,
            TypeId::U8 => "u8"@,
            TypeId::U16 => "u16"@,
            TypeId::U32 => "u32"@,
            TypeId::U64 => "u64"@,
            TypeId::U128 => "u128"@,
            TypeId::Usize => "usize"@,
            TypeId::Bool => "bool"@,
            TypeId::Char => "char"@,
            TypeId::String => "alloc::string::String"@,
            TypeId::Str => "&str"@,
        }
    }

    /// The place of this identity in the order of identities.
    pub open spec fn spec_rank(self) -> nat {
        match self {
            TypeId::I8 => 0,
            TypeId::I16 => 1,
            TypeId::I32 => 2,
            TypeId::I64 => 3,
            TypeId::I128 => 4,
            TypeId::Isize => 5,
            TypeId::U8 => 6,
            TypeId::U16 => 7,
            TypeId::U32 => 8,
            TypeId::U64 => 9,
            TypeId::U128 => 10,
            TypeId::Usize => 11,
            TypeId::Bool => 12,
            TypeId::Char => 13,
            TypeId::String => 14,
            TypeId::Str => 15,
        }
    }

    /// The size in bytes of a value of the type behind this identity.
    pub open spec fn spec_size(self) -> nat {
        match self {
            TypeId::I8 => size_of::<i8>(),
            TypeId::I16 => size_of::<i16>(),
            TypeId::I32 => size_of::<i32>(),
            TypeId::I64 => size_of::<i64>(),
            TypeId::I128 => size_of::<i128>(),
            TypeId::Isize => size_of::<isize>(),
            TypeId::U8 => size_of::<u8>(),
            TypeId::U16 => size_of::<u16>(),
            TypeId::U32 => size_of::<u32>(),
            TypeId::U64 => size_of::<u64>(),
            TypeId::U128 => size_of::<u128>(),
            TypeId::Usize => size_of::<usize>(),
            TypeId::Bool => size_of::<bool>(),
            TypeId::Char => size_of::<char>(),
            TypeId::String => size_of::<String>(),
            TypeId::Str => size_of::<&'static str>(),
        }
    }

    /// The alignment in bytes of a value of the type behind this identity.
    pub open spec fn spec_align(self) -> nat {
        match self {
            TypeId::I8 => align_of::<i8>(),
            TypeId::I16 => align_of::<i16>(),
            TypeId::I32 => align_of::<i32>(),
            TypeId::I64 => align_of::<i64>(),
            TypeId::I128 => align_of::<i128>(),
            TypeId::Isize => align_of::<isize>(),
            TypeId::U8 => align_of::<u8>(),
            TypeId::U16 => align_of::<u16>(),
            TypeId::U32 => align_of::<u32>(),
            TypeId::U64 => align_of::<u64>(),
            TypeId::U128 => align_of::<u128>(),
            TypeId::Usize => align_of::<usize>(),
            TypeId::Bool => align_of::<bool>(),
            TypeId::Char => align_of::<char>(),
            TypeId::String => align_of::<String>(),
            TypeId::Str => align_of::<&'static str>(),
        }
    }

    /// The name of the Rust type behind this identity.
    pub fn name(self) -> (r: &'static str)
        ensures
            r@ == self.spec_name(),
    {
        match self {
            TypeId::I8 => "i8",
            TypeId::I16 => "i16",
            TypeId::I32 => "i32",
            TypeId::I64 => "i64",
            TypeId::I128 => "i128",
            TypeId::Isize => "isize",
            TypeId::U8 => "u8",
            TypeId::U16 => "u16",
            TypeId::U32 => "u32",
            TypeId::U64 => "u64",
            TypeId::U128 => "u128",
            TypeId::Usize => "usize",
            TypeId::Bool => "bool",
            TypeId::Char => "char",
            TypeId::String => "alloc::string::String",
            TypeId::Str => "&str",
        }
    }

    /// The place of this identity in the order of identities.
    pub fn rank(self) -> (r: u8)
        ensures
            r == self.spec_rank(),
    {
        match self {
            TypeId::I8 => 0,
            TypeId::I16 => 1,
            TypeId::I32 => 2,
            TypeId::I64 => 3,
            TypeId::I128 => 4,
            TypeId::Isize => 5,
            TypeId::U8 => 6,
            TypeId::U16 => 7,
            TypeId::U32 => 8,
            TypeId::U64 => 9,
            TypeId::U128 => 10,
            TypeId::Usize => 11,
            TypeId::Bool => 12,
            TypeId::Char => 13,
            TypeId::String => 14,
            TypeId::Str => 15,
        }
    }

    /// Identities are ordered by rank, and the rank tells them apart.
    pub proof fn rank_is_injective(a: TypeId, b: TypeId)
        ensures
            a.spec_rank() == b.spec_rank() <==> a == b,
    {
    }
}

/// Size and alignment of a component type, in bytes.
#[derive(Clone, Copy, Debug, PartialEq, Eq, Structural)]
pub struct Layout {
    pub size: usize,
    pub align: usize,
}

/// Describes one component type: its identity, its memory layout and its name.
#[derive(Clone, Copy, Debug)]
pub struct TypeInfo {
    pub id: TypeId,
    pub layout: Layout,
    pub name: &'static str,
}

impl TypeInfo {
    /// What `of` returns for the component type `T`.
    pub open spec fn describes<T: Component>(self) -> bool {
        &&& self.id == T::spec_type_id()
        &&& self.layout.size == size_of::<T>()
        &&& self.layout.align == align_of::<T>()
        &&& self.name@ == self.id.spec_name()
    }

    /// The descriptor of the component type `T`.
    pub fn of<T: Component>() -> (r: Self)
        ensures
            r.describes::<T>(),
    {
        TypeInfo::with_layout_of::<T>(T::type_id())
    }

    /// The descriptor that carries the identity `id` and the layout of `T`.
    fn with_layout_of<T>(id: TypeId) -> (r: Self)
        ensures
            r.id == id,
            r.layout.size == size_of::<T>(),
            r.layout.align == align_of::<T>(),
            r.name@ == id.spec_name(),
    {
        TypeInfo {
            id,
            layout: Layout { size: core::mem::size_of::<T>(), align: core::mem::align_of::<T>() },
            name: id.name(),
        }
    }
}

impl PartialEq for TypeInfo {
    /// Two descriptors are equal when they describe the same type.
    fn eq(&self, other: &Self) -> (r: bool) {
        self.id == other.id
    }
}

impl Eq for TypeInfo {

}

impl vstd::std_specs::cmp::PartialEqSpecImpl for TypeInfo {
    open spec fn obeys_eq_spec() -> bool {
        true
    }

    open spec fn eq_spec(&self, other: &Self) -> bool {
        self.id == other.id
    }
}

impl PartialOrd for TypeInfo {
    /// Descriptors are ordered by the identity of the type that they describe.
    fn partial_cmp(&self, other: &Self) -> (r: Option<Ordering>) {
        let mine = self.id.rank();
        let theirs = other.id.rank();
        if mine < theirs {
            Some(Ordering::Less)
        } else if mine == theirs {
            Some(Ordering::Equal)
        } else {
            Some(Ordering::Greater)
        }
    }
}

impl vstd::std_specs::cmp::PartialOrdSpecImpl for TypeInfo {
    open spec fn obeys_partial_cmp_spec() -> bool {
        true
    }

    open spec fn partial_cmp_spec(&self, other: &Self) -> Option<Ordering> {
        if self.id.spec_rank() < other.id.spec_rank() {
            Some(Ordering::Less)
        } else if self.id.spec_rank() == other.id.spec_rank() {
            Some(Ordering::Equal)
        } else {
            Some(Ordering::Greater)
        }
    }
}

/// Two descriptors are of equal rank exactly when they are equal: the order of
/// descriptors tells apart what equality tells apart.
pub proof fn lemma_order_agrees_with_equality(a: TypeInfo, b: TypeInfo)
    ensures
        a.partial_cmp_spec(&b) == Some(Ordering::Equal) <==> a.eq_spec(&b),
        a.partial_cmp_spec(&b) == Some(Ordering::Less) <==> b.partial_cmp_spec(&a) == Some(Ordering::Greater),
{
    TypeId::rank_is_injective(a.id, b.id);
}

/// A component value whose type is known only at run time: one variant for each
/// component type.
#[derive(Debug)]
pub enum Value {
    I8(i8),
    I16(i16),
    I32(i32),
    I64(i64),
    I128(i128),
    Isize(isize),
    U8(u8),
    U16(u16),
    U32(u32),
    U64(u64),
    U128(u128),
    Usize(usize),
    Bool(bool),
    Char(char),
    String(String),
    Str(&'static str),
}

impl Value {
    /// The identity of the type of the value inside.
    pub open spec fn spec_type_id(self) -> TypeId {
        match self {
            Value::I8(_) => TypeId::I8,
            Value::I16(_) => TypeId::I16,
            Value::I32(_) => TypeId::I32,
            Value::I64(_) => TypeId::I64,
            Value::I128(_) => TypeId::I128,
            Value::Isize(_) => TypeId::Isize,
            Value::U8(_) => TypeId::U8,
            Value::U16(_) => TypeId::U16,
            Value::U32(_) => TypeId::U32,
            Value::U64(_) => TypeId::U64,
            Value::U128(_) => TypeId::U128,
            Value::Usize(_) => TypeId::Usize,
            Value::Bool(_) => TypeId::Bool,
            Value::Char(_) => TypeId::Char,
            Value::String(_) => TypeId::String,
            Value::Str(_) => TypeId::Str,
        }
    }

    /// The identity of the type of the value inside.
    pub fn type_id(&self) -> (r: TypeId)
        ensures
            r == self.spec_type_id(),
    {
        match self {
            Value::I8(_) => TypeId::I8,
            Value::I16(_) => TypeId::I16,
            Value::I32(_) => TypeId::I32,
            Value::I64(_) => TypeId::I64,
            Value::I128(_) => TypeId::I128,
            Value::Isize(_) => TypeId::Isize,
            Value::U8(_) => TypeId::U8,
            Value::U16(_) => TypeId::U16,
            Value::U32(_) => TypeId::U32,
            Value::U64(_) => TypeId::U64,
            Value::U128(_) => TypeId::U128,
            Value::Usize(_) => TypeId::Usize,
            Value::Bool(_) => TypeId::Bool,
            Value::Char(_) => TypeId::Char,
            Value::String(_) => TypeId::String,
            Value::Str(_) => TypeId::Str,
        }
    }

    /// The descriptor of the type of the value inside.
    pub fn type_info(&self) -> (r: TypeInfo)
        ensures
            r.id == self.spec_type_id(),
            r.layout.size == r.id.spec_size(),
            r.layout.align == r.id.spec_align(),
            r.name@ == r.id.spec_name(),
    {
        match self {
            Value::I8(_) => TypeInfo::of::<i8>(),
            Value::I16(_) => TypeInfo::of::<i16>(),
            Value::I32(_) => TypeInfo::of::<i32>(),
            Value::I64(_) => TypeInfo::of::<i64>(),
            Value::I128(_) => TypeInfo::of::<i128>(),
            Value::Isize(_) => TypeInfo::of::<isize>(),
            Value::U8(_) => TypeInfo::of::<u8>(),
            Value::U16(_) => TypeInfo::of::<u16>(),
            Value::U32(_) => TypeInfo::of::<u32>(),
            Value::U64(_) => TypeInfo::of::<u64>(),
            Value::U128(_) => TypeInfo::of::<u128>(),
            Value::Usize(_) => TypeInfo::of::<usize>(),
            Value::Bool(_) => TypeInfo::of::<bool>(),
            Value::Char(_) => TypeInfo::of::<char>(),
            Value::String(_) => TypeInfo::of::<String>(),
            Value::Str(_) => TypeInfo::of::<&'static str>(),
        }
    }

    /// Two erased values are alike when they hold the same component type.
    pub fn same_type(&self, other: &Value) -> (r: bool)
        ensures
            r == (self.spec_type_id() == other.spec_type_id()),
    {
        self.type_id() == other.type_id()
    }
}

/// A type whose values can be stored in a column.
pub trait Component: Sized {
    /// The identity of the implementing type.
    spec fn spec_type_id() -> TypeId;

    /// The value with its type erased.
    spec fn erased(self) -> Value;

    /// Erasing keeps the identity of the type.
    proof fn erased_has_type(self)
        ensures
            self.erased().spec_type_id() == Self::spec_type_id(),
    ;

    /// The typed value inside `v`, where `v` holds this type.
    spec fn restored(v: Value) -> Self;

    /// Erasing loses nothing: the value can be had back.
    proof fn restored_inverts_erased(self)
        ensures
            Self::restored(self.erased()) == self,
    ;

    /// Every erased value of this identity comes from a value of the type.
    proof fn erased_inverts_restored(v: Value)
        requires
            v.spec_type_id() == Self::spec_type_id(),
        ensures
            Self::restored(v).erased() == v,
    ;

    /// The identity of the implementing type.
    fn type_id() -> (r: TypeId)
        ensures
            r == Self::spec_type_id(),
    ;

    /// Moves the value into its erased form.
    fn to_component_ref(self) -> (r: Value)
        ensures
            r == self.erased(),
    ;

    /// The descriptor of the type of `self`.
    fn type_info(&self) -> (r: TypeInfo)
        ensures
            r.id == Self::spec_type_id(),
            r.layout.size == size_of::<Self>(),
            r.layout.align == align_of::<Self>(),
            r.name@ == r.id.spec_name(),
    ;

    /// The typed value inside `v`, where `v` holds this type.
    fn downcast_ref(v: &Value) -> (r: Option<&Self>)
        ensures
            match r {
                Some(x) => x.erased() == *v,
                None => v.spec_type_id() != Self::spec_type_id(),
            },
    ;

    /// The typed value inside `v`, for writing. The type inside `v` cannot change.
    fn downcast_mut(v: &mut Value) -> (r: Option<&mut Self>)
        ensures
            match r {
                Some(x) => x.erased() == *old(v) && *final(v) == (*final(x)).erased()
                    && final(v).spec_type_id() == Self::spec_type_id(),
                None => old(v).spec_type_id() != Self::spec_type_id() && *final(v) == *old(v),
            },
    ;
}

impl Component for i8 {
    open spec fn spec_type_id() -> TypeId {
        TypeId::I8
    }

    open spec fn erased(self) -> Value {
        Value::I8(self)
    }

    proof fn erased_has_type(self) {
    }

    open spec fn restored(v: Value) -> Self {
        v->I8_0
    }

    proof fn restored_inverts_erased(self) {
    }

    proof fn erased_inverts_restored(v: Value) {
    }

    fn type_id() -> (r: TypeId) {
        TypeId::I8
    }

    fn to_component_ref(self) -> (r: Value) {
        Value::I8(self)
    }

    fn type_info(&self) -> (r: TypeInfo) {
        TypeInfo::with_layout_of::<i8>(TypeId::I8)
    }

    fn downcast_ref(v: &Value) -> (r: Option<&Self>) {
        match v {
            Value::I8(x) => Some(x),
            _ => None,
        }
    }

    fn downcast_mut(v: &mut Value) -> (r: Option<&mut Self>) {
        match v {
            Value::I8(x) => Some(x),
            _ => None,
        }
    }
}

impl Component for i16 {
    open spec fn spec_type_id() -> TypeId {
        TypeId::I16
    }

    open spec fn erased(self) -> Value {
        Value::I16(self)
    }

    proof fn erased_has_type(self) {
    }

    open spec fn restored(v: Value) -> Self {
        v->I16_0
    }

    proof fn restored_inverts_erased(self) {
    }

    proof fn erased_inverts_restored(v: Value) {
    }

    fn type_id() -> (r: TypeId) {
        TypeId::I16
    }

    fn to_component_ref(self) -> (r: Value) {
        Value::I16(self)
    }

    fn type_info(&self) -> (r: TypeInfo) {
        TypeInfo::with_layout_of::<i16>(TypeId::I16)
    }

    fn downcast_ref(v: &Value) -> (r: Option<&Self>) {
        match v {
            Value::I16(x) => Some(x),
            _ => None,
        }
    }

    fn downcast_mut(v: &mut Value) -> (r: Option<&mut Self>) {
        match v {
            Value::I16(x) => Some(x),
            _ => None,
        }
    }
}

impl Component for i32 {
    open spec fn spec_type_id() -> TypeId {
        TypeId::I32
    }

    open spec fn erased(self) -> Value {
        Value::I32(self)
    }

    proof fn erased_has_type(self) {
    }

    open spec fn restored(v: Value) -> Self {
        v->I32_0
    }

    proof fn restored_inverts_erased(self) {
    }

    proof fn erased_inverts_restored(v: Value) {
    }

    fn type_id() -> (r: TypeId) {
        TypeId::I32
    }

    fn to_component_ref(self) -> (r: Value) {
        Value::I32(self)
    }

    fn type_info(&self) -> (r: TypeInfo) {
        TypeInfo::with_layout_of::<i32>(TypeId::I32)
    }

    fn downcast_ref(v: &Value) -> (r: Option<&Self>) {
        match v {
            Value::I32(x) => Some(x),
            _ => None,
        }
    }

    fn downcast_mut(v: &mut Value) -> (r: Option<&mut Self>) {
        match v {
            Value::I32(x) => Some(x),
            _ => None,
        }
    }
}

impl Component for i64 {
    open spec fn spec_type_id() -> TypeId {
        TypeId::I64
    }

    open spec fn erased(self) -> Value {
        Value::I64(self)
    }

    proof fn erased_has_type(self) {
    }

    open spec fn restored(v: Value) -> Self {
        v->I64_0
    }

    proof fn restored_inverts_erased(self) {
    }

    proof fn erased_inverts_restored(v: Value) {
    }

    fn type_id() -> (r: TypeId) {
        TypeId::I64
    }

    fn to_component_ref(self) -> (r: Value) {
        Value::I64(self)
    }

    fn type_info(&self) -> (r: TypeInfo) {
        TypeInfo::with_layout_of::<i64>(TypeId::I64)
    }

    fn downcast_ref(v: &Value) -> (r: Option<&Self>) {
        match v {
            Value::I64(x) => Some(x),
            _ => None,
        }
    }

    fn downcast_mut(v: &mut Value) -> (r: Option<&mut Self>) {
        match v {
            Value::I64(x) => Some(x),
            _ => None,
        }
    }
}

impl Component for i128 {
    open spec fn spec_type_id() -> TypeId {
        TypeId::I128
    }

    open spec fn erased(self) -> Value {
        Value::I128(self)
    }

    proof fn erased_has_type(self) {
    }

    open spec fn restored(v: Value) -> Self {
        v->I128_0
    }

    proof fn restored_inverts_erased(self) {
    }

    proof fn erased_inverts_restored(v: Value) {
    }

    fn type_id() -> (r: TypeId) {
        TypeId::I128
    }

    fn to_component_ref(self) -> (r: Value) {
        Value::I128(self)
    }

    fn type_info(&self) -> (r: TypeInfo) {
        TypeInfo::with_layout_of::<i128>(TypeId::I128)
    }

    fn downcast_ref(v: &Value) -> (r: Option<&Self>) {
        match v {
            Value::I128(x) => Some(x),
            _ => None,
        }
    }

    fn downcast_mut(v: &mut Value) -> (r: Option<&mut Self>) {
        match v {
            Value::I128(x) => Some(x),
            _ => None,
        }
    }
}

impl Component for isize {
    open spec fn spec_type_id() -> TypeId {
        TypeId::Isize
    }

    open spec fn erased(self) -> Value {
        Value::Isize(self)
    }

    proof fn erased_has_type(self) {
    }

    open spec fn restored(v: Value) -> Self {
        v->Isize_0
    }

    proof fn restored_inverts_erased(self) {
    }

    proof fn erased_inverts_restored(v: Value) {
    }

    fn type_id() -> (r: TypeId) {
        TypeId::Isize
    }

    fn to_component_ref(self) -> (r: Value) {
        Value::Isize(self)
    }

    fn type_info(&self) -> (r: TypeInfo) {
        TypeInfo::with_layout_of::<isize>(TypeId::Isize)
    }

    fn downcast_ref(v: &Value) -> (r: Option<&Self>) {
        match v {
            Value::Isize(x) => Some(x),
            _ => None,
        }
    }

    fn downcast_mut(v: &mut Value) -> (r: Option<&mut Self>) {
        match v {
            Value::Isize(x) => Some(x),
            _ => None,
        }
    }
}

impl Component for u8 {
    open spec fn spec_type_id() -> TypeId {
        TypeId::U8
    }

    open spec fn erased(self) -> Value {
        Value::U8(self)
    }

    proof fn erased_has_type(self) {
    }

    open spec fn restored(v: Value) -> Self {
        v->U8_0
    }

    proof fn restored_inverts_erased(self) {
    }

    proof fn erased_inverts_restored(v: Value) {
    }

    fn type_id() -> (r: TypeId) {
        TypeId::U8
    }

    fn to_component_ref(self) -> (r: Value) {
        Value::U8(self)
    }

    fn type_info(&self) -> (r: TypeInfo) {
        TypeInfo::with_layout_of::<u8>(TypeId::U8)
    }

    fn downcast_ref(v: &Value) -> (r: Option<&Self>) {
        match v {
            Value::U8(x) => Some(x),
            _ => None,
        }
    }

    fn downcast_mut(v: &mut Value) -> (r: Option<&mut Self>) {
        match v {
            Value::U8(x) => Some(x),
            _ => None,
        }
    }
}

impl Component for u16 {
    open spec fn spec_type_id() -> TypeId {
        TypeId::U16
    }

    open spec fn erased(self) -> Value {
        Value::U16(self)
    }

    proof fn erased_has_type(self) {
    }

    open spec fn restored(v: Value) -> Self {
        v->U16_0
    }

    proof fn restored_inverts_erased(self) {
    }

    proof fn erased_inverts_restored(v: Value) {
    }

    fn type_id() -> (r: TypeId) {
        TypeId::U16
    }

    fn to_component_ref(self) -> (r: Value) {
        Value::U16(self)
    }

    fn type_info(&self) -> (r: TypeInfo) {
        TypeInfo::with_layout_of::<u16>(TypeId::U16)
    }

    fn downcast_ref(v: &Value) -> (r: Option<&Self>) {
        match v {
            Value::U16(x) => Some(x),
            _ => None,
        }
    }

    fn downcast_mut(v: &mut Value) -> (r: Option<&mut Self>) {
        match v {
            Value::U16(x) => Some(x),
            _ => None,
        }
    }
}

impl Component for u32 {
    open spec fn spec_type_id() -> TypeId {
        TypeId::U32
    }

    open spec fn erased(self) -> Value {
        Value::U32(self)
    }

    proof fn erased_has_type(self) {
    }

    open spec fn restored(v: Value) -> Self {
        v->U32_0
    }

    proof fn restored_inverts_erased(self) {
    }

    proof fn erased_inverts_restored(v: Value) {
    }

    fn type_id() -> (r: TypeId) {
        TypeId::U32
    }

    fn to_component_ref(self) -> (r: Value) {
        Value::U32(self)
    }

    fn type_info(&self) -> (r: TypeInfo) {
        TypeInfo::with_layout_of::<u32>(TypeId::U32)
    }

    fn downcast_ref(v: &Value) -> (r: Option<&Self>) {
        match v {
            Value::U32(x) => Some(x),
            _ => None,
        }
    }

    fn downcast_mut(v: &mut Value) -> (r: Option<&mut Self>) {
        match v {
            Value::U32(x) => Some(x),
            _ => None,
        }
    }
}

impl Component for u64 {
    open spec fn spec_type_id() -> TypeId {
        TypeId::U64
    }

    open spec fn erased(self) -> Value {
        Value::U64(self)
    }

    proof fn erased_has_type(self) {
    }

    open spec fn restored(v: Value) -> Self {
        v->U64_0
    }

    proof fn restored_inverts_erased(self) {
    }

    proof fn erased_inverts_restored(v: Value) {
    }

    fn type_id() -> (r: TypeId) {
        TypeId::U64
    }

    fn to_component_ref(self) -> (r: Value) {
        Value::U64(self)
    }

    fn type_info(&self) -> (r: TypeInfo) {
        TypeInfo::with_layout_of::<u64>(TypeId::U64)
    }

    fn downcast_ref(v: &Value) -> (r: Option<&Self>) {
        match v {
            Value::U64(x) => Some(x),
            _ => None,
        }
    }

    fn downcast_mut(v: &mut Value) -> (r: Option<&mut Self>) {
        match v {
            Value::U64(x) => Some(x),
            _ => None,
        }
    }
}

impl Component for u128 {
    open spec fn spec_type_id() -> TypeId {
        TypeId::U128
    }

    open spec fn erased(self) -> Value {
        Value::U128(self)
    }

    proof fn erased_has_type(self) {
    }

    open spec fn restored(v: Value) -> Self {
        v->U128_0
    }

    proof fn restored_inverts_erased(self) {
    }

    proof fn erased_inverts_restored(v: Value) {
    }

    fn type_id() -> (r: TypeId) {
        TypeId::U128
    }

    fn to_component_ref(self) -> (r: Value) {
        Value::U128(self)
    }

    fn type_info(&self) -> (r: TypeInfo) {
        TypeInfo::with_layout_of::<u128>(TypeId::U128)
    }

    fn downcast_ref(v: &Value) -> (r: Option<&Self>) {
        match v {
            Value::U128(x) => Some(x),
            _ => None,
        }
    }

    fn downcast_mut(v: &mut Value) -> (r: Option<&mut Self>) {
        match v {
            Value::U128(x) => Some(x),
            _ => None,
        }
    }
}

impl Component for usize {
    open spec fn spec_type_id() -> TypeId {
        TypeId::Usize
    }

    open spec fn erased(self) -> Value {
        Value::Usize(self)
    }

    proof fn erased_has_type(self) {
    }

    open spec fn restored(v: Value) -> Self {
        v->Usize_0
    }

    proof fn restored_inverts_erased(self) {
    }

    proof fn erased_inverts_restored(v: Value) {
    }

    fn type_id() -> (r: TypeId) {
        TypeId::Usize
    }

    fn to_component_ref(self) -> (r: Value) {
        Value::Usize(self)
    }

    fn type_info(&self) -> (r: TypeInfo) {
        TypeInfo::with_layout_of::<usize>(TypeId::Usize)
    }

    fn downcast_ref(v: &Value) -> (r: Option<&Self>) {
        match v {
            Value::Usize(x) => Some(x),
            _ => None,
        }
    }

    fn downcast_mut(v: &mut Value) -> (r: Option<&mut Self>) {
        match v {
            Value::Usize(x) => Some(x),
            _ => None,
        }
    }
}

impl Component for bool {
    open spec fn spec_type_id() -> TypeId {
        TypeId::Bool
    }

    open spec fn erased(self) -> Value {
        Value::Bool(self)
    }

    proof fn erased_has_type(self) {
    }

    open spec fn restored(v: Value) -> Self {
        v->Bool_0
    }

    proof fn restored_inverts_erased(self) {
    }

    proof fn erased_inverts_restored(v: Value) {
    }

    fn type_id() -> (r: TypeId) {
        TypeId::Bool
    }

    fn to_component_ref(self) -> (r: Value) {
        Value::Bool(self)
    }

    fn type_info(&self) -> (r: TypeInfo) {
        TypeInfo::with_layout_of::<bool>(TypeId::Bool)
    }

    fn downcast_ref(v: &Value) -> (r: Option<&Self>) {
        match v {
            Value::Bool(x) => Some(x),
            _ => None,
        }
    }

    fn downcast_mut(v: &mut Value) -> (r: Option<&mut Self>) {
        match v {
            Value::Bool(x) => Some(x),
            _ => None,
        }
    }
}

impl Component for char {
    open spec fn spec_type_id() -> TypeId {
        TypeId::Char
    }

    open spec fn erased(self) -> Value {
        Value::Char(self)
    }

    proof fn erased_has_type(self) {
    }

    open spec fn restored(v: Value) -> Self {
        v->Char_0
    }

    proof fn restored_inverts_erased(self) {
    }

    proof fn erased_inverts_restored(v: Value) {
    }

    fn type_id() -> (r: TypeId) {
        TypeId::Char
    }

    fn to_component_ref(self) -> (r: Value) {
        Value::Char(self)
    }

    fn type_info(&self) -> (r: TypeInfo) {
        TypeInfo::with_layout_of::<char>(TypeId::Char)
    }

    fn downcast_ref(v: &Value) -> (r: Option<&Self>) {
        match v {
            Value::Char(x) => Some(x),
            _ => None,
        }
    }

    fn downcast_mut(v: &mut Value) -> (r: Option<&mut Self>) {
        match v {
            Value::Char(x) => Some(x),
            _ => None,
        }
    }
}

impl Component for String {
    open spec fn spec_type_id() -> TypeId {
        TypeId::String
    }

    open spec fn erased(self) -> Value {
        Value::String(self)
    }

    proof fn erased_has_type(self) {
    }

    open spec fn restored(v: Value) -> Self {
        v->String_0
    }

    proof fn restored_inverts_erased(self) {
    }

    proof fn erased_inverts_restored(v: Value) {
    }

    fn type_id() -> (r: TypeId) {
        TypeId::String
    }

    fn to_component_ref(self) -> (r: Value) {
        Value::String(self)
    }

    fn type_info(&self) -> (r: TypeInfo) {
        TypeInfo::with_layout_of::<String>(TypeId::String)
    }

    fn downcast_ref(v: &Value) -> (r: Option<&Self>) {
        match v {
            Value::String(x) => Some(x),
            _ => None,
        }
    }

    fn downcast_mut(v: &mut Value) -> (r: Option<&mut Self>) {
        match v {
            Value::String(x) => Some(x),
            _ => None,
        }
    }
}

impl Component for &'static str {
    open spec fn spec_type_id() -> TypeId {
        TypeId::Str
    }

    open spec fn erased(self) -> Value {
        Value::Str(self)
    }

    proof fn erased_has_type(self) {
    }

    open spec fn restored(v: Value) -> Self {
        v->Str_0
    }

    proof fn restored_inverts_erased(self) {
    }

    proof fn erased_inverts_restored(v: Value) {
    }

    fn type_id() -> (r: TypeId) {
        TypeId::Str
    }

    fn to_component_ref(self) -> (r: Value) {
        Value::Str(self)
    }

    fn type_info(&self) -> (r: TypeInfo) {
        TypeInfo::with_layout_of::<&'static str>(TypeId::Str)
    }

    fn downcast_ref(v: &Value) -> (r: Option<&Self>) {
        match v {
            Value::Str(x) => Some(x),
            _ => None,
        }
    }

    fn downcast_mut(v: &mut Value) -> (r: Option<&mut Self>) {
        match v {
            Value::Str(x) => Some(x),
            _ => None,
        }
    }
}

} // verus!
