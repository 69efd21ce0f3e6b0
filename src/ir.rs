//! The declaration graph handed over by a front end: items with stable ids,
//! their types, layouts and special members.  Items refer to one another by
//! id, never by ownership.
use vstd::prelude::*;

verus! {

#[derive(Clone, Copy, Debug, PartialEq, Eq, Structural)]
pub enum AccessSpecifier {
    Public,
    Protected,
    Private,
}

/// How a special member function is defined.
#[derive(Clone, Copy, Debug, PartialEq, Eq, Structural)]
pub enum SpecialMemberDefinition {
    Trivial,
    NontrivialUserDefined,
    Deleted,
}

#[derive(Clone, Copy, Debug, PartialEq, Eq, Structural)]
pub struct SpecialMemberFunc {
    pub definition: SpecialMemberDefinition,
    pub access: AccessSpecifier,
}

#[derive(Clone, Copy, Debug, PartialEq, Eq, Structural)]
pub enum ReferenceQualification {
    Unqualified,
    LValue,
    RValue,
}

#[derive(Clone, Copy, Debug, PartialEq, Eq, Structural)]
pub struct InstanceMethodMetadata {
    pub reference: ReferenceQualification,
    pub is_const: bool,
    pub is_virtual: bool,
    pub is_explicit_ctor: bool,
}

/// Present on member functions: the owning record and, for non-static
/// members, how the implicit receiver is qualified.
#[derive(Clone, Copy, Debug, PartialEq, Eq, Structural)]
pub struct MemberFuncMetadata {
    pub record_id: u64,
    pub instance_method_metadata: Option<InstanceMethodMetadata>,
}

#[derive(Clone, Debug)]
pub enum UnqualifiedIdentifier {
    Identifier(String),
    Constructor,
    Destructor,
    Operator(String),
}

#[derive(Clone, Debug)]
pub struct SourceLoc {
    pub filename: String,
    pub line: u64,
    pub column: u64,
}

/// The builtin arithmetic types of the source language, as the front end
/// resolved them (a fixed-width alias from the standard library is reported
/// as the fixed-width type it names).
#[derive(Clone, Copy, Debug, PartialEq, Eq, Structural)]
pub enum CcBuiltin {
    Bool,
    Char,
    SignedChar,
    UnsignedChar,
    Char16,
    Char32,
    WChar,
    Short,
    Int,
    Long,
    LongLong,
    UnsignedShort,
    UnsignedInt,
    UnsignedLong,
    UnsignedLongLong,
    Int8,
    Int16,
    Int32,
    Int64,
    UInt8,
    UInt16,
    UInt32,
    UInt64,
    PtrDiff,
    Size,
    IntPtr,
    UIntPtr,
    Float,
    Double,
}

/// A type occurrence in the source language.  A user-defined type (record,
/// enum or type alias) is named by its declaration id.
#[derive(Debug)]
pub enum CcType {
    Void,
    Builtin(CcBuiltin),
    Decl(u64),
    Pointer { pointee: Box<CcType>, is_const: bool },
    LValueRef { pointee: Box<CcType>, is_const: bool },
    RValueRef { pointee: Box<CcType>, is_const: bool },
    Volatile(Box<CcType>),
}

#[derive(Debug)]
pub struct FuncParam {
    pub identifier: String,
    pub type_: CcType,
}

#[derive(Debug)]
pub struct Func {
    pub name: UnqualifiedIdentifier,
    pub owning_target: String,
    pub mangled_name: String,
    pub doc_comment: Option<String>,
    pub return_type: CcType,
    /// For a non-static member the first parameter is the receiver.
    pub params: Vec<FuncParam>,
    pub is_inline: bool,
    pub member_func_metadata: Option<MemberFuncMetadata>,
    /// The declaration asks for reference lifetimes to be elided.
    pub has_lifetime_elision: bool,
    pub enclosing_namespace_id: Option<u64>,
    pub source_loc: SourceLoc,
}

/// A data member, with the offset, size and alignment in bytes that the
/// front end computed.
#[derive(Debug)]
pub struct Field {
    pub identifier: String,
    pub type_: CcType,
    pub access: AccessSpecifier,
    pub offset: u64,
    pub size: u64,
    pub alignment: u64,
}

#[derive(Debug)]
pub struct Record {
    pub id: u64,
    pub identifier: String,
    pub owning_target: String,
    pub doc_comment: Option<String>,
    /// In declaration order.
    pub fields: Vec<Field>,
    pub default_constructor: Option<SpecialMemberFunc>,
    pub copy_constructor: Option<SpecialMemberFunc>,
    pub move_constructor: Option<SpecialMemberFunc>,
    pub destructor: Option<SpecialMemberFunc>,
    pub size: u64,
    pub alignment: u64,
    pub is_trivial_abi: bool,
    /// The record may be derived from (it is not final).
    pub is_inheritable: bool,
    pub override_alignment: bool,
    pub enclosing_namespace_id: Option<u64>,
    pub source_loc: SourceLoc,
}

#[derive(Clone, Debug)]
pub struct Enumerator {
    pub identifier: String,
    pub value: i128,
}

#[derive(Debug)]
pub struct Enum {
    pub id: u64,
    pub identifier: String,
    pub owning_target: String,
    pub underlying_type: CcType,
    pub enumerators: Vec<Enumerator>,
    pub enclosing_namespace_id: Option<u64>,
    pub source_loc: SourceLoc,
}

#[derive(Debug)]
pub struct TypeAlias {
    pub id: u64,
    pub identifier: String,
    pub owning_target: String,
    pub underlying_type: CcType,
    pub enclosing_namespace_id: Option<u64>,
    pub source_loc: SourceLoc,
}

#[derive(Clone, Debug)]
pub struct Namespace {
    pub id: u64,
    pub name: String,
    pub owning_target: String,
    pub enclosing_namespace_id: Option<u64>,
    pub source_loc: SourceLoc,
}

/// A declaration the front end could not import, with its reason.  It keeps
/// its id when it had one, so that users of it can be found.
#[derive(Clone, Debug)]
pub struct UnsupportedItem {
    pub id: Option<u64>,
    pub name: String,
    pub message: String,
    pub owning_target: String,
    pub source_loc: SourceLoc,
}

#[derive(Debug)]
pub enum Item {
    Func(Func),
    Record(Record),
    Enum(Enum),
    TypeAlias(TypeAlias),
    Namespace(Namespace),
    UnsupportedItem(UnsupportedItem),
}

/// The whole declaration graph of one run, and the target whose bindings
/// are generated.
#[derive(Debug)]
pub struct IR {
    pub items: Vec<Item>,
    pub current_target: String,
}

/// The declaration id an item carries, if any.
pub open spec fn spec_item_id(item: Item) -> Option<u64> {
    match item {
        Item::Func(_) => None,
        Item::Record(r) => Some(r.id),
        Item::Enum(e) => Some(e.id),
        Item::TypeAlias(a) => Some(a.id),
        Item::Namespace(n) => Some(n.id),
        Item::UnsupportedItem(u) => u.id,
    }
}

pub fn item_id(item: &Item) -> (r: Option<u64>)
    ensures
        r == spec_item_id(*item),
{
    match item {
        Item::Func(_) => None,
        Item::Record(r) => Some(r.id),
        Item::Enum(e) => Some(e.id),
        Item::TypeAlias(a) => Some(a.id),
        Item::Namespace(n) => Some(n.id),
        Item::UnsupportedItem(u) => u.id,
    }
}

/// The first item of `items` whose id is `id`.
pub open spec fn is_first_with_id(items: Seq<Item>, id: u64, i: int) -> bool {
    &&& 0 <= i < items.len()
    &&& spec_item_id(items[i]) == Some(id)
    &&& forall|k: int| 0 <= k < i ==> spec_item_id(#[trigger] items[k]) != Some(id)
}

/// Looks an id up in the item arena.
pub fn find_decl(items: &Vec<Item>, id: u64) -> (r: Option<usize>)
    ensures
        r matches Some(i) ==> is_first_with_id(items@, id, i as int),
        r is None ==> forall|k: int| 0 <= k < items@.len() ==> spec_item_id(#[trigger] items@[k]) != Some(id),
{
    let mut k: usize = 0;
    while k < items.len()
        invariant
            k <= items@.len(),
            forall|j: int| 0 <= j < k ==> spec_item_id(#[trigger] items@[j]) != Some(id),
        decreases items.len() - k,
    {
        if item_id(&items[k]) == Some(id) {
            return Some(k);
        }
        k = k + 1;
    }
    None
}

} // verus!
