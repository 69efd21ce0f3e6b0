//! Layout assertions, System V ABI classification, and what a record's
//! special members allow on the destination side.
use vstd::prelude::*;
use crate::ir::{AccessSpecifier, CcType, Field, Record, SpecialMemberDefinition, SpecialMemberFunc};
use crate::type_mapper::{builtin_prim, map_builtin, prim_size, RsPrim};

verus! {

/// One compile-time check emitted beside a record's binding.
#[derive(Clone, Copy, Debug, PartialEq, Eq, Structural)]
pub enum LayoutAssertion {
    Size(u64),
    Alignment(u64),
    FieldOffset { field: usize, offset: u64 },
}

/// The assertions for `r`: its size, its alignment, then the offset of every
/// field in declaration order, private ones included, all as the front end
/// computed them.
pub open spec fn spec_layout_assertions(r: Record) -> Seq<LayoutAssertion> {
    seq![LayoutAssertion::Size(r.size), LayoutAssertion::Alignment(r.alignment)] + Seq::new(
        r.fields@.len(),
        |i: int| LayoutAssertion::FieldOffset { field: i as usize, offset: r.fields@[i].offset },
    )
}

pub fn layout_assertions(r: &Record) -> (a: Vec<LayoutAssertion>)
    ensures
        a@ == spec_layout_assertions(*r),
{
    let mut a: Vec<LayoutAssertion> = Vec::new();
    a.push(LayoutAssertion::Size(r.size));
    a.push(LayoutAssertion::Alignment(r.alignment));
    let mut i: usize = 0;
    while i < r.fields.len()
        invariant
            i <= r.fields@.len(),
            a@ == seq![LayoutAssertion::Size(r.size), LayoutAssertion::Alignment(r.alignment)] + Seq::new(
                i as nat,
                |k: int| LayoutAssertion::FieldOffset { field: k as usize, offset: r.fields@[k].offset },
            ),
        decreases r.fields.len() - i,
    {
        a.push(LayoutAssertion::FieldOffset { field: i, offset: r.fields[i].offset });
        i = i + 1;
        assert(a@ =~= seq![LayoutAssertion::Size(r.size), LayoutAssertion::Alignment(r.alignment)] + Seq::new(
            i as nat,
            |k: int| LayoutAssertion::FieldOffset { field: k as usize, offset: r.fields@[k].offset },
        ));
    }
    a
}

/// The class of one eightbyte in the System V x86-64 calling convention.
#[derive(Clone, Copy, Debug, PartialEq, Eq, Structural)]
pub enum RegClass {
    NoClass,
    Integer,
    Sse,
}

/// How a value of a record type is passed: in memory, or in registers of
/// the classes of its (at most two) eightbytes.
#[derive(Clone, Copy, Debug, PartialEq, Eq, Structural)]
pub enum AbiClass {
    Memory,
    Registers(RegClass, RegClass),
}

/// A run of bytes of one class: a scalar field (aligned to its size) or a
/// piece of opaque storage standing for a non-public field.
#[derive(Clone, Copy, Debug, PartialEq, Eq, Structural)]
pub struct Leaf {
    pub offset: u64,
    pub size: u64,
    pub align: u64,
    pub class: RegClass,
}

pub open spec fn leaf_wf(l: Leaf) -> bool {
    &&& l.size >= 1
    &&& l.align >= 1
    &&& l.offset + l.size <= u64::MAX
}

pub open spec fn leaves_wf(ls: Seq<Leaf>) -> bool {
    forall|k: int| 0 <= k < ls.len() ==> leaf_wf(#[trigger] ls[k])
}

pub open spec fn merge_class(a: RegClass, b: RegClass) -> RegClass {
    if a == RegClass::NoClass {
        b
    } else if b == RegClass::NoClass {
        a
    } else if a == RegClass::Integer || b == RegClass::Integer {
        RegClass::Integer
    } else {
        RegClass::Sse
    }
}

/// The leaf has bytes in eightbyte `e`.
pub open spec fn touches(l: Leaf, e: int) -> bool {
    l.offset / 8 <= e && e <= (l.offset + l.size - 1) / 8
}

/// The class of eightbyte `e`: the merge of the classes of the leaves that
/// have bytes in it.
pub open spec fn eightbyte_class(ls: Seq<Leaf>, e: int) -> RegClass
    decreases ls.len(),
{
    if ls.len() == 0 {
        RegClass::NoClass
    } else {
        merge_class(
            eightbyte_class(ls.drop_last(), e),
            if touches(ls.last(), e) {
                ls.last().class
            } else {
                RegClass::NoClass
            },
        )
    }
}

pub open spec fn has_misaligned(ls: Seq<Leaf>) -> bool {
    exists|k: int| 0 <= k < ls.len() && (#[trigger] ls[k]).offset % ls[k].align != 0
}

/// A record larger than two eightbytes, or with a misaligned member, is
/// passed in memory; otherwise in registers by the class of each eightbyte.
pub open spec fn classify(ls: Seq<Leaf>, size: u64) -> AbiClass {
    if size > 16 || has_misaligned(ls) {
        AbiClass::Memory
    } else {
        AbiClass::Registers(eightbyte_class(ls, 0), eightbyte_class(ls, 1))
    }
}

fn merge(a: RegClass, b: RegClass) -> (r: RegClass)
    ensures
        r == merge_class(a, b),
{
    if a == RegClass::NoClass {
        b
    } else if b == RegClass::NoClass {
        a
    } else if a == RegClass::Integer || b == RegClass::Integer {
        RegClass::Integer
    } else {
        RegClass::Sse
    }
}

pub fn classify_leaves(ls: &Vec<Leaf>, size: u64) -> (r: AbiClass)
    requires
        leaves_wf(ls@),
    ensures
        r == classify(ls@, size),
{
    let mut low = RegClass::NoClass;
    let mut high = RegClass::NoClass;
    let mut misaligned = false;
    let mut k: usize = 0;
    while k < ls.len()
        invariant
            leaves_wf(ls@),
            k <= ls@.len(),
            low == eightbyte_class(ls@.subrange(0, k as int), 0),
            high == eightbyte_class(ls@.subrange(0, k as int), 1),
            misaligned == has_misaligned(ls@.subrange(0, k as int)),
        decreases ls.len() - k,
    {
        let l = ls[k];
        assert(leaf_wf(l));
        let first = l.offset / 8;
        let last = (l.offset + l.size - 1) / 8;
        let ghost prev = ls@.subrange(0, k as int);
        let ghost next = ls@.subrange(0, k + 1);
        assert(next.drop_last() =~= prev);
        assert(next.last() == l);
        low = merge(low, if first <= 0 && 0 <= last { l.class } else { RegClass::NoClass });
        high = merge(high, if first <= 1 && 1 <= last { l.class } else { RegClass::NoClass });
        if l.offset % l.align != 0 {
            misaligned = true;
            assert(next[k as int] == l);
        } else {
            assert forall|j: int| 0 <= j < next.len() implies (#[trigger] next[j]).offset % next[j].align == 0 || has_misaligned(prev) by {
                if j < k {
                    assert(next[j] == prev[j]);
                }
            }
            proof {
                if has_misaligned(next) {
                    let j = choose|j: int| 0 <= j < next.len() && (#[trigger] next[j]).offset % next[j].align != 0;
                    if j < k {
                        assert(next[j] == prev[j]);
                    }
                }
            }
        }
        k = k + 1;
    }
    assert(ls@.subrange(0, ls@.len() as int) =~= ls@);
    if size > 16 || misaligned {
        AbiClass::Memory
    } else {
        AbiClass::Registers(low, high)
    }
}

pub open spec fn prim_class(p: RsPrim) -> RegClass {
    if p == RsPrim::F32 || p == RsPrim::F64 {
        RegClass::Sse
    } else {
        RegClass::Integer
    }
}

/// The leaf of a field of scalar type: a builtin, or a pointer or reference
/// (eight bytes, integer class).  Fields of other types have none here.
pub open spec fn field_leaf(f: Field) -> Option<Leaf> {
    match f.type_ {
        CcType::Builtin(b) => Some(
            Leaf {
                offset: f.offset,
                size: prim_size(builtin_prim(b)),
                align: prim_size(builtin_prim(b)),
                class: prim_class(builtin_prim(b)),
            },
        ),
        CcType::Pointer { .. } | CcType::LValueRef { .. } | CcType::RValueRef { .. } => Some(
            Leaf { offset: f.offset, size: 8, align: 8, class: RegClass::Integer },
        ),
        _ => None,
    }
}

/// A field as it is represented on the destination side: public fields
/// keep their type; other fields become opaque storage of the field's size
/// at the same offset, which keeps the alignment and the class of the
/// field's own type (integer, SSE), so that a misaligned field stays
/// misaligned.
pub open spec fn folded_leaf(f: Field) -> Option<Leaf> {
    if f.access == AccessSpecifier::Public {
        field_leaf(f)
    } else if f.size == 0 {
        None
    } else {
        match field_leaf(f) {
            Some(l) => Some(Leaf { offset: f.offset, size: f.size, align: l.align, class: l.class }),
            None => None,
        }
    }
}

pub open spec fn field_fits(f: Field) -> bool {
    f.offset + 8 <= u64::MAX && f.offset + f.size <= u64::MAX
}

/// The leaves of all fields, or `None` when a field has no scalar leaf.
pub open spec fn true_leaves(fs: Seq<Field>) -> Option<Seq<Leaf>>
    decreases fs.len(),
{
    if fs.len() == 0 {
        Some(Seq::empty())
    } else {
        match (true_leaves(fs.drop_last()), field_leaf(fs.last())) {
            (Some(ls), Some(l)) => Some(ls.push(l)),
            _ => None,
        }
    }
}

/// The leaves once non-public fields are folded into opaque storage, or
/// `None` when a public field has no scalar leaf.
pub open spec fn folded_leaves(fs: Seq<Field>) -> Option<Seq<Leaf>>
    decreases fs.len(),
{
    if fs.len() == 0 {
        Some(Seq::empty())
    } else {
        let rest = folded_leaves(fs.drop_last());
        let f = fs.last();
        if f.access != AccessSpecifier::Public && f.size == 0 {
            rest
        } else {
            match (rest, folded_leaf(f)) {
                (Some(ls), Some(l)) => Some(ls.push(l)),
                _ => None,
            }
        }
    }
}

pub open spec fn record_fits(r: Record) -> bool {
    forall|k: int| 0 <= k < r.fields@.len() ==> field_fits(#[trigger] r.fields@[k])
}

/// The classification of `r` as declared, when every field is a scalar.
pub open spec fn true_abi_class(r: Record) -> Option<AbiClass> {
    match true_leaves(r.fields@) {
        Some(ls) => Some(classify(ls, r.size)),
        None => None,
    }
}

/// The classification of `r` with its non-public fields folded into
/// opaque storage.
pub open spec fn folded_abi_class(r: Record) -> Option<AbiClass> {
    match folded_leaves(r.fields@) {
        Some(ls) => Some(classify(ls, r.size)),
        None => None,
    }
}

/// Folding is safe exactly when both classifications are known and agree.
pub open spec fn folding_preserves_abi(r: Record) -> bool {
    true_abi_class(r) is Some && true_abi_class(r) == folded_abi_class(r)
}

fn leaf_of_field(f: &Field) -> (l: Option<Leaf>)
    requires
        field_fits(*f),
    ensures
        l == field_leaf(*f),
        l matches Some(x) ==> leaf_wf(x),
{
    match &f.type_ {
        CcType::Builtin(b) => {
            let p = map_builtin(*b);
            let size: u64 = match p {
                RsPrim::Bool | RsPrim::I8 | RsPrim::U8 => 1,
                RsPrim::I16 | RsPrim::U16 => 2,
                RsPrim::I32 | RsPrim::U32 | RsPrim::F32 => 4,
                RsPrim::I64 | RsPrim::U64 | RsPrim::Isize | RsPrim::Usize | RsPrim::F64 => 8,
            };
            let class = if p == RsPrim::F32 || p == RsPrim::F64 {
                RegClass::Sse
            } else {
                RegClass::Integer
            };
            Some(Leaf { offset: f.offset, size, align: size, class })
        },
        CcType::Pointer { .. } | CcType::LValueRef { .. } | CcType::RValueRef { .. } => Some(
            Leaf { offset: f.offset, size: 8, align: 8, class: RegClass::Integer },
        ),
        _ => None,
    }
}

pub open spec fn leaves_view(r: Option<Vec<Leaf>>) -> Option<Seq<Leaf>> {
    match r {
        Some(v) => Some(v@),
        None => None,
    }
}

/// Collects the leaves of `fields`, folded or as declared.
fn collect_leaves(fields: &Vec<Field>, folded: bool) -> (r: Option<Vec<Leaf>>)
    requires
        forall|k: int| 0 <= k < fields@.len() ==> field_fits(#[trigger] fields@[k]),
    ensures
        r matches Some(v) ==> leaves_wf(v@),
        folded ==> leaves_view(r) == folded_leaves(fields@),
        !folded ==> leaves_view(r) == true_leaves(fields@),
{
    let mut out: Vec<Leaf> = Vec::new();
    let mut i: usize = 0;
    while i < fields.len()
        invariant
            i <= fields@.len(),
            forall|k: int| 0 <= k < fields@.len() ==> field_fits(#[trigger] fields@[k]),
            leaves_wf(out@),
            folded ==> folded_leaves(fields@.subrange(0, i as int)) == Some(out@),
            !folded ==> true_leaves(fields@.subrange(0, i as int)) == Some(out@),
        decreases fields.len() - i,
    {
        let f = &fields[i];
        let ghost prev = fields@.subrange(0, i as int);
        let ghost next = fields@.subrange(0, i + 1);
        assert(next.drop_last() =~= prev);
        assert(next.last() == *f);
        assert(field_fits(*f));
        let public = match f.access {
            AccessSpecifier::Public => true,
            _ => false,
        };
        if folded && !public {
            if f.size != 0 {
                match leaf_of_field(f) {
                    Some(l) => {
                        out.push(Leaf { offset: f.offset, size: f.size, align: l.align, class: l.class });
                    },
                    None => {
                        proof {
                            lemma_leaves_none_extends(fields@, i as int + 1, folded);
                            assert(fields@.subrange(0, fields@.len() as int) =~= fields@);
                        }
                        return None;
                    },
                }
            }
        } else {
            match leaf_of_field(f) {
                Some(l) => {
                    out.push(l);
                },
                None => {
                    proof {
                        lemma_leaves_none_extends(fields@, i as int + 1, folded);
                        assert(fields@.subrange(0, fields@.len() as int) =~= fields@);
                    }
                    return None;
                },
            }
        }
        assert forall|k: int| 0 <= k < out@.len() implies leaf_wf(#[trigger] out@[k]) by {}
        i = i + 1;
    }
    assert(fields@.subrange(0, fields@.len() as int) =~= fields@);
    Some(out)
}

/// Once a prefix has no leaves, no longer prefix has any.
proof fn lemma_leaves_none_extends(fs: Seq<Field>, i: int, folded: bool)
    requires
        0 <= i <= fs.len(),
        folded ==> folded_leaves(fs.subrange(0, i)) is None,
        !folded ==> true_leaves(fs.subrange(0, i)) is None,
    ensures
        folded ==> folded_leaves(fs.subrange(0, fs.len() as int)) is None,
        !folded ==> true_leaves(fs.subrange(0, fs.len() as int)) is None,
    decreases fs.len() - i,
{
    if i < fs.len() {
        assert(fs.subrange(0, i + 1).drop_last() =~= fs.subrange(0, i));
        lemma_leaves_none_extends(fs, i + 1, folded);
    }
}

pub fn abi_class_as_declared(r: &Record) -> (c: Option<AbiClass>)
    requires
        record_fits(*r),
    ensures
        c == true_abi_class(*r),
{
    match collect_leaves(&r.fields, false) {
        Some(ls) => Some(classify_leaves(&ls, r.size)),
        None => None,
    }
}

pub fn abi_class_folded(r: &Record) -> (c: Option<AbiClass>)
    requires
        record_fits(*r),
    ensures
        c == folded_abi_class(*r),
{
    match collect_leaves(&r.fields, true) {
        Some(ls) => Some(classify_leaves(&ls, r.size)),
        None => None,
    }
}

/// Whether replacing the non-public fields of `r` by opaque storage keeps the
/// way values of `r` are passed; this is checked, never assumed.
pub fn check_folding_preserves_abi(r: &Record) -> (ok: bool)
    requires
        record_fits(*r),
    ensures
        ok == folding_preserves_abi(*r),
{
    let declared = abi_class_as_declared(r);
    let folded = abi_class_folded(r);
    match (declared, folded) {
        (Some(a), Some(b)) => a == b,
        _ => false,
    }
}

/// Every field has a scalar type whose size the front end reports as the
/// field's size.
pub open spec fn scalar_fields(fs: Seq<Field>) -> bool {
    forall|k: int|
        0 <= k < fs.len() ==> (#[trigger] field_leaf(fs[k])) is Some && fs[k].size == field_leaf(fs[k])->0.size
}

proof fn lemma_folded_leaves_same(fs: Seq<Field>)
    requires
        scalar_fields(fs),
    ensures
        folded_leaves(fs) == true_leaves(fs),
    decreases fs.len(),
{
    if fs.len() > 0 {
        let rest = fs.drop_last();
        assert forall|k: int| 0 <= k < rest.len() implies (#[trigger] field_leaf(rest[k])) is Some && rest[k].size == field_leaf(rest[k])->0.size by {
            assert(rest[k] == fs[k]);
        }
        lemma_folded_leaves_same(rest);
        let f = fs.last();
        assert(field_leaf(fs[fs.len() - 1]) is Some);
        assert(folded_leaf(f) == field_leaf(f));
    }
}

/// Folding non-public fields into opaque storage keeps the class of every
/// record whose fields are scalars of their reported size: integer, SSE and
/// memory alike.
pub proof fn lemma_folding_keeps_class(r: Record)
    requires
        scalar_fields(r.fields@),
    ensures
        true_abi_class(r) is Some,
        folded_abi_class(r) == true_abi_class(r),
{
    lemma_folded_leaves_same(r.fields@);
    lemma_true_leaves_some(r.fields@);
}

proof fn lemma_true_leaves_some(fs: Seq<Field>)
    requires
        scalar_fields(fs),
    ensures
        true_leaves(fs) is Some,
    decreases fs.len(),
{
    if fs.len() > 0 {
        let rest = fs.drop_last();
        assert forall|k: int| 0 <= k < rest.len() implies (#[trigger] field_leaf(rest[k])) is Some && rest[k].size == field_leaf(rest[k])->0.size by {
            assert(rest[k] == fs[k]);
        }
        lemma_true_leaves_some(rest);
        assert(field_leaf(fs[fs.len() - 1]) is Some);
    }
}

} // verus!
