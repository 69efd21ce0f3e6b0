//! Lifetime elision: synthetic lifetimes for the elided references of a
//! function signature.
use vstd::prelude::*;
use crate::ir::{CcType, FuncParam};

verus! {

#[derive(Clone, Copy, Debug, PartialEq, Eq, Structural)]
pub enum ElisionError {
    /// A reference is returned and there is no single reference to borrow
    /// its lifetime from.
    AmbiguousReturn,
    /// The receiver of a member function has no lifetime to be bound with.
    ReceiverWithoutLifetime,
    /// A constructor whose receiver has no lifetime cannot be bound safely.
    UnsafeConstructor,
}

/// The lifetimes of one signature: the ids introduced, in order, and the
/// lifetime of each parameter's and of the return's top-level reference.
#[derive(Debug)]
pub struct ElidedLifetimes {
    pub lifetime_params: Vec<u64>,
    pub param_lifetimes: Vec<Option<u64>>,
    pub return_lifetime: Option<u64>,
}

pub open spec fn is_reference(t: CcType) -> bool {
    t is LValueRef || t is RValueRef
}

pub open spec fn param_types(params: Seq<FuncParam>) -> Seq<CcType> {
    params.map_values(|p: FuncParam| p.type_)
}

/// How many of the first `k` types are references.
pub open spec fn refs_before(ts: Seq<CcType>, k: int) -> nat
    decreases k,
{
    if k <= 0 {
        0
    } else {
        refs_before(ts, k - 1) + if is_reference(ts[k - 1]) {
            1nat
        } else {
            0nat
        }
    }
}

/// Each reference parameter gets a fresh lifetime, numbered left to right.
pub open spec fn param_lifetime(ts: Seq<CcType>, i: int) -> Option<u64> {
    if is_reference(ts[i]) {
        Some(refs_before(ts, i) as u64)
    } else {
        None
    }
}

/// A returned reference borrows from the only reference parameter besides
/// the receiver when there is exactly one such parameter (the second
/// lifetime); otherwise from the receiver when there is one, and otherwise
/// from the only reference parameter (either way the first lifetime).
pub open spec fn return_lifetime(ts: Seq<CcType>, ret: CcType, has_receiver: bool) -> Option<u64> {
    if !is_reference(ret) {
        None
    } else if receiver_is_reference(ts, has_receiver) && refs_before(ts, ts.len() as int) == 2 {
        Some(1)
    } else {
        Some(0)
    }
}

pub open spec fn receiver_is_reference(ts: Seq<CcType>, has_receiver: bool) -> bool {
    has_receiver && ts.len() > 0 && is_reference(ts[0])
}

/// Why elision fails, if it does.  Without the elision directive no
/// reference gets a lifetime: a constructor or another member function
/// (whose receiver would need one) is then refused, and references of a
/// free function stay unbound.
pub open spec fn elision_failure(
    ts: Seq<CcType>,
    ret: CcType,
    has_receiver: bool,
    is_constructor: bool,
    elision_enabled: bool,
) -> Option<ElisionError> {
    if !elision_enabled {
        if is_constructor {
            Some(ElisionError::UnsafeConstructor)
        } else if has_receiver {
            Some(ElisionError::ReceiverWithoutLifetime)
        } else {
            None
        }
    } else if is_reference(ret) && !receiver_is_reference(ts, has_receiver)
        && refs_before(ts, ts.len() as int) != 1 {
        Some(ElisionError::AmbiguousReturn)
    } else {
        None
    }
}

proof fn lemma_refs_before_monotone(ts: Seq<CcType>, i: int, j: int)
    requires
        0 <= i <= j <= ts.len(),
    ensures
        refs_before(ts, i) <= refs_before(ts, j),
        refs_before(ts, j) <= j,
    decreases j,
{
    if j > 0 {
        if i < j {
            lemma_refs_before_monotone(ts, i, j - 1);
        } else {
            lemma_refs_before_monotone(ts, i - 1, j - 1);
        }
    }
}

/// Assigns lifetimes to the elided references of a signature whose
/// parameters are `params` (the receiver first, when `has_receiver`).
pub fn elide_lifetimes(
    params: &Vec<FuncParam>,
    ret: &CcType,
    has_receiver: bool,
    is_constructor: bool,
    elision_enabled: bool,
) -> (r: Result<ElidedLifetimes, ElisionError>)
    ensures
        ({
            let ts = param_types(params@);
            match r {
                Err(e) => elision_failure(ts, *ret, has_receiver, is_constructor, elision_enabled)
                    == Some(e),
                Ok(l) => {
                    &&& elision_failure(ts, *ret, has_receiver, is_constructor, elision_enabled)
                        is None
                    &&& if elision_enabled {
                        &&& l.lifetime_params@ == Seq::new(
                            refs_before(ts, ts.len() as int),
                            |k: int| k as u64,
                        )
                        &&& l.param_lifetimes@ == Seq::new(ts.len(), |i: int| param_lifetime(ts, i))
                        &&& l.return_lifetime == return_lifetime(ts, *ret, has_receiver)
                    } else {
                        &&& l.lifetime_params@.len() == 0
                        &&& l.param_lifetimes@ == Seq::new(ts.len(), |i: int| None::<u64>)
                        &&& l.return_lifetime is None
                    }
                },
            }
        }),
{
    let ghost ts = param_types(params@);
    if !elision_enabled {
        if is_constructor {
            return Err(ElisionError::UnsafeConstructor);
        } else if has_receiver {
            return Err(ElisionError::ReceiverWithoutLifetime);
        }
        let mut none: Vec<Option<u64>> = Vec::new();
        let mut i: usize = 0;
        while i < params.len()
            invariant
                i <= params@.len(),
                none@ == Seq::new(i as nat, |k: int| None::<u64>),
            decreases params.len() - i,
        {
            none.push(None);
            i = i + 1;
            assert(none@ =~= Seq::new(i as nat, |k: int| None::<u64>));
        }
        return Ok(ElidedLifetimes { lifetime_params: Vec::new(), param_lifetimes: none, return_lifetime: None });
    }
    let mut lifetime_params: Vec<u64> = Vec::new();
    let mut param_lifetimes: Vec<Option<u64>> = Vec::new();
    let mut next: u64 = 0;
    let mut i: usize = 0;
    while i < params.len()
        invariant
            ts == param_types(params@),
            i <= params@.len(),
            next == refs_before(ts, i as int),
            lifetime_params@ == Seq::new(next as nat, |k: int| k as u64),
            param_lifetimes@ == Seq::new(i as nat, |k: int| param_lifetime(ts, k)),
        decreases params.len() - i,
    {
        proof {
            lemma_refs_before_monotone(ts, i as int, i as int);
        }
        let is_ref = match &params[i].type_ {
            CcType::LValueRef { .. } => true,
            CcType::RValueRef { .. } => true,
            _ => false,
        };
        assert(is_ref == is_reference(ts[i as int]));
        if is_ref {
            param_lifetimes.push(Some(next));
            lifetime_params.push(next);
            next = next + 1;
        } else {
            param_lifetimes.push(None);
        }
        i = i + 1;
        assert(lifetime_params@ =~= Seq::new(next as nat, |k: int| k as u64));
        assert(param_lifetimes@ =~= Seq::new(i as nat, |k: int| param_lifetime(ts, k)));
    }
    let returns_ref = match ret {
        CcType::LValueRef { .. } => true,
        CcType::RValueRef { .. } => true,
        _ => false,
    };
    let receiver_is_ref = has_receiver && params.len() > 0 && match &params[0].type_ {
        CcType::LValueRef { .. } => true,
        CcType::RValueRef { .. } => true,
        _ => false,
    };
    if returns_ref && !receiver_is_ref && next != 1 {
        return Err(ElisionError::AmbiguousReturn);
    }
    let return_lifetime = if !returns_ref {
        None
    } else if receiver_is_ref && next == 2 {
        Some(1)
    } else {
        Some(0)
    };
    Ok(ElidedLifetimes { lifetime_params, param_lifetimes, return_lifetime })
}

/// When a returned reference can borrow only from one reference parameter
/// (no receiver, exactly one reference parameter), it carries that
/// parameter's lifetime, and no other lifetime is introduced.
pub proof fn lemma_return_borrows_from_only_reference(ts: Seq<CcType>, ret: CcType, i: int)
    requires
        0 <= i < ts.len(),
        is_reference(ts[i]),
        is_reference(ret),
        refs_before(ts, ts.len() as int) == 1,
    ensures
        elision_failure(ts, ret, false, false, true) is None,
        return_lifetime(ts, ret, false) == param_lifetime(ts, i),
{
    lemma_refs_before_monotone(ts, i + 1, ts.len() as int);
    lemma_refs_before_monotone(ts, 0, i);
}

/// For a method whose receiver is a reference and that has exactly one
/// other reference parameter, a returned reference carries that
/// parameter's lifetime, not the receiver's.
pub proof fn lemma_method_return_borrows_from_parameter(ts: Seq<CcType>, ret: CcType, i: int)
    requires
        1 <= i < ts.len(),
        is_reference(ts[0]),
        is_reference(ts[i]),
        is_reference(ret),
        refs_before(ts, ts.len() as int) == 2,
    ensures
        elision_failure(ts, ret, true, false, true) is None,
        return_lifetime(ts, ret, true) == param_lifetime(ts, i),
        return_lifetime(ts, ret, true) != param_lifetime(ts, 0),
{
    assert(refs_before(ts, 1) == 1) by {
        assert(refs_before(ts, 0) == 0);
    }
    lemma_refs_before_monotone(ts, 1, i);
    lemma_refs_before_monotone(ts, i + 1, ts.len() as int);
    assert(refs_before(ts, i + 1) == refs_before(ts, i) + 1);
}

/// Whenever elision succeeds and a reference is returned, the return
/// carries one of the lifetimes introduced for the reference parameters
/// (one per reference parameter, the receiver included), never a fresh one.
pub proof fn lemma_return_lifetime_is_introduced(
    ts: Seq<CcType>,
    ret: CcType,
    has_receiver: bool,
    is_constructor: bool,
)
    requires
        elision_failure(ts, ret, has_receiver, is_constructor, true) is None,
        is_reference(ret),
    ensures
        return_lifetime(ts, ret, has_receiver) matches Some(l) && l < refs_before(ts, ts.len() as int),
{
    if receiver_is_reference(ts, has_receiver) {
        assert(refs_before(ts, 1) == 1) by {
            assert(refs_before(ts, 0) == 0);
        }
        lemma_refs_before_monotone(ts, 1, ts.len() as int);
    }
}

} // verus!
