//! Thunks: the extern trampolines through which the destination side calls
//! a source-language function, and the link names they resolve to.
use vstd::prelude::*;

verus! {

/// How one parameter crosses the boundary.
#[derive(Clone, Copy, Debug, PartialEq, Eq, Structural)]
pub enum ThunkParam {
    /// Uninitialized storage that a constructor fills in place.
    UninitStorage,
    /// Parameter `i`, passed by value.
    ByValue(usize),
    /// Parameter `i`, a value that cannot be moved freely: the caller
    /// constructs it and passes its address.
    ByPointer(usize),
}

/// How the result crosses the boundary.
#[derive(Clone, Copy, Debug, PartialEq, Eq, Structural)]
pub enum ThunkReturn {
    Nothing,
    Value,
    /// Constructed in place into storage that the caller provides.
    InPlace,
}

/// The extern declaration for one function.  When `link_name` is set no
/// wrapper is generated: the declaration binds straight to the real symbol.
#[derive(Debug)]
pub struct ThunkPlan {
    pub thunk_name: String,
    pub link_name: Option<String>,
    pub params: Vec<ThunkParam>,
    pub result: ThunkReturn,
}

/// What the synthesizer needs to know of a function.  `param_movable[i]`
/// and `return_movable` say whether that value can be passed by value as
/// it stands (anything but a record that is not trivially relocatable).
#[derive(Debug)]
pub struct ThunkInput {
    pub mangled_name: String,
    pub is_inline: bool,
    pub is_virtual: bool,
    pub is_constructor: bool,
    pub is_destructor: bool,
    pub returns_void: bool,
    pub param_movable: Vec<bool>,
    pub return_movable: bool,
}

pub open spec fn thunk_prefix() -> Seq<char> {
    "__rust_thunk__"@
}

/// A wrapper is needed for an inline function (it may have no symbol), a
/// virtual one, a constructor or destructor, or whenever a value that
/// cannot be moved freely is passed or returned.
pub open spec fn needs_wrapper(t: ThunkInput) -> bool {
    ||| t.is_inline
    ||| t.is_virtual
    ||| t.is_constructor
    ||| t.is_destructor
    ||| !t.return_movable
    ||| exists|i: int| 0 <= i < t.param_movable@.len() && !t.param_movable@[i]
}

pub open spec fn spec_thunk_param(t: ThunkInput, i: int) -> ThunkParam {
    if t.is_constructor && i == 0 {
        ThunkParam::UninitStorage
    } else if t.param_movable@[i] {
        ThunkParam::ByValue(i as usize)
    } else {
        ThunkParam::ByPointer(i as usize)
    }
}

/// Constructors and destructors return nothing; a result that cannot be
/// moved is built in place.
pub open spec fn spec_thunk_return(t: ThunkInput) -> ThunkReturn {
    if t.is_constructor || t.is_destructor || t.returns_void {
        ThunkReturn::Nothing
    } else if !t.return_movable {
        ThunkReturn::InPlace
    } else {
        ThunkReturn::Value
    }
}

pub open spec fn is_thunk_plan_of(t: ThunkInput, p: ThunkPlan) -> bool {
    &&& p.thunk_name@ == thunk_prefix() + t.mangled_name@
    &&& (p.link_name matches Some(l) ==> l@ == t.mangled_name@)
    &&& (p.link_name is Some <==> !needs_wrapper(t))
    &&& p.params@ == Seq::new(t.param_movable@.len(), |i: int| spec_thunk_param(t, i))
    &&& p.result == spec_thunk_return(t)
}

pub fn plan_thunk(t: &ThunkInput) -> (p: ThunkPlan)
    ensures
        is_thunk_plan_of(*t, p),
{
    let mut thunk_name = "__rust_thunk__".to_owned();
    thunk_name.append(t.mangled_name.as_str());
    let mut params: Vec<ThunkParam> = Vec::new();
    let mut all_movable = true;
    let mut i: usize = 0;
    while i < t.param_movable.len()
        invariant
            i <= t.param_movable@.len(),
            params@ == Seq::new(i as nat, |k: int| spec_thunk_param(*t, k)),
            all_movable <==> forall|k: int| 0 <= k < i ==> t.param_movable@[k],
        decreases t.param_movable.len() - i,
    {
        let param = if t.is_constructor && i == 0 {
            ThunkParam::UninitStorage
        } else if t.param_movable[i] {
            ThunkParam::ByValue(i)
        } else {
            ThunkParam::ByPointer(i)
        };
        if !t.param_movable[i] {
            all_movable = false;
        }
        params.push(param);
        i = i + 1;
        assert(params@ =~= Seq::new(i as nat, |k: int| spec_thunk_param(*t, k)));
    }
    let result = if t.is_constructor || t.is_destructor || t.returns_void {
        ThunkReturn::Nothing
    } else if !t.return_movable {
        ThunkReturn::InPlace
    } else {
        ThunkReturn::Value
    };
    let wrapper = t.is_inline || t.is_virtual || t.is_constructor || t.is_destructor
        || !t.return_movable || !all_movable;
    let link_name = if wrapper {
        None
    } else {
        Some(t.mangled_name.clone())
    };
    ThunkPlan { thunk_name, link_name, params, result }
}

} // verus!
