//! Text of the destination-side output that the core fixes itself: the
//! inline note left for each unsupported item, with the place it was
//! declared, and the compile-time layout assertions of a record.  Layout
//! of the surrounding code is left to an outside formatter.
use vstd::prelude::*;
use crate::binder::UnsupportedReason;
use crate::ir::Record;
use crate::lifetimes::ElisionError;
use crate::type_mapper::TypeError;
use crate::layout::{spec_layout_assertions, LayoutAssertion};
use crate::reports::UnsupportedReport;

verus! {

pub open spec fn digit_char(d: u64) -> char {
    if d == 0 {
        '0'
    } else if d == 1 {
        '1'
    } else if d == 2 {
        '2'
    } else if d == 3 {
        '3'
    } else if d == 4 {
        '4'
    } else if d == 5 {
        '5'
    } else if d == 6 {
        '6'
    } else if d == 7 {
        '7'
    } else if d == 8 {
        '8'
    } else {
        '9'
    }
}

/// The decimal digits of `n`, most significant first, without leading zeros.
pub open spec fn decimal(n: u64) -> Seq<char>
    decreases n,
{
    if n < 10 {
        seq![digit_char(n)]
    } else {
        decimal(n / 10).push(digit_char(n % 10))
    }
}

fn digit(d: u64) -> (s: &'static str)
    requires
        d < 10,
    ensures
        s@ == seq![digit_char(d)],
{
    proof {
        reveal_strlit("0");
        reveal_strlit("1");
        reveal_strlit("2");
        reveal_strlit("3");
        reveal_strlit("4");
        reveal_strlit("5");
        reveal_strlit("6");
        reveal_strlit("7");
        reveal_strlit("8");
        reveal_strlit("9");
    }
    if d == 0 {
        "0"
    } else if d == 1 {
        "1"
    } else if d == 2 {
        "2"
    } else if d == 3 {
        "3"
    } else if d == 4 {
        "4"
    } else if d == 5 {
        "5"
    } else if d == 6 {
        "6"
    } else if d == 7 {
        "7"
    } else if d == 8 {
        "8"
    } else {
        "9"
    }
}

/// Appends the decimal digits of `n`.
pub fn push_decimal(out: &mut String, n: u64)
    ensures
        final(out)@ == old(out)@ + decimal(n),
    decreases n,
{
    if n >= 10 {
        push_decimal(out, n / 10);
    }
    out.append(digit(n % 10));
    proof {
        if n >= 10 {
            assert(final(out)@ =~= old(out)@ + decimal(n));
        } else {
            assert(n % 10 == n);
            assert(final(out)@ =~= old(out)@ + decimal(n));
        }
    }
}

/// Why an item is not supported, in words.  `message` is the front end's
/// own message and `cited` the name of the unsupported item that is used.
pub open spec fn reason_text(reason: UnsupportedReason, message: Seq<char>, cited: Seq<char>) -> Seq<char> {
    match reason {
        UnsupportedReason::FrontEnd => message,
        UnsupportedReason::Type(TypeError::Volatile) => "Volatile-qualified types are not supported"@,
        UnsupportedReason::Type(TypeError::RvalueRefWithoutLifetime) => "Unsupported type: && without lifetime"@,
        UnsupportedReason::Elision(ElisionError::AmbiguousReturn) => "The lifetime of the returned reference cannot be elided"@,
        UnsupportedReason::Elision(ElisionError::ReceiverWithoutLifetime) => "`self` has no lifetime. Use lifetime annotations or `#pragma clang lifetime_elision` to create bindings for this function."@,
        UnsupportedReason::Elision(ElisionError::UnsafeConstructor) => "Unsafe constructors (e.g. with no elided or explicit lifetimes) are intentionally not supported"@,
        UnsupportedReason::UnknownDecl(id) => "Unknown declaration with id "@ + decimal(id),
        UnsupportedReason::UnnamedParameter(k) => "Empty parameter names are not supported (parameter #"@ + decimal(k as u64) + ")"@,
        UnsupportedReason::OpaqueStorageChangesAbi => "Opaque storage for non-public fields would change how the record is passed"@,
        UnsupportedReason::DependsOn(_) => "Depends on unsupported item '"@ + cited + "'"@,
    }
}

fn push_reason(out: &mut String, reason: UnsupportedReason, message: &String, cited: &String)
    ensures
        final(out)@ == old(out)@ + reason_text(reason, message@, cited@),
{
    match reason {
        UnsupportedReason::FrontEnd => out.append(message.as_str()),
        UnsupportedReason::Type(TypeError::Volatile) => out.append("Volatile-qualified types are not supported"),
        UnsupportedReason::Type(TypeError::RvalueRefWithoutLifetime) => out.append("Unsupported type: && without lifetime"),
        UnsupportedReason::Elision(ElisionError::AmbiguousReturn) => out.append("The lifetime of the returned reference cannot be elided"),
        UnsupportedReason::Elision(ElisionError::ReceiverWithoutLifetime) => out.append("`self` has no lifetime. Use lifetime annotations or `#pragma clang lifetime_elision` to create bindings for this function."),
        UnsupportedReason::Elision(ElisionError::UnsafeConstructor) => out.append("Unsafe constructors (e.g. with no elided or explicit lifetimes) are intentionally not supported"),
        UnsupportedReason::UnknownDecl(id) => {
            out.append("Unknown declaration with id ");
            push_decimal(out, id);
        },
        UnsupportedReason::UnnamedParameter(k) => {
            out.append("Empty parameter names are not supported (parameter #");
            push_decimal(out, k as u64);
            out.append(")");
        },
        UnsupportedReason::OpaqueStorageChangesAbi => out.append("Opaque storage for non-public fields would change how the record is passed"),
        UnsupportedReason::DependsOn(_) => {
            out.append("Depends on unsupported item '");
            out.append(cited.as_str());
            out.append("'");
        },
    }
    assert(final(out)@ =~= old(out)@ + reason_text(reason, message@, cited@));
}

/// The note left in place of an unsupported item.  It says where the item
/// was declared, names it, says that it is not supported, and why.
pub open spec fn note_text(r: UnsupportedReport) -> Seq<char> {
    "// Generated from: "@ + r.filename@ + ";l="@ + decimal(r.line) + "\n"@
        + "// Error while generating bindings for item '"@ + r.name@ + "' (not supported):\n"@
        + "// "@ + reason_text(r.reason, r.message@, r.cited@) + "\n\n"@
}

pub open spec fn notes_text(rs: Seq<UnsupportedReport>) -> Seq<char>
    decreases rs.len(),
{
    if rs.len() == 0 {
        Seq::empty()
    } else {
        notes_text(rs.drop_last()) + note_text(rs.last())
    }
}

fn push_note(out: &mut String, r: &UnsupportedReport)
    ensures
        final(out)@ == old(out)@ + note_text(*r),
{
    out.append("// Generated from: ");
    out.append(r.filename.as_str());
    out.append(";l=");
    push_decimal(out, r.line);
    out.append("\n");
    out.append("// Error while generating bindings for item '");
    out.append(r.name.as_str());
    out.append("' (not supported):\n");
    out.append("// ");
    push_reason(out, r.reason, &r.message, &r.cited);
    out.append("\n\n");
    assert(final(out)@ =~= old(out)@ + note_text(*r));
}

/// The notes for all unsupported items, in order.
pub fn render_notes(reports: &Vec<UnsupportedReport>) -> (s: String)
    ensures
        s@ == notes_text(reports@),
{
    let mut out = String::new();
    let mut k: usize = 0;
    while k < reports.len()
        invariant
            k <= reports@.len(),
            out@ == notes_text(reports@.subrange(0, k as int)),
        decreases reports.len() - k,
    {
        let ghost prev = reports@.subrange(0, k as int);
        let ghost next = reports@.subrange(0, k + 1);
        assert(next.drop_last() =~= prev);
        assert(next.last() == reports@[k as int]);
        push_note(&mut out, &reports[k]);
        k = k + 1;
    }
    assert(reports@.subrange(0, reports@.len() as int) =~= reports@);
    out
}

/// One layout assertion of record `r` as a constant assertion.
pub open spec fn assertion_text(r: Record, a: LayoutAssertion) -> Seq<char> {
    match a {
        LayoutAssertion::Size(n) => "const _: () = assert!(::core::mem::size_of::<crate::"@ + r.identifier@
            + ">() == "@ + decimal(n) + ");\n"@,
        LayoutAssertion::Alignment(n) => "const _: () = assert!(::core::mem::align_of::<crate::"@
            + r.identifier@ + ">() == "@ + decimal(n) + ");\n"@,
        LayoutAssertion::FieldOffset { field, offset } => "const _: () = assert!(::core::mem::offset_of!(crate::"@
            + r.identifier@ + ", "@ + (if field < r.fields@.len() {
            r.fields@[field as int].identifier@
        } else {
            Seq::empty()
        }) + ") == "@ + decimal(offset) + ");\n"@,
    }
}

pub open spec fn assertions_text(r: Record, a: Seq<LayoutAssertion>) -> Seq<char>
    decreases a.len(),
{
    if a.len() == 0 {
        Seq::empty()
    } else {
        assertions_text(r, a.drop_last()) + assertion_text(r, a.last())
    }
}

fn push_assertion(out: &mut String, r: &Record, a: LayoutAssertion)
    ensures
        final(out)@ == old(out)@ + assertion_text(*r, a),
{
    match a {
        LayoutAssertion::Size(n) => {
            out.append("const _: () = assert!(::core::mem::size_of::<crate::");
            out.append(r.identifier.as_str());
            out.append(">() == ");
            push_decimal(out, n);
            out.append(");\n");
        },
        LayoutAssertion::Alignment(n) => {
            out.append("const _: () = assert!(::core::mem::align_of::<crate::");
            out.append(r.identifier.as_str());
            out.append(">() == ");
            push_decimal(out, n);
            out.append(");\n");
        },
        LayoutAssertion::FieldOffset { field, offset } => {
            out.append("const _: () = assert!(::core::mem::offset_of!(crate::");
            out.append(r.identifier.as_str());
            out.append(", ");
            if field < r.fields.len() {
                out.append(r.fields[field].identifier.as_str());
            }
            out.append(") == ");
            push_decimal(out, offset);
            out.append(");\n");
        },
    }
    assert(final(out)@ =~= old(out)@ + assertion_text(*r, a));
}

/// The size, alignment and field-offset assertions of `r`, one per line,
/// with the values the front end computed.
pub fn render_layout_assertions(r: &Record) -> (s: String)
    ensures
        s@ == assertions_text(*r, spec_layout_assertions(*r)),
{
    let a = crate::layout::layout_assertions(r);
    let mut out = String::new();
    let mut k: usize = 0;
    while k < a.len()
        invariant
            k <= a@.len(),
            out@ == assertions_text(*r, a@.subrange(0, k as int)),
        decreases a.len() - k,
    {
        let ghost prev = a@.subrange(0, k as int);
        let ghost next = a@.subrange(0, k + 1);
        assert(next.drop_last() =~= prev);
        assert(next.last() == a@[k as int]);
        push_assertion(&mut out, r, a[k]);
        k = k + 1;
    }
    assert(a@.subrange(0, a@.len() as int) =~= a@);
    out
}

} // verus!
