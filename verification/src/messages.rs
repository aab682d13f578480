//! The texts of the errors that renderers report.

use vstd::prelude::*;
use crate::backend::BackendError;
use crate::layout::LayoutFrameValidationError;
use crate::mutation::{ElementKind, UiNodeId};

verus! {

pub open spec fn digit_char(d: nat) -> char {
    if d == 0 {
        '0'
    } else if d == 1 {
        '1'
    } else if d == 2 {
        '2'
    } else if d == 3 {
        '3'
    } else if d == 4 {
        '4'
    } else if d == 5 {
        '5'
    } else if d == 6 {
        '6'
    } else if d == 7 {
        '7'
    } else if d == 8 {
        '8'
    } else {
        '9'
    }
}

/// The decimal rendering of `n`, as `{}` formats an unsigned integer.
pub open spec fn decimal_text(n: nat) -> Seq<char>
    decreases n,
{
    if n < 10 {
        seq![digit_char(n)]
    } else {
        decimal_text(n / 10) + seq![digit_char(n % 10)]
    }
}

/// The `{:?}` rendering of an element kind: its variant name.
pub open spec fn kind_text(kind: ElementKind) -> Seq<char> {
    match kind {
        ElementKind::Stack => "Stack"@,
        ElementKind::Container => "Container"@,
        ElementKind::SafeArea => "SafeArea"@,
        ElementKind::Text => "Text"@,
        ElementKind::Button => "Button"@,
        ElementKind::Image => "Image"@,
        ElementKind::List => "List"@,
        ElementKind::Input => "Input"@,
    }
}

/// The `{:?}` rendering of a frame validation error: its variant name.
pub open spec fn frame_error_text(err: LayoutFrameValidationError) -> Seq<char> {
    match err {
        LayoutFrameValidationError::NonFinitePosition => "NonFinitePosition"@,
        LayoutFrameValidationError::NonFiniteSize => "NonFiniteSize"@,
        LayoutFrameValidationError::NegativeSize => "NegativeSize"@,
    }
}

fn digit_str(d: u32) -> (r: &'static str)
    requires
        d < 10,
    ensures
        r@ == seq![digit_char(d as nat)],
{
    proof {
        reveal_strlit("0");
        reveal_strlit("1");
        reveal_strlit("2");
        reveal_strlit("3");
        reveal_strlit("4");
        reveal_strlit("5");
        reveal_strlit("6");
        reveal_strlit("7");
        reveal_strlit("8");
        reveal_strlit("9");
    }
    if d == 0 {
        "0"
    } else if d == 1 {
        "1"
    } else if d == 2 {
        "2"
    } else if d == 3 {
        "3"
    } else if d == 4 {
        "4"
    } else if d == 5 {
        "5"
    } else if d == 6 {
        "6"
    } else if d == 7 {
        "7"
    } else if d == 8 {
        "8"
    } else {
        "9"
    }
}

/// Renders `n` in decimal.
pub fn decimal_string(n: u32) -> (r: String)
    ensures
        r@ == decimal_text(n as nat),
    decreases n,
{
    if n < 10 {
        String::from_str(digit_str(n))
    } else {
        let mut s = decimal_string(n / 10);
        s.append(digit_str(n % 10));
        s
    }
}

/// The variant name of `kind`.
pub fn kind_str(kind: ElementKind) -> (r: &'static str)
    ensures
        r@ == kind_text(kind),
{
    match kind {
        ElementKind::Stack => "Stack",
        ElementKind::Container => "Container",
        ElementKind::SafeArea => "SafeArea",
        ElementKind::Text => "Text",
        ElementKind::Button => "Button",
        ElementKind::Image => "Image",
        ElementKind::List => "List",
        ElementKind::Input => "Input",
    }
}

/// The variant name of `err`.
pub fn frame_error_str(err: LayoutFrameValidationError) -> (r: &'static str)
    ensures
        r@ == frame_error_text(err),
{
    match err {
        LayoutFrameValidationError::NonFinitePosition => "NonFinitePosition",
        LayoutFrameValidationError::NonFiniteSize => "NonFiniteSize",
        LayoutFrameValidationError::NegativeSize => "NegativeSize",
    }
}

/// `r` is a rejection whose text is `msg`.
pub open spec fn rejected_with<T>(r: Result<T, BackendError>, msg: Seq<char>) -> bool {
    match r {
        Err(BackendError::BatchRejected(s)) => s@ == msg,
        Ok(_) => false,
    }
}

/// A rejection with the text `text`.
pub fn reject(text: String) -> (r: BackendError)
    ensures
        r == BackendError::BatchRejected(text),
{
    BackendError::BatchRejected(text)
}

/// A rejection with the text `head` followed by the decimal `n` and `tail`.
pub fn reject_with_id(head: &str, n: u32, tail: &str) -> (r: BackendError)
    ensures
        match r {
            BackendError::BatchRejected(s) => s@ == head@ + decimal_text(n as nat) + tail@,
        },
{
    let mut s = String::from_str(head);
    let d = decimal_string(n);
    s.append(d.as_str());
    s.append(tail);
    BackendError::BatchRejected(s)
}

/// A rejection with the text `head` followed by the decimal `n`.
pub fn reject_id(head: &str, n: u32) -> (r: BackendError)
    ensures
        match r {
            BackendError::BatchRejected(s) => s@ == head@ + decimal_text(n as nat),
        },
{
    let mut s = String::from_str(head);
    let d = decimal_string(n);
    s.append(d.as_str());
    BackendError::BatchRejected(s)
}

/// A rejection with the concatenation of two texts.
pub fn reject_texts(head: &str, tail: &str) -> (r: BackendError)
    ensures
        match r {
            BackendError::BatchRejected(s) => s@ == head@ + tail@,
        },
{
    let mut s = String::from_str(head);
    s.append(tail);
    BackendError::BatchRejected(s)
}

/// A rejection with `head`, the decimal `a`, `middle`, the decimal `b` and `tail`.
pub fn reject_with_two_ids(head: &str, a: UiNodeId, middle: &str, b: UiNodeId, tail: &str) -> (r:
    BackendError)
    ensures
        match r {
            BackendError::BatchRejected(s) => s@ == head@ + decimal_text(a as nat) + middle@
                + decimal_text(b as nat) + tail@,
        },
{
    let mut s = String::from_str(head);
    let da = decimal_string(a);
    s.append(da.as_str());
    s.append(middle);
    let db = decimal_string(b);
    s.append(db.as_str());
    s.append(tail);
    BackendError::BatchRejected(s)
}

} // verus!
