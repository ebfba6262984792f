use vstd::prelude::*;

verus! {

/// Observed evidence of a gene that can be read as a hit or a miss.
pub trait Observation {
    /// The hit indicator of this evidence, or `None` where it is neither.
    spec fn hit_spec(&self) -> Option<bool>;

    fn try_into_bool(&self) -> (r: Option<bool>)
        ensures
            r == self.hit_spec(),
    ;
}

/// The reading of an integer indicator: one is a hit, zero a miss.
pub open spec fn indicator(x: int) -> Option<bool> {
    if x == 1 {
        Some(true)
    } else if x == 0 {
        Some(false)
    } else {
        None
    }
}

/// Relies on rv's `Booleable for bool`: `try_into_bool` is `Some` of the value.
#[verifier::external_body]
fn bool_into_hit(x: bool) -> (r: Option<bool>)
    ensures
        r == Some(x),
{
    rv::data::Booleable::try_into_bool(x)
}

/// Relies on rv's `Booleable for u8`: `try_into_bool` maps 1 to true, 0 to
/// false, and anything else to `None`.
#[verifier::external_body]
fn u8_into_hit(x: u8) -> (r: Option<bool>)
    ensures
        r == indicator(x as int),
{
    rv::data::Booleable::try_into_bool(x)
}

/// Relies on rv's `Booleable for u32`: `try_into_bool` maps 1 to true, 0 to
/// false, and anything else to `None`.
#[verifier::external_body]
fn u32_into_hit(x: u32) -> (r: Option<bool>)
    ensures
        r == indicator(x as int),
{
    rv::data::Booleable::try_into_bool(x)
}

/// Relies on rv's `Booleable for usize`: `try_into_bool` maps 1 to true, 0
/// to false, and anything else to `None`.
#[verifier::external_body]
fn usize_into_hit(x: usize) -> (r: Option<bool>)
    ensures
        r == indicator(x as int),
{
    rv::data::Booleable::try_into_bool(x)
}

/// Relies on rv's `Booleable for i64`: `try_into_bool` maps 1 to true, 0 to
/// false, and anything else to `None`.
#[verifier::external_body]
fn i64_into_hit(x: i64) -> (r: Option<bool>)
    ensures
        r == indicator(x as int),
{
    rv::data::Booleable::try_into_bool(x)
}

impl Observation for bool {
    open spec fn hit_spec(&self) -> Option<bool> {
        Some(*self)
    }

    fn try_into_bool(&self) -> (r: Option<bool>) {
        bool_into_hit(*self)
    }
}

impl Observation for u8 {
    open spec fn hit_spec(&self) -> Option<bool> {
        indicator(*self as int)
    }

    fn try_into_bool(&self) -> (r: Option<bool>) {
        u8_into_hit(*self)
    }
}

impl Observation for u32 {
    open spec fn hit_spec(&self) -> Option<bool> {
        indicator(*self as int)
    }

    fn try_into_bool(&self) -> (r: Option<bool>) {
        u32_into_hit(*self)
    }
}

impl Observation for usize {
    open spec fn hit_spec(&self) -> Option<bool> {
        indicator(*self as int)
    }

    fn try_into_bool(&self) -> (r: Option<bool>) {
        usize_into_hit(*self)
    }
}

impl Observation for i64 {
    open spec fn hit_spec(&self) -> Option<bool> {
        indicator(*self as int)
    }

    fn try_into_bool(&self) -> (r: Option<bool>) {
        i64_into_hit(*self)
    }
}

} // verus!
