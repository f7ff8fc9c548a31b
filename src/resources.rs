use vstd::prelude::*;

verus! {

/// No resource of the requested type is stored.
#[derive(Clone, Copy, Debug, PartialEq, Eq, Structural)]
pub struct NoSuchResource;

/// A resource is already borrowed in a way that forbids the requested borrow.
#[derive(Clone, Copy, Debug, PartialEq, Eq, Structural)]
pub enum InvalidBorrow {
    /// Can't access mutably because the resource is accessed either immutably or mutably elsewhere.
    Mutable,
    /// Can't access immutably because the resource is accessed mutably elsewhere.
    Immutable,
}

/// Why a resource could not be had.
#[derive(Clone, Copy, Debug, PartialEq, Eq, Structural)]
pub enum CantGetResource {
    InvalidBorrow(InvalidBorrow),
    NoSuchResource(NoSuchResource),
}

impl NoSuchResource {
    pub fn message(&self) -> (r: &'static str)
        ensures
            r@ == "no such resource"@,
    {
        "no such resource"
    }
}

impl InvalidBorrow {
    pub fn message(&self) -> (r: &'static str)
        ensures
            *self == InvalidBorrow::Mutable ==> r@ == "cannot borrow mutably"@,
            *self == InvalidBorrow::Immutable ==> r@ == "cannot borrow immutably"@,
    {
        match self {
            InvalidBorrow::Mutable => "cannot borrow mutably",
            InvalidBorrow::Immutable => "cannot borrow immutably",
        }
    }
}

impl CantGetResource {
    /// The message of the underlying error.
    pub fn message(&self) -> (r: &'static str)
        ensures
            *self == CantGetResource::NoSuchResource(NoSuchResource) ==> r@ == "no such resource"@,
            *self == CantGetResource::InvalidBorrow(InvalidBorrow::Mutable) ==> r@
                == "cannot borrow mutably"@,
            *self == CantGetResource::InvalidBorrow(InvalidBorrow::Immutable) ==> r@
                == "cannot borrow immutably"@,
    {
        match self {
            CantGetResource::InvalidBorrow(e) => e.message(),
            CantGetResource::NoSuchResource(e) => e.message(),
        }
    }
}

impl From<NoSuchResource> for CantGetResource {
    fn from(error: NoSuchResource) -> (r: CantGetResource)
        ensures
            r == CantGetResource::NoSuchResource(error),
    {
        CantGetResource::NoSuchResource(error)
    }
}

impl vstd::std_specs::convert::FromSpecImpl<NoSuchResource> for CantGetResource {
    open spec fn obeys_from_spec() -> bool {
        true
    }

    open spec fn from_spec(v: NoSuchResource) -> CantGetResource {
        CantGetResource::NoSuchResource(v)
    }
}

impl From<InvalidBorrow> for CantGetResource {
    fn from(error: InvalidBorrow) -> (r: CantGetResource)
        ensures
            r == CantGetResource::InvalidBorrow(error),
    {
        CantGetResource::InvalidBorrow(error)
    }
}

impl vstd::std_specs::convert::FromSpecImpl<InvalidBorrow> for CantGetResource {
    open spec fn obeys_from_spec() -> bool {
        true
    }

    open spec fn from_spec(v: InvalidBorrow) -> CantGetResource {
        CantGetResource::InvalidBorrow(v)
    }
}

} // verus!
