//! The extracted description of an entity.
use vstd::prelude::*;

verus! {

/// The view of an optional string.
pub open spec fn opt_view(o: Option<String>) -> Option<Seq<char>> {
    match o {
        Some(s) => Some(s@),
        None => None,
    }
}

/// One signal of an entity's interface.
#[derive(Debug, Clone)]
pub struct VhdlPort {
    /// The port's name, in lower case.
    pub name: String,
    /// `in`, `out` or `inout`.
    pub direction: String,
    /// The name of its base type, in lower case.
    pub signal_type: String,
    /// The parenthesised range expression that follows the type, as written.
    pub range: Option<String>,
}

impl View for VhdlPort {
    type V = (Seq<char>, Seq<char>, Seq<char>, Option<Seq<char>>);

    open spec fn view(&self) -> Self::V {
        (self.name@, self.direction@, self.signal_type@, opt_view(self.range))
    }
}

/// One compile-time parameter of an entity.
#[derive(Debug, Clone)]
pub struct VhdlGeneric {
    /// The parameter's name, in lower case.
    pub name: String,
    /// The name of its type, in lower case.
    pub generic_type: String,
    /// The text of its default expression, as written.
    pub default_value: Option<String>,
}

impl View for VhdlGeneric {
    type V = (Seq<char>, Seq<char>, Option<Seq<char>>);

    open spec fn view(&self) -> Self::V {
        (self.name@, self.generic_type@, opt_view(self.default_value))
    }
}

/// One parsed entity declaration.
#[derive(Debug, Clone)]
pub struct VhdlEntity {
    pub name: String,
    /// The generics, in declaration order.
    pub generics: Vec<VhdlGeneric>,
    /// The ports, in declaration order.
    pub ports: Vec<VhdlPort>,
}

/// The views of a sequence of ports.
pub open spec fn port_views(ps: Seq<VhdlPort>) -> Seq<(Seq<char>, Seq<char>, Seq<char>, Option<Seq<char>>)> {
    ps.map_values(|p: VhdlPort| p@)
}

/// The views of a sequence of generics.
pub open spec fn generic_views(gs: Seq<VhdlGeneric>) -> Seq<(Seq<char>, Seq<char>, Option<Seq<char>>)> {
    gs.map_values(|g: VhdlGeneric| g@)
}

} // verus!
