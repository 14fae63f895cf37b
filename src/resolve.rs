//! The value resolver: generic names inside range expressions replaced by values.
use vstd::prelude::*;
use crate::config::{lookup, lookup_pair, pair_views, TestbenchConfig};
use crate::model::VhdlGeneric;
use crate::text::{replace_all, replace_text, upper_of, uppercase};

verus! {

/// The value a generic takes when neither an override nor a default gives one.
pub const FALLBACK_VALUE: &'static str = "32";

/// The generic overrides of an optional configuration, as (name, value) views.
pub open spec fn overrides(config: Option<&TestbenchConfig>) -> Option<Seq<(Seq<char>, Seq<char>)>> {
    match config {
        Some(c) => match c.generics {
            Some(g) => Some(pair_views(g@)),
            None => None,
        },
        None => None,
    }
}

/// The value of generic `g`: an override under its own name, else one under its
/// upper-cased name, else its declared default, else the fallback value.
pub open spec fn value_for(g: VhdlGeneric, m: Option<Seq<(Seq<char>, Seq<char>)>>) -> Seq<char> {
    let fallback = match g.default_value {
        Some(d) => d@,
        None => FALLBACK_VALUE@,
    };
    match m {
        Some(pairs) => match lookup(pairs, g.name@) {
            Some(v) => v,
            None => match lookup(pairs, upper_of(g.name@)) {
                Some(v) => v,
                None => fallback,
            },
        },
        None => fallback,
    }
}

/// `range` with, for each generic in declaration order, its upper-cased name and
/// then its name as written replaced by its value.
pub open spec fn resolved(range: Seq<char>, gs: Seq<VhdlGeneric>, m: Option<Seq<(Seq<char>, Seq<char>)>>) -> Seq<char>
    decreases gs.len(),
{
    if gs.len() == 0 {
        range
    } else {
        let g = gs.last();
        let v = value_for(g, m);
        replace_all(replace_all(resolved(range, gs.drop_last(), m), upper_of(g.name@), v), g.name@, v)
    }
}

/// The value that generic `g` takes under `config`.
pub fn generic_value(g: &VhdlGeneric, config: Option<&TestbenchConfig>) -> (r: String)
    ensures
        r@ == value_for(*g, overrides(config)),
{
    let fallback = match &g.default_value {
        Some(d) => d.clone(),
        None => String::from_str(FALLBACK_VALUE),
    };
    match config {
        Some(c) => match &c.generics {
            Some(pairs) => match lookup_pair(pairs, g.name.as_str()) {
                Some(v) => v.clone(),
                None => {
                    let up = uppercase(g.name.as_str());
                    match lookup_pair(pairs, up.as_str()) {
                        Some(v) => v.clone(),
                        None => fallback,
                    }
                },
            },
            None => fallback,
        },
        None => fallback,
    }
}

} // verus!
