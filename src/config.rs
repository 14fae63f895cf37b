//! The declarative stimulus description that a harness may be built from.
use vstd::prelude::*;

verus! {

/// One stimulus step: a wait, the values driven on inputs, and the values
/// expected on outputs. Mappings are lists of (signal, value) pairs without a
/// repeated signal, in the order they were given.
#[derive(Debug, Clone)]
pub struct TestVector {
    pub time_ns: u32,
    pub inputs: Vec<(String, String)>,
    pub expected_outputs: Option<Vec<(String, String)>>,
    pub description: Option<String>,
}

/// Settings for a harness: clock period, reset duration, stimulus steps, and
/// values for the entity's generics by name.
#[derive(Debug, Clone)]
pub struct TestbenchConfig {
    pub clock_period_ns: Option<u32>,
    pub reset_duration_ns: Option<u32>,
    pub test_vectors: Option<Vec<TestVector>>,
    pub generics: Option<Vec<(String, String)>>,
}

/// The views of a list of (name, value) pairs.
pub open spec fn pair_views(m: Seq<(String, String)>) -> Seq<(Seq<char>, Seq<char>)> {
    m.map_values(|p: (String, String)| (p.0@, p.1@))
}

/// Whether no name occurs in two pairs: what a mapping from names to values is.
pub open spec fn distinct_keys(m: Seq<(Seq<char>, Seq<char>)>) -> bool {
    forall|i: int, j: int| 0 <= i < j < m.len() ==> #[trigger] m[i].0 != #[trigger] m[j].0
}

/// The value of the first pair whose name is `key`.
pub open spec fn lookup(m: Seq<(Seq<char>, Seq<char>)>, key: Seq<char>) -> Option<Seq<char>>
    decreases m.len(),
{
    if m.len() == 0 {
        None
    } else if m[0].0 == key {
        Some(m[0].1)
    } else {
        lookup(m.drop_first(), key)
    }
}

/// Looks up the value that a list of pairs gives `key`.
pub fn lookup_pair<'a>(m: &'a Vec<(String, String)>, key: &str) -> (r: Option<&'a String>)
    ensures
        match r {
            Some(v) => lookup(pair_views(m@), key@) == Some(v@),
            None => lookup(pair_views(m@), key@) is None,
        },
{
    let mut i: usize = 0;
    assert(pair_views(m@).skip(0) =~= pair_views(m@));
    while i < m.len()
        invariant
            i <= m@.len(),
            lookup(pair_views(m@).skip(i as int), key@) == lookup(pair_views(m@), key@),
        decreases m@.len() - i,
    {
        assert(pair_views(m@).skip(i as int).drop_first() =~= pair_views(m@).skip(i + 1));
        assert(pair_views(m@).skip(i as int)[0] == (m@[i as int].0@, m@[i as int].1@));
        if crate::text::same_text(m[i].0.as_str(), key) {
            return Some(&m[i].1);
        }
        i = i + 1;
    }
    None
}

} // verus!
