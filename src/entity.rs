//! The entity model builder: the name, the generics and the ports of one
//! declaration, read from source text.
use vstd::prelude::*;
use crate::decl::{
    entity_name_of, extract_entity_name, generics_from, parse_generic_declarations,
    parse_port_declaration, port_of,
};
use crate::model::{generic_views, port_views, VhdlEntity, VhdlGeneric, VhdlPort};
use crate::normalize::{clean_chars, cleaned};
use crate::scan::{locate_section, section, split_clauses, split_range, views, ParseError};
use crate::text::{chars_of, slice, string_of};

verus! {

/// The ports declared by a sequence of clauses, in order; a clause that
/// declares none is skipped.
pub open spec fn ports_of(cl: Seq<Seq<char>>) -> Seq<(Seq<char>, Seq<char>, Seq<char>, Option<Seq<char>>)>
    decreases cl.len(),
{
    if cl.len() == 0 {
        Seq::empty()
    } else {
        ports_of(cl.drop_last()) + match port_of(cl.last()) {
            Some(x) => seq![x],
            None => Seq::empty(),
        }
    }
}

/// The clauses that declare no port, in order: what the parser skips.
pub open spec fn dropped_of(cl: Seq<Seq<char>>) -> Seq<Seq<char>>
    decreases cl.len(),
{
    if cl.len() == 0 {
        Seq::empty()
    } else {
        dropped_of(cl.drop_last()) + if port_of(cl.last()) is None {
            seq![cl.last()]
        } else {
            Seq::empty()
        }
    }
}

/// The skipped clauses of a located ports section of `t`: none where there is no section.
pub open spec fn dropped_in(t: Seq<char>, s: Option<(int, int)>) -> Seq<Seq<char>> {
    match s {
        Some((a, b)) => dropped_of(split_clauses(t.subrange(a, b))),
        None => Seq::empty(),
    }
}

/// The generics of a located section of `t`: none where there is no section.
pub open spec fn generics_in(t: Seq<char>, s: Option<(int, int)>) -> Seq<(Seq<char>, Seq<char>, Option<Seq<char>>)> {
    match s {
        Some((a, b)) => generics_from(t.subrange(a, b), 0),
        None => Seq::empty(),
    }
}

/// The ports of a located section of `t`: none where there is no section.
pub open spec fn ports_in(t: Seq<char>, s: Option<(int, int)>) -> Seq<(Seq<char>, Seq<char>, Seq<char>, Option<Seq<char>>)> {
    match s {
        Some((a, b)) => ports_of(split_clauses(t.subrange(a, b))),
        None => Seq::empty(),
    }
}

/// What a cleaned text declares: its entity's name, generics and ports, or
/// why it cannot be read. A missing generics or ports section reads as empty.
pub open spec fn entity_of(t: Seq<char>) -> Result<
    (
        Seq<char>,
        Seq<(Seq<char>, Seq<char>, Option<Seq<char>>)>,
        Seq<(Seq<char>, Seq<char>, Seq<char>, Option<Seq<char>>)>,
    ),
    ParseError,
> {
    match entity_name_of(t) {
        None => Err(ParseError::MissingEntity),
        Some(name) => match section(t, "generic"@) {
            Err(e) => Err(e),
            Ok(g) => match section(t, "port"@) {
                Err(e) => Err(e),
                Ok(p) => Ok((name, generics_in(t, g), ports_in(t, p))),
            },
        },
    }
}

/// The reader of entity declarations.
pub struct VhdlParser;

impl VhdlParser {
    /// Reads the entity that `content` declares: its name, its generics and its
    /// ports, from its cleaned form (comments and extra white space removed,
    /// letters lower-cased).
    pub fn parse_content(content: &str) -> (r: Result<VhdlEntity, ParseError>)
        ensures
            match (r, entity_of(cleaned(content@))) {
                (Ok(e), Ok((name, gs, ps))) => e.name@ == name && generic_views(e.generics@) == gs
                    && port_views(e.ports@) == ps,
                (Err(e), Err(se)) => e == se,
                _ => false,
            },
    {
        let t = clean_chars(content);
        let name = match extract_entity_name(&t) {
            Some(n) => n,
            None => {
                return Err(ParseError::MissingEntity);
            },
        };
        let generics = match Self::extract_generics(&t) {
            Ok(g) => g,
            Err(e) => {
                return Err(e);
            },
        };
        let ports = match Self::extract_ports(&t) {
            Ok(p) => p,
            Err(e) => {
                return Err(e);
            },
        };
        Ok(VhdlEntity { name, generics, ports })
    }

    /// The generics of the first `generic ( ... )` section of a cleaned text.
    pub fn extract_generics(t: &Vec<char>) -> (r: Result<Vec<VhdlGeneric>, ParseError>)
        ensures
            match (r, section(t@, "generic"@)) {
                (Ok(gs), Ok(s)) => generic_views(gs@) == generics_in(t@, s),
                (Err(e), Err(se)) => e == se,
                _ => false,
            },
    {
        match locate_section(t, "generic") {
            Ok(None) => {
                let r: Vec<VhdlGeneric> = Vec::new();
                assert(generic_views(r@) =~= Seq::empty());
                Ok(r)
            },
            Ok(Some((a, b))) => {
                let inner = slice(t, a, b);
                Ok(parse_generic_declarations(&inner))
            },
            Err(e) => Err(e),
        }
    }

    /// The ports of the first `port ( ... )` section of a cleaned text: its
    /// interior split into clauses, each clause that declares a port giving one.
    pub fn extract_ports(t: &Vec<char>) -> (r: Result<Vec<VhdlPort>, ParseError>)
        ensures
            match (r, section(t@, "port"@)) {
                (Ok(ps), Ok(s)) => port_views(ps@) == ports_in(t@, s),
                (Err(e), Err(se)) => e == se,
                _ => false,
            },
    {
        match locate_section(t, "port") {
            Ok(None) => {
                let r: Vec<VhdlPort> = Vec::new();
                assert(port_views(r@) =~= Seq::empty());
                Ok(r)
            },
            Ok(Some((a, b))) => {
                let clauses = split_range(t, a, b);
                let mut out: Vec<VhdlPort> = Vec::new();
                let mut i: usize = 0;
                assert(views(clauses@).take(0) =~= Seq::empty());
                assert(port_views(out@) =~= Seq::empty());
                while i < clauses.len()
                    invariant
                        i <= clauses@.len(),
                        port_views(out@) == ports_of(views(clauses@).take(i as int)),
                    decreases clauses@.len() - i,
                {
                    let ghost before = out@;
                    assert(views(clauses@).take(i + 1).drop_last() =~= views(clauses@).take(i as int));
                    assert(views(clauses@).take(i + 1).last() == clauses@[i as int]@);
                    match parse_port_declaration(&clauses[i]) {
                        Some(p) => {
                            out.push(p);
                            assert(port_views(out@) =~= port_views(before) + seq![p@]);
                        },
                        None => {
                            assert(port_views(out@) =~= port_views(before) + Seq::empty());
                        },
                    }
                    i = i + 1;
                }
                assert(views(clauses@).take(i as int) =~= views(clauses@));
                Ok(out)
            },
            Err(e) => Err(e),
        }
    }

    /// The clauses of the ports section of `content` that declare no port and
    /// are therefore skipped by `parse_content`, in order, so that a caller can
    /// see why a port is missing.
    pub fn rejected_port_clauses(content: &str) -> (r: Result<Vec<String>, ParseError>)
        ensures
            match (r, section(cleaned(content@), "port"@)) {
                (Ok(cs), Ok(s)) => cs@.map_values(|x: String| x@) == dropped_in(cleaned(content@), s),
                (Err(e), Err(se)) => e == se,
                _ => false,
            },
    {
        let t = clean_chars(content);
        match locate_section(&t, "port") {
            Ok(None) => {
                let r: Vec<String> = Vec::new();
                assert(r@.map_values(|x: String| x@) =~= Seq::empty());
                Ok(r)
            },
            Ok(Some((a, b))) => {
                let clauses = split_range(&t, a, b);
                let mut out: Vec<String> = Vec::new();
                let mut i: usize = 0;
                assert(views(clauses@).take(0) =~= Seq::empty());
                assert(out@.map_values(|x: String| x@) =~= Seq::empty());
                while i < clauses.len()
                    invariant
                        i <= clauses@.len(),
                        out@.map_values(|x: String| x@) == dropped_of(views(clauses@).take(i as int)),
                    decreases clauses@.len() - i,
                {
                    let ghost before = out@;
                    assert(views(clauses@).take(i + 1).drop_last() =~= views(clauses@).take(i as int));
                    assert(views(clauses@).take(i + 1).last() == clauses@[i as int]@);
                    match parse_port_declaration(&clauses[i]) {
                        Some(_) => {
                            assert(out@.map_values(|x: String| x@) =~= before.map_values(|x: String| x@)
                                + Seq::empty());
                        },
                        None => {
                            let c = string_of(&clauses[i]);
                            let ghost cv = c@;
                            out.push(c);
                            assert(out@.map_values(|x: String| x@) =~= before.map_values(|x: String| x@)
                                + seq![cv]);
                        },
                    }
                    i = i + 1;
                }
                assert(views(clauses@).take(i as int) =~= views(clauses@));
                Ok(out)
            },
            Err(e) => Err(e),
        }
    }

    /// Splits the interior of a bracketed list into its clauses: on `;` outside
    /// parentheses, each trimmed, blank ones dropped, in order.
    pub fn split_port_declarations_improved(content: &str) -> (r: Vec<String>)
        ensures
            r@.map_values(|x: String| x@) == split_clauses(content@),
    {
        let t = chars_of(content);
        let parts = split_range(&t, 0, t.len());
        assert(t@.subrange(0, t@.len() as int) =~= t@);
        let mut r: Vec<String> = Vec::new();
        let mut i: usize = 0;
        assert(r@.map_values(|x: String| x@) =~= views(parts@).take(0));
        while i < parts.len()
            invariant
                i <= parts@.len(),
                r@.len() == i,
                views(parts@) == split_clauses(content@),
                r@.map_values(|x: String| x@) == views(parts@).take(i as int),
            decreases parts@.len() - i,
        {
            let x = string_of(&parts[i]);
            assert(views(parts@)[i as int] == x@);
            let ghost before = r@;
            r.push(x);
            assert(r@ == before.push(x));
            assert(r@.map_values(|x: String| x@)[i as int] == x@);
            i = i + 1;
            assert(r@.map_values(|x: String| x@) =~= views(parts@).take(i as int));
        }
        assert(views(parts@).take(i as int) =~= views(parts@));
        r
    }
}

} // verus!
