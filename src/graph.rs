//! Graphs: an ordered list of statements with a prefix mapping.
use crate::iri::{
    first_bad, idx_of, is_scheme_char, lemma_first_bad, parse_spec, valid_scheme, CharClass, Iri,
    IriView,
};
use crate::statement::Statement;
use crate::term::IriRef;
use std::sync::Arc;
use vstd::prelude::*;
use vstd::string::*;

verus! {

/// The prefix of the core RDF vocabulary.
pub const RDF_PREFIX: &'static str = "rdf";

/// The namespace of the core RDF vocabulary.
pub const RDF_NAMESPACE: &'static str = "http://www.w3.org/1999/02/22-rdf-syntax-ns#";

/// The map that a list of prefix entries stands for: later entries override
/// earlier ones.
pub open spec fn entries_map(s: Seq<(Seq<char>, IriView)>) -> Map<Seq<char>, IriView>
    decreases s.len(),
{
    if s.len() == 0 {
        Map::empty()
    } else {
        entries_map(s.drop_last()).insert(s.last().0, s.last().1)
    }
}

pub open spec fn entry_view(e: (String, IriRef)) -> (Seq<char>, IriView) {
    (e.0@, e.1@)
}

/// The namespace of the core RDF vocabulary is an IRI.
pub proof fn lemma_rdf_namespace_parses()
    ensures
        parse_spec(RDF_NAMESPACE@) is Ok,
{
    reveal_strlit("http://www.w3.org/1999/02/22-rdf-syntax-ns#");
    let s = RDF_NAMESPACE@;
    assert(s.len() == 43);
    reveal_with_fuel(idx_of, 45);
    reveal_with_fuel(first_bad, 45);
    assert(idx_of(s, 0, 43, ':') == 4);
    assert(idx_of(s, 5, 43, '#') == 42);
    assert(idx_of(s, 5, 42, '?') == 42);
    assert(idx_of(s, 7, 42, '/') == 17);
    assert(idx_of(s, 7, 17, '@') == 17);
    assert(idx_of(s, 7, 17, ':') == 17);
    let scheme = s.subrange(0, 4);
    assert forall|i: int| 0 <= i < scheme.len() implies is_scheme_char(#[trigger] scheme[i]) by {
        assert(i == 0 || i == 1 || i == 2 || i == 3);
    }
    assert(valid_scheme(scheme));
    lemma_first_bad(s, 7, 17, CharClass::RegName);
    assert(first_bad(s, 7, 17, CharClass::RegName) == 17);
    lemma_first_bad(s, 17, 42, CharClass::Path);
    assert(first_bad(s, 17, 42, CharClass::Path) == 42);
    lemma_first_bad(s, 43, 43, CharClass::Fragment);
}

/// Entries after position `i` that do not mention `k` leave what `k` maps to unchanged.
proof fn lemma_entries_suffix(s: Seq<(Seq<char>, IriView)>, i: int, k: Seq<char>)
    requires
        0 <= i <= s.len(),
        forall|j: int| i <= j < s.len() ==> (#[trigger] s[j]).0 != k,
    ensures
        entries_map(s).contains_key(k) == entries_map(s.subrange(0, i)).contains_key(k),
        entries_map(s).contains_key(k) ==> entries_map(s)[k] == entries_map(s.subrange(0, i))[k],
    decreases s.len(),
{
    if s.len() == i {
        assert(s.subrange(0, i) =~= s);
    } else {
        lemma_entries_suffix(s.drop_last(), i, k);
        assert(s.drop_last().subrange(0, i) =~= s.subrange(0, i));
    }
}

/// A mapping from prefixes to IRIs, with an optional default (base) entry.
#[derive(Debug)]
pub struct PrefixMapping {
    entries: Vec<(String, IriRef)>,
    default: Option<IriRef>,
}

impl PrefixMapping {
    pub closed spec fn prefixes(&self) -> Map<Seq<char>, IriView> {
        entries_map(self.entries@.map_values(|e: (String, IriRef)| entry_view(e)))
    }

    pub closed spec fn default_spec(&self) -> Option<IriView> {
        match self.default {
            Some(i) => Some(i@),
            None => None,
        }
    }

    /// An empty mapping.
    pub fn empty() -> (r: PrefixMapping)
        ensures
            r.prefixes() == Map::<Seq<char>, IriView>::empty(),
            r.default_spec() is None,
    {
        let r = PrefixMapping { entries: Vec::new(), default: None };
        assert(r.entries@.map_values(|e: (String, IriRef)| entry_view(e)) =~= Seq::empty());
        r
    }

    /// Maps `prefix` to `iri`, replacing what it was mapped to before.
    pub fn insert(&mut self, prefix: &str, iri: IriRef)
        ensures
            final(self).prefixes() == old(self).prefixes().insert(prefix@, iri@),
            final(self).default_spec() == old(self).default_spec(),
    {
        self.entries.push((String::from_str(prefix), iri));
        assert(self.entries@.map_values(|e: (String, IriRef)| entry_view(e)).drop_last()
            =~= old(self).entries@.map_values(|e: (String, IriRef)| entry_view(e)));
    }

    /// What `prefix` is mapped to, if anything.
    pub fn get(&self, prefix: &str) -> (r: Option<&IriRef>)
        ensures
            match r {
                Some(i) => self.prefixes().contains_key(prefix@) && self.prefixes()[prefix@] == i@,
                None => !self.prefixes().contains_key(prefix@),
            },
    {
        let ghost vs = self.entries@.map_values(|e: (String, IriRef)| entry_view(e));
        let key = String::from_str(prefix);
        let mut i = self.entries.len();
        while i > 0
            invariant
                i <= self.entries@.len(),
                vs == self.entries@.map_values(|e: (String, IriRef)| entry_view(e)),
                key@ == prefix@,
                forall|j: int| i <= j < vs.len() ==> (#[trigger] vs[j]).0 != key@,
            decreases i,
        {
            let e = &self.entries[i - 1];
            if e.0 == key {
                proof {
                    lemma_entries_suffix(vs, i as int, key@);
                    assert(vs.subrange(0, i as int).drop_last() =~= vs.subrange(0, i - 1));
                    assert(vs.subrange(0, i as int).last() == vs[i - 1]);
                }
                return Some(&e.1);
            }
            i = i - 1;
        }
        proof {
            lemma_entries_suffix(vs, 0, key@);
            assert(vs.subrange(0, 0) =~= Seq::<(Seq<char>, IriView)>::empty());
        }
        None
    }

    /// The default (base) entry, if any.
    pub fn default_iri(&self) -> (r: &Option<IriRef>)
        ensures
            crate::term::opt_iri_view(*r) == self.default_spec(),
    {
        &self.default
    }

    /// Sets the default (base) entry.
    pub fn set_default(&mut self, iri: IriRef)
        ensures
            final(self).prefixes() == old(self).prefixes(),
            final(self).default_spec() == Some(iri@),
    {
        self.default = Some(iri);
    }

    /// Adds the well-known core RDF vocabulary prefix.
    pub fn include_rdf(&mut self)
        ensures
            parse_spec(RDF_NAMESPACE@) is Ok,
            final(self).prefixes() == old(self).prefixes().insert(
                RDF_PREFIX@,
                parse_spec(RDF_NAMESPACE@)->Ok_0,
            ),
            final(self).default_spec() == old(self).default_spec(),
    {
        proof {
            lemma_rdf_namespace_parses();
        }
        if let Ok(iri) = Iri::parse(RDF_NAMESPACE) {
            self.insert(RDF_PREFIX, Arc::new(iri));
        }
    }
}

/// Anything that exposes an ordered, finite, restartable sequence of statements.
pub trait StatementSource {
    spec fn statement_seq(&self) -> Seq<Statement>;

    fn statements(&self) -> (r: &Vec<Statement>)
        ensures
            r@ == self.statement_seq(),
    ;
}

/// An immutable graph: statements in insertion order and a prefix mapping.
#[derive(Debug)]
pub struct Graph {
    statements: Vec<Statement>,
    mappings: PrefixMapping,
}

impl Graph {
    /// A graph of exactly the given statements, in the given order (nothing is
    /// deduplicated, reordered or relabelled), with the given mapping or an
    /// empty one.
    pub fn new(statements: Vec<Statement>, mappings: Option<PrefixMapping>) -> (r: Graph)
        ensures
            r.statement_seq() == statements@,
            match mappings {
                Some(m) => r.mappings().prefixes() == m.prefixes() && r.mappings().default_spec()
                    == m.default_spec(),
                None => r.mappings().prefixes() == Map::<Seq<char>, IriView>::empty()
                    && r.mappings().default_spec() is None,
            },
    {
        let mappings = match mappings {
            Some(m) => m,
            None => PrefixMapping::empty(),
        };
        Graph { statements, mappings }
    }

    pub closed spec fn mappings(&self) -> PrefixMapping {
        self.mappings
    }

    /// The prefix mapping.
    pub fn prefix_mapping(&self) -> (r: &PrefixMapping)
        ensures
            *r == self.mappings(),
    {
        &self.mappings
    }

    /// The number of statements.
    pub fn len(&self) -> (r: usize)
        ensures
            r == self.statement_seq().len(),
    {
        self.statements.len()
    }
}

impl StatementSource for Graph {
    closed spec fn statement_seq(&self) -> Seq<Statement> {
        self.statements@
    }

    fn statements(&self) -> (r: &Vec<Statement>) {
        &self.statements
    }
}

/// Assembles a graph, then freezes it with [`GraphBuilder::finish`].
#[derive(Debug)]
pub struct GraphBuilder {
    statements: Vec<Statement>,
    mappings: PrefixMapping,
}

impl GraphBuilder {
    pub closed spec fn pending(&self) -> Seq<Statement> {
        self.statements@
    }

    pub closed spec fn mappings(&self) -> PrefixMapping {
        self.mappings
    }

    pub fn new() -> (r: GraphBuilder)
        ensures
            r.pending() == Seq::<Statement>::empty(),
            r.mappings().prefixes() == Map::<Seq<char>, IriView>::empty(),
            r.mappings().default_spec() is None,
    {
        GraphBuilder { statements: Vec::new(), mappings: PrefixMapping::empty() }
    }

    /// Appends a statement.
    pub fn push(&mut self, st: Statement)
        ensures
            final(self).pending() == old(self).pending().push(st),
            final(self).mappings() == old(self).mappings(),
    {
        self.statements.push(st);
    }

    /// The mapping under construction.
    pub fn mappings_mut(&mut self) -> (r: &mut PrefixMapping)
        ensures
            *r == old(self).mappings(),
            final(self).pending() == old(self).pending(),
            final(self).mappings() == *final(r),
    {
        &mut self.mappings
    }

    /// The finished graph, with the statements in the order they were pushed.
    pub fn finish(self) -> (r: Graph)
        ensures
            r.statement_seq() == self.pending(),
            r.mappings() == self.mappings(),
    {
        Graph { statements: self.statements, mappings: self.mappings }
    }
}

} // verus!
