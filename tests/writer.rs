use rdftk::graph::{Graph, GraphBuilder, PrefixMapping, StatementSource};
use rdftk::iri::Iri;
use rdftk::nt::{NTripleWriter, FILE_EXTENSION, MIME_TYPE, NAME};
use rdftk::statement::{Statement, StatementError};
use rdftk::term::{BlankNode, IriRef, Literal, Term, TermError};
use std::sync::Arc;

fn iri(s: &str) -> IriRef {
    Arc::new(Iri::parse(s).unwrap())
}

fn named(s: &str) -> Term {
    Term::Named(iri(s))
}

fn blank(l: &str) -> Term {
    Term::Blank(BlankNode::new(l).unwrap())
}

fn plain(s: &str) -> Term {
    Term::Literal(Literal::plain(s))
}

fn st(s: Term, p: &str, o: Term) -> Statement {
    Statement::new(s, iri(p), o).unwrap()
}

const BENN: &str = "http://en.wikipedia.org/wiki/Tony_Benn";

fn tony_benn_graph() -> Graph {
    let mut builder = GraphBuilder::new();
    {
        let mappings = builder.mappings_mut();
        mappings.include_rdf();
        mappings.insert("dc", iri("http://purl.org/dc/elements/1.1/"));
        mappings.insert("foaf", iri("http://xmlns.com/foaf/0.1/"));
    }
    builder.push(st(named(BENN), "http://purl.org/dc/elements/1.1/title", plain("Tony Benn")));
    builder.push(st(named(BENN), "http://purl.org/dc/elements/1.1/publisher", plain("Wikipedia")));
    builder.push(st(named(BENN), "http://purl.org/dc/elements/1.1/description", blank("B1")));
    builder.push(st(blank("B1"), "http://xmlns.com/foaf/0.1/name", plain("Tony Benn")));
    builder.push(st(
        blank("B1"),
        "http://www.w3.org/1999/02/22-rdf-syntax-ns#type",
        named("http://xmlns.com/foaf/0.1/Person"),
    ));
    builder.finish()
}

#[test]
fn writes_tony_benn_graph() {
    let graph = tony_benn_graph();
    let text = NTripleWriter::default().write(&graph);
    let expected = "<http://en.wikipedia.org/wiki/Tony_Benn> <http://purl.org/dc/elements/1.1/title> \"Tony Benn\" .\n\
<http://en.wikipedia.org/wiki/Tony_Benn> <http://purl.org/dc/elements/1.1/publisher> \"Wikipedia\" .\n\
<http://en.wikipedia.org/wiki/Tony_Benn> <http://purl.org/dc/elements/1.1/description> _:B1 .\n\
_:B1 <http://xmlns.com/foaf/0.1/name> \"Tony Benn\" .\n\
_:B1 <http://www.w3.org/1999/02/22-rdf-syntax-ns#type> <http://xmlns.com/foaf/0.1/Person> .\n";
    assert_eq!(text, expected);
}

#[test]
fn one_line_per_statement_in_order() {
    let graph = tony_benn_graph();
    let text = NTripleWriter::default().write(&graph);
    let lines: Vec<&str> = text.split_terminator('\n').collect();
    assert_eq!(lines.len(), graph.len());
    assert_eq!(text.matches('\n').count(), 5);
    assert!(text.ends_with(" .\n"));
    for line in &lines {
        assert!(line.ends_with(" ."));
    }
    assert!(lines[0].contains("/title"));
    assert!(lines[4].contains("#type"));
    // Writing twice gives the same text: the statement sequence is restartable.
    assert_eq!(NTripleWriter::default().write(&graph), text);
    assert_eq!(graph.statements().len(), 5);
}

#[test]
fn empty_graph_writes_nothing() {
    let graph = Graph::new(Vec::new(), None);
    assert_eq!(NTripleWriter::default().write(&graph), "");
}

#[test]
fn literal_escaping_and_qualifiers() {
    let s = named("http://e.org/s");
    let lit = Literal::new("a\\b\"c\nd\re\tf", None, None).unwrap();
    let lang = Literal::new("chat", Some("fr-CA"), None).unwrap();
    let typed = Literal::new("1", None, Some(iri("http://www.w3.org/2001/XMLSchema#integer"))).unwrap();
    let graph = Graph::new(
        vec![
            st(s, "http://e.org/p", Term::Literal(lit)),
            st(named("http://e.org/s"), "http://e.org/p", Term::Literal(lang)),
            st(named("http://e.org/s"), "http://e.org/p", Term::Literal(typed)),
        ],
        None,
    );
    let text = NTripleWriter::default().write(&graph);
    assert_eq!(
        text,
        "<http://e.org/s> <http://e.org/p> \"a\\\\b\\\"c\\nd\\re\\tf\" .\n\
<http://e.org/s> <http://e.org/p> \"chat\"@fr-CA .\n\
<http://e.org/s> <http://e.org/p> \"1\"^^<http://www.w3.org/2001/XMLSchema#integer> .\n"
    );
    assert_eq!(text.lines().count(), 3);
}

#[test]
fn literal_subject_is_refused() {
    let r = Statement::new(plain("x"), iri("http://e.org/p"), named("http://e.org/o"));
    assert_eq!(r.err(), Some(StatementError::LiteralSubject));
}

#[test]
fn statement_accessors() {
    let s = st(blank("b"), "http://e.org/p", named("http://e.org/o"));
    assert!(matches!(s.subject(), Term::Blank(b) if b.label() == "b"));
    assert_eq!(s.predicate().to_text(), "http://e.org/p");
    assert!(matches!(s.object(), Term::Named(i) if i.to_text() == "http://e.org/o"));
}

#[test]
fn literal_errors() {
    let both = Literal::new("x", Some("en"), Some(iri("http://e.org/t")));
    assert_eq!(both.err(), Some(TermError::LanguageAndDatatype));
    assert_eq!(Literal::new("x", Some("e n"), None).err(), Some(TermError::InvalidLanguageTag));
    assert_eq!(Literal::new("x", Some(""), None).err(), Some(TermError::InvalidLanguageTag));
    for bad in ["-", "1-", "en-", "en--us", "1en", "-en", "en_US"] {
        assert_eq!(Literal::new("x", Some(bad), None).err(), Some(TermError::InvalidLanguageTag), "{}", bad);
    }
    for good in ["x", "en-US", "de-CH-1901", "zh-Hant-TW", "sgn-BE-FR"] {
        assert!(Literal::new("x", Some(good), None).is_ok(), "{}", good);
    }
    let ok = Literal::new("x", Some("en"), None).unwrap();
    assert_eq!(ok.lexical(), "x");
    assert_eq!(ok.language(), &Some("en".to_string()));
    assert!(ok.datatype().is_none());
}

#[test]
fn blank_labels() {
    assert!(BlankNode::new("B1").is_ok());
    assert!(BlankNode::new("_x.y-z").is_ok());
    assert_eq!(BlankNode::new("").err(), Some(TermError::InvalidBlankLabel));
    assert_eq!(BlankNode::new("1a").err(), Some(TermError::InvalidBlankLabel));
    assert_eq!(BlankNode::new("a b").err(), Some(TermError::InvalidBlankLabel));
    assert_eq!(BlankNode::new("a\nb").err(), Some(TermError::InvalidBlankLabel));
    assert_eq!(BlankNode::new("B1").unwrap().clone().label(), "B1");
}

#[test]
fn blank_labels_are_scoped_per_graph() {
    let g1 = Graph::new(vec![st(blank("B1"), "http://e.org/p", plain("one"))], None);
    let g2 = Graph::new(
        vec![
            st(blank("B1"), "http://e.org/q", plain("two")),
            st(blank("B1"), "http://e.org/q", plain("two")),
        ],
        None,
    );
    let w = NTripleWriter::default();
    assert_eq!(w.write(&g1), "_:B1 <http://e.org/p> \"one\" .\n");
    assert_eq!(
        w.write(&g2),
        "_:B1 <http://e.org/q> \"two\" .\n_:B1 <http://e.org/q> \"two\" .\n"
    );
    assert_eq!(g1.len(), 1);
    assert_eq!(g2.len(), 2);
}

#[test]
fn prefix_mapping_and_default() {
    let mut m = PrefixMapping::empty();
    m.include_rdf();
    m.insert("ex", iri("http://e.org/"));
    m.set_default(iri("https://placeholder.kg/id/"));
    let g = Graph::new(Vec::new(), Some(m));
    assert!(g.prefix_mapping().get("rdf").is_some());
    assert_eq!(g.prefix_mapping().get("rdf").unwrap().scheme(), Some("http".to_string()));
    assert_eq!(
        g.prefix_mapping().get("rdf").unwrap().to_text(),
        "http://www.w3.org/1999/02/22-rdf-syntax-ns#"
    );
    assert_eq!(g.prefix_mapping().get("ex").unwrap().to_text(), "http://e.org/");
    assert!(g.prefix_mapping().get("dc").is_none());
    assert_eq!(
        g.prefix_mapping().default_iri().as_ref().unwrap().to_text(),
        "https://placeholder.kg/id/"
    );
}

#[test]
fn prefix_insert_replaces() {
    let mut m = PrefixMapping::empty();
    m.insert("ex", iri("http://e.org/"));
    m.insert("ex", iri("http://other.org/"));
    assert_eq!(m.get("ex").unwrap().to_text(), "http://other.org/");
}

#[test]
fn writer_format_names() {
    assert_eq!(NAME, "N-Triples");
    assert_eq!(FILE_EXTENSION, "nt");
    assert_eq!(MIME_TYPE, "application/n-triples");
}
