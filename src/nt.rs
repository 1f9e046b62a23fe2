//! Writing a graph in N-Triples, a line-based format: one statement per line.
use crate::graph::StatementSource;
use crate::iri::{iri_chars, render};
use crate::statement::{Statement, StatementView};
use crate::term::{Term, TermView};
use vstd::prelude::*;
use vstd::string::*;

verus! {

pub const NAME: &'static str = "N-Triples";

pub const FILE_EXTENSION: &'static str = "nt";

pub const MIME_TYPE: &'static str = "application/n-triples";

/// The escaped form of one character of a literal's lexical form.
pub open spec fn escape_char(c: char) -> Seq<char> {
    if c == '\\' {
        seq!['\\', '\\']
    } else if c == '"' {
        seq!['\\', '"']
    } else if c == '\n' {
        seq!['\\', 'n']
    } else if c == '\r' {
        seq!['\\', 'r']
    } else if c == '\t' {
        seq!['\\', 't']
    } else {
        seq![c]
    }
}

/// The escaped form of a lexical form, character by character.
pub open spec fn escape(s: Seq<char>) -> Seq<char>
    decreases s.len(),
{
    if s.len() == 0 {
        Seq::empty()
    } else {
        escape(s.drop_last()) + escape_char(s.last())
    }
}

pub open spec fn render_term(t: TermView) -> Seq<char> {
    match t {
        TermView::Named(v) => seq!['<'] + render(v) + seq!['>'],
        TermView::Blank(l) => seq!['_', ':'] + l,
        TermView::Literal(lv) => seq!['"'] + escape(lv.lexical) + seq!['"'] + (match lv.language {
            Some(tag) => seq!['@'] + tag,
            None => Seq::empty(),
        }) + (match lv.datatype {
            Some(d) => seq!['^', '^', '<'] + render(d) + seq!['>'],
            None => Seq::empty(),
        }),
    }
}

/// The line of one statement: `subject <predicate> object .` and a line break.
pub open spec fn render_statement(st: StatementView) -> Seq<char> {
    render_term(st.subject) + seq![' ', '<'] + render(st.predicate) + seq!['>', ' '] + render_term(
        st.object,
    ) + seq![' ', '.', '\n']
}

/// The lines of the statements, in order.
pub open spec fn render_lines(s: Seq<Statement>) -> Seq<char>
    decreases s.len(),
{
    if s.len() == 0 {
        Seq::empty()
    } else {
        render_lines(s.drop_last()) + render_statement(s.last()@)
    }
}

pub open spec fn no_newline(t: Seq<char>) -> bool {
    forall|i: int| 0 <= i < t.len() ==> #[trigger] t[i] != '\n'
}

/// A single line: a line break at its end and nowhere else.
pub open spec fn is_line(l: Seq<char>) -> bool {
    l.len() > 0 && l.last() == '\n' && no_newline(l.drop_last())
}

/// The number of line breaks in `t`.
pub open spec fn newlines(t: Seq<char>) -> nat
    decreases t.len(),
{
    if t.len() == 0 {
        0
    } else {
        newlines(t.drop_last()) + if t.last() == '\n' {
            1nat
        } else {
            0nat
        }
    }
}

proof fn lemma_newlines_concat(a: Seq<char>, b: Seq<char>)
    ensures
        newlines(a + b) == newlines(a) + newlines(b),
    decreases b.len(),
{
    if b.len() == 0 {
        assert(a + b =~= a);
    } else {
        lemma_newlines_concat(a, b.drop_last());
        assert((a + b).drop_last() =~= a + b.drop_last());
    }
}

proof fn lemma_no_newline_count(t: Seq<char>)
    requires
        no_newline(t),
    ensures
        newlines(t) == 0,
    decreases t.len(),
{
    if t.len() > 0 {
        lemma_no_newline_count(t.drop_last());
    }
}

/// A line holds exactly one line break.
pub proof fn lemma_line_count(l: Seq<char>)
    requires
        is_line(l),
    ensures
        newlines(l) == 1,
{
    lemma_no_newline_count(l.drop_last());
}

/// The text of two runs of statements is the text of the first, then that of the second.
pub proof fn lemma_render_lines_concat(a: Seq<Statement>, b: Seq<Statement>)
    ensures
        render_lines(a + b) == render_lines(a) + render_lines(b),
    decreases b.len(),
{
    if b.len() == 0 {
        assert(a + b =~= a);
        assert(render_lines(a) + render_lines(b) =~= render_lines(a));
    } else {
        lemma_render_lines_concat(a, b.drop_last());
        assert((a + b).drop_last() =~= a + b.drop_last());
    }
}

/// Order is kept: the line of the `i`-th statement comes after the lines of the
/// statements before it and before the lines of those after it.
pub proof fn lemma_line_position(s: Seq<Statement>, i: int)
    requires
        0 <= i < s.len(),
    ensures
        render_lines(s) == render_lines(s.subrange(0, i)) + render_statement(s[i]@) + render_lines(
            s.subrange(i + 1, s.len() as int),
        ),
{
    let a = s.subrange(0, i);
    let b = s.subrange(i, s.len() as int);
    let c = s.subrange(i + 1, s.len() as int);
    assert(s =~= a + b);
    lemma_render_lines_concat(a, b);
    assert(b =~= seq![s[i]] + c);
    lemma_render_lines_concat(seq![s[i]], c);
    let x = seq![s[i]];
    assert(x.drop_last() =~= Seq::<Statement>::empty());
    assert(x.last() == s[i]);
    assert(render_lines(x.drop_last()) == Seq::<char>::empty());
    assert(render_lines(x) =~= render_statement(s[i]@));
}

fn append_piece(out: &mut String, s: &str)
    ensures
        final(out)@ == old(out)@ + s@,
{
    out.append(s);
}

fn append_escaped(out: &mut String, s: &String)
    ensures
        final(out)@ == old(out)@ + escape(s@),
        no_newline(escape(s@)),
{
    let t = s.as_str();
    let n = t.unicode_len();
    let ghost start = out@;
    let mut i: usize = 0;
    proof {
        assert(s@.subrange(0, 0) =~= Seq::<char>::empty());
    }
    while i < n
        invariant
            i <= n == s@.len(),
            t@ == s@,
            out@ == start + escape(s@.subrange(0, i as int)),
            no_newline(escape(s@.subrange(0, i as int))),
        decreases n - i,
    {
        let c = t.get_char(i);
        proof {
            reveal_strlit("\\\\");
            reveal_strlit("\\\"");
            reveal_strlit("\\n");
            reveal_strlit("\\r");
            reveal_strlit("\\t");
            assert("\\\\"@ =~= seq!['\\', '\\']);
            assert("\\\""@ =~= seq!['\\', '"']);
            assert("\\n"@ =~= seq!['\\', 'n']);
            assert("\\r"@ =~= seq!['\\', 'r']);
            assert("\\t"@ =~= seq!['\\', 't']);
            assert(s@.subrange(i as int, i + 1) =~= seq![c]);
        }
        if c == '\\' {
            append_piece(out, "\\\\");
        } else if c == '"' {
            append_piece(out, "\\\"");
        } else if c == '\n' {
            append_piece(out, "\\n");
        } else if c == '\r' {
            append_piece(out, "\\r");
        } else if c == '\t' {
            append_piece(out, "\\t");
        } else {
            append_piece(out, t.substring_char(i, i + 1));
        }
        proof {
            let sub = s@.subrange(0, i + 1);
            assert(sub.drop_last() =~= s@.subrange(0, i as int));
            assert(sub.last() == c);
            assert(out@ =~= start + escape(sub));
            assert(no_newline(escape(sub)));
        }
        i = i + 1;
    }
    assert(s@.subrange(0, n as int) =~= s@);
}

fn append_iri_text(out: &mut String, t: &String)
    requires
        iri_chars(t@),
    ensures
        final(out)@ == old(out)@ + t@,
        no_newline(t@),
{
    assert forall|i: int| 0 <= i < t@.len() implies #[trigger] t@[i] != '\n' by {
        assert(crate::iri::is_iri_char(t@[i]));
    }
    out.append(t.as_str());
}

fn append_term(out: &mut String, t: &Term)
    ensures
        final(out)@ == old(out)@ + render_term(t@),
        no_newline(render_term(t@)),
{
    proof {
        reveal_strlit("<");
        reveal_strlit(">");
        reveal_strlit("_:");
        reveal_strlit("\"");
        reveal_strlit("@");
        reveal_strlit("^^<");
    }
    let ghost start = out@;
    match t {
        Term::Named(iri) => {
            append_piece(out, "<");
            let text = iri.to_text();
            append_iri_text(out, &text);
            append_piece(out, ">");
            assert(out@ =~= start + render_term(t@));
            assert(render_term(t@) =~= seq!['<'] + text@ + seq!['>']);
        },
        Term::Blank(b) => {
            append_piece(out, "_:");
            let label = b.label();
            out.append(label.as_str());
            assert(out@ =~= start + render_term(t@));
            assert(forall|i: int| 0 <= i < label@.len() ==> crate::term::is_label_char(#[trigger] label@[i]));
            assert(render_term(t@) =~= seq!['_', ':'] + label@);
        },
        Term::Literal(l) => {
            append_piece(out, "\"");
            append_escaped(out, l.lexical());
            append_piece(out, "\"");
            let ghost mid = out@;
            let ghost tail_lang: Seq<char> = Seq::empty();
            let ghost tail_dt: Seq<char> = Seq::empty();
            if let Some(tag) = l.language() {
                append_piece(out, "@");
                out.append(tag.as_str());
                proof {
                    tail_lang = seq!['@'] + tag@;
                    assert(forall|i: int| 0 <= i < tag@.len() ==> (crate::iri::is_alpha(#[trigger] tag@[i]) || crate::iri::is_digit(tag@[i]) || tag@[i] == '-'));
                }
            }
            let ghost mid2 = out@;
            assert(mid2 =~= mid + tail_lang);
            if let Some(dt) = l.datatype() {
                append_piece(out, "^^<");
                let text = dt.to_text();
                append_iri_text(out, &text);
                append_piece(out, ">");
                proof {
                    tail_dt = seq!['^', '^', '<'] + text@ + seq!['>'];
                }
            }
            assert(out@ =~= mid2 + tail_dt);
            assert(render_term(t@) =~= seq!['"'] + escape(l@.lexical) + seq!['"'] + tail_lang + tail_dt);
            assert(out@ =~= start + render_term(t@));
        },
    }
}

fn append_statement(out: &mut String, st: &Statement)
    ensures
        final(out)@ == old(out)@ + render_statement(st@),
        is_line(render_statement(st@)),
{
    proof {
        reveal_strlit(" <");
        reveal_strlit("> ");
        reveal_strlit(" .\n");
    }
    let ghost start = out@;
    append_term(out, st.subject());
    append_piece(out, " <");
    let text = st.predicate().to_text();
    append_iri_text(out, &text);
    append_piece(out, "> ");
    append_term(out, st.object());
    append_piece(out, " .\n");
    let ghost line = render_statement(st@);
    assert(out@ =~= start + line);
    assert(line.drop_last() =~= render_term(st@.subject) + seq![' ', '<'] + render(st@.predicate)
        + seq!['>', ' '] + render_term(st@.object) + seq![' ', '.']);
}

/// Writes graphs in the N-Triples format.
#[derive(Debug)]
pub struct NTripleWriter {}

impl Default for NTripleWriter {
    fn default() -> (r: Self)
        ensures
            r == (NTripleWriter {}),
    {
        NTripleWriter {}
    }
}

impl NTripleWriter {
    /// The N-Triples text of the graph: one line per statement, in the graph's
    /// order, each a single line ending in a line break.
    pub fn write<G: StatementSource>(&self, graph: &G) -> (r: String)
        ensures
            r@ == render_lines(graph.statement_seq()),
            forall|i: int|
                0 <= i < graph.statement_seq().len() ==> is_line(
                    #[trigger] render_statement(graph.statement_seq()[i]@),
                ),
            newlines(r@) == graph.statement_seq().len(),
    {
        let statements = graph.statements();
        let mut out = String::new();
        let mut i: usize = 0;
        while i < statements.len()
            invariant
                i <= statements@.len(),
                statements@ == graph.statement_seq(),
                out@ == render_lines(statements@.subrange(0, i as int)),
                newlines(out@) == i,
                forall|j: int| 0 <= j < i ==> is_line(#[trigger] render_statement(statements@[j]@)),
            decreases statements@.len() - i,
        {
            let ghost before = out@;
            append_statement(&mut out, &statements[i]);
            proof {
                let sub = statements@.subrange(0, i + 1);
                assert(sub.drop_last() =~= statements@.subrange(0, i as int));
                lemma_newlines_concat(before, render_statement(statements@[i as int]@));
                lemma_line_count(render_statement(statements@[i as int]@));
            }
            i = i + 1;
        }
        assert(statements@.subrange(0, i as int) =~= statements@);
        out
    }
}

} // verus!
