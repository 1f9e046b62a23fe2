//! Terms: named nodes, blank nodes and literals.
use crate::iri::{idx_of, is_alpha, is_digit, lemma_idx_of, Iri, IriView};
use std::sync::Arc;
use vstd::prelude::*;
use vstd::string::*;

verus! {

/// A shared handle to a validated IRI.
pub type IriRef = Arc<Iri>;

/// Why a term could not be built.
#[derive(Clone, Copy, PartialEq, Eq, Debug)]
pub enum TermError {
    InvalidBlankLabel,
    InvalidLanguageTag,
    LanguageAndDatatype,
}

pub open spec fn is_label_char(c: char) -> bool {
    is_alpha(c) || is_digit(c) || c == '.' || c == '-' || c == '_'
}

/// A blank-node label: a letter or `_`, then letters, digits, `.`, `-` and `_`.
pub open spec fn valid_label(t: Seq<char>) -> bool {
    t.len() > 0 && (is_alpha(t[0]) || t[0] == '_') && forall|i: int|
        0 <= i < t.len() ==> is_label_char(#[trigger] t[i])
}

/// A language tag: a run of letters, then any number of `-` and a run of
/// letters and digits.
pub open spec fn valid_language(t: Seq<char>) -> bool {
    let d = idx_of(t, 0, t.len() as int, '-');
    &&& t.len() > 0
    &&& is_alpha(t[0])
    &&& t.last() != '-'
    &&& forall|i: int| 0 <= i < t.len() ==> (is_alpha(#[trigger] t[i]) || is_digit(t[i]) || t[i] == '-')
    &&& forall|i: int| 0 <= i < d ==> is_alpha(#[trigger] t[i])
    &&& forall|i: int| 0 <= i < t.len() - 1 && #[trigger] t[i] == '-' ==> t[i + 1] != '-'
}

fn check_label(s: &str) -> (r: bool)
    ensures
        r == valid_label(s@),
{
    let n = s.unicode_len();
    if n == 0 {
        return false;
    }
    let first = s.get_char(0);
    if !(('a' <= first && first <= 'z') || ('A' <= first && first <= 'Z') || first == '_') {
        return false;
    }
    let mut i: usize = 0;
    while i < n
        invariant
            i <= n == s@.len(),
            forall|j: int| 0 <= j < i ==> is_label_char(#[trigger] s@[j]),
        decreases n - i,
    {
        let c = s.get_char(i);
        if !(('a' <= c && c <= 'z') || ('A' <= c && c <= 'Z') || ('0' <= c && c <= '9') || c
            == '.' || c == '-' || c == '_') {
            assert(!is_label_char(s@[i as int]));
            return false;
        }
        i = i + 1;
    }
    true
}

fn check_language(s: &str) -> (r: bool)
    ensures
        r == valid_language(s@),
{
    let n = s.unicode_len();
    if n == 0 || s.get_char(n - 1) == '-' {
        return false;
    }
    let first = s.get_char(0);
    if !(('a' <= first && first <= 'z') || ('A' <= first && first <= 'Z')) {
        return false;
    }
    let ghost d = idx_of(s@, 0, n as int, '-');
    proof {
        lemma_idx_of(s@, 0, n as int, '-');
    }
    let mut seen_dash = false;
    let mut i: usize = 0;
    while i < n
        invariant
            i <= n == s@.len(),
            d == idx_of(s@, 0, n as int, '-'),
            0 <= d <= n,
            d < n ==> s@[d] == '-',
            forall|j: int| 0 <= j < d ==> s@[j] != '-',
            seen_dash == (d < i),
            forall|j: int|
                0 <= j < i ==> (is_alpha(#[trigger] s@[j]) || is_digit(s@[j]) || s@[j] == '-'),
            forall|j: int| 0 <= j < d && j < i ==> is_alpha(#[trigger] s@[j]),
            forall|j: int| 0 <= j < i - 1 && #[trigger] s@[j] == '-' ==> s@[j + 1] != '-',
        decreases n - i,
    {
        let c = s.get_char(i);
        let letter = ('a' <= c && c <= 'z') || ('A' <= c && c <= 'Z');
        let digit = '0' <= c && c <= '9';
        if !(letter || digit || c == '-') {
            assert(!(is_alpha(s@[i as int]) || is_digit(s@[i as int]) || s@[i as int] == '-'));
            return false;
        }
        if !seen_dash && !letter {
            if c == '-' {
                seen_dash = true;
            } else {
                assert(!is_alpha(s@[i as int]) && (i as int) < d);
                return false;
            }
        }
        if c == '-' && i > 0 && s.get_char(i - 1) == '-' {
            assert(s@[i - 1] == '-' && s@[i - 1 + 1] == '-');
            return false;
        }
        i = i + 1;
    }
    true
}

/// A blank node; its label is scoped to the graph it is used in.
#[derive(Debug)]
pub struct BlankNode {
    label: String,
}

impl BlankNode {
    #[verifier::type_invariant]
    spec fn inv(self) -> bool {
        valid_label(self.label@)
    }

    /// A blank node with the given label, if the label is well formed.
    pub fn new(label: &str) -> (r: Result<BlankNode, TermError>)
        ensures
            r is Ok <==> valid_label(label@),
            match r {
                Ok(b) => b@ == label@,
                Err(e) => e == TermError::InvalidBlankLabel,
            },
    {
        if check_label(label) {
            Ok(BlankNode { label: String::from_str(label) })
        } else {
            Err(TermError::InvalidBlankLabel)
        }
    }

    /// The label.
    pub fn label(&self) -> (r: &String)
        ensures
            r@ == self@,
            valid_label(r@),
    {
        proof {
            use_type_invariant(self);
        }
        &self.label
    }
}

impl View for BlankNode {
    type V = Seq<char>;

    closed spec fn view(&self) -> Seq<char> {
        self.label@
    }
}

impl Clone for BlankNode {
    fn clone(&self) -> (r: Self)
        ensures
            r@ == self@,
    {
        proof {
            use_type_invariant(self);
        }
        BlankNode { label: self.label.clone() }
    }
}

pub struct LiteralView {
    pub lexical: Seq<char>,
    pub language: Option<Seq<char>>,
    pub datatype: Option<IriView>,
}

pub open spec fn opt_str_view(o: Option<&str>) -> Option<Seq<char>> {
    match o {
        Some(t) => Some(t@),
        None => None,
    }
}

pub open spec fn opt_iri_view(o: Option<IriRef>) -> Option<IriView> {
    match o {
        Some(i) => Some(i@),
        None => None,
    }
}

/// A literal: a lexical form with at most one of a language tag and a
/// datatype; with neither it is a plain string.
#[derive(Debug)]
pub struct Literal {
    lexical: String,
    language: Option<String>,
    datatype: Option<IriRef>,
}

impl Literal {
    #[verifier::type_invariant]
    spec fn inv(self) -> bool {
        &&& !(self.language is Some && self.datatype is Some)
        &&& self.language is Some ==> valid_language(self.language->0@)
    }

    /// A literal with the given lexical form, optional language tag and optional
    /// datatype; fails when both qualifiers are given or the tag is malformed.
    pub fn new(lexical: &str, language: Option<&str>, datatype: Option<IriRef>) -> (r: Result<
        Literal,
        TermError,
    >)
        ensures
            match r {
                Ok(l) => l@ == LiteralView {
                    lexical: lexical@,
                    language: opt_str_view(language),
                    datatype: opt_iri_view(datatype),
                },
                Err(e) => e == if language is Some && datatype is Some {
                    TermError::LanguageAndDatatype
                } else {
                    TermError::InvalidLanguageTag
                },
            },
            r is Ok <==> (!(language is Some && datatype is Some) && (language is Some
                ==> valid_language(language->0@))),
    {
        match language {
            Some(tag) => {
                if datatype.is_some() {
                    return Err(TermError::LanguageAndDatatype);
                }
                if !check_language(tag) {
                    return Err(TermError::InvalidLanguageTag);
                }
                Ok(Literal { lexical: String::from_str(lexical), language: Some(String::from_str(tag)), datatype: None })
            },
            None => Ok(Literal { lexical: String::from_str(lexical), language: None, datatype }),
        }
    }

    /// A plain string literal.
    pub fn plain(lexical: &str) -> (r: Literal)
        ensures
            r@ == (LiteralView { lexical: lexical@, language: None, datatype: None }),
    {
        Literal { lexical: String::from_str(lexical), language: None, datatype: None }
    }

    pub fn lexical(&self) -> (r: &String)
        ensures
            r@ == self@.lexical,
    {
        &self.lexical
    }

    pub fn language(&self) -> (r: &Option<String>)
        ensures
            crate::iri::opt_view(*r) == self@.language,
            r is Some ==> valid_language(r->0@),
            r is Some ==> self@.datatype is None,
    {
        proof {
            use_type_invariant(self);
        }
        &self.language
    }

    pub fn datatype(&self) -> (r: &Option<IriRef>)
        ensures
            opt_iri_view(*r) == self@.datatype,
            r is Some ==> self@.language is None,
    {
        proof {
            use_type_invariant(self);
        }
        &self.datatype
    }
}

impl View for Literal {
    type V = LiteralView;

    closed spec fn view(&self) -> LiteralView {
        LiteralView {
            lexical: self.lexical@,
            language: crate::iri::opt_view(self.language),
            datatype: opt_iri_view(self.datatype),
        }
    }
}

pub enum TermView {
    Named(IriView),
    Blank(Seq<char>),
    Literal(LiteralView),
}

/// A graph term.
#[derive(Debug)]
pub enum Term {
    Named(IriRef),
    Blank(BlankNode),
    Literal(Literal),
}

impl View for Term {
    type V = TermView;

    open spec fn view(&self) -> TermView {
        match self {
            Term::Named(i) => TermView::Named(i@),
            Term::Blank(b) => TermView::Blank(b@),
            Term::Literal(l) => TermView::Literal(l@),
        }
    }
}

impl Term {
    pub fn is_literal(&self) -> (r: bool)
        ensures
            r == self is Literal,
    {
        match self {
            Term::Literal(_) => true,
            _ => false,
        }
    }
}

} // verus!
